use stacklang::function::{DataItem, Op, Reducer, Token};
use stacklang::ops::Builtins;
use stacklang::scanner::{parse_decimal, Directive, Processable, ScanError};
use stacklang::stack::Executable;
use stacklang::tokenizer::{Lexeme, Tokenizable};

fn scan(text: &str) -> Vec<Result<Token, Directive>> {
    let mut tokenizer = text.tokens();
    let mut lexemes: Vec<Lexeme> = Vec::new();
    while let Some(lexeme) = tokenizer.next() {
        lexemes.push(lexeme);
    }
    lexemes.process()
}

#[test]
fn operator_scans_to_its_builtin() {
    let events = scan("+");
    assert!(events.len() == 1);
    match &events[0] {
        Ok(Token::Function(f)) => {
            assert!(f.reducer == Reducer::Builtin(Op::Add));
            assert!(f.meta.name == "+");
        },
        _ => panic!("expected the addition built-in"),
    }
}

#[test]
fn numeral_scans_to_an_integer() {
    let events = scan("42");
    assert!(events.len() == 1);
    assert!(matches!(events[0], Ok(Token::Datum(DataItem::Integer(42)))));
}

#[test]
fn unknown_ident_scans_to_undefined_error() {
    let events = scan("mystery");
    assert!(events.len() == 1);
    match &events[0] {
        Ok(Token::Datum(DataItem::ScanError(ScanError::Undefined(text)))) => {
            assert!(text == "mystery");
        },
        _ => panic!("expected an undefined-identifier error datum"),
    }
}

#[test]
fn dotted_numeral_scans_to_parse_error() {
    let events = scan("1.5");
    assert!(events.len() == 1);
    match &events[0] {
        Ok(Token::Datum(DataItem::ScanError(ScanError::CouldNotParseInteger(text)))) => {
            assert!(text == "1.5");
        },
        _ => panic!("expected a parse error datum"),
    }
}

#[test]
fn numeral_past_i64_max_scans_to_parse_error() {
    let events = scan("9223372036854775808");
    assert!(events.len() == 1);
    assert!(matches!(
        events[0],
        Ok(Token::Datum(DataItem::ScanError(ScanError::CouldNotParseInteger(_))))
    ));
}

#[test]
fn numeral_at_i64_max_scans_to_integer() {
    let events = scan("9223372036854775807");
    assert!(events.len() == 1);
    assert!(matches!(events[0], Ok(Token::Datum(DataItem::Integer(i64::MAX)))));
}

#[test]
fn parentheses_scan_to_directives() {
    let events = scan("( )");
    assert!(events.len() == 2);
    assert!(matches!(events[0], Err(Directive::Begin)));
    assert!(matches!(events[1], Err(Directive::End)));
}

#[test]
fn registry_holds_the_four_operators() {
    let table = Builtins::global();
    assert!(table.entries.len() == 4);
    let names: Vec<&str> = table.entries.iter().map(|f| f.meta.name.as_str()).collect();
    assert!(names == ["+", "-", "/", "*"]);
    for op in ["+", "-", "*", "/"] {
        assert!(Builtins::get(op).is_some());
    }
    assert!(Builtins::get("%").is_none());
    assert!(Builtins::get("++").is_none());
    assert!(Builtins::get("").is_none());
}

#[test]
fn parse_decimal_reads_plain_digits() {
    assert!(parse_decimal("0") == Some(0));
    assert!(parse_decimal("007") == Some(7));
    assert!(parse_decimal("12345") == Some(12345));
    assert!(parse_decimal("") == None);
    assert!(parse_decimal("1a") == None);
    assert!(parse_decimal("-1") == None);
}

fn run(text: &str) -> Vec<Token> {
    scan(text).execute()
}

#[test]
fn full_pipeline_evaluates_the_sample_expression() {
    let result = run("+ 1 1 + 1 1 * 3 + 1 *");
    assert!(result.len() == 1);
    assert!(matches!(result[0], Token::Datum(DataItem::Integer(6))));
}

#[test]
fn full_pipeline_with_parentheses() {
    let result = run("+ ( 1 1 )");
    assert!(result.len() == 1);
    assert!(matches!(result[0], Token::Datum(DataItem::Integer(2))));
}

#[test]
fn full_pipeline_infix_style() {
    let result = run("6 / 2");
    assert!(result.len() == 1);
    assert!(matches!(result[0], Token::Datum(DataItem::Integer(3))));
}

#[test]
fn undefined_word_flows_to_the_result() {
    let result = run("bogus");
    assert!(result.len() == 1);
    assert!(matches!(
        result[0],
        Token::Datum(DataItem::ScanError(ScanError::Undefined(_)))
    ));
}
