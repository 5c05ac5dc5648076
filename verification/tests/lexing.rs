use stacklang::tokenizer::{Lexeme, Tokenizable, Tokenizer};

fn all_lexemes(text: &str) -> Vec<Lexeme> {
    let mut tokenizer = text.tokens();
    let mut out = Vec::new();
    while let Some(lexeme) = tokenizer.next() {
        out.push(lexeme);
    }
    out
}

fn ident_text(lexeme: &Lexeme) -> &str {
    match lexeme {
        Lexeme::Ident(s) => s.as_str(),
        Lexeme::Numeric(_) => panic!("expected an identifier lexeme"),
    }
}

fn numeric_text(lexeme: &Lexeme) -> &str {
    match lexeme {
        Lexeme::Numeric(s) => s.as_str(),
        Lexeme::Ident(_) => panic!("expected a numeric lexeme"),
    }
}

#[test]
fn splits_operator_and_numbers() {
    let lexemes = all_lexemes("+ 1 12");
    assert!(lexemes.len() == 3);
    assert!(ident_text(&lexemes[0]) == "+");
    assert!(numeric_text(&lexemes[1]) == "1");
    assert!(numeric_text(&lexemes[2]) == "12");
}

#[test]
fn words_are_single_idents() {
    let lexemes = all_lexemes("foo bar");
    assert!(lexemes.len() == 2);
    assert!(ident_text(&lexemes[0]) == "foo");
    assert!(ident_text(&lexemes[1]) == "bar");
}

#[test]
fn dot_stays_inside_a_numeric_lexeme() {
    let lexemes = all_lexemes("1.5");
    assert!(lexemes.len() == 1);
    assert!(numeric_text(&lexemes[0]) == "1.5");
}

#[test]
fn parentheses_are_single_char_idents() {
    let lexemes = all_lexemes("(1)");
    assert!(lexemes.len() == 3);
    assert!(ident_text(&lexemes[0]) == "(");
    assert!(numeric_text(&lexemes[1]) == "1");
    assert!(ident_text(&lexemes[2]) == ")");
}

#[test]
fn whitespace_is_skipped() {
    let lexemes = all_lexemes(" \t\n +  ");
    assert!(lexemes.len() == 1);
    assert!(ident_text(&lexemes[0]) == "+");
}

#[test]
fn empty_text_has_no_lexemes() {
    let lexemes = all_lexemes("");
    assert!(lexemes.is_empty());
}

#[test]
fn word_stops_at_a_digit() {
    let lexemes = all_lexemes("ab1");
    assert!(lexemes.len() == 2);
    assert!(ident_text(&lexemes[0]) == "ab");
    assert!(numeric_text(&lexemes[1]) == "1");
}

#[test]
fn is_numeric_accepts_digits_and_dot() {
    assert!(Tokenizer::is_numeric(&'0'));
    assert!(Tokenizer::is_numeric(&'9'));
    assert!(Tokenizer::is_numeric(&'.'));
    assert!(!Tokenizer::is_numeric(&'a'));
    assert!(!Tokenizer::is_numeric(&'+'));
    assert!(!Tokenizer::is_numeric(&' '));
}

#[test]
fn string_converts_to_ident_lexeme() {
    let lexeme = Lexeme::from(String::from("word"));
    assert!(ident_text(&lexeme) == "word");
}
