use stacklang::function::{DataItem, Function, Op, Reducer, Token};
use stacklang::ops::Builtins;
use stacklang::scanner::{Directive, ScanError};
use stacklang::stack::{Executable, ExecutionStack};

fn integer(n: i64) -> Token {
    Token::Datum(DataItem::Integer(n))
}

fn builtin(name: &str) -> Token {
    Builtins::get(name).expect("a built-in of that name")
}

fn int_value(t: &Token) -> i64 {
    match t {
        Token::Datum(DataItem::Integer(n)) => *n,
        _ => panic!("expected an integer datum"),
    }
}

#[test]
fn add_two_integers() {
    let events: Vec<Result<Token, Directive>> = vec![Ok(builtin("+")), Ok(integer(1)), Ok(integer(1))];
    let result = events.execute();
    assert!(result.len() == 1);
    assert!(int_value(&result[0]) == 2);
}

#[test]
fn nested_left_to_right() {
    let events: Vec<Result<Token, Directive>> = vec![Ok(builtin("+")), Ok(integer(1)), Ok(builtin("+")), Ok(integer(1)), Ok(integer(1))];
    let result = events.execute();
    assert!(result.len() == 1);
    assert!(int_value(&result[0]) == 3);
}

#[test]
fn two_data_nothing_callable() {
    let events: Vec<Result<Token, Directive>> = vec![Ok(integer(1)), Ok(integer(2))];
    let result = events.execute();
    assert!(result.len() == 2);
    assert!(int_value(&result[0]) == 1);
    assert!(int_value(&result[1]) == 2);
}

#[test]
fn scope_around_whole_expression() {
    let events: Vec<Result<Token, Directive>> = vec![
        Err(Directive::Begin),
        Ok(builtin("+")),
        Ok(integer(1)),
        Ok(integer(1)),
        Err(Directive::End),
    ];
    let result = events.execute();
    assert!(result.len() == 1);
    assert!(int_value(&result[0]) == 2);
}

#[test]
fn scope_after_function() {
    let events: Vec<Result<Token, Directive>> = vec![
        Ok(builtin("+")),
        Err(Directive::Begin),
        Ok(integer(1)),
        Ok(integer(1)),
        Err(Directive::End),
    ];
    let result = events.execute();
    assert!(result.len() == 1);
    assert!(int_value(&result[0]) == 2);
}

#[test]
fn apply_is_deterministic() {
    let first = builtin("+").apply(integer(1));
    let second = builtin("+").apply(integer(1));
    let f1 = match first {
        Ok(Token::Function(f)) => f,
        _ => panic!("expected a curried stage"),
    };
    let f2 = match second {
        Ok(Token::Function(f)) => f,
        _ => panic!("expected a curried stage"),
    };
    assert!(f1.reducer == f2.reducer);
    assert!(f1.meta.name == f2.meta.name);
}

#[test]
fn failed_apply_conserves_operands() {
    let result = integer(1).apply(integer(2));
    match result {
        Err((a, b)) => {
            assert!(int_value(&a) == 1);
            assert!(int_value(&b) == 2);
        },
        Ok(_) => panic!("two data must not reduce"),
    }
}

#[test]
fn currying_arity() {
    let first = builtin("+").apply(integer(1));
    let stage = match first {
        Ok(t) => t,
        Err(_) => panic!("a built-in accepts an integer"),
    };
    assert!(matches!(stage, Token::Function(_)));
    let second = stage.apply(integer(1));
    match second {
        Ok(Token::Datum(DataItem::Integer(n))) => assert!(n == 2),
        _ => panic!("the second argument finishes the computation"),
    }
}

#[test]
fn rejected_argument_does_not_retry() {
    let mut stack = ExecutionStack::default();
    let error_datum = || {
        Token::Datum(DataItem::ScanError(ScanError::Undefined(String::from("mystery"))))
    };
    stack.push_monotoken(builtin("/"));
    stack.push_monotoken(error_datum());
    assert!(stack.stack.len() == 2);
    assert!(matches!(stack.stack[0], Token::Function(_)));
    assert!(matches!(stack.stack[1], Token::Datum(DataItem::ScanError(_))));
    stack.push_monotoken(error_datum());
    assert!(stack.stack.len() == 3);
    assert!(matches!(stack.stack[0], Token::Function(_)));
    assert!(matches!(stack.stack[1], Token::Datum(DataItem::ScanError(_))));
    assert!(matches!(stack.stack[2], Token::Datum(DataItem::ScanError(_))));
}

#[test]
fn pair_decomposes_into_two_entries() {
    let mut stack = ExecutionStack::default();
    let pair = Token::Datum(DataItem::Pair(Box::new((integer(1), integer(2)))));
    stack.push_application_result_token(pair);
    assert!(stack.stack.len() == 2);
    assert!(int_value(&stack.stack[0]) == 1);
    assert!(int_value(&stack.stack[1]) == 2);
}

#[test]
fn pair_parts_reduce_individually() {
    let mut stack = ExecutionStack::default();
    stack.push_monotoken(builtin("+"));
    let pair = Token::Datum(DataItem::Pair(Box::new((integer(1), integer(2)))));
    stack.push_application_result_token(pair);
    assert!(stack.stack.len() == 1);
    assert!(int_value(&stack.stack[0]) == 3);
}

#[test]
fn child_entries_rejoin_and_combine() {
    let events: Vec<Result<Token, Directive>> = vec![
        Ok(builtin("+")),
        Ok(integer(1)),
        Err(Directive::Begin),
        Ok(integer(2)),
        Err(Directive::End),
    ];
    let result = events.execute();
    assert!(result.len() == 1);
    assert!(int_value(&result[0]) == 3);
}

#[test]
fn unmatched_end_is_ignored() {
    let events: Vec<Result<Token, Directive>> = vec![Ok(integer(1)), Err(Directive::End), Ok(integer(2))];
    let result = events.execute();
    assert!(result.len() == 2);
    assert!(int_value(&result[0]) == 1);
    assert!(int_value(&result[1]) == 2);
}

#[test]
fn unclosed_scope_is_discarded() {
    let events: Vec<Result<Token, Directive>> = vec![Ok(integer(1)), Err(Directive::Begin), Ok(integer(2)), Ok(integer(3))];
    let result = events.execute();
    assert!(result.len() == 1);
    assert!(int_value(&result[0]) == 1);
}

#[test]
fn division_by_zero_does_not_reduce() {
    let events: Vec<Result<Token, Directive>> = vec![Ok(builtin("/")), Ok(integer(1)), Ok(integer(0))];
    let result = events.execute();
    assert!(result.len() == 2);
    assert!(matches!(result[0], Token::Function(_)));
    assert!(int_value(&result[1]) == 0);
}

#[test]
fn addition_overflow_does_not_reduce() {
    let events: Vec<Result<Token, Directive>> = vec![Ok(builtin("+")), Ok(integer(i64::MAX)), Ok(integer(1))];
    let result = events.execute();
    assert!(result.len() == 2);
    assert!(matches!(result[0], Token::Function(_)));
    assert!(int_value(&result[1]) == 1);
}

#[test]
fn datum_applied_to_function_commutes() {
    let events: Vec<Result<Token, Directive>> = vec![Ok(integer(5)), Ok(builtin("-")), Ok(integer(2))];
    let result = events.execute();
    assert!(result.len() == 1);
    assert!(int_value(&result[0]) == 3);
}

#[test]
fn commuted_subtraction_binds_datum_first() {
    let events: Vec<Result<Token, Directive>> = vec![Ok(integer(2)), Ok(builtin("-")), Ok(integer(5))];
    let result = events.execute();
    assert!(result.len() == 1);
    assert!(int_value(&result[0]) == -3);
}

#[test]
fn scan_error_only_fails_when_applied() {
    let error_datum = Token::Datum(DataItem::ScanError(ScanError::Undefined(String::from("x"))));
    let events: Vec<Result<Token, Directive>> = vec![Ok(builtin("*")), Ok(error_datum)];
    let result = events.execute();
    assert!(result.len() == 2);
    assert!(matches!(result[0], Token::Function(_)));
    assert!(matches!(result[1], Token::Datum(DataItem::ScanError(_))));
}

#[test]
fn function_constructors_keep_reducer_and_name() {
    let f = Function::from_fn(Reducer::Builtin(Op::Mul));
    assert!(f.reducer == Reducer::Builtin(Op::Mul));
    assert!(f.meta.name == "<unnamed>");
    let g = Function::with_metadata(
        Reducer::Partial(Op::Sub, 7),
        stacklang::function::FunctionMetadata { name: String::from("seven-less") },
    );
    assert!(g.reducer == Reducer::Partial(Op::Sub, 7));
    assert!(g.meta.name == "seven-less");
}

#[test]
fn curried_stage_keeps_builtin_name() {
    let first = builtin("*").apply(integer(4));
    match first {
        Ok(Token::Function(f)) => {
            assert!(f.meta.name == "*");
            assert!(f.reducer == Reducer::Partial(Op::Mul, 4));
        },
        _ => panic!("expected a curried stage"),
    }
}

#[test]
fn begin_opens_a_child_and_end_signals_closure() {
    let mut stack = ExecutionStack::default();
    assert!(stack.child.is_none());
    assert!(stack.handle_directive(Directive::Begin).is_ok());
    assert!(stack.child.is_some());
    assert!(stack.stack.is_empty());
    let mut other = ExecutionStack::default();
    assert!(other.handle_directive(Directive::End).is_err());
    assert!(other.child.is_none());
    assert!(other.stack.is_empty());
}

#[test]
fn events_inside_a_scope_leave_the_parent_alone() {
    let mut stack = ExecutionStack::default();
    stack.push_newly_scanned(Ok(integer(1)));
    stack.push_newly_scanned(Err(Directive::Begin));
    stack.push_newly_scanned(Ok(integer(2)));
    assert!(stack.stack.len() == 1);
    assert!(int_value(&stack.stack[0]) == 1);
    assert!(stack.child.is_some());
    stack.push_newly_scanned(Err(Directive::End));
    assert!(stack.child.is_none());
    assert!(stack.stack.len() == 2);
    assert!(int_value(&stack.stack[0]) == 1);
    assert!(int_value(&stack.stack[1]) == 2);
}
