use std::rc::Rc;

use monkey::ast::Program;
use monkey::evaluator::eval;
use monkey::lexer::Lexer;
use monkey::object::{Environment, EvalError, Object};
use monkey::parser::Parser;
use monkey::token::Token;

fn parse(input: &str) -> (Program, Vec<String>) {
    let lexer = Lexer::new(input);
    let mut parser = Parser::new(lexer);
    let program = parser.parse_program();
    (program, parser.errors)
}

fn run(input: &str) -> Result<Rc<Object>, EvalError> {
    let (program, errors) = parse(input);
    assert_eq!(errors.len(), 0);
    let mut env = Environment::new();
    eval(program, &mut env)
}

#[test]
fn test_round_trip_reparses_to_equal_tree() {
    let inputs = vec![
        "-a * b",
        "a + b * c + d / e - f",
        "3 < 5 == true",
        "add(a, b, 1, 2 * 3, 4 + 5, add(6, 7 * 8))",
        "a + add(b * c) + d",
        "!(true == true)",
        "2 / (5 + 5)",
        "5 < 4 != 3 > 4",
    ];
    for input in inputs {
        let (first, errors) = parse(input);
        assert_eq!(errors.len(), 0);
        let printed = first.to_string();
        let (second, errors2) = parse(printed.as_str());
        assert_eq!(errors2.len(), 0);
        assert_eq!(first.statements, second.statements);
        // printing is a fixed point from the first rendering on
        assert_eq!(second.to_string(), printed);
    }
}

#[test]
fn test_round_trip_examples() {
    assert_eq!(parse("-a * b").0.to_string(), "((-a) * b)");
    assert_eq!(
        parse("a + b * c + d / e - f").0.to_string(),
        "(((a + (b * c)) + (d / e)) - f)"
    );
}

#[test]
fn test_boolean_prints_unparenthesised() {
    assert_eq!(parse("true").0.to_string(), "true");
    assert_eq!(parse("3 < 5 == true").0.to_string(), "((3 < 5) == true)");
}

#[test]
fn test_call_prints_unchanged_in_shape() {
    assert_eq!(
        parse("add(a, b, 1, 2 * 3, 4 + 5, add(6, 7 * 8))").0.to_string(),
        "add(a, b, 1, (2 * 3), (4 + 5), add(6, (7 * 8)))"
    );
}

#[test]
fn test_division_by_zero_is_an_error() {
    match run("5 / 0") {
        Err(err) => assert_eq!(err.message(), "division by zero"),
        Ok(obj) => panic!("expected an error, got {}", obj.to_string()),
    }
    match run("let x = 10; x / (5 - 5)") {
        Err(err) => assert_eq!(err.message(), "division by zero"),
        Ok(obj) => panic!("expected an error, got {}", obj.to_string()),
    }
}

#[test]
fn test_division_truncates_toward_zero() {
    let tests = vec![
        ("7 / 2", 3),
        ("-7 / 2", -3),
        ("7 / -2", -3),
        ("-7 / -2", 3),
        ("0 / 5", 0),
    ];
    for (input, expected) in tests {
        match &*run(input).unwrap() {
            Object::Integer(value) => assert_eq!(*value, expected),
            other => panic!("expected an integer, got {}", other.to_string()),
        }
    }
}

#[test]
fn test_arithmetic_wraps_on_overflow() {
    let max = isize::MAX.to_string();
    let input = format!("{} + 1", max);
    match &*run(input.as_str()).unwrap() {
        Object::Integer(value) => assert_eq!(*value, isize::MIN),
        other => panic!("expected an integer, got {}", other.to_string()),
    }
}

#[test]
fn test_not_a_function_error() {
    match run("5(1)") {
        Err(err) => assert_eq!(err.message(), "not a function: 5"),
        Ok(obj) => panic!("expected an error, got {}", obj.to_string()),
    }
}

#[test]
fn test_unknown_minus_on_function() {
    match run("-fn(x) { x; }") {
        Err(err) => assert_eq!(err.message(), "unknown operator: -FUNCTION"),
        Ok(obj) => panic!("expected an error, got {}", obj.to_string()),
    }
}

#[test]
fn test_if_without_alternative_yields_null() {
    match &*run("if (false) { 10 }").unwrap() {
        Object::Null => {}
        other => panic!("expected null, got {}", other.to_string()),
    }
    assert_eq!(run("if (false) { 10 }").unwrap().to_string(), "null");
}

#[test]
fn test_integer_zero_is_truthy() {
    match &*run("if (0) { 10 } else { 20 }").unwrap() {
        Object::Integer(value) => assert_eq!(*value, 10),
        other => panic!("expected 10, got {}", other.to_string()),
    }
}

#[test]
fn test_extra_arguments_are_ignored() {
    match &*run("let identity = fn(x) { x; }; identity(5, 99);").unwrap() {
        Object::Integer(value) => assert_eq!(*value, 5),
        other => panic!("expected 5, got {}", other.to_string()),
    }
}

#[test]
fn test_missing_argument_errors_on_reference() {
    match run("let add = fn(x, y) { x + y; }; add(5);") {
        Err(err) => assert_eq!(err.message(), "identifier not found: y"),
        Ok(obj) => panic!("expected an error, got {}", obj.to_string()),
    }
}

#[test]
fn test_environment_persists_between_evaluations() {
    let mut env = Environment::new();
    let (first, errors) = parse("let a = 40;");
    assert_eq!(errors.len(), 0);
    eval(first, &mut env).unwrap();
    let (second, errors2) = parse("a + 2");
    assert_eq!(errors2.len(), 0);
    match &*eval(second, &mut env).unwrap() {
        Object::Integer(value) => assert_eq!(*value, 42),
        other => panic!("expected 42, got {}", other.to_string()),
    }
}

#[test]
fn test_shadowing_rebinds_innermost() {
    match &*run("let a = 1; let a = a + 1; a").unwrap() {
        Object::Integer(value) => assert_eq!(*value, 2),
        other => panic!("expected 2, got {}", other.to_string()),
    }
}

#[test]
fn test_parser_collects_errors_and_continues() {
    // the failed `let` contributes no statement; parsing resumes past it
    let (program, errors) = parse("let = 5; 7;");
    assert!(errors.len() > 0);
    assert_eq!(program.statements.len(), 2);
    assert_eq!(program.to_string(), "57");
}

#[test]
fn test_expected_token_error_message() {
    let (_, errors) = parse("if 5 { 1 }");
    assert!(errors.len() >= 1);
    assert_eq!(errors[0], "expected next token to be (, got INT(5) instead");
}

#[test]
fn test_no_prefix_parse_error_message() {
    let (_, errors) = parse("+5");
    assert!(errors.len() > 0);
    assert_eq!(errors[0], "no prefix parse function for +");
}

#[test]
fn test_illegal_and_overflowing_tokens() {
    let mut l = Lexer::new("#");
    assert_eq!(l.next_token(), Token::ILLEGAL);
    assert_eq!(l.next_token(), Token::EOF);

    // one past the largest integer: the run does not fit and is illegal
    let mut l = Lexer::new("9223372036854775808");
    assert_eq!(l.next_token(), Token::ILLEGAL);
    assert_eq!(l.next_token(), Token::EOF);

    let mut l = Lexer::new("9223372036854775807");
    assert_eq!(l.next_token(), Token::INT(isize::MAX));
}

#[test]
fn test_identifiers_exclude_digits() {
    // digits do not continue an identifier: `x1` lexes as `x` then `1`
    let mut l = Lexer::new("x1");
    assert_eq!(l.next_token(), Token::IDENT("x".into()));
    assert_eq!(l.next_token(), Token::INT(1));
}

#[test]
fn test_object_rendering() {
    assert_eq!(run("5").unwrap().to_string(), "5");
    assert_eq!(run("true").unwrap().to_string(), "true");
    assert_eq!(run("-15").unwrap().to_string(), "-15");
}

#[test]
fn test_closures_share_creation_scope() {
    let input = "
    let make = fn(x) { fn(y) { x + y } };
    let add_five = make(5);
    let add_six = make(6);
    add_five(1) + add_six(1);
    ";
    match &*run(input).unwrap() {
        Object::Integer(value) => assert_eq!(*value, 13),
        other => panic!("expected 13, got {}", other.to_string()),
    }
}

#[test]
fn test_return_of_return_does_not_leak_the_wrapper() {
    // the value expression of this return is an if whose taken branch
    // returns, so it is already wrapped; the wrapper must not nest, and
    // the caller must see the plain value
    match run("return if (true) { return 5; };") {
        Ok(obj) => match &*obj {
            Object::Integer(value) => assert_eq!(*value, 5),
            other => panic!("expected 5, got {}", other.to_string()),
        },
        Err(err) => panic!("expected 5, got error {}", err.message()),
    }
}

#[test]
fn test_nested_return_inside_function_body() {
    let input = "let f = fn() { return if (true) { return 3; }; }; f() + 1";
    match &*run(input).unwrap() {
        Object::Integer(value) => assert_eq!(*value, 4),
        other => panic!("expected 4, got {}", other.to_string()),
    }
}

#[test]
fn test_return_from_if_value_short_circuits_the_let() {
    // the if's taken branch returns, so the let's value carries the
    // wrapper and the program stops there with the inner value
    match &*run("let x = if (1) { return 7; }; 99").unwrap() {
        Object::Integer(value) => assert_eq!(*value, 7),
        other => panic!("expected 7, got {}", other.to_string()),
    }
}

#[test]
fn test_wrapper_bound_in_shared_environment_still_never_leaks() {
    let mut env = Environment::new();
    let (first, errors) = parse("let x = if (true) { return 5; };");
    assert_eq!(errors.len(), 0);
    match &*eval(first, &mut env).unwrap() {
        Object::Integer(value) => assert_eq!(*value, 5),
        other => panic!("expected 5, got {}", other.to_string()),
    }
    // the binding for x carries the wrapper; reading it at the top level
    // still surfaces the plain value
    let (second, errors2) = parse("x");
    assert_eq!(errors2.len(), 0);
    match &*eval(second, &mut env).unwrap() {
        Object::Integer(value) => assert_eq!(*value, 5),
        other => panic!("expected 5, got {}", other.to_string()),
    }
}

#[test]
fn test_return_stops_at_function_boundary() {
    let input = "
    let f = fn() { return 3; 9; };
    f() + 1
    ";
    match &*run(input).unwrap() {
        Object::Integer(value) => assert_eq!(*value, 4),
        other => panic!("expected 4, got {}", other.to_string()),
    }
}
