use std::rc::Rc;

use monkey::evaluator::eval;
use monkey::lexer::Lexer;
use monkey::object::{Environment, EvalError, Object};
use monkey::parser::Parser;

#[test]
fn test_eval_integer_expression() {
    let tests = vec![
        ("5", 5),
        ("10", 10),
        ("-5", -5),
        ("-10", -10),
        ("5 + 5 + 5 + 5 - 10", 10),
        ("2 * 2 * 2 * 2 * 2", 32),
        ("-50 + 100 + -50", 0),
        ("5 * 2 + 10", 20),
        ("5 + 2 * 10", 25),
        ("20 + 2 * -10", 0),
        ("50 / 2 * 2 + 10", 60),
        ("2 * (5 + 10)", 30),
        ("3 * 3 * 3 + 10", 37),
        ("3 * (3 * 3) + 10", 37),
        ("(5 + 10 * 2 + 15 / 3) * 2 + -10", 50),
    ];

    for (input, expected) in tests {
        let evaluated = test_eval(input).unwrap();
        test_integer_object(evaluated, expected);
    }
}

#[test]
fn test_eval_boolean_expression() {
    let tests = vec![
        ("true", true),
        ("false", false),
        ("1 < 2", true),
        ("1 > 2", false),
        ("1 < 1", false),
        ("1 > 1", false),
        ("1 == 1", true),
        ("1 != 1", false),
        ("1 == 2", false),
        ("1 != 2", true),
        ("true == true", true),
        ("false == false", true),
        ("true == false", false),
        ("true != false", true),
        ("false != true", true),
        ("(1 < 2) == true", true),
        ("(1 < 2) == false", false),
        ("(1 > 2) == true", false),
        ("(1 > 2) == false", true),
    ];

    for (input, expected) in tests {
        let evaluated = test_eval(input).unwrap();
        test_boolean_object(evaluated, expected);
    }
}

#[test]
fn test_bang_operator() {
    let tests = vec![
        ("!true", false),
        ("!false", true),
        ("!5", false),
        ("!!true", true),
    ];

    for (input, expected) in tests {
        let evaluated = test_eval(input).unwrap();
        test_boolean_object(evaluated, expected);
    }
}

#[test]
fn test_if_else_expressions() {
    let tests = vec![
        ("if (true) { 10 }", 10),
        ("if (false) { 10 }", 0),
        ("if (1) { 10 }", 10),
        ("if (1 < 2) { 10 }", 10),
        ("if (1 > 2) { 10 } else { 20 }", 20),
        ("if (1 < 2) { 10 } else { 20 }", 10),
    ];

    for (input, expected) in tests {
        let evaluated = test_eval(input).unwrap();
        test_integer_object(evaluated, expected);
    }
}

#[test]
fn evaluator_test_return_statements() {
    let tests = vec![
        ("return 10;", 10),
        ("return 10; 9;", 10),
        ("return 2 * 5; 9;", 10),
        ("9; return 2 * 5; 9;", 10),
        (
            "if (10 > 1) {
                if (10 > 1) {
                    return 10;
                }
                return 1;
            }",
            10,
        ),
    ];

    for (input, expected) in tests {
        let evaluated = test_eval(input).unwrap();
        test_integer_object(evaluated, expected);
    }
}

#[test]
fn evaluator_test_let_statements() {
    let tests = vec![
        ("let a = 5; a;", 5),
        ("let a = 5 * 5; a;", 25),
        ("let a = 5; let b = a; b;", 5),
        ("let a = 5; let b = a; let c = a + b + 5; c;", 15),
    ];

    for (input, expected) in tests {
        let evaluated = test_eval(input).unwrap();
        test_integer_object(evaluated, expected);
    }
}

#[test]
fn test_function_object() {
    let tests = vec![("fn(x) { x + 2; };", vec!["x"], "fn(x) {\n(x + 2)\n}")];

    for (input, expected_params, expected_func) in tests {
        let evaluated = test_eval(input).unwrap();

        match &*evaluated {
            Object::Function(function) => {
                assert_eq!(function.parameters, expected_params);
                assert_eq!(function.to_string(), expected_func);
            }
            _ => {
                panic!("object is not Function. got={}", evaluated.to_string());
            }
        }
    }
}

#[test]
fn test_function_application() {
    let tests = vec![
        ("let identity = fn(x) { x; }; identity(5);", 5),
        ("let identity = fn(x) { return x; }; identity(5);", 5),
        ("let double = fn(x) { x * 2; }; double(5);", 10),
        ("let add = fn(x, y) { x + y; }; add(5, 5);", 10),
        ("let add = fn(x, y) { x + y; }; add(5 + 5, add(5, 5));", 20),
        ("fn(x) { x; }(5)", 5),
    ];

    for (input, expected) in tests {
        let evaluated = test_eval(input).unwrap();
        test_integer_object(evaluated, expected);
    }
}

#[test]
fn test_closures() {
    let input = r#"
    let newAdder = fn(x) {
        fn(y) { x + y };
    };
    let addTwo = newAdder(2);
    addTwo(3);
    "#;
    let expected = 5;

    let evaluated = test_eval(input).unwrap();
    test_integer_object(evaluated, expected);
}

#[test]
fn test_error_handling() {
    let tests = vec![
        ("5 + true;", "type mismatch: INTEGER + BOOLEAN"),
        ("5 + true; 5;", "type mismatch: INTEGER + BOOLEAN"),
        ("-true", "unknown operator: -BOOLEAN"),
        ("true + false;", "unknown operator: BOOLEAN + BOOLEAN"),
        ("5; true + false; 5", "unknown operator: BOOLEAN + BOOLEAN"),
        (
            "if (10 > 1) { true + false; }",
            "unknown operator: BOOLEAN + BOOLEAN",
        ),
        (
            r#"
            if (10 > 1) {
                if (10 > 1) {
                    return true + false;
                }
                return 1;
            }
            "#,
            "unknown operator: BOOLEAN + BOOLEAN",
        ),
        ("foobar", "identifier not found: foobar"),
    ];

    for (input, expected_message) in tests {
        let evaluated = test_eval(input);

        match evaluated {
            Err(err) => {
                assert_eq!(err.message(), expected_message);
            }
            Ok(obj) => {
                panic!("no error object returned. got={}", obj.to_string());
            }
        }
    }
}

fn test_eval(input: &str) -> Result<Rc<Object>, EvalError> {
    let lexer = Lexer::new(input);
    let mut parser = Parser::new(lexer);
    let program = parser.parse_program();

    let mut env = Environment::new();
    eval(program, &mut env)
}

fn test_integer_object(obj: Rc<Object>, expected: isize) {
    match *obj {
        Object::Integer(value) => {
            assert_eq!(value, expected);
        }
        _ => test_null_object(obj),
    }
}

fn test_boolean_object(obj: Rc<Object>, expected: bool) {
    match *obj {
        Object::Boolean(value) => {
            assert_eq!(value, expected);
        }
        _ => {
            panic!("Object is not Boolean. got={}", obj.to_string());
        }
    }
}

fn test_null_object(obj: Rc<Object>) {
    match *obj {
        Object::Null => {}
        _ => {
            panic!("Object is not Null. got={}", obj.to_string());
        }
    }
}
