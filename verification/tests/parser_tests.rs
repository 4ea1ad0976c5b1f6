use monkey::ast::{Expression, Statement};
use monkey::lexer::Lexer;
use monkey::parser::Parser;

#[test]
fn parser_test_let_statements() {
    let input = r#"
let x = 5;
let y = 10;
let foobar = 838383;
"#;

    let lexer = Lexer::new(input);
    let mut parser = Parser::new(lexer);
    let program = parser.parse_program();

    assert_eq!(program.statements.len(), 3);
    assert_eq!(parser.errors.len(), 0);

    let tests = vec!["x", "y", "foobar"];

    for (i, test) in tests.iter().enumerate() {
        let statement = &program.statements[i];
        match statement {
            Statement::LetStatement { name, value: _ } => {
                assert_eq!(name, *test);
            }
            _ => panic!("Expected LetStatement, got {:?}", statement),
        }
    }
}

#[test]
fn parser_test_return_statements() {
    let input = r#"return 5;
return 10;
return 993322;"#;

    let lexer = Lexer::new(input);
    let mut parser = Parser::new(lexer);
    let program = parser.parse_program();

    assert_eq!(program.statements.len(), 3);
    assert_eq!(parser.errors.len(), 0);

    for statement in program.statements {
        match statement {
            Statement::ReturnStatement(_) => {}
            _ => panic!("Expected ReturnStatement, got {:?}", statement),
        }
    }
}

#[test]
fn test_identifier_expression() {
    let input = "foobar;";

    let lexer = Lexer::new(input);
    let mut parser = Parser::new(lexer);
    let program = parser.parse_program();

    assert_eq!(program.statements.len(), 1);
    assert_eq!(parser.errors.len(), 0);

    for statement in program.statements {
        match statement {
            Statement::ExpressionStatement(Expression::Identifier(s)) => {
                assert_eq!(s, "foobar");
            }
            _ => panic!("Expected ExpressionStatement, got {:?}", statement),
        }
    }
}

#[test]
fn test_integer_literal_expression() {
    let input = "5;";

    let lexer = Lexer::new(input);
    let mut parser = Parser::new(lexer);
    let program = parser.parse_program();

    assert_eq!(program.statements.len(), 1);
    assert_eq!(parser.errors.len(), 0);

    for statement in program.statements {
        match statement {
            Statement::ExpressionStatement(Expression::IntegerLiteral(i)) => {
                assert_eq!(i, 5);
            }
            _ => panic!("Expected ExpressionStatement, got {:?}", statement),
        }
    }
}

#[test]
fn test_boolean_literal_expression() {
    let tests = vec![("true;", true), ("false;", false)];

    for test in tests {
        let (input, value) = test;
        let lexer = Lexer::new(input);
        let mut parser = Parser::new(lexer);
        let program = parser.parse_program();

        assert_eq!(program.statements.len(), 1);
        assert_eq!(parser.errors.len(), 0);

        for statement in program.statements {
            match statement {
                Statement::ExpressionStatement(Expression::BooleanLiteral(b)) => {
                    assert_eq!(b, value);
                }
                _ => panic!("Expected ExpressionStatement, got {:?}", statement),
            }
        }
    }
}

#[test]
fn test_if_expression() {
    let input = "if (x < y) { x }";

    let lexer = Lexer::new(input);
    let mut parser = Parser::new(lexer);
    let program = parser.parse_program();

    assert_eq!(parser.errors.len(), 0);

    for statement in program.statements {
        match statement {
            Statement::ExpressionStatement(Expression::If {
                condition,
                consequence,
                alternative,
            }) => {
                assert_eq!(condition.to_string(), "(x < y)");
                assert_eq!(consequence.to_string(), "x");
                assert_eq!(alternative, None);
            }
            _ => panic!("Expected ExpressionStatement, got {:?}", statement),
        }
    }
}

#[test]
fn test_if_else_expression() {
    let input = "if (x < y) { x } else { y }";

    let lexer = Lexer::new(input);
    let mut parser = Parser::new(lexer);
    let program = parser.parse_program();

    assert_eq!(program.statements.len(), 1);
    assert_eq!(parser.errors.len(), 0);

    for statement in program.statements {
        match statement {
            Statement::ExpressionStatement(Expression::If {
                condition,
                consequence,
                alternative,
            }) => {
                assert_eq!(condition.to_string(), "(x < y)");
                assert_eq!(consequence.to_string(), "x");
                assert_eq!(alternative.unwrap().to_string(), "y");
            }
            _ => panic!("Expected ExpressionStatement, got {:?}", statement),
        }
    }
}

#[test]
fn test_function_literal_parsing() {
    let input = "fn(x, y) { x + y; }";

    let lexer = Lexer::new(input);
    let mut parser = Parser::new(lexer);
    let program = parser.parse_program();

    assert_eq!(program.statements.len(), 1);
    assert_eq!(parser.errors.len(), 0);

    for statement in program.statements {
        match statement {
            Statement::ExpressionStatement(Expression::FunctionLiteral {
                parameters,
                body,
            }) => {
                assert_eq!(parameters.len(), 2);
                assert_eq!(parameters[0], "x");
                assert_eq!(parameters[1], "y");
                assert_eq!(body.to_string(), "(x + y)");
            }
            _ => panic!("Expected ExpressionStatement, got {:?}", statement),
        }
    }
}

#[test]
fn test_function_parameter_parsing() {
    let tests = vec![
        ("fn() {};", vec![]),
        ("fn(x) {};", vec!["x"]),
        ("fn(x, y, z) {};", vec!["x", "y", "z"]),
    ];

    for test in tests {
        let (input, expected) = test;
        let lexer = Lexer::new(input);
        let mut parser = Parser::new(lexer);
        let program = parser.parse_program();

        assert_eq!(program.statements.len(), 1);
        assert_eq!(parser.errors.len(), 0);

        for statement in program.statements {
            match statement {
                Statement::ExpressionStatement(Expression::FunctionLiteral {
                    parameters,
                    body: _,
                }) => {
                    assert_eq!(parameters, expected);
                }
                _ => panic!("Expected ExpressionStatement, got {:?}", statement),
            }
        }
    }
}

#[test]
fn test_integer_prefix_expression() {
    let tests = vec![("!5", "!", 5), ("-15", "-", 15)];

    for test in tests {
        let (input, prefix, int) = test;
        let lexer = Lexer::new(input);
        let mut parser = Parser::new(lexer);
        let program = parser.parse_program();

        assert_eq!(program.statements.len(), 1);
        assert_eq!(parser.errors.len(), 0);

        for statement in &program.statements {
            println!("{:?}", statement);
            match statement {
                Statement::ExpressionStatement(exp) => match exp {
                    Expression::Prefix(p, r) => {
                        assert_eq!(prefix_text(p), prefix);
                        assert_eq!(is_literal_expression(r, &int.to_string()), true);
                    }
                    _ => panic!("Expected PrefixExpression, got {:?}", exp),
                },
                _ => panic!("Expected ExpressionStatement, got {:?}", statement),
            }
        }
    }
}

#[test]
fn test_boolean_prefix_expression() {
    let tests = vec![("!true", "!", "true"), ("!false", "!", "false")];

    for test in tests {
        let (input, prefix, value) = test;
        let lexer = Lexer::new(input);
        let mut parser = Parser::new(lexer);
        let program = parser.parse_program();

        assert_eq!(program.statements.len(), 1);
        assert_eq!(parser.errors.len(), 0);

        for statement in &program.statements {
            match statement {
                Statement::ExpressionStatement(exp) => match exp {
                    Expression::Prefix(p, r) => {
                        assert_eq!(prefix_text(p), prefix);
                        assert_eq!(is_literal_expression(r, value), true);
                    }
                    _ => panic!("Expected PrefixExpression, got {:?}", exp),
                },
                _ => panic!("Expected ExpressionStatement, got {:?}", statement),
            }
        }
    }
}

#[test]
fn test_call_expression_parsing() {
    let input = "add(1, 2 * 3, 4 + 5);";

    let lexer = Lexer::new(input);
    let mut parser = Parser::new(lexer);
    let program = parser.parse_program();

    assert_eq!(program.statements.len(), 1);
    assert_eq!(parser.errors.len(), 0);

    for statement in &program.statements {
        match statement {
            Statement::ExpressionStatement(exp) => match exp {
                Expression::Call {
                    function,
                    arguments,
                } => {
                    assert_eq!(function.to_string(), "add");
                    assert_eq!(arguments.len(), 3);
                    assert_eq!(arguments[0].to_string(), "1");
                    assert_eq!(arguments[1].to_string(), "(2 * 3)");
                    assert_eq!(arguments[2].to_string(), "(4 + 5)");
                }
                _ => panic!("Expected CallExpression, got {:?}", exp),
            },
            _ => panic!("Expected ExpressionStatement, got {:?}", statement),
        }
    }
}

#[test]
fn test_integer_infix_expression() {
    let tests = vec![
        ("5 + 4;", 5, "+", 4),
        ("5 - 4;", 5, "-", 4),
        ("5 * 5;", 5, "*", 5),
        ("5 / 5;", 5, "/", 5),
        ("5 > 5;", 5, ">", 5),
        ("5 < 5;", 5, "<", 5),
        ("5 == 5;", 5, "==", 5),
        ("5 != 5;", 5, "!=", 5),
    ];

    for test in tests {
        let (input, left, op, right) = test;
        let lexer = Lexer::new(input);
        let mut parser = Parser::new(lexer);
        let program = parser.parse_program();

        assert_eq!(program.statements.len(), 1);
        assert_eq!(parser.errors.len(), 0);

        for statement in &program.statements {
            match statement {
                Statement::ExpressionStatement(exp) => {
                    assert_eq!(
                        is_infix_expression(exp, &left.to_string(), op, &right.to_string()),
                        true
                    );
                }
                _ => panic!("Expected ExpressionStatement, got {:?}", statement),
            }
        }
    }
}

#[test]
fn test_boolean_infix_expression() {
    let tests = vec![
        ("true == true", true, "==", true),
        ("true != false", true, "!=", false),
        ("false == false", false, "==", false),
    ];

    for test in tests {
        let (input, left, op, right) = test;
        let lexer = Lexer::new(input);
        let mut parser = Parser::new(lexer);
        let program = parser.parse_program();

        assert_eq!(program.statements.len(), 1);
        assert_eq!(parser.errors.len(), 0);

        for statement in &program.statements {
            match statement {
                Statement::ExpressionStatement(exp) => {
                    assert_eq!(
                        is_infix_expression(exp, &left.to_string(), op, &right.to_string()),
                        true
                    );
                }
                _ => panic!("Expected ExpressionStatement, got {:?}", statement),
            }
        }
    }
}

#[test]
fn test_operator_precedence_parsing() {
    let tests = vec![
        ("-a * b", "((-a) * b)"),
        ("!-a", "(!(-a))"),
        ("a + b + c", "((a + b) + c)"),
        ("a + b - c", "((a + b) - c)"),
        ("a * b * c", "((a * b) * c)"),
        ("a * b / c", "((a * b) / c)"),
        ("a + b / c", "(a + (b / c))"),
        ("a + b * c + d / e - f", "(((a + (b * c)) + (d / e)) - f)"),
        ("3 + 4; -5 * 5", "(3 + 4)((-5) * 5)"),
        ("5 > 4 == 3 < 4", "((5 > 4) == (3 < 4))"),
        ("5 < 4 != 3 > 4", "((5 < 4) != (3 > 4))"),
        (
            "3 + 4 * 5 == 3 * 1 + 4 * 5",
            "((3 + (4 * 5)) == ((3 * 1) + (4 * 5)))",
        ),
        ("true", "true"),
        ("3 < 5 == true", "((3 < 5) == true)"),
        ("3 > 5 == false", "((3 > 5) == false)"),
        ("1 + (2 + 3) + 4", "((1 + (2 + 3)) + 4)"),
        ("(5 + 5) * 2", "((5 + 5) * 2)"),
        ("2 / (5 + 5)", "(2 / (5 + 5))"),
        ("-(5 + 5)", "(-(5 + 5))"),
        ("!(true == true)", "(!(true == true))"),
        ("a + add(b * c) + d", "((a + add((b * c))) + d)"),
        (
            "add(a, b, 1, 2 * 3, 4 + 5, add(6, 7 * 8))",
            "add(a, b, 1, (2 * 3), (4 + 5), add(6, (7 * 8)))",
        ),
        (
            "add(a + b + c * d / f + g)",
            "add((((a + b) + ((c * d) / f)) + g))",
        ),
    ];

    for test in tests {
        let (input, expected) = test;
        let lexer = Lexer::new(input);
        let mut parser = Parser::new(lexer);
        let program = parser.parse_program();

        assert_eq!(parser.errors.len(), 0);
        assert_eq!(program.to_string(), expected);
    }
}

fn prefix_text(p: &monkey::ast::Prefix) -> &'static str {
    match p {
        monkey::ast::Prefix::BANG => "!",
        monkey::ast::Prefix::MINUS => "-",
    }
}

fn is_integer_literal(exp: &Expression, value: isize) -> bool {
    match exp {
        Expression::IntegerLiteral(i) => *i == value,
        _ => false,
    }
}

fn is_identifier(exp: &Expression, value: &str) -> bool {
    match exp {
        Expression::Identifier(s) => s == value,
        _ => false,
    }
}

fn is_literal_expression(exp: &Expression, expected: &str) -> bool {
    match exp {
        Expression::BooleanLiteral(b) => b.to_string() == expected,
        Expression::IntegerLiteral(_) => is_integer_literal(exp, expected.parse().unwrap()),
        Expression::Identifier(_) => is_identifier(exp, expected),
        _ => false,
    }
}

fn is_infix_expression(exp: &Expression, left: &str, op: &str, right: &str) -> bool {
    match exp {
        Expression::Infix(o, l, r) => {
            is_literal_expression(l, left)
                && is_literal_expression(r, right)
                && infix_text(o) == op
        }
        _ => false,
    }
}

fn infix_text(o: &monkey::ast::Infix) -> &'static str {
    match o {
        monkey::ast::Infix::PLUS => "+",
        monkey::ast::Infix::MINUS => "-",
        monkey::ast::Infix::ASTERISK => "*",
        monkey::ast::Infix::SLASH => "/",
        monkey::ast::Infix::EQ => "==",
        monkey::ast::Infix::NOT_EQ => "!=",
        monkey::ast::Infix::LT => "<",
        monkey::ast::Infix::GT => ">",
    }
}
