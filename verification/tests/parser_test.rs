use monkey::ast;
use monkey::lexer::Lexer;
use monkey::parser::Parser;

fn test_let_statement(statement: &ast::Statement, name: &str) -> bool {
    match statement {
        ast::Statement::LetStatement(let_stmt) => {
            if let_stmt.token_literal() != "let" {
                println!("s.token_literal not 'let'. got={}", let_stmt.token_literal());
                return false;
            } else if let_stmt.name.value != name {
                println!("let_stmt.name.value not '{}'. got={}", name, let_stmt.name.value);
                return false;
            } else if let_stmt.name.token_literal() != name {
                println!(
                    "let_stmt.name.token_literal() not '{}'. got={}",
                    name,
                    let_stmt.name.token_literal()
                );
                return false;
            } else {
                true
            }
        }
        _ => false,
    }
}

fn check_parser_errors(parser: Parser) {
    let errors = parser.errors();
    if errors.len() == 0 {
        return;
    }

    println!("parser has {} errors", errors.len());
    for msg in errors {
        println!("parser error: {}", msg);
    }
    panic!();
}

#[test]
fn test_let_statements() {
    let input = "let x = 5;\
let y = 10;\
let foobar = 838383;";

    let lex = Lexer::new(input.to_string());
    let mut parser = Parser::new(lex);
    let program = parser.parse_program().unwrap_or_else(|| panic!("parse_program() returned None"));
    check_parser_errors(parser);

    if program.statements.len() != 3 {
        panic!("program.statements does not contain 3 statements. got={}", program.statements.len());
    }

    let tests = vec!["x", "y", "foobar"];

    for (i, tt) in tests.iter().enumerate() {
        let stmt = program.statements.get(i).unwrap();
        if !test_let_statement(stmt, tt) {
            panic!("statement {} failed", i);
        }
    }
}

#[test]
fn test_return_statements() {
    let input = "return 5;\
return 10;\
return 993322;";

    let lex = Lexer::new(input.to_string());
    let mut parser = Parser::new(lex);

    let program = parser.parse_program().unwrap_or_else(|| panic!("parse_program() returned None"));

    if program.statements.len() != 3 {
        panic!("program.statements does not contain 3 statements. got={}", program.statements.len());
    }

    for (_, statement) in program.statements.iter().enumerate() {
        match statement {
            ast::Statement::ReturnStatement(return_stmt) => {
                if return_stmt.token_literal() != "return" {
                    panic!("return_stmt.token_literal not 'return', got {}", return_stmt.token_literal());
                }
            }
            _ => {
                panic!("statement not ast::Statement::ReturnStatement, got {:?}", statement);
            }
        }
    }
}

#[test]
fn test_identifier_expression() {
    let input = "foobar;";

    let lex = Lexer::new(input.to_string());
    let mut parser = Parser::new(lex);
    let program = parser.parse_program().unwrap_or_else(|| panic!("parse_program() returned None"));
    check_parser_errors(parser);

    if program.statements.len() != 1 {
        panic!("program has not enough statements. got={}", program.statements.len());
    }

    match &program.statements[0] {
        ast::Statement::ExpressionStatement(stmt) => {
            match &stmt.expression {
                Some(ast::Expression::Identifier(ident)) => {
                    if ident.value != "foobar" {
                        panic!("ident.Value not {}. got={}", "foobar", ident.value);
                    }
                    if ident.token_literal() != "foobar" {
                        panic!("ident.TokenLiteral not {}. got={}", "foobar", ident.token_literal());
                    }
                }
                _ => panic!("exp not *ast.Identifier. got={:?}", stmt.expression),
            }
        }
        _ => panic!("program.Statements[0] is not ast.ExpressionStatement. got={:?}", program.statements[0]),
    }
}

#[test]
fn test_integer_literal_expression() {
    let input = String::from("5");

    let lex = Lexer::new(input);
    let mut p = Parser::new(lex);
    let program = p.parse_program().unwrap_or_else(|| panic!("parse_program() returned None"));
    check_parser_errors(p);

    if program.statements.len() != 1 {
        panic!("program has not enough statements. got={}", program.statements.len())
    }

    match &program.statements[0] {
        ast::Statement::ExpressionStatement(stmt) => {
            match &stmt.expression {
                Some(ast::Expression::IntegerLiteral(int)) => {
                    if int.value != 5 {
                        panic!("int.Value not {}. got={}", 5, int.value);
                    }
                    if int.token_literal() != "5" {
                        panic!("int.TokenLiteral not {}. got={}", "5", int.token_literal());
                    }
                }
                _ => panic!("exp not ast::IntegerLiteral. got={:?}", stmt.expression),
            }
        }
        _ => panic!("program.Statements.[0] is not ast::ExpressionStatement. got={:?}", program.statements[0]),
    }
}

#[test]
fn test_whitespace_only_program() {
    let inputs = vec!["", " ", "   \t\r\n  ", "\n\n\n"];
    for input in inputs {
        let lex = Lexer::new(input.to_string());
        let mut parser = Parser::new(lex);
        let program = parser.parse_program().unwrap();
        assert_eq!(program.statements.len(), 0, "input {:?}", input);
        assert_eq!(parser.errors().len(), 0, "input {:?}", input);
    }
}

#[test]
fn test_operator_precedence() {
    let lex = Lexer::new(String::from("a + b * c"));
    let mut parser = Parser::new(lex);
    let program = parser.parse_program().unwrap();
    check_parser_errors(parser);
    assert_eq!(program.statements.len(), 1);
    match &program.statements[0] {
        ast::Statement::ExpressionStatement(stmt) => match &stmt.expression {
            Some(ast::Expression::InfixExpression(root)) => {
                assert_eq!(root.operator, "+");
                match &*root.left {
                    ast::Expression::Identifier(ident) => assert_eq!(ident.value, "a"),
                    other => panic!("left of + not an identifier: {:?}", other),
                }
                match &*root.right {
                    ast::Expression::InfixExpression(product) => {
                        assert_eq!(product.operator, "*");
                        match &*product.left {
                            ast::Expression::Identifier(ident) => assert_eq!(ident.value, "b"),
                            other => panic!("left of * not an identifier: {:?}", other),
                        }
                        match &*product.right {
                            ast::Expression::Identifier(ident) => assert_eq!(ident.value, "c"),
                            other => panic!("right of * not an identifier: {:?}", other),
                        }
                    }
                    other => panic!("right of + not the * node: {:?}", other),
                }
            }
            other => panic!("expression not infix: {:?}", other),
        },
        other => panic!("not an expression statement: {:?}", other),
    }
    assert_eq!(program.to_string(), "a+b*c");
}

#[test]
fn test_left_associativity() {
    let lex = Lexer::new(String::from("a + b + c"));
    let mut parser = Parser::new(lex);
    let program = parser.parse_program().unwrap();
    check_parser_errors(parser);
    match &program.statements[0] {
        ast::Statement::ExpressionStatement(stmt) => match &stmt.expression {
            Some(ast::Expression::InfixExpression(root)) => {
                assert_eq!(root.operator, "+");
                assert!(matches!(&*root.left, ast::Expression::InfixExpression(_)));
                assert!(matches!(&*root.right, ast::Expression::Identifier(_)));
            }
            other => panic!("expression not infix: {:?}", other),
        },
        other => panic!("not an expression statement: {:?}", other),
    }
}

#[test]
fn test_prefix_expressions() {
    let cases = vec![("!5;", "!", 5i64), ("-15;", "-", 15i64)];
    for (input, operator, value) in cases {
        let lex = Lexer::new(input.to_string());
        let mut parser = Parser::new(lex);
        let program = parser.parse_program().unwrap();
        check_parser_errors(parser);
        assert_eq!(program.statements.len(), 1);
        match &program.statements[0] {
            ast::Statement::ExpressionStatement(stmt) => match &stmt.expression {
                Some(ast::Expression::PrefixExpression(prefix)) => {
                    assert_eq!(prefix.operator, operator);
                    match &*prefix.right {
                        ast::Expression::IntegerLiteral(int) => assert_eq!(int.value, value),
                        other => panic!("operand not an integer: {:?}", other),
                    }
                }
                other => panic!("expression not prefix: {:?}", other),
            },
            other => panic!("not an expression statement: {:?}", other),
        }
    }
}

#[test]
fn test_boolean_expressions() {
    let cases = vec![("true;", true), ("false;", false)];
    for (input, value) in cases {
        let lex = Lexer::new(input.to_string());
        let mut parser = Parser::new(lex);
        let program = parser.parse_program().unwrap();
        check_parser_errors(parser);
        assert_eq!(program.statements.len(), 1);
        match &program.statements[0] {
            ast::Statement::ExpressionStatement(stmt) => match &stmt.expression {
                Some(ast::Expression::Boolean(boolean)) => assert_eq!(boolean.value, value),
                other => panic!("expression not a boolean: {:?}", other),
            },
            other => panic!("not an expression statement: {:?}", other),
        }
    }
}

#[test]
fn test_let_missing_identifier_error() {
    let lex = Lexer::new(String::from("let 5 = 3;"));
    let mut parser = Parser::new(lex);
    let program = parser.parse_program().unwrap();
    let errors = parser.errors();
    assert_eq!(errors.len(), 2);
    assert_eq!(errors[0], "expected next token to be IDENT, got INT instead");
    assert_eq!(errors[1], "no prefix parse function for category ASSIGN found");
    assert!(!program
        .statements
        .iter()
        .any(|statement| matches!(statement, ast::Statement::LetStatement(_))));
}

#[test]
fn test_let_missing_assign_error() {
    let lex = Lexer::new(String::from("let x 5;"));
    let mut parser = Parser::new(lex);
    let _program = parser.parse_program().unwrap();
    let errors = parser.errors();
    assert!(errors.len() >= 1);
    assert_eq!(errors[0], "expected next token to be ASSIGN, got INT instead");
}

#[test]
fn test_no_prefix_handler_error() {
    let lex = Lexer::new(String::from("@"));
    let mut parser = Parser::new(lex);
    let program = parser.parse_program().unwrap();
    let errors = parser.errors();
    assert_eq!(errors.len(), 1);
    assert_eq!(errors[0], "no prefix parse function for category ILLEGAL found");
    assert_eq!(program.statements.len(), 1);
    match &program.statements[0] {
        ast::Statement::ExpressionStatement(stmt) => assert!(stmt.expression.is_none()),
        other => panic!("not an expression statement: {:?}", other),
    }
}

#[test]
fn test_integer_overflow_error() {
    let lex = Lexer::new(String::from("99999999999999999999;"));
    let mut parser = Parser::new(lex);
    let _program = parser.parse_program().unwrap();
    let errors = parser.errors();
    assert_eq!(errors.len(), 1);
    assert_eq!(errors[0], "could not parse 99999999999999999999 as integer");
}

#[test]
fn test_largest_integer_literal() {
    let lex = Lexer::new(String::from("9223372036854775807"));
    let mut parser = Parser::new(lex);
    let program = parser.parse_program().unwrap();
    check_parser_errors(parser);
    match &program.statements[0] {
        ast::Statement::ExpressionStatement(stmt) => match &stmt.expression {
            Some(ast::Expression::IntegerLiteral(int)) => assert_eq!(int.value, i64::MAX),
            other => panic!("expression not an integer: {:?}", other),
        },
        other => panic!("not an expression statement: {:?}", other),
    }
}

#[test]
fn test_infix_expressions() {
    let cases = vec![
        ("5 + 6;", 5i64, "+", 6i64),
        ("5 - 6;", 5, "-", 6),
        ("5 * 6;", 5, "*", 6),
        ("5 / 6;", 5, "/", 6),
        ("5 > 6;", 5, ">", 6),
        ("5 < 6;", 5, "<", 6),
        ("5 == 6;", 5, "==", 6),
        ("5 != 6;", 5, "!=", 6),
    ];
    for (input, left, operator, right) in cases {
        let lex = Lexer::new(input.to_string());
        let mut parser = Parser::new(lex);
        let program = parser.parse_program().unwrap();
        check_parser_errors(parser);
        assert_eq!(program.statements.len(), 1, "input {:?}", input);
        match &program.statements[0] {
            ast::Statement::ExpressionStatement(stmt) => match &stmt.expression {
                Some(ast::Expression::InfixExpression(infix)) => {
                    assert_eq!(infix.operator, operator);
                    match &*infix.left {
                        ast::Expression::IntegerLiteral(int) => assert_eq!(int.value, left),
                        other => panic!("left not an integer: {:?}", other),
                    }
                    match &*infix.right {
                        ast::Expression::IntegerLiteral(int) => assert_eq!(int.value, right),
                        other => panic!("right not an integer: {:?}", other),
                    }
                }
                other => panic!("expression not infix: {:?}", other),
            },
            other => panic!("not an expression statement: {:?}", other),
        }
    }
}
