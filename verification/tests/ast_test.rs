use monkey::ast::{Expression, Identifier, IntegerLiteral, LetStatement, Program, ReturnStatement,
    Statement};
use monkey::token::{Token, TokenType};

#[test]
fn test_to_string() {
    let program = Program {
        statements: vec![
            Statement::LetStatement(LetStatement {
                token: Token { token_type: TokenType::LET, literal: String::from("let") },
                name: Identifier {
                    token: Token { token_type: TokenType::IDENT, literal: String::from("myVar") },
                    value: String::from("myVar"),
                },
                value: None,
            }),
            Statement::ReturnStatement(ReturnStatement {
                token: Token { token_type: TokenType::RETURN, literal: String::from("return") },
                return_value: None,
            }),
        ],
    };
    if program.to_string() != "let myVar = ;return ;" {
        panic!("program.to_string() wrong. got={}", program.to_string());
    }
}

#[test]
fn test_empty_program_to_string() {
    let program = Program { statements: vec![] };
    assert_eq!(program.to_string(), "");
}

#[test]
fn test_integer_literal_rendering() {
    let node = IntegerLiteral {
        token: Token { token_type: TokenType::INT, literal: String::from("5") },
        value: 5,
    };
    assert_eq!(node.to_string(), "5");
    let negative = IntegerLiteral {
        token: Token { token_type: TokenType::INT, literal: String::from("42") },
        value: -42,
    };
    assert_eq!(negative.to_string(), "-42");
    let large = IntegerLiteral {
        token: Token { token_type: TokenType::INT, literal: String::from("9223372036854775807") },
        value: i64::MAX,
    };
    assert_eq!(large.to_string(), "9223372036854775807");
}

#[test]
fn test_program_token_literal() {
    let program = Program {
        statements: vec![Statement::LetStatement(LetStatement {
            token: Token { token_type: TokenType::LET, literal: String::from("let") },
            name: Identifier {
                token: Token { token_type: TokenType::IDENT, literal: String::from("x") },
                value: String::from("x"),
            },
            value: None,
        })],
    };
    assert_eq!(program.token_literal(), "let");
}

#[test]
fn test_identifier_rendering() {
    let identifier = Identifier {
        token: Token { token_type: TokenType::IDENT, literal: String::from("foobar") },
        value: String::from("foobar"),
    };
    assert_eq!(identifier.to_string(), "foobar");
    assert_eq!(identifier.token_literal(), "foobar");
    let expression = Expression::Identifier(identifier);
    assert_eq!(expression.to_string(), "foobar");
    assert_eq!(expression.token_literal(), "foobar");
}
