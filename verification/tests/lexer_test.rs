use monkey::lexer::Lexer;
use monkey::token::TokenType;

#[test]
fn test_next_token_symbols() {
    let mut lexer = Lexer::new(String::from("=+(){},;"));
    let expected = vec![
        (TokenType::ASSIGN, "="),
        (TokenType::PLUS, "+"),
        (TokenType::LPAREN, "("),
        (TokenType::RPAREN, ")"),
        (TokenType::LBRACE, "{"),
        (TokenType::RBRACE, "}"),
        (TokenType::COMMA, ","),
        (TokenType::SEMICOLON, ";"),
    ];
    for (token_type, literal) in expected {
        let token = lexer.next_token();
        assert_eq!(token.token_type, token_type);
        assert_eq!(token.literal, literal);
    }
    let end = lexer.next_token();
    assert_eq!(end.token_type, TokenType::EOF);
}

#[test]
fn test_two_character_operators() {
    let mut lexer = Lexer::new(String::from("=="));
    let token = lexer.next_token();
    assert_eq!(token.token_type, TokenType::EQ);
    assert_eq!(token.literal, "==");
    assert_eq!(lexer.next_token().token_type, TokenType::EOF);

    let mut lexer = Lexer::new(String::from("!="));
    let token = lexer.next_token();
    assert_eq!(token.token_type, TokenType::NOT_EQ);
    assert_eq!(token.literal, "!=");

    let mut lexer = Lexer::new(String::from("= ="));
    assert_eq!(lexer.next_token().token_type, TokenType::ASSIGN);
    assert_eq!(lexer.next_token().token_type, TokenType::ASSIGN);
}

#[test]
fn test_eof_idempotent() {
    let mut lexer = Lexer::new(String::from("x"));
    assert_eq!(lexer.next_token().token_type, TokenType::IDENT);
    for _ in 0..5 {
        assert_eq!(lexer.next_token().token_type, TokenType::EOF);
    }
    let mut empty = Lexer::new(String::new());
    for _ in 0..3 {
        assert_eq!(empty.next_token().token_type, TokenType::EOF);
    }
}

#[test]
fn test_keywords_and_identifiers() {
    let mut lexer = Lexer::new(String::from("let fn if true false else return foo _bar"));
    let expected = vec![
        (TokenType::LET, "let"),
        (TokenType::FUNCTION, "fn"),
        (TokenType::IF, "if"),
        (TokenType::TRUE, "true"),
        (TokenType::FALSE, "false"),
        (TokenType::ELSE, "else"),
        (TokenType::RETURN, "return"),
        (TokenType::IDENT, "foo"),
        (TokenType::IDENT, "_bar"),
    ];
    for (token_type, literal) in expected {
        let token = lexer.next_token();
        assert_eq!(token.token_type, token_type);
        assert_eq!(token.literal, literal);
    }
    assert_eq!(lexer.next_token().token_type, TokenType::EOF);
}

#[test]
fn test_numbers_and_operators() {
    let mut lexer = Lexer::new(String::from("let five = 5;\nlet ten = 10;\n5 < 10 > 5;\n10 == 10;\n10 != 9;"));
    let expected = vec![
        (TokenType::LET, "let"),
        (TokenType::IDENT, "five"),
        (TokenType::ASSIGN, "="),
        (TokenType::INT, "5"),
        (TokenType::SEMICOLON, ";"),
        (TokenType::LET, "let"),
        (TokenType::IDENT, "ten"),
        (TokenType::ASSIGN, "="),
        (TokenType::INT, "10"),
        (TokenType::SEMICOLON, ";"),
        (TokenType::INT, "5"),
        (TokenType::LT, "<"),
        (TokenType::INT, "10"),
        (TokenType::GT, ">"),
        (TokenType::INT, "5"),
        (TokenType::SEMICOLON, ";"),
        (TokenType::INT, "10"),
        (TokenType::EQ, "=="),
        (TokenType::INT, "10"),
        (TokenType::SEMICOLON, ";"),
        (TokenType::INT, "10"),
        (TokenType::NOT_EQ, "!="),
        (TokenType::INT, "9"),
        (TokenType::SEMICOLON, ";"),
    ];
    for (token_type, literal) in expected {
        let token = lexer.next_token();
        assert_eq!(token.token_type, token_type, "wrong category for {}", literal);
        assert_eq!(token.literal, literal);
    }
    assert_eq!(lexer.next_token().token_type, TokenType::EOF);
}

#[test]
fn test_illegal_character_continues() {
    let mut lexer = Lexer::new(String::from("a @ b"));
    assert_eq!(lexer.next_token().token_type, TokenType::IDENT);
    let illegal = lexer.next_token();
    assert_eq!(illegal.token_type, TokenType::ILLEGAL);
    assert_eq!(illegal.literal, "@");
    let after = lexer.next_token();
    assert_eq!(after.token_type, TokenType::IDENT);
    assert_eq!(after.literal, "b");
}
