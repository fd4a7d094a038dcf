use vstd::prelude::*;

verus! {

/// The closed set of lexical categories of the language.
#[allow(non_camel_case_types)]
#[derive(Debug, PartialEq, Eq, Structural, Clone, Copy, Hash)]
pub enum TokenType {
    ILLEGAL,
    EOF,
    // Identifiers + literals
    IDENT,
    INT,
    // Operators
    ASSIGN,
    PLUS,
    MINUS,
    BANG,
    ASTERISK,
    SLASH,
    LT,
    GT,
    EQ,
    NOT_EQ,
    // Delimiters
    COMMA,
    SEMICOLON,
    LPAREN,
    RPAREN,
    LBRACE,
    RBRACE,
    // Keywords
    FUNCTION,
    LET,
    IF,
    TRUE,
    FALSE,
    ELSE,
    RETURN,
}

impl TokenType {
    /// The upper-case name of the category, as it appears in diagnostics.
    pub open spec fn spec_name(self) -> Seq<char> {
        match self {
            TokenType::ILLEGAL => "ILLEGAL"@,
            TokenType::EOF => "EOF"@,
            TokenType::IDENT => "IDENT"@,
            TokenType::INT => "INT"@,
            TokenType::ASSIGN => "ASSIGN"@,
            TokenType::PLUS => "PLUS"@,
            TokenType::MINUS => "MINUS"@,
            TokenType::BANG => "BANG"@,
            TokenType::ASTERISK => "ASTERISK"@,
            TokenType::SLASH => "SLASH"@,
            TokenType::LT => "LT"@,
            TokenType::GT => "GT"@,
            TokenType::EQ => "EQ"@,
            TokenType::NOT_EQ => "NOT_EQ"@,
            TokenType::COMMA => "COMMA"@,
            TokenType::SEMICOLON => "SEMICOLON"@,
            TokenType::LPAREN => "LPAREN"@,
            TokenType::RPAREN => "RPAREN"@,
            TokenType::LBRACE => "LBRACE"@,
            TokenType::RBRACE => "RBRACE"@,
            TokenType::FUNCTION => "FUNCTION"@,
            TokenType::LET => "LET"@,
            TokenType::IF => "IF"@,
            TokenType::TRUE => "TRUE"@,
            TokenType::FALSE => "FALSE"@,
            TokenType::ELSE => "ELSE"@,
            TokenType::RETURN => "RETURN"@,
        }
    }

    /// The category's name as an owned string, for error messages.
    pub fn name(&self) -> (s: String)
        ensures
            s@ == self.spec_name(),
    {
        match self {
            TokenType::ILLEGAL => String::from_str("ILLEGAL"),
            TokenType::EOF => String::from_str("EOF"),
            TokenType::IDENT => String::from_str("IDENT"),
            TokenType::INT => String::from_str("INT"),
            TokenType::ASSIGN => String::from_str("ASSIGN"),
            TokenType::PLUS => String::from_str("PLUS"),
            TokenType::MINUS => String::from_str("MINUS"),
            TokenType::BANG => String::from_str("BANG"),
            TokenType::ASTERISK => String::from_str("ASTERISK"),
            TokenType::SLASH => String::from_str("SLASH"),
            TokenType::LT => String::from_str("LT"),
            TokenType::GT => String::from_str("GT"),
            TokenType::EQ => String::from_str("EQ"),
            TokenType::NOT_EQ => String::from_str("NOT_EQ"),
            TokenType::COMMA => String::from_str("COMMA"),
            TokenType::SEMICOLON => String::from_str("SEMICOLON"),
            TokenType::LPAREN => String::from_str("LPAREN"),
            TokenType::RPAREN => String::from_str("RPAREN"),
            TokenType::LBRACE => String::from_str("LBRACE"),
            TokenType::RBRACE => String::from_str("RBRACE"),
            TokenType::FUNCTION => String::from_str("FUNCTION"),
            TokenType::LET => String::from_str("LET"),
            TokenType::IF => String::from_str("IF"),
            TokenType::TRUE => String::from_str("TRUE"),
            TokenType::FALSE => String::from_str("FALSE"),
            TokenType::ELSE => String::from_str("ELSE"),
            TokenType::RETURN => String::from_str("RETURN"),
        }
    }
}

/// The mathematical value of a token: its category and the characters
/// of its literal text.
pub ghost struct TokenView {
    pub token_type: TokenType,
    pub literal: Seq<char>,
}

/// A lexical token: a category together with the literal text it was
/// scanned from.
#[derive(Debug)]
pub struct Token {
    pub token_type: TokenType,
    pub literal: String,
}

impl View for Token {
    type V = TokenView;

    open spec fn view(&self) -> TokenView {
        TokenView { token_type: self.token_type, literal: self.literal@ }
    }
}

impl Clone for Token {
    fn clone(&self) -> (t: Token)
        ensures
            t@ == self@,
    {
        Token { token_type: self.token_type, literal: self.literal.clone() }
    }
}

/// Relies on char::to_string: the resulting string holds exactly the one
/// given character.
#[verifier::external_body]
pub(crate) fn char_to_string(character: char) -> (s: String)
    ensures
        s@ == seq![character],
{
    character.to_string()
}

/// Character-by-character string comparison; true exactly when the two
/// views are equal.
pub(crate) fn str_eq(a: &str, b: &str) -> (r: bool)
    ensures
        r == (a@ == b@),
{
    let a_len = a.unicode_len();
    let b_len = b.unicode_len();
    if a_len != b_len {
        return false;
    }
    let mut i: usize = 0;
    while i < a_len
        invariant
            i <= a_len,
            a_len == a@.len(),
            b_len == b@.len(),
            a_len == b_len,
            forall|k: int| 0 <= k < i ==> a@[k] == b@[k],
        decreases a_len - i,
    {
        if a.get_char(i) != b.get_char(i) {
            return false;
        }
        i = i + 1;
    }
    proof {
        assert(a@ =~= b@);
    }
    true
}

impl Token {
    /// Builds a token whose literal is the single given character.
    pub fn new(token_type: TokenType, character: char) -> (t: Token)
        ensures
            t@ == (TokenView { token_type, literal: seq![character] }),
    {
        Token { token_type, literal: char_to_string(character) }
    }
}

/// The category of a scanned word: one of the fixed keywords, or a
/// plain identifier for any other letter-starting word.
pub open spec fn spec_keyword_type(word: Seq<char>) -> TokenType {
    if word == "let"@ {
        TokenType::LET
    } else if word == "fn"@ {
        TokenType::FUNCTION
    } else if word == "if"@ {
        TokenType::IF
    } else if word == "true"@ {
        TokenType::TRUE
    } else if word == "false"@ {
        TokenType::FALSE
    } else if word == "else"@ {
        TokenType::ELSE
    } else if word == "return"@ {
        TokenType::RETURN
    } else {
        TokenType::IDENT
    }
}

/// Maps a recognized keyword spelling to its keyword category, and any
/// other word to the identifier category.
pub fn look_up_identifier(identifier: &str) -> (t: TokenType)
    ensures
        t == spec_keyword_type(identifier@),
{
    if str_eq(identifier, "let") {
        TokenType::LET
    } else if str_eq(identifier, "fn") {
        TokenType::FUNCTION
    } else if str_eq(identifier, "if") {
        TokenType::IF
    } else if str_eq(identifier, "true") {
        TokenType::TRUE
    } else if str_eq(identifier, "false") {
        TokenType::FALSE
    } else if str_eq(identifier, "else") {
        TokenType::ELSE
    } else if str_eq(identifier, "return") {
        TokenType::RETURN
    } else {
        TokenType::IDENT
    }
}

} // verus!
