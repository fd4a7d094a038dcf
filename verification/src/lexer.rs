use vstd::prelude::*;

use crate::token::{spec_keyword_type, char_to_string, look_up_identifier, Token, TokenType,
    TokenView};

verus! {

/// Whitespace skipped between tokens: space, tab, carriage return, newline.
pub open spec fn is_whitespace_char(c: char) -> bool {
    c == ' ' || c == '\t' || c == '\r' || c == '\n'
}

/// Characters that may form identifiers and keywords. Digits are not
/// part of identifiers in this grammar.
pub open spec fn is_letter_char(c: char) -> bool {
    ('a' <= c && c <= 'z') || ('A' <= c && c <= 'Z') || c == '_'
}

/// ASCII decimal digits, the only characters of integer literals.
pub open spec fn is_digit_char(c: char) -> bool {
    '0' <= c && c <= '9'
}

pub fn is_letter(character: char) -> (b: bool)
    ensures
        b == is_letter_char(character),
{
    ('a' <= character && character <= 'z') || ('A' <= character && character <= 'Z') || character
        == '_'
}

pub fn is_digit(ch: char) -> (b: bool)
    ensures
        b == is_digit_char(ch),
{
    '0' <= ch && ch <= '9'
}

/// First index at or after `i` holding a non-whitespace character, or the
/// end of the text.
pub open spec fn skip_ws(s: Seq<char>, i: int) -> int
    decreases s.len() - i,
{
    if i < 0 || i >= s.len() {
        i
    } else if is_whitespace_char(s[i]) {
        skip_ws(s, i + 1)
    } else {
        i
    }
}

/// First index at or after `i` holding a non-letter character, or the end
/// of the text.
pub open spec fn word_end(s: Seq<char>, i: int) -> int
    decreases s.len() - i,
{
    if i < 0 || i >= s.len() {
        i
    } else if is_letter_char(s[i]) {
        word_end(s, i + 1)
    } else {
        i
    }
}

/// First index at or after `i` holding a non-digit character, or the end
/// of the text.
pub open spec fn num_end(s: Seq<char>, i: int) -> int
    decreases s.len() - i,
{
    if i < 0 || i >= s.len() {
        i
    } else if is_digit_char(s[i]) {
        num_end(s, i + 1)
    } else {
        i
    }
}

pub proof fn lemma_skip_ws(s: Seq<char>, i: int)
    requires
        0 <= i <= s.len(),
    ensures
        i <= skip_ws(s, i) <= s.len(),
        skip_ws(s, i) < s.len() ==> !is_whitespace_char(s[skip_ws(s, i)]),
    decreases s.len() - i,
{
    if i < s.len() && is_whitespace_char(s[i]) {
        lemma_skip_ws(s, i + 1);
    }
}

pub proof fn lemma_word_end(s: Seq<char>, i: int)
    requires
        0 <= i <= s.len(),
    ensures
        i <= word_end(s, i) <= s.len(),
        word_end(s, i) < s.len() ==> !is_letter_char(s[word_end(s, i)]),
        forall|k: int| i <= k < word_end(s, i) ==> is_letter_char(s[k]),
    decreases s.len() - i,
{
    if i < s.len() && is_letter_char(s[i]) {
        lemma_word_end(s, i + 1);
    }
}

pub proof fn lemma_num_end(s: Seq<char>, i: int)
    requires
        0 <= i <= s.len(),
    ensures
        i <= num_end(s, i) <= s.len(),
        num_end(s, i) < s.len() ==> !is_digit_char(s[num_end(s, i)]),
        forall|k: int| i <= k < num_end(s, i) ==> is_digit_char(s[k]),
    decreases s.len() - i,
{
    if i < s.len() && is_digit_char(s[i]) {
        lemma_num_end(s, i + 1);
    }
}

/// The token whose text begins at index `i` of `s`, where `i` is already
/// past any whitespace. Past the end of the text this is the end-of-input
/// token.
pub open spec fn token_at(s: Seq<char>, i: int) -> TokenView {
    if i < 0 || i >= s.len() {
        TokenView { token_type: TokenType::EOF, literal: seq!['\0'] }
    } else {
        let c = s[i];
        if c == '=' {
            if i + 1 < s.len() && s[i + 1] == '=' {
                TokenView { token_type: TokenType::EQ, literal: seq!['=', '='] }
            } else {
                TokenView { token_type: TokenType::ASSIGN, literal: seq![c] }
            }
        } else if c == '!' {
            if i + 1 < s.len() && s[i + 1] == '=' {
                TokenView { token_type: TokenType::NOT_EQ, literal: seq!['!', '='] }
            } else {
                TokenView { token_type: TokenType::BANG, literal: seq![c] }
            }
        } else if c == '+' {
            TokenView { token_type: TokenType::PLUS, literal: seq![c] }
        } else if c == '-' {
            TokenView { token_type: TokenType::MINUS, literal: seq![c] }
        } else if c == '/' {
            TokenView { token_type: TokenType::SLASH, literal: seq![c] }
        } else if c == '*' {
            TokenView { token_type: TokenType::ASTERISK, literal: seq![c] }
        } else if c == '<' {
            TokenView { token_type: TokenType::LT, literal: seq![c] }
        } else if c == '>' {
            TokenView { token_type: TokenType::GT, literal: seq![c] }
        } else if c == ';' {
            TokenView { token_type: TokenType::SEMICOLON, literal: seq![c] }
        } else if c == '(' {
            TokenView { token_type: TokenType::LPAREN, literal: seq![c] }
        } else if c == ')' {
            TokenView { token_type: TokenType::RPAREN, literal: seq![c] }
        } else if c == ',' {
            TokenView { token_type: TokenType::COMMA, literal: seq![c] }
        } else if c == '{' {
            TokenView { token_type: TokenType::LBRACE, literal: seq![c] }
        } else if c == '}' {
            TokenView { token_type: TokenType::RBRACE, literal: seq![c] }
        } else if c == '\0' {
            TokenView { token_type: TokenType::EOF, literal: seq![c] }
        } else if is_letter_char(c) {
            let w = s.subrange(i, word_end(s, i));
            TokenView { token_type: spec_keyword_type(w), literal: w }
        } else if is_digit_char(c) {
            TokenView { token_type: TokenType::INT, literal: s.subrange(i, num_end(s, i)) }
        } else {
            TokenView { token_type: TokenType::ILLEGAL, literal: seq![c] }
        }
    }
}

/// The scan position immediately after the token that begins at index `i`
/// (with `i` already past any whitespace). At the end of the text the
/// position stays at the end: end-of-input is never consumed.
pub open spec fn token_end(s: Seq<char>, i: int) -> int {
    if i < 0 || i >= s.len() {
        s.len() as int
    } else {
        let c = s[i];
        if c == '=' || c == '!' {
            if i + 1 < s.len() && s[i + 1] == '=' {
                i + 2
            } else {
                i + 1
            }
        } else if is_letter_char(c) {
            word_end(s, i)
        } else if is_digit_char(c) {
            num_end(s, i)
        } else {
            i + 1
        }
    }
}

pub proof fn lemma_token_end(s: Seq<char>, i: int)
    requires
        0 <= i <= s.len(),
    ensures
        i <= token_end(s, i) <= s.len(),
        i < s.len() ==> i < token_end(s, i),
{
    if i < s.len() {
        lemma_word_end(s, i);
        lemma_num_end(s, i);
        if is_letter_char(s[i]) {
            assert(word_end(s, i) == word_end(s, i + 1));
        }
        if is_digit_char(s[i]) {
            assert(num_end(s, i) == num_end(s, i + 1));
        }
    }
}

/// The whole token stream of the text from index `i` on: every token up
/// to but not including the final end-of-input token. A NUL character in
/// the middle of the text yields an end-of-input-category token in the
/// middle of the stream.
pub open spec fn spec_tokens(s: Seq<char>, i: int) -> Seq<TokenView>
    decreases s.len() - i,
        via spec_tokens_decreases
{
    if i < 0 || i >= s.len() {
        Seq::empty()
    } else {
        let j = skip_ws(s, i);
        if j >= s.len() {
            Seq::empty()
        } else {
            seq![token_at(s, j)] + spec_tokens(s, token_end(s, j))
        }
    }
}

#[via_fn]
proof fn spec_tokens_decreases(s: Seq<char>, i: int) {
    if 0 <= i < s.len() {
        lemma_skip_ws(s, i);
        let j = skip_ws(s, i);
        if j < s.len() {
            lemma_token_end(s, j);
        }
    }
}

/// Unfolds one step of the token stream: its head is the token scanned
/// at the first non-whitespace position, and its tail is the stream from
/// that token's end.
pub proof fn lemma_spec_tokens_step(s: Seq<char>, i: int)
    requires
        0 <= i <= s.len(),
    ensures
        spec_tokens(s, i).len() > 0 ==> spec_tokens(s, i)[0] == token_at(s, skip_ws(s, i))
            && spec_tokens(s, i).skip(1) == spec_tokens(s, token_end(s, skip_ws(s, i)))
            && skip_ws(s, i) < s.len(),
        spec_tokens(s, i).len() == 0 ==> token_at(s, skip_ws(s, i)) == (TokenView {
            token_type: TokenType::EOF,
            literal: seq!['\0'],
        }) && token_end(s, skip_ws(s, i)) == s.len(),
{
    lemma_skip_ws(s, i);
    let j = skip_ws(s, i);
    if i < s.len() && j < s.len() {
        assert(spec_tokens(s, i) == seq![token_at(s, j)] + spec_tokens(s, token_end(s, j)));
        assert((seq![token_at(s, j)] + spec_tokens(s, token_end(s, j))).skip(1) =~= spec_tokens(
            s,
            token_end(s, j),
        ));
    }
}

/// The token of the stream at index `k`, taken as the end-of-input token
/// past the end of the stream.
pub open spec fn tok_at(toks: Seq<TokenView>, k: int) -> TokenView {
    if 0 <= k < toks.len() {
        toks[k]
    } else {
        TokenView { token_type: TokenType::EOF, literal: seq!['\0'] }
    }
}

/// A single-pass scanner over source text with one character of
/// lookahead.
pub struct Lexer {
    input: String,
    position: usize,
    read_position: usize,
    ch: char,
    length: usize,
}

impl Lexer {
    /// The characters of the source text.
    pub closed spec fn src(&self) -> Seq<char> {
        self.input@
    }

    /// The index of the character currently under examination.
    pub closed spec fn pos(&self) -> int {
        self.position as int
    }

    /// The scanner's internal consistency: the cached length is the
    /// character count, the lookahead window follows the current
    /// position, and past the end the examined character is the sentinel.
    pub closed spec fn wf(&self) -> bool {
        &&& self.length == self.input@.len()
        &&& self.position <= self.length
        &&& (self.position < self.length ==> self.read_position == self.position + 1
            && self.ch == self.input@[self.position as int])
        &&& (self.position == self.length ==> self.read_position == self.length && self.ch
            == '\0')
    }

    /// A consistent scanner's position always lies within its text.
    pub proof fn lemma_pos_in_range(&self)
        requires
            self.wf(),
        ensures
            0 <= self.pos() <= self.src().len(),
    {
    }

    pub fn new(input: String) -> (lexer: Lexer)
        ensures
            lexer.wf(),
            lexer.src() == input@,
            lexer.pos() == 0,
    {
        let length = input.as_str().unicode_len();
        let mut lexer = Lexer { input, position: 0, read_position: 0, ch: '\0', length };
        lexer.read_char();
        lexer
    }

    fn read_char(&mut self)
        requires
            old(self).length == old(self).input@.len(),
            old(self).read_position <= old(self).input@.len() + 1,
        ensures
            final(self).wf(),
            final(self).input@ == old(self).input@,
            final(self).position as int == (if old(self).read_position < old(self).input@.len() {
                old(self).read_position as int
            } else {
                old(self).input@.len() as int
            }),
    {
        if self.read_position >= self.length {
            self.ch = '\0';
            self.position = self.length;
            self.read_position = self.length;
        } else {
            self.ch = self.input.as_str().get_char(self.read_position);
            self.position = self.read_position;
            self.read_position = self.read_position + 1;
        }
    }

    fn skip_whitespace(&mut self)
        requires
            old(self).wf(),
        ensures
            final(self).wf(),
            final(self).input@ == old(self).input@,
            final(self).position as int == skip_ws(old(self).input@, old(self).position as int),
    {
        while self.ch == '\r' || self.ch == '\t' || self.ch == ' ' || self.ch == '\n'
            invariant
                self.wf(),
                self.input@ == old(self).input@,
                skip_ws(self.input@, self.position as int) == skip_ws(
                    old(self).input@,
                    old(self).position as int,
                ),
            decreases self.input@.len() - self.position,
        {
            self.read_char();
        }
    }

    fn read_identifier(&mut self) -> (word: String)
        requires
            old(self).wf(),
        ensures
            final(self).wf(),
            final(self).input@ == old(self).input@,
            final(self).position as int == word_end(old(self).input@, old(self).position as int),
            word@ == old(self).input@.subrange(
                old(self).position as int,
                final(self).position as int,
            ),
    {
        let start = self.position;
        while is_letter(self.ch)
            invariant
                self.wf(),
                self.input@ == old(self).input@,
                start <= self.position,
                word_end(self.input@, self.position as int) == word_end(
                    old(self).input@,
                    old(self).position as int,
                ),
            decreases self.input@.len() - self.position,
        {
            self.read_char();
        }
        let word = self.input.as_str().substring_char(start, self.position);
        word.to_owned()
    }

    fn read_number(&mut self) -> (digits: String)
        requires
            old(self).wf(),
        ensures
            final(self).wf(),
            final(self).input@ == old(self).input@,
            final(self).position as int == num_end(old(self).input@, old(self).position as int),
            digits@ == old(self).input@.subrange(
                old(self).position as int,
                final(self).position as int,
            ),
    {
        let start = self.position;
        while is_digit(self.ch)
            invariant
                self.wf(),
                self.input@ == old(self).input@,
                start <= self.position,
                num_end(self.input@, self.position as int) == num_end(
                    old(self).input@,
                    old(self).position as int,
                ),
            decreases self.input@.len() - self.position,
        {
            self.read_char();
        }
        let digits = self.input.as_str().substring_char(start, self.position);
        digits.to_owned()
    }

    fn peak_char(&self) -> (c: char)
        requires
            self.wf(),
        ensures
            c == (if self.pos() + 1 < self.src().len() && self.pos() < self.src().len() {
                self.src()[self.pos() + 1]
            } else {
                '\0'
            }),
    {
        if self.read_position >= self.length {
            '\0'
        } else {
            self.input.as_str().get_char(self.read_position)
        }
    }

    /// Scans and returns the next token: skips whitespace, classifies the
    /// current character, and advances past the consumed characters. At
    /// the end of the input it keeps returning the end-of-input token.
    pub fn next_token(&mut self) -> (t: Token)
        requires
            old(self).wf(),
        ensures
            final(self).wf(),
            final(self).src() == old(self).src(),
            t@ == token_at(old(self).src(), skip_ws(old(self).src(), old(self).pos())),
            final(self).pos() == token_end(
                old(self).src(),
                skip_ws(old(self).src(), old(self).pos()),
            ),
    {
        self.skip_whitespace();
        proof {
            lemma_skip_ws(old(self).input@, old(self).position as int);
        }
        let token = match self.ch {
            '=' => {
                if self.peak_char() != '=' {
                    Token::new(TokenType::ASSIGN, self.ch)
                } else {
                    let ch = self.ch;
                    self.read_char();
                    let mut literal = char_to_string(ch);
                    literal.append(char_to_string(self.ch).as_str());
                    proof {
                        assert(literal@ =~= seq!['=', '=']);
                    }
                    Token { token_type: TokenType::EQ, literal }
                }
            },
            '+' => Token::new(TokenType::PLUS, self.ch),
            '-' => Token::new(TokenType::MINUS, self.ch),
            '!' => {
                if self.peak_char() == '=' {
                    let ch = self.ch;
                    self.read_char();
                    let mut literal = char_to_string(ch);
                    literal.append(char_to_string(self.ch).as_str());
                    proof {
                        assert(literal@ =~= seq!['!', '=']);
                    }
                    Token { token_type: TokenType::NOT_EQ, literal }
                } else {
                    Token::new(TokenType::BANG, self.ch)
                }
            },
            '/' => Token::new(TokenType::SLASH, self.ch),
            '*' => Token::new(TokenType::ASTERISK, self.ch),
            '<' => Token::new(TokenType::LT, self.ch),
            '>' => Token::new(TokenType::GT, self.ch),
            ';' => Token::new(TokenType::SEMICOLON, self.ch),
            '(' => Token::new(TokenType::LPAREN, self.ch),
            ')' => Token::new(TokenType::RPAREN, self.ch),
            ',' => Token::new(TokenType::COMMA, self.ch),
            '{' => Token::new(TokenType::LBRACE, self.ch),
            '}' => Token::new(TokenType::RBRACE, self.ch),
            '\0' => Token::new(TokenType::EOF, self.ch),
            _ => {
                if is_letter(self.ch) {
                    let word = self.read_identifier();
                    let token_type = look_up_identifier(word.as_str());
                    return Token { token_type, literal: word };
                } else if is_digit(self.ch) {
                    let digits = self.read_number();
                    return Token { token_type: TokenType::INT, literal: digits };
                } else {
                    let illegal = Token::new(TokenType::ILLEGAL, self.ch);
                    self.read_char();
                    return illegal;
                }
            },
        };
        self.read_char();
        token
    }
}

} // verus!
