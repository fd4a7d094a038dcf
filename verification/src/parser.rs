use vstd::prelude::*;

use crate::ast::{Boolean, ExprView, Expression, ExpressionStatement, IdentView, Identifier,
    InfixExpression, IntegerLiteral, LetStatement, PrefixExpression, Program, ReturnStatement,
    Statement, StmtView};
use crate::lexer::{is_digit, is_digit_char, lemma_spec_tokens_step, spec_tokens, tok_at, Lexer};
use crate::token::{Token, TokenType, TokenView};

verus! {

/// The binding strength of an operator during expression parsing, used
/// only as a comparison rank and never persisted.
#[derive(Debug, PartialEq, Eq, Structural, Clone, Copy)]
pub enum Precedence {
    Lowest,
    Equals,
    LessGreater,
    Sum,
    Product,
    Prefix,
    Call,
}

impl Precedence {
    /// The rank of the precedence level; higher ranks bind tighter.
    pub open spec fn spec_rank(self) -> int {
        match self {
            Precedence::Lowest => 0,
            Precedence::Equals => 1,
            Precedence::LessGreater => 2,
            Precedence::Sum => 3,
            Precedence::Product => 4,
            Precedence::Prefix => 5,
            Precedence::Call => 6,
        }
    }

    /// The rank as a machine integer, for comparisons.
    pub fn rank(&self) -> (r: u8)
        ensures
            r as int == self.spec_rank(),
    {
        match self {
            Precedence::Lowest => 0,
            Precedence::Equals => 1,
            Precedence::LessGreater => 2,
            Precedence::Sum => 3,
            Precedence::Product => 4,
            Precedence::Prefix => 5,
            Precedence::Call => 6,
        }
    }
}

/// The precedence rank of the operator borne by a token category;
/// categories that are no infix operator rank lowest.
pub open spec fn spec_precedence_of(t: TokenType) -> Precedence {
    match t {
        TokenType::EQ => Precedence::Equals,
        TokenType::NOT_EQ => Precedence::Equals,
        TokenType::LT => Precedence::LessGreater,
        TokenType::GT => Precedence::LessGreater,
        TokenType::PLUS => Precedence::Sum,
        TokenType::MINUS => Precedence::Sum,
        TokenType::SLASH => Precedence::Product,
        TokenType::ASTERISK => Precedence::Product,
        _ => Precedence::Lowest,
    }
}

/// The precedence table of the grammar's infix operators.
pub fn precedence_of(t: TokenType) -> (p: Precedence)
    ensures
        p == spec_precedence_of(t),
{
    match t {
        TokenType::EQ => Precedence::Equals,
        TokenType::NOT_EQ => Precedence::Equals,
        TokenType::LT => Precedence::LessGreater,
        TokenType::GT => Precedence::LessGreater,
        TokenType::PLUS => Precedence::Sum,
        TokenType::MINUS => Precedence::Sum,
        TokenType::SLASH => Precedence::Product,
        TokenType::ASTERISK => Precedence::Product,
        _ => Precedence::Lowest,
    }
}

/// A prefix-position parsing capability: which routine handles a token
/// category found at the start of an expression.
#[derive(Debug, PartialEq, Eq, Structural, Clone, Copy)]
pub enum PrefixHandler {
    Identifier,
    IntegerLiteral,
    PrefixOperator,
    BooleanLiteral,
}

/// An infix-position parsing capability: which routine handles a token
/// category found between two expressions.
#[derive(Debug, PartialEq, Eq, Structural, Clone, Copy)]
pub enum InfixHandler {
    InfixOperator,
}

/// The handler registered for `t` in the registry `regs`, considering
/// only the first `i` entries; a later registration overrides an earlier
/// one.
pub open spec fn reg_lookup<H>(regs: Seq<(TokenType, H)>, t: TokenType, i: int) -> Option<H>
    decreases i,
{
    if i <= 0 || i > regs.len() {
        None
    } else if regs[i - 1].0 == t {
        Some(regs[i - 1].1)
    } else {
        reg_lookup(regs, t, i - 1)
    }
}

/// The handler registered for `t` in the registry `regs`.
pub open spec fn registered<H>(regs: Seq<(TokenType, H)>, t: TokenType) -> Option<H> {
    reg_lookup(regs, t, regs.len() as int)
}

/// The prefix handlers that the parser registers at construction.
pub open spec fn canonical_prefix_registry() -> Seq<(TokenType, PrefixHandler)> {
    seq![
        (TokenType::IDENT, PrefixHandler::Identifier),
        (TokenType::INT, PrefixHandler::IntegerLiteral),
        (TokenType::BANG, PrefixHandler::PrefixOperator),
        (TokenType::MINUS, PrefixHandler::PrefixOperator),
        (TokenType::TRUE, PrefixHandler::BooleanLiteral),
        (TokenType::FALSE, PrefixHandler::BooleanLiteral),
    ]
}

/// The infix handlers that the parser registers at construction.
pub open spec fn canonical_infix_registry() -> Seq<(TokenType, InfixHandler)> {
    seq![
        (TokenType::PLUS, InfixHandler::InfixOperator),
        (TokenType::MINUS, InfixHandler::InfixOperator),
        (TokenType::SLASH, InfixHandler::InfixOperator),
        (TokenType::ASTERISK, InfixHandler::InfixOperator),
        (TokenType::EQ, InfixHandler::InfixOperator),
        (TokenType::NOT_EQ, InfixHandler::InfixOperator),
        (TokenType::LT, InfixHandler::InfixOperator),
        (TokenType::GT, InfixHandler::InfixOperator),
    ]
}

/// The prefix handler that the construction-time registry assigns to a
/// token category.
pub open spec fn prefix_handler_for(t: TokenType) -> Option<PrefixHandler> {
    match t {
        TokenType::IDENT => Some(PrefixHandler::Identifier),
        TokenType::INT => Some(PrefixHandler::IntegerLiteral),
        TokenType::BANG => Some(PrefixHandler::PrefixOperator),
        TokenType::MINUS => Some(PrefixHandler::PrefixOperator),
        TokenType::TRUE => Some(PrefixHandler::BooleanLiteral),
        TokenType::FALSE => Some(PrefixHandler::BooleanLiteral),
        _ => None,
    }
}

/// The infix handler that the construction-time registry assigns to a
/// token category.
pub open spec fn infix_handler_for(t: TokenType) -> Option<InfixHandler> {
    match t {
        TokenType::PLUS => Some(InfixHandler::InfixOperator),
        TokenType::MINUS => Some(InfixHandler::InfixOperator),
        TokenType::SLASH => Some(InfixHandler::InfixOperator),
        TokenType::ASTERISK => Some(InfixHandler::InfixOperator),
        TokenType::EQ => Some(InfixHandler::InfixOperator),
        TokenType::NOT_EQ => Some(InfixHandler::InfixOperator),
        TokenType::LT => Some(InfixHandler::InfixOperator),
        TokenType::GT => Some(InfixHandler::InfixOperator),
        _ => None,
    }
}

pub proof fn lemma_canonical_prefix(t: TokenType)
    ensures
        registered(canonical_prefix_registry(), t) == prefix_handler_for(t),
{
    reveal_with_fuel(reg_lookup, 8);
}

pub proof fn lemma_canonical_infix(t: TokenType)
    ensures
        registered(canonical_infix_registry(), t) == infix_handler_for(t),
{
    reveal_with_fuel(reg_lookup, 10);
}

/// The message recorded when a required token category is not the next
/// token.
pub open spec fn peek_error_message(expected: TokenType, got: TokenType) -> Seq<char> {
    "expected next token to be "@ + expected.spec_name() + ", got "@ + got.spec_name()
        + " instead"@
}

/// The message recorded when no prefix handler exists for the token
/// category that begins an expression.
pub open spec fn no_prefix_message(t: TokenType) -> Seq<char> {
    "no prefix parse function for category "@ + t.spec_name() + " found"@
}

/// The message recorded when an integer literal's digits exceed the
/// value range.
pub open spec fn int_parse_error_message(literal: Seq<char>) -> Seq<char> {
    "could not parse "@ + literal + " as integer"@
}

/// The token stream from index `k` on; empty past the end.
pub open spec fn stream_rest(toks: Seq<TokenView>, k: int) -> Seq<TokenView> {
    if k < 0 {
        toks
    } else if k > toks.len() {
        Seq::empty()
    } else {
        toks.skip(k)
    }
}

/// The parser: it owns the lexer, holds two tokens of lookahead, the
/// accumulated error messages, and the two handler registries. The ghost
/// fields carry the token stream being parsed and the index of the
/// current token within it.
pub struct Parser {
    lexer: Lexer,
    current_token: Token,
    peek_token: Token,
    errors: Vec<String>,
    prefix_parse_fns: Vec<(TokenType, PrefixHandler)>,
    infix_parse_fns: Vec<(TokenType, InfixHandler)>,
    tokens: Ghost<Seq<TokenView>>,
    cursor: Ghost<int>,
}

impl Parser {
    /// The token stream the parser was built on.
    pub closed spec fn toks(self) -> Seq<TokenView> {
        self.tokens@
    }

    /// The index of the current token within the stream.
    pub closed spec fn at(self) -> int {
        self.cursor@
    }

    /// The current token's value.
    pub closed spec fn cur(self) -> TokenView {
        self.current_token@
    }

    /// The peek token's value.
    pub closed spec fn peek(self) -> TokenView {
        self.peek_token@
    }

    /// The accumulated error messages, in order.
    pub closed spec fn msgs(self) -> Seq<Seq<char>> {
        self.errors@.map_values(|m: String| m@)
    }

    /// The prefix handler registry's contents.
    pub closed spec fn prefix_regs(self) -> Seq<(TokenType, PrefixHandler)> {
        self.prefix_parse_fns@
    }

    /// The infix handler registry's contents.
    pub closed spec fn infix_regs(self) -> Seq<(TokenType, InfixHandler)> {
        self.infix_parse_fns@
    }

    /// Both registries hold exactly what construction registers.
    pub open spec fn handlers_ready(self) -> bool {
        self.prefix_regs() == canonical_prefix_registry() && self.infix_regs()
            == canonical_infix_registry()
    }

    /// The parser's internal consistency: the lexer is consistent, the
    /// cursor lies within the stream (or just past it), the two lookahead
    /// tokens are the stream's tokens at the cursor, and the lexer still
    /// holds exactly the stream beyond the lookahead.
    pub closed spec fn wf(self) -> bool {
        &&& self.lexer.wf()
        &&& 0 <= self.lexer.pos() <= self.lexer.src().len()
        &&& 0 <= self.cursor@ <= self.tokens@.len() + 1
        &&& self.current_token@ == tok_at(self.tokens@, self.cursor@)
        &&& self.peek_token@ == tok_at(self.tokens@, self.cursor@ + 1)
        &&& spec_tokens(self.lexer.src(), self.lexer.pos()) == stream_rest(
            self.tokens@,
            self.cursor@ + 2,
        )
    }

    /// Builds a parser over the given lexer's remaining input, loading
    /// the two lookahead tokens and registering the grammar's prefix and
    /// infix handlers.
    pub fn new(lexer: Lexer) -> (parser: Parser)
        requires
            lexer.wf(),
        ensures
            parser.wf(),
            parser.handlers_ready(),
            parser.toks() == spec_tokens(lexer.src(), lexer.pos()),
            parser.at() == 0,
            parser.msgs() == Seq::<Seq<char>>::empty(),
    {
        let ghost toks = spec_tokens(lexer.src(), lexer.pos());
        let mut lexer = lexer;
        proof {
            lexer.lemma_pos_in_range();
            lemma_spec_tokens_step(lexer.src(), lexer.pos());
            crate::lexer::lemma_skip_ws(lexer.src(), lexer.pos());
            crate::lexer::lemma_token_end(lexer.src(), crate::lexer::skip_ws(lexer.src(), lexer.pos()));
        }
        let current_token = lexer.next_token();
        proof {
            lemma_spec_tokens_step(lexer.src(), lexer.pos());
            crate::lexer::lemma_skip_ws(lexer.src(), lexer.pos());
            crate::lexer::lemma_token_end(lexer.src(), crate::lexer::skip_ws(lexer.src(), lexer.pos()));
        }
        let peek_token = lexer.next_token();
        proof {
            assert(current_token@ == tok_at(toks, 0));
            assert(peek_token@ == tok_at(toks, 1));
            assert(spec_tokens(lexer.src(), lexer.pos()) == stream_rest(toks, 2));
        }
        let mut parser = Parser {
            lexer,
            current_token,
            peek_token,
            errors: Vec::new(),
            prefix_parse_fns: Vec::new(),
            infix_parse_fns: Vec::new(),
            tokens: Ghost(toks),
            cursor: Ghost(0),
        };
        parser.register_prefix(TokenType::IDENT, PrefixHandler::Identifier);
        parser.register_prefix(TokenType::INT, PrefixHandler::IntegerLiteral);
        parser.register_prefix(TokenType::BANG, PrefixHandler::PrefixOperator);
        parser.register_prefix(TokenType::MINUS, PrefixHandler::PrefixOperator);
        parser.register_prefix(TokenType::TRUE, PrefixHandler::BooleanLiteral);
        parser.register_prefix(TokenType::FALSE, PrefixHandler::BooleanLiteral);
        parser.register_infix(TokenType::PLUS, InfixHandler::InfixOperator);
        parser.register_infix(TokenType::MINUS, InfixHandler::InfixOperator);
        parser.register_infix(TokenType::SLASH, InfixHandler::InfixOperator);
        parser.register_infix(TokenType::ASTERISK, InfixHandler::InfixOperator);
        parser.register_infix(TokenType::EQ, InfixHandler::InfixOperator);
        parser.register_infix(TokenType::NOT_EQ, InfixHandler::InfixOperator);
        parser.register_infix(TokenType::LT, InfixHandler::InfixOperator);
        parser.register_infix(TokenType::GT, InfixHandler::InfixOperator);
        proof {
            assert(parser.prefix_regs() =~= canonical_prefix_registry());
            assert(parser.infix_regs() =~= canonical_infix_registry());
            assert(parser.msgs() =~= Seq::<Seq<char>>::empty());
        }
        parser
    }

    /// Adds a prefix handler for a token category; a later registration
    /// overrides an earlier one.
    pub fn register_prefix(&mut self, token_type: TokenType, handler: PrefixHandler)
        ensures
            final(self).prefix_regs() == old(self).prefix_regs().push((token_type, handler)),
            final(self).infix_regs() == old(self).infix_regs(),
            final(self).toks() == old(self).toks(),
            final(self).at() == old(self).at(),
            final(self).cur() == old(self).cur(),
            final(self).peek() == old(self).peek(),
            final(self).msgs() == old(self).msgs(),
            final(self).wf() <==> old(self).wf(),
    {
        self.prefix_parse_fns.push((token_type, handler));
    }

    /// Adds an infix handler for a token category; a later registration
    /// overrides an earlier one.
    pub fn register_infix(&mut self, token_type: TokenType, handler: InfixHandler)
        ensures
            final(self).infix_regs() == old(self).infix_regs().push((token_type, handler)),
            final(self).prefix_regs() == old(self).prefix_regs(),
            final(self).toks() == old(self).toks(),
            final(self).at() == old(self).at(),
            final(self).cur() == old(self).cur(),
            final(self).peek() == old(self).peek(),
            final(self).msgs() == old(self).msgs(),
            final(self).wf() <==> old(self).wf(),
    {
        self.infix_parse_fns.push((token_type, handler));
    }

    /// The prefix handler registered for a token category, if any.
    fn find_prefix(&self, token_type: TokenType) -> (h: Option<PrefixHandler>)
        ensures
            h == registered(self.prefix_regs(), token_type),
    {
        let mut i = self.prefix_parse_fns.len();
        while i > 0
            invariant
                i <= self.prefix_parse_fns@.len(),
                registered(self.prefix_regs(), token_type) == reg_lookup(
                    self.prefix_regs(),
                    token_type,
                    i as int,
                ),
            decreases i,
        {
            let pair = self.prefix_parse_fns[i - 1];
            if pair.0 == token_type {
                return Some(pair.1);
            }
            i = i - 1;
        }
        None
    }

    /// The infix handler registered for a token category, if any.
    fn find_infix(&self, token_type: TokenType) -> (h: Option<InfixHandler>)
        ensures
            h == registered(self.infix_regs(), token_type),
    {
        let mut i = self.infix_parse_fns.len();
        while i > 0
            invariant
                i <= self.infix_parse_fns@.len(),
                registered(self.infix_regs(), token_type) == reg_lookup(
                    self.infix_regs(),
                    token_type,
                    i as int,
                ),
            decreases i,
        {
            let pair = self.infix_parse_fns[i - 1];
            if pair.0 == token_type {
                return Some(pair.1);
            }
            i = i - 1;
        }
        None
    }

    /// Slides the lookahead window one token forward: the peek token
    /// becomes current and the lexer supplies a fresh peek token. Past
    /// the end of the stream both stay the end-of-input token.
    pub fn next_token(&mut self)
        requires
            old(self).wf(),
        ensures
            final(self).wf(),
            final(self).toks() == old(self).toks(),
            final(self).at() == (if old(self).at() < old(self).toks().len() + 1 {
                old(self).at() + 1
            } else {
                old(self).at()
            }),
            final(self).msgs() == old(self).msgs(),
            final(self).prefix_regs() == old(self).prefix_regs(),
            final(self).infix_regs() == old(self).infix_regs(),
    {
        proof {
            lemma_spec_tokens_step(self.lexer.src(), self.lexer.pos());
            crate::lexer::lemma_skip_ws(self.lexer.src(), self.lexer.pos());
            crate::lexer::lemma_token_end(
                self.lexer.src(),
                crate::lexer::skip_ws(self.lexer.src(), self.lexer.pos()),
            );
        }
        self.current_token = self.peek_token.clone();
        let fresh = self.lexer.next_token();
        self.peek_token = fresh;
        proof {
            let toks = self.tokens@;
            let c = self.cursor@;
            if c < toks.len() + 1 {
                self.cursor@ = c + 1;
            }
            let c2 = self.cursor@;
            assert(self.peek_token@ == tok_at(toks, c2 + 1)) by {
                if stream_rest(toks, c + 2).len() > 0 {
                    assert(stream_rest(toks, c + 2)[0] == toks[c + 2]);
                } else {
                }
            }
            assert(spec_tokens(self.lexer.src(), self.lexer.pos()) == stream_rest(
                toks,
                c2 + 2,
            )) by {
                if stream_rest(toks, c + 2).len() > 0 {
                    assert(stream_rest(toks, c + 2).skip(1) =~= stream_rest(toks, c + 3));
                } else {
                    assert(stream_rest(toks, c2 + 2) =~= Seq::<TokenView>::empty());
                }
            }
        }
    }

    /// Whether the current token has the given category.
    pub fn current_token_is(&self, token_type: TokenType) -> (b: bool)
        ensures
            b == (self.cur().token_type == token_type),
    {
        self.current_token.token_type == token_type
    }

    /// Whether the peek token has the given category.
    pub fn peek_token_is(&self, token_type: TokenType) -> (b: bool)
        ensures
            b == (self.peek().token_type == token_type),
    {
        self.peek_token.token_type == token_type
    }

    /// The accumulated error messages; empty when every statement parsed.
    pub fn errors(&self) -> (v: Vec<String>)
        ensures
            v@.map_values(|m: String| m@) == self.msgs(),
    {
        let mut v: Vec<String> = Vec::new();
        let mut i: usize = 0;
        let n = self.errors.len();
        while i < n
            invariant
                i <= n,
                n == self.errors@.len(),
                v@.len() == i,
                forall|k: int| 0 <= k < i ==> v@[k]@ == #[trigger] self.errors@[k]@,
            decreases n - i,
        {
            v.push(self.errors[i].clone());
            i = i + 1;
        }
        proof {
            assert(v@.map_values(|m: String| m@) =~= self.msgs());
        }
        v
    }

    /// Records that the peek token did not have the required category.
    pub fn peek_error(&mut self, token_type: TokenType)
        ensures
            final(self).wf() <==> old(self).wf(),
            final(self).toks() == old(self).toks(),
            final(self).at() == old(self).at(),
            final(self).cur() == old(self).cur(),
            final(self).peek() == old(self).peek(),
            final(self).prefix_regs() == old(self).prefix_regs(),
            final(self).infix_regs() == old(self).infix_regs(),
            final(self).msgs() == old(self).msgs().push(
                peek_error_message(token_type, old(self).peek().token_type),
            ),
    {
        let mut message = String::from_str("expected next token to be ");
        message.append(token_type.name().as_str());
        message.append(", got ");
        message.append(self.peek_token.token_type.name().as_str());
        message.append(" instead");
        proof {
            assert(message@ =~= peek_error_message(token_type, self.peek_token@.token_type));
        }
        self.errors.push(message);
        proof {
            assert(final(self).msgs() =~= old(self).msgs().push(
                peek_error_message(token_type, old(self).peek().token_type),
            ));
        }
    }

    /// Advances when the peek token has the required category; otherwise
    /// records an error and stays put.
    pub fn expect_peek(&mut self, token_type: TokenType) -> (b: bool)
        requires
            old(self).wf(),
        ensures
            final(self).wf(),
            final(self).toks() == old(self).toks(),
            final(self).prefix_regs() == old(self).prefix_regs(),
            final(self).infix_regs() == old(self).infix_regs(),
            b == (old(self).peek().token_type == token_type),
            b ==> final(self).at() == (if old(self).at() < old(self).toks().len() + 1 {
                old(self).at() + 1
            } else {
                old(self).at()
            }) && final(self).msgs() == old(self).msgs(),
            !b ==> final(self).at() == old(self).at() && final(self).msgs() == old(
                self,
            ).msgs().push(peek_error_message(token_type, old(self).peek().token_type)),
    {
        if self.peek_token_is(token_type) {
            self.next_token();
            true
        } else {
            self.peek_error(token_type);
            false
        }
    }

    /// Builds the identifier expression for the current token.
    pub fn parse_identifier(&mut self) -> (e: Option<Expression>)
        ensures
            *final(self) == *old(self),
            e matches Some(ex) && ex@ == ExprView::Identifier(
                IdentView { token: old(self).cur(), value: old(self).cur().literal },
            ),
    {
        let identifier = Identifier {
            token: self.current_token.clone(),
            value: self.current_token.literal.clone(),
        };
        Some(Expression::Identifier(identifier))
    }

    /// Builds the boolean literal expression for the current token: its
    /// value is whether the token is the `true` keyword.
    pub fn parse_boolean(&mut self) -> (e: Option<Expression>)
        ensures
            *final(self) == *old(self),
            e matches Some(ex) && ex@ == (ExprView::Boolean {
                token: old(self).cur(),
                value: old(self).cur().token_type == TokenType::TRUE,
            }),
    {
        let value = self.current_token_is(TokenType::TRUE);
        Some(Expression::Boolean(Boolean { token: self.current_token.clone(), value }))
    }
}

/// The view of an optional expression result.
pub open spec fn opt_view(e: Option<Expression>) -> Option<ExprView> {
    match e {
        Some(x) => Some(x@),
        None => None,
    }
}

/// A termination measure over the stream: how many positions remain
/// before the cursor is pinned past the end.
pub open spec fn spec_fuel(toks: Seq<TokenView>, pos: int) -> int {
    if pos <= toks.len() + 2 {
        toks.len() + 2 - pos
    } else {
        0
    }
}

/// Pins a reported position into the range a parse step may end in:
/// no earlier than `lo` and no later than just past the stream.
pub open spec fn clamp_pos(toks: Seq<TokenView>, lo: int, x: int) -> int {
    if x < lo {
        lo
    } else if x > toks.len() + 1 {
        toks.len() as int + 1
    } else {
        x
    }
}

/// Every character of `s` is a decimal digit.
pub open spec fn all_digits(s: Seq<char>) -> bool {
    forall|k: int| 0 <= k < s.len() ==> is_digit_char(s[k])
}

/// `s` is a well-formed integer literal: non-empty and all digits.
pub open spec fn is_digits(s: Seq<char>) -> bool {
    s.len() >= 1 && all_digits(s)
}

/// The numeric value of one digit character.
pub open spec fn digit_val(c: char) -> int {
    (c as u32) - 48
}

/// The numeric value of a digit string, read in base ten.
pub open spec fn digits_val(s: Seq<char>) -> int
    decreases s.len(),
{
    if s.len() == 0 {
        0
    } else {
        digits_val(s.drop_last()) * 10 + digit_val(s.last())
    }
}

pub proof fn lemma_digits_val_nonneg(s: Seq<char>)
    requires
        all_digits(s),
    ensures
        digits_val(s) >= 0,
    decreases s.len(),
{
    if s.len() > 0 {
        lemma_digits_val_nonneg(s.drop_last());
    }
}

pub proof fn lemma_digits_val_step(s: Seq<char>, i: int)
    requires
        all_digits(s),
        0 <= i < s.len(),
    ensures
        digits_val(s.take(i + 1)) == digits_val(s.take(i)) * 10 + digit_val(s[i]),
        digits_val(s.take(i)) <= digits_val(s.take(i + 1)),
    decreases s.len(),
{
    assert(s.take(i + 1).drop_last() =~= s.take(i));
    assert(s.take(i + 1).last() == s[i]);
    assert(all_digits(s.take(i)));
    lemma_digits_val_nonneg(s.take(i));
}

pub proof fn lemma_digits_val_prefix_le(s: Seq<char>, i: int)
    requires
        all_digits(s),
        0 <= i <= s.len(),
    ensures
        digits_val(s.take(i)) <= digits_val(s),
    decreases s.len() - i,
{
    if i < s.len() {
        lemma_digits_val_step(s, i);
        lemma_digits_val_prefix_le(s, i + 1);
    } else {
        assert(s.take(i) =~= s);
    }
}

/// What parsing an expression at `pos` with the given minimum binding
/// rank yields: the expression (or its absence), the index of the last
/// token consumed, and the error messages recorded. Looks up the prefix
/// handler of the current token, builds the initial left expression, and
/// climbs through infix operators that bind more tightly than `min_rank`.
pub open spec fn spec_parse_expression(toks: Seq<TokenView>, pos: int, min_rank: int) -> (
    Option<ExprView>,
    int,
    Seq<Seq<char>>,
)
    decreases spec_fuel(toks, pos), 2int,
{
    let tok = tok_at(toks, pos);
    match prefix_handler_for(tok.token_type) {
        None => (None, pos, seq![no_prefix_message(tok.token_type)]),
        Some(handler) => {
            let step: (Option<ExprView>, int, Seq<Seq<char>>) = match handler {
                PrefixHandler::Identifier => (
                    Some(ExprView::Identifier(IdentView { token: tok, value: tok.literal })),
                    pos,
                    Seq::empty(),
                ),
                PrefixHandler::IntegerLiteral => if is_digits(tok.literal) && digits_val(
                    tok.literal,
                ) <= i64::MAX as int {
                    (
                        Some(
                            ExprView::IntegerLiteral {
                                token: tok,
                                value: digits_val(tok.literal) as i64,
                            },
                        ),
                        pos,
                        Seq::empty(),
                    )
                } else {
                    (None, pos, seq![int_parse_error_message(tok.literal)])
                },
                PrefixHandler::BooleanLiteral => (
                    Some(
                        ExprView::Boolean {
                            token: tok,
                            value: tok.token_type == TokenType::TRUE,
                        },
                    ),
                    pos,
                    Seq::empty(),
                ),
                PrefixHandler::PrefixOperator => {
                    let sub = spec_parse_expression(
                        toks,
                        pos + 1,
                        Precedence::Prefix.spec_rank(),
                    );
                    let p1 = clamp_pos(toks, pos + 1, sub.1);
                    match sub.0 {
                        Some(right) => (
                            Some(
                                ExprView::Prefix {
                                    token: tok,
                                    operator: tok.literal,
                                    right: Box::new(right),
                                },
                            ),
                            p1,
                            sub.2,
                        ),
                        None => (None, p1, sub.2),
                    }
                },
            };
            match step.0 {
                None => (None, step.1, step.2),
                Some(left) => {
                    let climbed = spec_infix_climb(
                        toks,
                        clamp_pos(toks, pos, step.1),
                        left,
                        min_rank,
                    );
                    (climbed.0, climbed.1, step.2 + climbed.2)
                },
            }
        },
    }
}

/// One climb of the precedence loop: while the peek token bears an infix
/// handler whose precedence ranks strictly above `min_rank`, consume the
/// operator and a right operand and fold them with `left`; equal ranks
/// stop the climb, which makes operators of one level left-associative.
pub open spec fn spec_infix_climb(
    toks: Seq<TokenView>,
    pos: int,
    left: ExprView,
    min_rank: int,
) -> (Option<ExprView>, int, Seq<Seq<char>>)
    decreases spec_fuel(toks, pos), 1int,
{
    let pt = tok_at(toks, pos + 1);
    if infix_handler_for(pt.token_type) is Some && spec_precedence_of(pt.token_type).spec_rank()
        > min_rank {
        let sub = spec_parse_expression(
            toks,
            pos + 2,
            spec_precedence_of(pt.token_type).spec_rank(),
        );
        let p2 = clamp_pos(toks, pos + 2, sub.1);
        match sub.0 {
            None => (None, p2, sub.2),
            Some(right) => {
                let node = ExprView::Infix {
                    token: pt,
                    left: Box::new(left),
                    operator: pt.literal,
                    right: Box::new(right),
                };
                let next = spec_infix_climb(toks, p2, node, min_rank);
                (next.0, next.1, sub.2 + next.2)
            },
        }
    } else {
        (Some(left), pos, Seq::empty())
    }
}

impl Parser {
    /// Records that no prefix handler exists for the current token's
    /// category.
    fn no_prefix_parse_fn_error(&mut self)
        ensures
            final(self).wf() <==> old(self).wf(),
            final(self).toks() == old(self).toks(),
            final(self).at() == old(self).at(),
            final(self).cur() == old(self).cur(),
            final(self).peek() == old(self).peek(),
            final(self).prefix_regs() == old(self).prefix_regs(),
            final(self).infix_regs() == old(self).infix_regs(),
            final(self).msgs() == old(self).msgs().push(
                no_prefix_message(old(self).cur().token_type),
            ),
    {
        let mut message = String::from_str("no prefix parse function for category ");
        message.append(self.current_token.token_type.name().as_str());
        message.append(" found");
        proof {
            assert(message@ =~= no_prefix_message(self.current_token@.token_type));
        }
        self.errors.push(message);
        proof {
            assert(final(self).msgs() =~= old(self).msgs().push(
                no_prefix_message(old(self).cur().token_type),
            ));
        }
    }

    /// Records that the current token's literal could not be read as an
    /// integer.
    fn int_parse_error(&mut self)
        ensures
            final(self).wf() <==> old(self).wf(),
            final(self).toks() == old(self).toks(),
            final(self).at() == old(self).at(),
            final(self).cur() == old(self).cur(),
            final(self).peek() == old(self).peek(),
            final(self).prefix_regs() == old(self).prefix_regs(),
            final(self).infix_regs() == old(self).infix_regs(),
            final(self).msgs() == old(self).msgs().push(
                int_parse_error_message(old(self).cur().literal),
            ),
    {
        let mut message = String::from_str("could not parse ");
        message.append(self.current_token.literal.as_str());
        message.append(" as integer");
        proof {
            assert(message@ =~= int_parse_error_message(self.current_token@.literal));
        }
        self.errors.push(message);
        proof {
            assert(final(self).msgs() =~= old(self).msgs().push(
                int_parse_error_message(old(self).cur().literal),
            ));
        }
    }

    /// Builds the integer literal expression for the current token: its
    /// value is the token's digits read in base ten. A literal that is
    /// not all digits or does not fit the value range records an error
    /// and yields no expression.
    pub fn parse_integer_literal(&mut self) -> (e: Option<Expression>)
        requires
            old(self).wf(),
        ensures
            final(self).wf(),
            final(self).toks() == old(self).toks(),
            final(self).at() == old(self).at(),
            final(self).cur() == old(self).cur(),
            final(self).peek() == old(self).peek(),
            final(self).prefix_regs() == old(self).prefix_regs(),
            final(self).infix_regs() == old(self).infix_regs(),
            (is_digits(old(self).cur().literal) && digits_val(old(self).cur().literal)
                <= i64::MAX as int) ==> (opt_view(e) == Some(
                ExprView::IntegerLiteral {
                    token: old(self).cur(),
                    value: digits_val(old(self).cur().literal) as i64,
                },
            ) && final(self).msgs() == old(self).msgs()),
            !(is_digits(old(self).cur().literal) && digits_val(old(self).cur().literal)
                <= i64::MAX as int) ==> (e is None && final(self).msgs() == old(self).msgs().push(
                int_parse_error_message(old(self).cur().literal),
            )),
    {
        let current_token = self.current_token.clone();
        let ghost lit = self.current_token.literal@;
        let lit_len = self.current_token.literal.as_str().unicode_len();
        if lit_len == 0 {
            self.int_parse_error();
            return None;
        }
        let mut value: u64 = 0;
        let mut i: usize = 0;
        let mut failed: bool = false;
        while i < lit_len
            invariant_except_break
                lit == self.current_token.literal@,
                lit_len == lit.len(),
                i <= lit_len,
                !failed,
                forall|k: int| 0 <= k < i ==> is_digit_char(lit[k]),
                value as int == digits_val(lit.take(i as int)),
                value <= i64::MAX as u64,
            ensures
                (!failed ==> i == lit_len && value as int == digits_val(
                    lit.take(lit_len as int),
                ) && value <= i64::MAX as u64 && all_digits(lit)),
                (failed ==> !(is_digits(lit) && digits_val(lit) <= i64::MAX as int)),
                lit == self.current_token.literal@,
            decreases lit_len - i,
        {
            let c = self.current_token.literal.as_str().get_char(i);
            if !is_digit(c) {
                failed = true;
                proof {
                    assert(!all_digits(lit));
                }
                break;
            }
            let d: u64 = ((c as u32) - 48) as u64;
            proof {
                assert(forall|k: int| 0 <= k < i + 1 ==> is_digit_char(lit[k]));
                if all_digits(lit) {
                    lemma_digits_val_step(lit, i as int);
                    lemma_digits_val_prefix_le(lit, i + 1);
                }
            }
            if value > 922337203685477580u64 {
                failed = true;
                break;
            }
            let candidate = value * 10 + d;
            if candidate > i64::MAX as u64 {
                failed = true;
                break;
            }
            proof {
                lemma_digits_val_step(lit.take(i + 1), i as int);
                assert(lit.take(i + 1).take(i as int) =~= lit.take(i as int));
            }
            value = candidate;
            i = i + 1;
        }
        if failed {
            self.int_parse_error();
            return None;
        }
        proof {
            assert(lit.take(lit_len as int) =~= lit);
            assert(self.msgs() =~= old(self).msgs());
        }
        Some(Expression::IntegerLiteral(IntegerLiteral { token: current_token, value: value as i64 }))
    }

    /// Builds a prefix expression: keeps the operator's token and
    /// spelling, then parses the operand at prefix precedence. When the
    /// operand yields no expression, the whole prefix expression yields
    /// none.
    pub fn parse_prefix_expression(&mut self) -> (e: Option<Expression>)
        requires
            old(self).wf(),
            old(self).handlers_ready(),
            prefix_handler_for(old(self).cur().token_type) == Some(PrefixHandler::PrefixOperator),
        ensures
            final(self).wf(),
            final(self).toks() == old(self).toks(),
            final(self).prefix_regs() == old(self).prefix_regs(),
            final(self).infix_regs() == old(self).infix_regs(),
            ({
                let sub = spec_parse_expression(
                    old(self).toks(),
                    old(self).at() + 1,
                    Precedence::Prefix.spec_rank(),
                );
                &&& opt_view(e) == (match sub.0 {
                    Some(right) => Some(
                        ExprView::Prefix {
                            token: old(self).cur(),
                            operator: old(self).cur().literal,
                            right: Box::new(right),
                        },
                    ),
                    None => None,
                })
                &&& final(self).at() == clamp_pos(old(self).toks(), old(self).at() + 1, sub.1)
                &&& final(self).msgs() == old(self).msgs() + sub.2
            }),
            old(self).at() + 1 <= final(self).at() <= old(self).toks().len(),
        decreases spec_fuel(old(self).toks(), old(self).at()), 1int,
    {
        let token = self.current_token.clone();
        let operator = self.current_token.literal.clone();
        self.next_token();
        let right = self.parse_expression(Precedence::Prefix);
        proof {
            let sub = spec_parse_expression(
                old(self).toks(),
                old(self).at() + 1,
                Precedence::Prefix.spec_rank(),
            );
            assert(clamp_pos(old(self).toks(), old(self).at() + 1, sub.1) == sub.1);
        }
        match right {
            Some(right_expression) => Some(
                Expression::PrefixExpression(
                    PrefixExpression { token, operator, right: Box::new(right_expression) },
                ),
            ),
            None => None,
        }
    }

    /// Builds an infix expression from the given left operand and the
    /// operator at the current token, parsing the right operand at the
    /// operator's precedence. When the right operand yields no
    /// expression, the whole infix expression yields none.
    pub fn parse_infix_expression(&mut self, left: Expression) -> (e: Option<Expression>)
        requires
            old(self).wf(),
            old(self).handlers_ready(),
            infix_handler_for(old(self).cur().token_type) is Some,
        ensures
            final(self).wf(),
            final(self).toks() == old(self).toks(),
            final(self).prefix_regs() == old(self).prefix_regs(),
            final(self).infix_regs() == old(self).infix_regs(),
            ({
                let sub = spec_parse_expression(
                    old(self).toks(),
                    old(self).at() + 1,
                    spec_precedence_of(old(self).cur().token_type).spec_rank(),
                );
                &&& opt_view(e) == (match sub.0 {
                    Some(right) => Some(
                        ExprView::Infix {
                            token: old(self).cur(),
                            left: Box::new(left@),
                            operator: old(self).cur().literal,
                            right: Box::new(right),
                        },
                    ),
                    None => None,
                })
                &&& final(self).at() == clamp_pos(old(self).toks(), old(self).at() + 1, sub.1)
                &&& final(self).msgs() == old(self).msgs() + sub.2
            }),
            old(self).at() + 1 <= final(self).at() <= old(self).toks().len(),
        decreases spec_fuel(old(self).toks(), old(self).at()), 1int,
    {
        let token = self.current_token.clone();
        let operator = self.current_token.literal.clone();
        let operator_precedence = precedence_of(self.current_token.token_type);
        self.next_token();
        let right = self.parse_expression(operator_precedence);
        proof {
            let sub = spec_parse_expression(
                old(self).toks(),
                old(self).at() + 1,
                spec_precedence_of(old(self).cur().token_type).spec_rank(),
            );
            assert(clamp_pos(old(self).toks(), old(self).at() + 1, sub.1) == sub.1);
        }
        match right {
            Some(right_expression) => Some(
                Expression::InfixExpression(
                    InfixExpression {
                        token,
                        left: Box::new(left),
                        operator,
                        right: Box::new(right_expression),
                    },
                ),
            ),
            None => None,
        }
    }

    /// Whether the peek token starts another climb step: it bears an
    /// infix handler whose precedence ranks strictly above the given
    /// one.
    fn peek_climbs(&self, precedence: Precedence) -> (b: bool)
        requires
            self.handlers_ready(),
        ensures
            b == (infix_handler_for(self.peek().token_type) is Some && spec_precedence_of(
                self.peek().token_type,
            ).spec_rank() > precedence.spec_rank()),
    {
        proof {
            lemma_canonical_infix(self.peek_token.token_type);
        }
        let handler = self.find_infix(self.peek_token.token_type);
        if handler.is_some() {
            precedence_of(self.peek_token.token_type).rank() > precedence.rank()
        } else {
            false
        }
    }

    /// Parses one expression starting at the current token, with the
    /// given minimum precedence: looks up a prefix handler for the
    /// current token's category (recording an error and yielding no
    /// expression when none exists), builds the initial left expression,
    /// and while the peek token bears an infix handler binding more
    /// tightly than `precedence`, folds it into the left expression.
    pub fn parse_expression(&mut self, precedence: Precedence) -> (e: Option<Expression>)
        requires
            old(self).wf(),
            old(self).handlers_ready(),
        ensures
            final(self).wf(),
            final(self).toks() == old(self).toks(),
            final(self).prefix_regs() == old(self).prefix_regs(),
            final(self).infix_regs() == old(self).infix_regs(),
            opt_view(e) == spec_parse_expression(
                old(self).toks(),
                old(self).at(),
                precedence.spec_rank(),
            ).0,
            final(self).at() == spec_parse_expression(
                old(self).toks(),
                old(self).at(),
                precedence.spec_rank(),
            ).1,
            final(self).msgs() == old(self).msgs() + spec_parse_expression(
                old(self).toks(),
                old(self).at(),
                precedence.spec_rank(),
            ).2,
            old(self).at() <= final(self).at(),
            old(self).at() <= old(self).toks().len() ==> final(self).at() <= old(
                self,
            ).toks().len(),
        decreases spec_fuel(old(self).toks(), old(self).at()), 2int,
    {
        proof {
            lemma_canonical_prefix(self.current_token.token_type);
        }
        let handler_opt = self.find_prefix(self.current_token.token_type);
        let ghost s0 = spec_parse_expression(
            old(self).toks(),
            old(self).at(),
            precedence.spec_rank(),
        );
        match handler_opt {
            None => {
                self.no_prefix_parse_fn_error();
                proof {
                    assert(final(self).msgs() =~= old(self).msgs() + seq![
                        no_prefix_message(old(self).cur().token_type),
                    ]);
                }
                None
            },
            Some(handler) => {
                let step_result: Option<Expression> = match handler {
                    PrefixHandler::Identifier => self.parse_identifier(),
                    PrefixHandler::IntegerLiteral => self.parse_integer_literal(),
                    PrefixHandler::PrefixOperator => self.parse_prefix_expression(),
                    PrefixHandler::BooleanLiteral => self.parse_boolean(),
                };
                proof {
                    if handler == PrefixHandler::IntegerLiteral && !(is_digits(
                        old(self).cur().literal,
                    ) && digits_val(old(self).cur().literal) <= i64::MAX as int) {
                        assert(self.msgs() =~= old(self).msgs() + seq![
                            int_parse_error_message(old(self).cur().literal),
                        ]);
                    }
                    if handler == PrefixHandler::Identifier || handler
                        == PrefixHandler::BooleanLiteral || (handler
                        == PrefixHandler::IntegerLiteral && is_digits(old(self).cur().literal)
                        && digits_val(old(self).cur().literal) <= i64::MAX as int) {
                        assert(self.msgs() =~= old(self).msgs() + Seq::<Seq<char>>::empty());
                    }
                }
                let mut left = match step_result {
                    Some(expression) => expression,
                    None => {
                        return None;
                    },
                };
                let ghost toks = old(self).toks();
                let ghost at0 = old(self).at();
                let ghost msgs0 = old(self).msgs();
                let ghost pregs0 = old(self).prefix_regs();
                let ghost iregs0 = old(self).infix_regs();
                proof {
                    assert(clamp_pos(toks, at0, self.at()) == self.at());
                }
                loop
                    invariant
                        old(self).wf(),
                        old(self).handlers_ready(),
                        toks == old(self).toks(),
                        at0 == old(self).at(),
                        msgs0 == old(self).msgs(),
                        pregs0 == old(self).prefix_regs(),
                        iregs0 == old(self).infix_regs(),
                        s0 == spec_parse_expression(toks, at0, precedence.spec_rank()),
                        self.wf(),
                        self.handlers_ready(),
                        self.toks() == toks,
                        self.prefix_regs() == pregs0,
                        self.infix_regs() == iregs0,
                        at0 <= self.at() <= toks.len(),
                        s0.0 == spec_infix_climb(
                            toks,
                            self.at(),
                            left@,
                            precedence.spec_rank(),
                        ).0,
                        s0.1 == spec_infix_climb(
                            toks,
                            self.at(),
                            left@,
                            precedence.spec_rank(),
                        ).1,
                        msgs0 + s0.2 == self.msgs() + spec_infix_climb(
                            toks,
                            self.at(),
                            left@,
                            precedence.spec_rank(),
                        ).2,
                    ensures
                        self.wf(),
                        self.toks() == toks,
                        self.prefix_regs() == pregs0,
                        self.infix_regs() == iregs0,
                        at0 <= self.at() <= toks.len(),
                        s0.0 == Some(left@),
                        s0.1 == self.at(),
                        msgs0 + s0.2 == self.msgs(),
                    decreases spec_fuel(toks, self.at()),
                {
                    if !self.peek_climbs(precedence) {
                        proof {
                            assert(msgs0 + s0.2 =~= self.msgs());
                        }
                        break;
                    }
                    let ghost at_head = self.at();
                    let ghost msgs_head = self.msgs();
                    let ghost climb_head = spec_infix_climb(
                        toks,
                        at_head,
                        left@,
                        precedence.spec_rank(),
                    );
                    self.next_token();
                    let infix_result = self.parse_infix_expression(left);
                    proof {
                        let pt = tok_at(toks, at_head + 1);
                        let sub = spec_parse_expression(
                            toks,
                            at_head + 2,
                            spec_precedence_of(pt.token_type).spec_rank(),
                        );
                        assert(msgs_head + climb_head.2 =~= (msgs_head + sub.2) + (
                        match sub.0 {
                            None => Seq::<Seq<char>>::empty(),
                            Some(right) => spec_infix_climb(
                                toks,
                                clamp_pos(toks, at_head + 2, sub.1),
                                ExprView::Infix {
                                    token: pt,
                                    left: Box::new(left@),
                                    operator: pt.literal,
                                    right: Box::new(right),
                                },
                                precedence.spec_rank(),
                            ).2,
                        }));
                    }
                    match infix_result {
                        Some(expression) => {
                            left = expression;
                        },
                        None => {
                            proof {
                                assert(self.msgs() =~= msgs0 + s0.2);
                            }
                            return None;
                        },
                    }
                }
                Some(left)
            },
        }
    }
}

/// The view of an optional statement result.
pub open spec fn stmt_opt_view(st: Option<Statement>) -> Option<StmtView> {
    match st {
        Some(s) => Some(s@),
        None => None,
    }
}

/// The first position at or after `pos` whose token ends a statement:
/// a semicolon or the end of the input. This is where a statement parser
/// that discards its right-hand side stops.
pub open spec fn stmt_sync(toks: Seq<TokenView>, pos: int) -> int
    decreases spec_fuel(toks, pos),
{
    let t = tok_at(toks, pos);
    if t.token_type == TokenType::SEMICOLON || t.token_type == TokenType::EOF {
        pos
    } else {
        stmt_sync(toks, pos + 1)
    }
}

pub proof fn lemma_stmt_sync(toks: Seq<TokenView>, pos: int)
    requires
        0 <= pos <= toks.len(),
    ensures
        pos <= stmt_sync(toks, pos) <= toks.len(),
    decreases spec_fuel(toks, pos),
{
    let t = tok_at(toks, pos);
    if !(t.token_type == TokenType::SEMICOLON || t.token_type == TokenType::EOF) {
        lemma_stmt_sync(toks, pos + 1);
    }
}

/// What parsing a `let` statement at `pos` yields: the next token must
/// be an identifier and the one after it the assignment operator, else
/// an error is recorded and no statement results; the right-hand side is
/// discarded up to the statement's end and the value recorded as absent.
pub open spec fn spec_parse_let(toks: Seq<TokenView>, pos: int) -> (
    Option<StmtView>,
    int,
    Seq<Seq<char>>,
) {
    let let_tok = tok_at(toks, pos);
    let name_tok = tok_at(toks, pos + 1);
    if name_tok.token_type != TokenType::IDENT {
        (None, pos, seq![peek_error_message(TokenType::IDENT, name_tok.token_type)])
    } else {
        let assign_tok = tok_at(toks, pos + 2);
        if assign_tok.token_type != TokenType::ASSIGN {
            (None, pos + 1, seq![peek_error_message(TokenType::ASSIGN, assign_tok.token_type)])
        } else {
            (
                Some(
                    StmtView::Let {
                        token: let_tok,
                        name: IdentView { token: name_tok, value: name_tok.literal },
                        value: None,
                    },
                ),
                stmt_sync(toks, pos + 2),
                Seq::empty(),
            )
        }
    }
}

/// What parsing a `return` statement at `pos` yields: the returned value
/// is discarded up to the statement's end and recorded as absent.
pub open spec fn spec_parse_return(toks: Seq<TokenView>, pos: int) -> (
    Option<StmtView>,
    int,
    Seq<Seq<char>>,
) {
    (
        Some(StmtView::Return { token: tok_at(toks, pos), value: None }),
        stmt_sync(toks, pos + 1),
        Seq::empty(),
    )
}

/// What parsing an expression statement at `pos` yields: one expression
/// at lowest precedence, then an optional trailing semicolon.
pub open spec fn spec_parse_expression_statement(toks: Seq<TokenView>, pos: int) -> (
    Option<StmtView>,
    int,
    Seq<Seq<char>>,
) {
    let start_tok = tok_at(toks, pos);
    let sub = spec_parse_expression(toks, pos, Precedence::Lowest.spec_rank());
    let p1 = clamp_pos(toks, pos, sub.1);
    let p2 = if tok_at(toks, p1 + 1).token_type == TokenType::SEMICOLON {
        p1 + 1
    } else {
        p1
    };
    (Some(StmtView::Expr { token: start_tok, value: sub.0 }), p2, sub.2)
}

/// What parsing one statement at `pos` yields, dispatching purely on the
/// current token's category; expression statements are the default.
pub open spec fn spec_parse_statement(toks: Seq<TokenView>, pos: int) -> (
    Option<StmtView>,
    int,
    Seq<Seq<char>>,
) {
    let t = tok_at(toks, pos);
    if t.token_type == TokenType::LET {
        spec_parse_let(toks, pos)
    } else if t.token_type == TokenType::RETURN {
        spec_parse_return(toks, pos)
    } else {
        spec_parse_expression_statement(toks, pos)
    }
}

/// What parsing a whole program from `pos` yields: statements parsed one
/// after another until the end of the input, a failed statement skipped
/// but its errors kept, the cursor advancing one token between
/// statements.
pub open spec fn spec_parse_program_rec(toks: Seq<TokenView>, pos: int) -> (
    Seq<StmtView>,
    int,
    Seq<Seq<char>>,
)
    decreases spec_fuel(toks, pos),
{
    if tok_at(toks, pos).token_type == TokenType::EOF {
        (Seq::empty(), pos, Seq::empty())
    } else {
        let step = spec_parse_statement(toks, pos);
        let p1 = clamp_pos(toks, pos, step.1);
        let rest = spec_parse_program_rec(toks, p1 + 1);
        let stmts = match step.0 {
            Some(st) => seq![st] + rest.0,
            None => rest.0,
        };
        (stmts, rest.1, step.2 + rest.2)
    }
}

/// What parsing a whole token stream yields: the program's statements
/// and the errors recorded along the way.
pub open spec fn spec_parse_program(toks: Seq<TokenView>) -> (Seq<StmtView>, int, Seq<Seq<char>>) {
    spec_parse_program_rec(toks, 0)
}

impl Parser {
    /// Parses a `let` statement: the name must follow as an identifier
    /// and then the assignment operator; the right-hand side is discarded
    /// up to the statement's end and recorded as absent.
    pub fn parse_let_statement(&mut self) -> (st: Option<Statement>)
        requires
            old(self).wf(),
        ensures
            final(self).wf(),
            final(self).toks() == old(self).toks(),
            final(self).prefix_regs() == old(self).prefix_regs(),
            final(self).infix_regs() == old(self).infix_regs(),
            stmt_opt_view(st) == spec_parse_let(old(self).toks(), old(self).at()).0,
            final(self).at() == spec_parse_let(old(self).toks(), old(self).at()).1,
            final(self).msgs() == old(self).msgs() + spec_parse_let(
                old(self).toks(),
                old(self).at(),
            ).2,
            old(self).at() <= final(self).at(),
            old(self).at() <= old(self).toks().len() ==> final(self).at() <= old(
                self,
            ).toks().len(),
    {
        let current_token = self.current_token.clone();
        if !self.expect_peek(TokenType::IDENT) {
            proof {
                assert(final(self).msgs() =~= old(self).msgs() + spec_parse_let(
                    old(self).toks(),
                    old(self).at(),
                ).2);
            }
            return None;
        }
        let name = Identifier {
            token: self.current_token.clone(),
            value: self.current_token.literal.clone(),
        };
        if !self.expect_peek(TokenType::ASSIGN) {
            proof {
                assert(final(self).msgs() =~= old(self).msgs() + spec_parse_let(
                    old(self).toks(),
                    old(self).at(),
                ).2);
            }
            return None;
        }
        let ghost toks = old(self).toks();
        let ghost sync_entry = self.at();
        let ghost msgs1 = self.msgs();
        proof {
            lemma_stmt_sync(toks, sync_entry);
        }
        while !self.current_token_is(TokenType::SEMICOLON) && !self.current_token_is(
            TokenType::EOF,
        )
            invariant
                old(self).wf(),
                toks == old(self).toks(),
                msgs1 == old(self).msgs(),
                self.wf(),
                self.toks() == toks,
                self.msgs() == msgs1,
                self.prefix_regs() == old(self).prefix_regs(),
                self.infix_regs() == old(self).infix_regs(),
                sync_entry <= self.at() <= toks.len(),
                stmt_sync(toks, self.at()) == stmt_sync(toks, sync_entry),
            decreases spec_fuel(toks, self.at()),
        {
            self.next_token();
        }
        let statement = LetStatement { token: current_token, name, value: None };
        proof {
            assert(final(self).msgs() =~= old(self).msgs() + Seq::<Seq<char>>::empty());
        }
        Some(Statement::LetStatement(statement))
    }

    /// Parses a `return` statement: the returned value is discarded up
    /// to the statement's end and recorded as absent.
    pub fn parse_return_statement(&mut self) -> (st: Option<Statement>)
        requires
            old(self).wf(),
            old(self).cur().token_type == TokenType::RETURN,
        ensures
            final(self).wf(),
            final(self).toks() == old(self).toks(),
            final(self).prefix_regs() == old(self).prefix_regs(),
            final(self).infix_regs() == old(self).infix_regs(),
            stmt_opt_view(st) == spec_parse_return(old(self).toks(), old(self).at()).0,
            final(self).at() == spec_parse_return(old(self).toks(), old(self).at()).1,
            final(self).msgs() == old(self).msgs() + spec_parse_return(
                old(self).toks(),
                old(self).at(),
            ).2,
            old(self).at() <= final(self).at(),
            old(self).at() <= old(self).toks().len() ==> final(self).at() <= old(
                self,
            ).toks().len(),
    {
        let current_token = self.current_token.clone();
        self.next_token();
        let ghost toks = old(self).toks();
        let ghost sync_entry = self.at();
        let ghost msgs1 = self.msgs();
        proof {
            lemma_stmt_sync(toks, sync_entry);
        }
        while !self.current_token_is(TokenType::SEMICOLON) && !self.current_token_is(
            TokenType::EOF,
        )
            invariant
                old(self).wf(),
                toks == old(self).toks(),
                msgs1 == old(self).msgs(),
                self.wf(),
                self.toks() == toks,
                self.msgs() == msgs1,
                self.prefix_regs() == old(self).prefix_regs(),
                self.infix_regs() == old(self).infix_regs(),
                sync_entry <= self.at() <= toks.len(),
                stmt_sync(toks, self.at()) == stmt_sync(toks, sync_entry),
            decreases spec_fuel(toks, self.at()),
        {
            self.next_token();
        }
        let statement = ReturnStatement { token: current_token, return_value: None };
        proof {
            assert(final(self).msgs() =~= old(self).msgs() + Seq::<Seq<char>>::empty());
        }
        Some(Statement::ReturnStatement(statement))
    }

    /// Parses an expression statement: one expression at lowest
    /// precedence, then an optional trailing semicolon. The statement is
    /// always produced; a failed expression leaves its value absent.
    pub fn parse_expression_statement(&mut self) -> (st: Option<Statement>)
        requires
            old(self).wf(),
            old(self).handlers_ready(),
        ensures
            final(self).wf(),
            final(self).toks() == old(self).toks(),
            final(self).prefix_regs() == old(self).prefix_regs(),
            final(self).infix_regs() == old(self).infix_regs(),
            stmt_opt_view(st) == spec_parse_expression_statement(
                old(self).toks(),
                old(self).at(),
            ).0,
            final(self).at() == spec_parse_expression_statement(
                old(self).toks(),
                old(self).at(),
            ).1,
            final(self).msgs() == old(self).msgs() + spec_parse_expression_statement(
                old(self).toks(),
                old(self).at(),
            ).2,
            old(self).at() <= final(self).at(),
            old(self).at() <= old(self).toks().len() ==> final(self).at() <= old(
                self,
            ).toks().len(),
    {
        let current_token = self.current_token.clone();
        let expression = self.parse_expression(Precedence::Lowest);
        proof {
            assert(clamp_pos(old(self).toks(), old(self).at(), self.at()) == self.at());
        }
        if self.peek_token_is(TokenType::SEMICOLON) {
            self.next_token();
        }
        let statement = ExpressionStatement { token: current_token, expression };
        Some(Statement::ExpressionStatement(statement))
    }

    /// Parses one statement, dispatching purely on the current token's
    /// category: `let` and `return` have their own parsers and anything
    /// else is an expression statement.
    pub fn parse_statement(&mut self) -> (st: Option<Statement>)
        requires
            old(self).wf(),
            old(self).handlers_ready(),
        ensures
            final(self).wf(),
            final(self).toks() == old(self).toks(),
            final(self).prefix_regs() == old(self).prefix_regs(),
            final(self).infix_regs() == old(self).infix_regs(),
            stmt_opt_view(st) == spec_parse_statement(old(self).toks(), old(self).at()).0,
            final(self).at() == spec_parse_statement(old(self).toks(), old(self).at()).1,
            final(self).msgs() == old(self).msgs() + spec_parse_statement(
                old(self).toks(),
                old(self).at(),
            ).2,
            old(self).at() <= final(self).at(),
            old(self).at() <= old(self).toks().len() ==> final(self).at() <= old(
                self,
            ).toks().len(),
    {
        if self.current_token_is(TokenType::LET) {
            self.parse_let_statement()
        } else if self.current_token_is(TokenType::RETURN) {
            self.parse_return_statement()
        } else {
            self.parse_expression_statement()
        }
    }

    /// Parses the whole program: one statement after another until the
    /// end of the input. A statement that fails to parse is skipped, its
    /// errors kept, and parsing resumes at the next token, so the loop
    /// always makes progress and terminates. The program is always
    /// returned; the caller must query `errors` to learn whether it is
    /// complete.
    pub fn parse_program(&mut self) -> (program: Option<Program>)
        requires
            old(self).wf(),
            old(self).handlers_ready(),
        ensures
            final(self).wf(),
            final(self).toks() == old(self).toks(),
            final(self).prefix_regs() == old(self).prefix_regs(),
            final(self).infix_regs() == old(self).infix_regs(),
            program matches Some(p) && p@ == spec_parse_program_rec(
                old(self).toks(),
                old(self).at(),
            ).0,
            final(self).at() == spec_parse_program_rec(old(self).toks(), old(self).at()).1,
            final(self).msgs() == old(self).msgs() + spec_parse_program_rec(
                old(self).toks(),
                old(self).at(),
            ).2,
    {
        let mut program = Program { statements: Vec::new() };
        let ghost toks = old(self).toks();
        let ghost at0 = old(self).at();
        let ghost msgs0 = old(self).msgs();
        let ghost s = spec_parse_program_rec(toks, at0);
        proof {
            assert(program@ =~= Seq::<StmtView>::empty());
        }
        while !self.current_token_is(TokenType::EOF)
            invariant
                old(self).wf(),
                old(self).handlers_ready(),
                toks == old(self).toks(),
                at0 == old(self).at(),
                msgs0 == old(self).msgs(),
                s == spec_parse_program_rec(toks, at0),
                self.wf(),
                self.handlers_ready(),
                self.toks() == toks,
                self.prefix_regs() == old(self).prefix_regs(),
                self.infix_regs() == old(self).infix_regs(),
                at0 <= self.at() <= toks.len() + 1,
                s.0 == program@ + spec_parse_program_rec(toks, self.at()).0,
                s.1 == spec_parse_program_rec(toks, self.at()).1,
                msgs0 + s.2 == self.msgs() + spec_parse_program_rec(toks, self.at()).2,
            decreases spec_fuel(toks, self.at()),
        {
            let ghost at_head = self.at();
            let ghost msgs_head = self.msgs();
            let ghost prog_head = program@;
            let statement = self.parse_statement();
            proof {
                assert(clamp_pos(toks, at_head, self.at()) == self.at());
            }
            match statement {
                Some(st) => program.statements.push(st),
                None => (),
            }
            self.next_token();
            proof {
                let step = spec_parse_statement(toks, at_head);
                let rest = spec_parse_program_rec(toks, self.at());
                match step.0 {
                    Some(st) => {
                        assert(program@ =~= prog_head.push(st));
                        assert(prog_head + (seq![st] + rest.0) =~= program@ + rest.0);
                    },
                    None => {
                        assert(program@ == prog_head);
                    },
                }
                assert(msgs_head + step.2 + rest.2 =~= msgs_head + (step.2 + rest.2));
            }
        }
        proof {
            assert(program@ + Seq::<StmtView>::empty() =~= program@);
            assert(msgs0 + s.2 =~= final(self).msgs() + Seq::<Seq<char>>::empty());
            assert(final(self).msgs() =~= old(self).msgs() + s.2);
        }
        Some(program)
    }
}

} // verus!



