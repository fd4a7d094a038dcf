use vstd::prelude::*;

use crate::ast::{ExprView, IdentView, StmtView};
use crate::lexer::{is_whitespace_char, lemma_skip_ws, lemma_spec_tokens_step, lemma_token_end,
    skip_ws, spec_tokens, token_at, token_end, tok_at};
use crate::parser::{spec_parse_expression, spec_parse_let, spec_parse_program, spec_parse_return,
    spec_parse_statement, spec_infix_climb, stmt_sync, Precedence};
use crate::token::{spec_keyword_type, TokenType, TokenView};

verus! {

/// An input of whitespace alone lexes to no tokens at all, and parsing
/// it yields a program with zero statements and zero errors.
pub proof fn lemma_whitespace_only_program(s: Seq<char>)
    requires
        forall|k: int| 0 <= k < s.len() ==> is_whitespace_char(s[k]),
    ensures
        spec_tokens(s, 0).len() == 0,
        spec_parse_program(spec_tokens(s, 0)).0 == Seq::<StmtView>::empty(),
        spec_parse_program(spec_tokens(s, 0)).2 == Seq::<Seq<char>>::empty(),
{
    lemma_skip_ws(s, 0);
    if s.len() > 0 {
        assert(skip_ws(s, 0) == s.len());
    }
    let toks = spec_tokens(s, 0);
    assert(tok_at(toks, 0).token_type == TokenType::EOF);
}

/// A `let` statement whose next two tokens are an identifier and the
/// assignment operator parses without error into a statement that keeps
/// the `let` token, binds exactly the identifier token's spelling as its
/// name, and records no value; the parse stops at the statement's end.
pub proof fn lemma_let_statement_form(toks: Seq<TokenView>, pos: int)
    requires
        tok_at(toks, pos).token_type == TokenType::LET,
        tok_at(toks, pos + 1).token_type == TokenType::IDENT,
        tok_at(toks, pos + 2).token_type == TokenType::ASSIGN,
    ensures
        spec_parse_statement(toks, pos) == (
            Some(
                StmtView::Let {
                    token: tok_at(toks, pos),
                    name: IdentView {
                        token: tok_at(toks, pos + 1),
                        value: tok_at(toks, pos + 1).literal,
                    },
                    value: None,
                },
            ),
            stmt_sync(toks, pos + 2),
            Seq::<Seq<char>>::empty(),
        ),
{
    assert(spec_parse_statement(toks, pos) == spec_parse_let(toks, pos));
}

/// A `return` statement parses without error into a statement that keeps
/// the `return` token and records no value; the parse stops at the
/// statement's end.
pub proof fn lemma_return_statement_form(toks: Seq<TokenView>, pos: int)
    requires
        tok_at(toks, pos).token_type == TokenType::RETURN,
    ensures
        spec_parse_statement(toks, pos) == (
            Some(StmtView::Return { token: tok_at(toks, pos), value: None }),
            stmt_sync(toks, pos + 1),
            Seq::<Seq<char>>::empty(),
        ),
{
    assert(spec_parse_statement(toks, pos) == spec_parse_return(toks, pos));
}

/// A token scanned with the `let` keyword category carries exactly the
/// spelling `let`, and one with the `return` category the spelling
/// `return`.
pub proof fn lemma_token_at_keyword_literal(s: Seq<char>, j: int)
    ensures
        token_at(s, j).token_type == TokenType::LET ==> token_at(s, j).literal == "let"@,
        token_at(s, j).token_type == TokenType::RETURN ==> token_at(s, j).literal == "return"@,
{
    if 0 <= j < s.len() {
        let c = s[j];
        if crate::lexer::is_letter_char(c) {
            let w = s.subrange(j, crate::lexer::word_end(s, j));
            assert(spec_keyword_type(w) == TokenType::LET ==> w == "let"@);
            assert(spec_keyword_type(w) == TokenType::RETURN ==> w == "return"@);
        }
    }
}

/// Every token of a lexed stream with the `let` keyword category carries
/// the spelling `let`, and every one with the `return` category the
/// spelling `return`.
pub proof fn lemma_stream_keyword_literals(s: Seq<char>, i: int, k: int)
    requires
        0 <= i <= s.len(),
        0 <= k < spec_tokens(s, i).len(),
    ensures
        spec_tokens(s, i)[k].token_type == TokenType::LET ==> spec_tokens(s, i)[k].literal
            == "let"@,
        spec_tokens(s, i)[k].token_type == TokenType::RETURN ==> spec_tokens(s, i)[k].literal
            == "return"@,
    decreases s.len() - i,
{
    lemma_spec_tokens_step(s, i);
    lemma_skip_ws(s, i);
    let j = skip_ws(s, i);
    lemma_token_end(s, j);
    if k == 0 {
        lemma_token_at_keyword_literal(s, j);
    } else {
        assert(spec_tokens(s, i)[k] == spec_tokens(s, i).skip(1)[k - 1]);
        lemma_stream_keyword_literals(s, token_end(s, j), k - 1);
    }
}

/// At the end of the input the scanner's position stays at the end and
/// the scanned token is the end-of-input token, so once end-of-input has
/// been returned every later scan returns it again.
pub proof fn lemma_next_token_eof_idempotent(s: Seq<char>, i: int)
    requires
        0 <= i <= s.len(),
        skip_ws(s, i) >= s.len(),
    ensures
        token_at(s, skip_ws(s, i)).token_type == TokenType::EOF,
        token_end(s, skip_ws(s, i)) == s.len(),
        skip_ws(s, s.len() as int) == s.len(),
{
    lemma_skip_ws(s, i);
}

/// Parsing `<ident> + <ident> * <ident>` binds the product tighter than
/// the sum: the root of the resulting tree is the sum node, and its
/// right operand is the product node, never the reverse.
pub proof fn lemma_product_binds_tighter_than_sum(
    a: TokenView,
    plus: TokenView,
    b: TokenView,
    star: TokenView,
    c: TokenView,
)
    requires
        a.token_type == TokenType::IDENT,
        plus.token_type == TokenType::PLUS,
        b.token_type == TokenType::IDENT,
        star.token_type == TokenType::ASTERISK,
        c.token_type == TokenType::IDENT,
    ensures
        ({
            let toks = seq![a, plus, b, star, c];
            let r = spec_parse_expression(toks, 0, Precedence::Lowest.spec_rank());
            &&& r.0 == Some(
                ExprView::Infix {
                    token: plus,
                    left: Box::new(ExprView::Identifier(IdentView { token: a, value: a.literal })),
                    operator: plus.literal,
                    right: Box::new(
                        ExprView::Infix {
                            token: star,
                            left: Box::new(
                                ExprView::Identifier(IdentView { token: b, value: b.literal }),
                            ),
                            operator: star.literal,
                            right: Box::new(
                                ExprView::Identifier(IdentView { token: c, value: c.literal }),
                            ),
                        },
                    ),
                },
            )
            &&& r.1 == 4
            &&& r.2 == Seq::<Seq<char>>::empty()
        }),
{
    let toks = seq![a, plus, b, star, c];
    let ident_c = ExprView::Identifier(IdentView { token: c, value: c.literal });
    let ident_b = ExprView::Identifier(IdentView { token: b, value: b.literal });
    let ident_a = ExprView::Identifier(IdentView { token: a, value: a.literal });
    let product = ExprView::Infix {
        token: star,
        left: Box::new(ident_b),
        operator: star.literal,
        right: Box::new(ident_c),
    };
    let sum = ExprView::Infix {
        token: plus,
        left: Box::new(ident_a),
        operator: plus.literal,
        right: Box::new(product),
    };
    assert(tok_at(toks, 0) == a && tok_at(toks, 1) == plus && tok_at(toks, 2) == b && tok_at(
        toks,
        3,
    ) == star && tok_at(toks, 4) == c);
    assert(tok_at(toks, 5).token_type == TokenType::EOF);
    assert(spec_infix_climb(toks, 4, ident_c, 4) == (
        Some(ident_c),
        4int,
        Seq::<Seq<char>>::empty(),
    ));
    assert(spec_parse_expression(toks, 4, 4) == (Some(ident_c), 4int, Seq::<Seq<char>>::empty()));
    assert(spec_infix_climb(toks, 4, product, 3) == (
        Some(product),
        4int,
        Seq::<Seq<char>>::empty(),
    ));
    assert(spec_infix_climb(toks, 2, ident_b, 3).0 == Some(product));
    assert(spec_infix_climb(toks, 2, ident_b, 3) == (
        Some(product),
        4int,
        Seq::<Seq<char>>::empty() + Seq::<Seq<char>>::empty(),
    ));
    assert(Seq::<Seq<char>>::empty() + Seq::<Seq<char>>::empty() =~= Seq::<Seq<char>>::empty());
    assert(spec_parse_expression(toks, 2, 3) == (
        Some(product),
        4int,
        Seq::<Seq<char>>::empty() + (Seq::<Seq<char>>::empty() + Seq::<Seq<char>>::empty()),
    ));
    assert(spec_infix_climb(toks, 4, sum, 0) == (Some(sum), 4int, Seq::<Seq<char>>::empty()));
    assert(spec_infix_climb(toks, 0, ident_a, 0).0 == Some(sum));
    assert(spec_parse_expression(toks, 0, 0).0 == Some(sum));
    assert(spec_parse_expression(toks, 0, 0).1 == 4);
    assert(spec_parse_expression(toks, 0, 0).2 =~= Seq::<Seq<char>>::empty());
}

} // verus!
