use vstd::prelude::*;

use crate::token::{char_to_string, Token, TokenView};

verus! {

/// The mathematical value of an identifier node.
pub ghost struct IdentView {
    pub token: TokenView,
    pub value: Seq<char>,
}

/// The mathematical value of an expression tree.
#[allow(inconsistent_fields)]
pub ghost enum ExprView {
    Identifier(IdentView),
    IntegerLiteral { token: TokenView, value: i64 },
    Prefix { token: TokenView, operator: Seq<char>, right: Box<ExprView> },
    Infix { token: TokenView, left: Box<ExprView>, operator: Seq<char>, right: Box<ExprView> },
    Boolean { token: TokenView, value: bool },
}

/// The mathematical value of a statement.
pub ghost enum StmtView {
    Let { token: TokenView, name: IdentView, value: Option<ExprView> },
    Return { token: TokenView, value: Option<ExprView> },
    Expr { token: TokenView, value: Option<ExprView> },
}

/// An identifier: the token that spelled it and its spelling.
#[derive(Debug)]
pub struct Identifier {
    pub token: Token,
    pub value: String,
}

impl View for Identifier {
    type V = IdentView;

    open spec fn view(&self) -> IdentView {
        IdentView { token: self.token@, value: self.value@ }
    }
}

/// An integer literal with its decoded value.
#[derive(Debug)]
pub struct IntegerLiteral {
    pub token: Token,
    pub value: i64,
}

/// A prefix operator applied to an operand, such as negation.
#[derive(Debug)]
pub struct PrefixExpression {
    pub token: Token,
    pub operator: String,
    pub right: Box<Expression>,
}

/// A binary operator between two operands.
#[derive(Debug)]
pub struct InfixExpression {
    pub token: Token,
    pub left: Box<Expression>,
    pub operator: String,
    pub right: Box<Expression>,
}

/// A boolean literal.
#[derive(Debug)]
pub struct Boolean {
    pub token: Token,
    pub value: bool,
}

/// An expression: a tagged variant over the expression node types. Each
/// variant owns its sub-expressions exclusively.
#[derive(Debug)]
pub enum Expression {
    Identifier(Identifier),
    IntegerLiteral(IntegerLiteral),
    PrefixExpression(PrefixExpression),
    InfixExpression(InfixExpression),
    Boolean(Boolean),
}

impl View for Expression {
    type V = ExprView;

    open spec fn view(&self) -> ExprView
        decreases self,
    {
        match self {
            Expression::Identifier(identifier) => ExprView::Identifier(identifier@),
            Expression::IntegerLiteral(literal) => ExprView::IntegerLiteral {
                token: literal.token@,
                value: literal.value,
            },
            Expression::PrefixExpression(prefix) => ExprView::Prefix {
                token: prefix.token@,
                operator: prefix.operator@,
                right: Box::new((*prefix.right)@),
            },
            Expression::InfixExpression(infix) => ExprView::Infix {
                token: infix.token@,
                left: Box::new((*infix.left)@),
                operator: infix.operator@,
                right: Box::new((*infix.right)@),
            },
            Expression::Boolean(boolean) => ExprView::Boolean {
                token: boolean.token@,
                value: boolean.value,
            },
        }
    }
}

/// The view of an optional expression.
pub open spec fn expr_opt_view(value: Option<&Expression>) -> Option<ExprView> {
    match value {
        Some(e) => Some(e@),
        None => None,
    }
}

/// A `let` statement: its keyword token, the bound name, and the bound
/// value where one was parsed.
#[derive(Debug)]
pub struct LetStatement {
    pub token: Token,
    pub name: Identifier,
    pub value: Option<Expression>,
}

impl View for LetStatement {
    type V = StmtView;

    open spec fn view(&self) -> StmtView {
        StmtView::Let {
            token: self.token@,
            name: self.name@,
            value: expr_opt_view(match self.value {
                Some(ref e) => Some(e),
                None => None,
            }),
        }
    }
}

/// A `return` statement: its keyword token and the returned value where
/// one was parsed.
#[derive(Debug)]
pub struct ReturnStatement {
    pub token: Token,
    pub return_value: Option<Expression>,
}

impl View for ReturnStatement {
    type V = StmtView;

    open spec fn view(&self) -> StmtView {
        StmtView::Return {
            token: self.token@,
            value: expr_opt_view(match self.return_value {
                Some(ref e) => Some(e),
                None => None,
            }),
        }
    }
}

/// A statement holding one expression; the default statement form.
#[derive(Debug)]
pub struct ExpressionStatement {
    pub token: Token,
    pub expression: Option<Expression>,
}

impl View for ExpressionStatement {
    type V = StmtView;

    open spec fn view(&self) -> StmtView {
        StmtView::Expr {
            token: self.token@,
            value: expr_opt_view(match self.expression {
                Some(ref e) => Some(e),
                None => None,
            }),
        }
    }
}

/// A statement: a tagged variant over the statement node types.
#[derive(Debug)]
pub enum Statement {
    LetStatement(LetStatement),
    ReturnStatement(ReturnStatement),
    ExpressionStatement(ExpressionStatement),
}

impl View for Statement {
    type V = StmtView;

    open spec fn view(&self) -> StmtView {
        match self {
            Statement::LetStatement(statement) => statement@,
            Statement::ReturnStatement(statement) => statement@,
            Statement::ExpressionStatement(statement) => statement@,
        }
    }
}

/// An ordered sequence of statements in source order; the handoff object
/// to any downstream consumer.
pub struct Program {
    pub statements: Vec<Statement>,
}

impl View for Program {
    type V = Seq<StmtView>;

    open spec fn view(&self) -> Seq<StmtView> {
        self.statements@.map_values(|statement: Statement| statement@)
    }
}

/// The decimal digit character for a value below ten.
pub open spec fn spec_digit_char(d: int) -> char {
    if d == 0 {
        '0'
    } else if d == 1 {
        '1'
    } else if d == 2 {
        '2'
    } else if d == 3 {
        '3'
    } else if d == 4 {
        '4'
    } else if d == 5 {
        '5'
    } else if d == 6 {
        '6'
    } else if d == 7 {
        '7'
    } else if d == 8 {
        '8'
    } else {
        '9'
    }
}

/// The decimal rendering of a non-negative integer, without sign or
/// leading zeros.
pub open spec fn spec_nat_str(n: int) -> Seq<char>
    decreases n,
{
    if n < 10 {
        seq![spec_digit_char(n)]
    } else {
        spec_nat_str(n / 10) + seq![spec_digit_char(n % 10)]
    }
}

/// The decimal rendering of an integer, with a leading minus sign when
/// negative.
pub open spec fn spec_int_str(v: int) -> Seq<char> {
    if v >= 0 {
        spec_nat_str(v)
    } else {
        seq!['-'] + spec_nat_str(-v)
    }
}

fn digit_char(d: u64) -> (c: char)
    requires
        d < 10,
    ensures
        c == spec_digit_char(d as int),
{
    if d == 0 {
        '0'
    } else if d == 1 {
        '1'
    } else if d == 2 {
        '2'
    } else if d == 3 {
        '3'
    } else if d == 4 {
        '4'
    } else if d == 5 {
        '5'
    } else if d == 6 {
        '6'
    } else if d == 7 {
        '7'
    } else if d == 8 {
        '8'
    } else {
        '9'
    }
}

fn nat_to_string(n: u64) -> (s: String)
    ensures
        s@ == spec_nat_str(n as int),
    decreases n,
{
    if n < 10 {
        char_to_string(digit_char(n))
    } else {
        let mut s = nat_to_string(n / 10);
        s.append(char_to_string(digit_char(n % 10)).as_str());
        s
    }
}

/// The decimal rendering of a signed 64-bit value.
pub fn int64_to_string(value: i64) -> (s: String)
    ensures
        s@ == spec_int_str(value as int),
{
    if value >= 0 {
        nat_to_string(value as u64)
    } else {
        let magnitude: u64 = ((-(value + 1)) as u64) + 1;
        proof {
            assert(magnitude as int == -(value as int));
        }
        let mut s = char_to_string('-');
        s.append(nat_to_string(magnitude).as_str());
        s
    }
}

/// The token that began an expression's syntax.
pub open spec fn expr_token(e: ExprView) -> TokenView {
    match e {
        ExprView::Identifier(identifier) => identifier.token,
        ExprView::IntegerLiteral { token, .. } => token,
        ExprView::Prefix { token, .. } => token,
        ExprView::Infix { token, .. } => token,
        ExprView::Boolean { token, .. } => token,
    }
}

/// The canonical textual rendering of an expression: identifiers render
/// as their spelling, literals as their value, a prefix expression as the
/// operator followed by its operand, and an infix expression as left
/// operand, operator, right operand, concatenated without
/// parenthesization.
pub open spec fn expr_render(e: ExprView) -> Seq<char>
    decreases e,
{
    match e {
        ExprView::Identifier(identifier) => identifier.value,
        ExprView::IntegerLiteral { value, .. } => spec_int_str(value as int),
        ExprView::Prefix { operator, right, .. } => operator + expr_render(*right),
        ExprView::Infix { left, operator, right, .. } => expr_render(*left) + operator
            + expr_render(*right),
        ExprView::Boolean { value, .. } => (if value {
            "true"@
        } else {
            "false"@
        }),
    }
}

/// The rendering of an optional expression; an absent one renders as
/// nothing.
pub open spec fn opt_render(value: Option<ExprView>) -> Seq<char> {
    match value {
        Some(e) => expr_render(e),
        None => Seq::empty(),
    }
}

/// The token that began a statement's syntax.
pub open spec fn stmt_token(st: StmtView) -> TokenView {
    match st {
        StmtView::Let { token, .. } => token,
        StmtView::Return { token, .. } => token,
        StmtView::Expr { token, .. } => token,
    }
}

/// The canonical textual rendering of a statement.
pub open spec fn stmt_render(st: StmtView) -> Seq<char> {
    match st {
        StmtView::Let { token, name, value } => token.literal + " "@ + name.value + " = "@
            + opt_render(value) + ";"@,
        StmtView::Return { token, value } => token.literal + " "@ + opt_render(value) + ";"@,
        StmtView::Expr { value, .. } => match value {
            Some(e) => expr_render(e),
            None => "expression not_found"@,
        },
    }
}

/// The rendering of a whole program: its statements' renderings in
/// source order, with nothing between them.
pub open spec fn program_render(statements: Seq<StmtView>) -> Seq<char>
    decreases statements.len(),
{
    if statements.len() == 0 {
        Seq::empty()
    } else {
        program_render(statements.drop_last()) + stmt_render(statements.last())
    }
}

impl Identifier {
    /// The literal text of the identifier's token.
    pub fn token_literal(&self) -> (s: String)
        ensures
            s@ == self.token@.literal,
    {
        self.token.literal.clone()
    }

    /// The identifier's canonical rendering: its spelling.
    pub fn to_string(&self) -> (s: String)
        ensures
            s@ == expr_render(ExprView::Identifier(self@)),
    {
        self.value.clone()
    }
}

impl IntegerLiteral {
    /// The literal text of the integer's token.
    pub fn token_literal(&self) -> (s: String)
        ensures
            s@ == self.token@.literal,
    {
        self.token.literal.clone()
    }

    /// The literal's canonical rendering: its value in decimal.
    pub fn to_string(&self) -> (s: String)
        ensures
            s@ == spec_int_str(self.value as int),
    {
        int64_to_string(self.value)
    }
}

impl Boolean {
    /// The literal text of the boolean's token.
    pub fn token_literal(&self) -> (s: String)
        ensures
            s@ == self.token@.literal,
    {
        self.token.literal.clone()
    }

    /// The literal's canonical rendering: `true` or `false`.
    pub fn to_string(&self) -> (s: String)
        ensures
            s@ == (if self.value {
                "true"@
            } else {
                "false"@
            }),
    {
        if self.value {
            String::from_str("true")
        } else {
            String::from_str("false")
        }
    }
}

impl Expression {
    /// The literal text of the token that began the expression.
    pub fn token_literal(&self) -> (s: String)
        ensures
            s@ == expr_token(self@).literal,
    {
        match self {
            Expression::Identifier(identifier) => identifier.token_literal(),
            Expression::IntegerLiteral(literal) => literal.token_literal(),
            Expression::PrefixExpression(prefix) => prefix.token.literal.clone(),
            Expression::InfixExpression(infix) => infix.token.literal.clone(),
            Expression::Boolean(boolean) => boolean.token_literal(),
        }
    }

    /// The expression's canonical rendering.
    pub fn to_string(&self) -> (s: String)
        ensures
            s@ == expr_render(self@),
        decreases *self,
    {
        match self {
            Expression::Identifier(identifier) => identifier.value.clone(),
            Expression::IntegerLiteral(literal) => int64_to_string(literal.value),
            Expression::PrefixExpression(prefix) => {
                let mut out = prefix.operator.clone();
                out.append((&*prefix.right).to_string().as_str());
                out
            },
            Expression::InfixExpression(infix) => {
                let mut out = (&*infix.left).to_string();
                out.append(infix.operator.as_str());
                out.append((&*infix.right).to_string().as_str());
                out
            },
            Expression::Boolean(boolean) => {
                if boolean.value {
                    String::from_str("true")
                } else {
                    String::from_str("false")
                }
            },
        }
    }
}

impl PrefixExpression {
    /// The literal text of the prefix operator's token.
    pub fn token_literal(&self) -> (s: String)
        ensures
            s@ == self.token@.literal,
    {
        self.token.literal.clone()
    }

    /// The canonical rendering: the operator followed by its operand.
    pub fn to_string(&self) -> (s: String)
        ensures
            s@ == self.operator@ + expr_render((*self.right)@),
    {
        let mut out = self.operator.clone();
        out.append((&*self.right).to_string().as_str());
        out
    }
}

impl InfixExpression {
    /// The literal text of the infix operator's token.
    pub fn token_literal(&self) -> (s: String)
        ensures
            s@ == self.token@.literal,
    {
        self.token.literal.clone()
    }

    /// The canonical rendering: left operand, operator, right operand.
    pub fn to_string(&self) -> (s: String)
        ensures
            s@ == expr_render((*self.left)@) + self.operator@ + expr_render((*self.right)@),
    {
        let mut out = (&*self.left).to_string();
        out.append(self.operator.as_str());
        out.append((&*self.right).to_string().as_str());
        out
    }
}

impl LetStatement {
    /// The literal text of the `let` keyword token.
    pub fn token_literal(&self) -> (s: String)
        ensures
            s@ == self.token@.literal,
    {
        self.token.literal.clone()
    }

    /// The canonical rendering of the whole statement.
    pub fn to_string(&self) -> (s: String)
        ensures
            s@ == stmt_render(self@),
    {
        let mut out = self.token_literal();
        out.append(" ");
        out.append(self.name.to_string().as_str());
        out.append(" = ");
        match &self.value {
            Some(value) => out.append(value.to_string().as_str()),
            None => (),
        }
        out.append(";");
        proof {
            assert(out@ =~= stmt_render(self@));
        }
        out
    }
}

impl ReturnStatement {
    /// The literal text of the `return` keyword token.
    pub fn token_literal(&self) -> (s: String)
        ensures
            s@ == self.token@.literal,
    {
        self.token.literal.clone()
    }

    /// The canonical rendering of the whole statement.
    pub fn to_string(&self) -> (s: String)
        ensures
            s@ == stmt_render(self@),
    {
        let mut out = self.token_literal();
        out.append(" ");
        match &self.return_value {
            Some(value) => out.append(value.to_string().as_str()),
            None => (),
        }
        out.append(";");
        proof {
            assert(out@ =~= stmt_render(self@));
        }
        out
    }
}

impl ExpressionStatement {
    /// The literal text of the token that began the statement.
    pub fn token_literal(&self) -> (s: String)
        ensures
            s@ == self.token@.literal,
    {
        self.token.literal.clone()
    }

    /// The canonical rendering: the held expression's rendering.
    pub fn to_string(&self) -> (s: String)
        ensures
            s@ == stmt_render(self@),
    {
        match &self.expression {
            Some(expression) => expression.to_string(),
            None => String::from_str("expression not_found"),
        }
    }
}

impl Statement {
    /// The literal text of the token that began the statement.
    pub fn token_literal(&self) -> (s: String)
        ensures
            s@ == stmt_token(self@).literal,
    {
        match self {
            Statement::LetStatement(statement) => statement.token_literal(),
            Statement::ReturnStatement(statement) => statement.token_literal(),
            Statement::ExpressionStatement(statement) => statement.token_literal(),
        }
    }

    /// The canonical rendering of the statement.
    pub fn to_string(&self) -> (s: String)
        ensures
            s@ == stmt_render(self@),
    {
        match self {
            Statement::LetStatement(statement) => statement.to_string(),
            Statement::ReturnStatement(statement) => statement.to_string(),
            Statement::ExpressionStatement(statement) => statement.to_string(),
        }
    }
}

impl Program {
    /// The literal text of the token that began the first statement.
    pub fn token_literal(&self) -> (s: String)
        requires
            self@.len() > 0,
        ensures
            s@ == stmt_token(self@[0]).literal,
    {
        self.statements[0].token_literal()
    }

    /// The canonical rendering of the whole program: its statements'
    /// renderings concatenated in source order. An empty program renders
    /// as the empty string.
    pub fn to_string(&self) -> (s: String)
        ensures
            s@ == program_render(self@),
    {
        let mut out = String::new();
        let mut i: usize = 0;
        let n = self.statements.len();
        while i < n
            invariant
                i <= n,
                n == self.statements@.len(),
                out@ == program_render(self@.take(i as int)),
            decreases n - i,
        {
            let rendered = self.statements[i].to_string();
            out.append(rendered.as_str());
            proof {
                assert(self@.take(i + 1).drop_last() =~= self@.take(i as int));
                assert(self@.take(i + 1).last() == self@[i as int]);
            }
            i = i + 1;
        }
        proof {
            assert(self@.take(n as int) =~= self@);
        }
        out
    }
}

} // verus!
