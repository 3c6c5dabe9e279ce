//! The syntax tree: statements and expressions, each with the token that
//! introduced it, and the text that a tree is printed as.
//!
//! The tree is a strict tree: a composite node owns its children. Each node type
//! has a mathematical value (`StatementView`, `ExpressionView`, ...) in which
//! strings are `Seq<char>` and integers are `int`.

use vstd::prelude::*;
use crate::token::{Token, TokenView};

verus! {

/// A name: the identifier token and its text.
#[derive(Debug, PartialEq, Eq)]
pub struct Identifier {
    pub token: Token,
    pub value: String,
}

/// An integer literal: the digits as written and their value.
#[derive(Debug, PartialEq, Eq)]
pub struct IntegerLiteral {
    pub token: Token,
    pub value: i64,
}

/// `true` or `false`.
#[derive(Debug, PartialEq, Eq)]
pub struct Boolean {
    pub token: Token,
    pub value: bool,
}

/// A unary operator applied to an operand, as in `-x` or `!x`.
#[derive(Debug, PartialEq, Eq)]
pub struct PrefixExpression {
    pub token: Token,
    pub operator: String,
    pub right: Box<Expression>,
}

/// A binary operator between two operands, as in `a + b`.
#[derive(Debug, PartialEq, Eq)]
pub struct InfixExpression {
    pub token: Token,
    pub left: Box<Expression>,
    pub operator: String,
    pub right: Box<Expression>,
}

/// An expression: something that has a value.
#[derive(Debug, PartialEq, Eq)]
pub enum Expression {
    Identifier(Identifier),
    IntegerLiteral(IntegerLiteral),
    Boolean(Boolean),
    PrefixExpression(PrefixExpression),
    InfixExpression(InfixExpression),
}

/// `let <name> = <value>;`
#[derive(Debug, PartialEq, Eq)]
pub struct LetStatement {
    pub token: Token,
    pub name: Option<Identifier>,
    pub value: Option<Expression>,
}

/// `return <value>;`
#[derive(Debug, PartialEq, Eq)]
pub struct ReturnStatement {
    pub token: Token,
    pub return_value: Option<Expression>,
}

/// An expression that stands as a statement; `token` is its first token.
#[derive(Debug, PartialEq, Eq)]
pub struct ExpressionStatement {
    pub token: Token,
    pub expression: Expression,
}

/// A statement: the unit that a program is made of.
#[derive(Debug, PartialEq, Eq)]
pub enum Statement {
    LetStatement(LetStatement),
    ReturnStatement(ReturnStatement),
    ExpressionStatement(ExpressionStatement),
}

/// A program: its statements in source order.
#[derive(Debug, PartialEq, Eq)]
pub struct Program {
    pub statements: Vec<Statement>,
}

/// The mathematical value of an `Identifier`.
pub ghost struct IdentifierView {
    pub token: TokenView,
    pub value: Seq<char>,
}

/// The mathematical value of an `Expression`.
#[allow(inconsistent_fields)]
pub ghost enum ExpressionView {
    Identifier(IdentifierView),
    IntegerLiteral { token: TokenView, value: int },
    Boolean { token: TokenView, value: bool },
    Prefix { token: TokenView, operator: Seq<char>, right: Box<ExpressionView> },
    Infix {
        token: TokenView,
        left: Box<ExpressionView>,
        operator: Seq<char>,
        right: Box<ExpressionView>,
    },
}

/// The mathematical value of a `Statement`.
pub ghost enum StatementView {
    Let { token: TokenView, name: Option<IdentifierView>, value: Option<ExpressionView> },
    Return { token: TokenView, return_value: Option<ExpressionView> },
    Expression { token: TokenView, expression: ExpressionView },
}

impl View for Identifier {
    type V = IdentifierView;

    open spec fn view(&self) -> IdentifierView {
        IdentifierView { token: self.token@, value: self.value@ }
    }
}

impl DeepView for Identifier {
    type V = IdentifierView;

    open spec fn deep_view(&self) -> IdentifierView {
        self@
    }
}

impl View for Expression {
    type V = ExpressionView;

    open spec fn view(&self) -> ExpressionView
        decreases self,
    {
        match self {
            Expression::Identifier(ident) => ExpressionView::Identifier(ident@),
            Expression::IntegerLiteral(lit) => ExpressionView::IntegerLiteral {
                token: lit.token@,
                value: lit.value as int,
            },
            Expression::Boolean(lit) => ExpressionView::Boolean {
                token: lit.token@,
                value: lit.value,
            },
            Expression::PrefixExpression(prefix) => ExpressionView::Prefix {
                token: prefix.token@,
                operator: prefix.operator@,
                right: Box::new((*prefix.right).view()),
            },
            Expression::InfixExpression(infix) => ExpressionView::Infix {
                token: infix.token@,
                left: Box::new((*infix.left).view()),
                operator: infix.operator@,
                right: Box::new((*infix.right).view()),
            },
        }
    }
}

impl DeepView for Expression {
    type V = ExpressionView;

    open spec fn deep_view(&self) -> ExpressionView {
        self@
    }
}

impl View for Statement {
    type V = StatementView;

    open spec fn view(&self) -> StatementView {
        match self {
            Statement::LetStatement(stmt) => StatementView::Let {
                token: stmt.token@,
                name: stmt.name.deep_view(),
                value: stmt.value.deep_view(),
            },
            Statement::ReturnStatement(stmt) => StatementView::Return {
                token: stmt.token@,
                return_value: stmt.return_value.deep_view(),
            },
            Statement::ExpressionStatement(stmt) => StatementView::Expression {
                token: stmt.token@,
                expression: stmt.expression@,
            },
        }
    }
}

impl DeepView for Statement {
    type V = StatementView;

    open spec fn deep_view(&self) -> StatementView {
        self@
    }
}

impl View for Program {
    type V = Seq<StatementView>;

    open spec fn view(&self) -> Seq<StatementView> {
        self.statements.deep_view()
    }
}

impl Clone for Identifier {
    fn clone(&self) -> (copy: Self)
        ensures
            copy == *self,
    {
        Identifier { token: self.token.clone(), value: self.value.clone() }
    }
}

impl Clone for Expression {
    fn clone(&self) -> (copy: Self)
        ensures
            copy == *self,
        decreases self,
    {
        match self {
            Expression::Identifier(ident) => Expression::Identifier(ident.clone()),
            Expression::IntegerLiteral(lit) => Expression::IntegerLiteral(
                IntegerLiteral { token: lit.token.clone(), value: lit.value },
            ),
            Expression::Boolean(lit) => Expression::Boolean(
                Boolean { token: lit.token.clone(), value: lit.value },
            ),
            Expression::PrefixExpression(prefix) => Expression::PrefixExpression(
                PrefixExpression {
                    token: prefix.token.clone(),
                    operator: prefix.operator.clone(),
                    right: Box::new((*prefix.right).clone()),
                },
            ),
            Expression::InfixExpression(infix) => Expression::InfixExpression(
                InfixExpression {
                    token: infix.token.clone(),
                    left: Box::new((*infix.left).clone()),
                    operator: infix.operator.clone(),
                    right: Box::new((*infix.right).clone()),
                },
            ),
        }
    }
}

/// The text of an expression. Composite expressions are parenthesized, so the
/// text shows how operands group.
pub open spec fn expression_text(expr: ExpressionView) -> Seq<char>
    decreases expr,
{
    match expr {
        ExpressionView::Identifier(ident) => ident.value,
        ExpressionView::IntegerLiteral { token, .. } => token.literal,
        ExpressionView::Boolean { token, .. } => token.literal,
        ExpressionView::Prefix { operator, right, .. } => "("@ + operator + expression_text(*right)
            + ")"@,
        ExpressionView::Infix { left, operator, right, .. } => "("@ + expression_text(*left) + " "@
            + operator + " "@ + expression_text(*right) + ")"@,
    }
}

/// The text of an optional expression: nothing where there is none.
pub open spec fn optional_text(expr: Option<ExpressionView>) -> Seq<char> {
    match expr {
        Some(expr) => expression_text(expr),
        None => Seq::<char>::empty(),
    }
}

/// The text of a statement. A `let` must have its name.
pub open spec fn statement_text(stmt: StatementView) -> Seq<char>
    recommends
        statement_is_complete(stmt),
{
    match stmt {
        StatementView::Let { token, name, value } => token.literal + " "@ + name->0.value + " = "@
            + optional_text(value) + ";"@,
        StatementView::Return { token, return_value } => token.literal + " "@ + optional_text(
            return_value,
        ) + ";"@,
        StatementView::Expression { expression, .. } => expression_text(expression),
    }
}

/// The text of a program: the texts of its statements, one after another.
pub open spec fn program_text(stmts: Seq<StatementView>) -> Seq<char>
    decreases stmts.len(),
{
    if stmts.len() == 0 {
        Seq::<char>::empty()
    } else {
        program_text(stmts.drop_last()) + statement_text(stmts.last())
    }
}

/// A statement that can be printed: a `let` names what it binds.
pub open spec fn statement_is_complete(stmt: StatementView) -> bool {
    stmt matches StatementView::Let { name, .. } ==> name is Some
}

/// A program all of whose statements can be printed.
pub open spec fn program_is_complete(stmts: Seq<StatementView>) -> bool {
    forall|i: int| 0 <= i < stmts.len() ==> statement_is_complete(#[trigger] stmts[i])
}

impl Identifier {
    /// The text of the token that introduced the node.
    pub fn token_literal(&self) -> (text: String)
        ensures
            text@ == self@.token.literal,
    {
        self.token.literal.clone()
    }

    /// The name as it is printed.
    pub fn string(&self) -> (text: String)
        ensures
            text@ == self@.value,
    {
        self.value.clone()
    }
}

impl Expression {
    /// The text of the token that introduced the node.
    pub fn token_literal(&self) -> (text: String)
        ensures
            text@ == expression_token(self@).literal,
    {
        match self {
            Expression::Identifier(ident) => ident.token.literal.clone(),
            Expression::IntegerLiteral(lit) => lit.token.literal.clone(),
            Expression::Boolean(lit) => lit.token.literal.clone(),
            Expression::PrefixExpression(prefix) => prefix.token.literal.clone(),
            Expression::InfixExpression(infix) => infix.token.literal.clone(),
        }
    }

    /// The expression as it is printed, fully parenthesized.
    pub fn string(&self) -> (text: String)
        ensures
            text@ == expression_text(self@),
        decreases self,
    {
        match self {
            Expression::Identifier(ident) => ident.value.clone(),
            Expression::IntegerLiteral(lit) => lit.token.literal.clone(),
            Expression::Boolean(lit) => lit.token.literal.clone(),
            Expression::PrefixExpression(prefix) => {
                let mut out = String::new();
                out.append("(");
                out.append(prefix.operator.as_str());
                out.append(prefix.right.string().as_str());
                out.append(")");
                out
            },
            Expression::InfixExpression(infix) => {
                let mut out = String::new();
                out.append("(");
                out.append(infix.left.string().as_str());
                out.append(" ");
                out.append(infix.operator.as_str());
                out.append(" ");
                out.append(infix.right.string().as_str());
                out.append(")");
                out
            },
        }
    }
}

/// The token that introduced an expression.
pub open spec fn expression_token(expr: ExpressionView) -> TokenView {
    match expr {
        ExpressionView::Identifier(ident) => ident.token,
        ExpressionView::IntegerLiteral { token, .. } => token,
        ExpressionView::Boolean { token, .. } => token,
        ExpressionView::Prefix { token, .. } => token,
        ExpressionView::Infix { token, .. } => token,
    }
}

/// The token that introduced a statement.
pub open spec fn statement_token(stmt: StatementView) -> TokenView {
    match stmt {
        StatementView::Let { token, .. } => token,
        StatementView::Return { token, .. } => token,
        StatementView::Expression { token, .. } => token,
    }
}

/// Appends the text of `expr`, if there is one, to `out`.
fn append_optional(out: &mut String, expr: &Option<Expression>)
    ensures
        final(out)@ == old(out)@ + optional_text(expr.deep_view()),
{
    match expr {
        Some(expr) => {
            out.append(expr.string().as_str());
        },
        None => {},
    }
}

impl Statement {
    /// The text of the token that introduced the statement.
    pub fn token_literal(&self) -> (text: String)
        ensures
            text@ == statement_token(self@).literal,
    {
        match self {
            Statement::ReturnStatement(stmt) => stmt.token.literal.clone(),
            Statement::LetStatement(stmt) => stmt.token.literal.clone(),
            Statement::ExpressionStatement(stmt) => stmt.token.literal.clone(),
        }
    }

    /// The statement as it is printed.
    pub fn string(&self) -> (text: String)
        requires
            statement_is_complete(self@),
        ensures
            text@ == statement_text(self@),
    {
        match self {
            Statement::ReturnStatement(stmt) => {
                let mut out = String::new();
                out.append(self.token_literal().as_str());
                out.append(" ");
                append_optional(&mut out, &stmt.return_value);
                out.append(";");
                out
            },
            Statement::LetStatement(stmt) => {
                let mut out = String::new();
                out.append(self.token_literal().as_str());
                out.append(" ");
                match &stmt.name {
                    Some(name) => {
                        out.append(name.value.as_str());
                    },
                    None => {},
                }
                out.append(" = ");
                append_optional(&mut out, &stmt.value);
                out.append(";");
                out
            },
            Statement::ExpressionStatement(stmt) => stmt.expression.string(),
        }
    }
}

impl Program {
    /// A program without statements.
    pub fn new() -> (program: Program)
        ensures
            program@ == Seq::<StatementView>::empty(),
    {
        Program { statements: Vec::new() }
    }

    /// The text of the token that introduced the first statement, or nothing
    /// for an empty program.
    pub fn token_literal(&self) -> (text: String)
        ensures
            text@ == if self@.len() > 0 {
                statement_token(self@[0]).literal
            } else {
                Seq::<char>::empty()
            },
    {
        if self.statements.len() > 0 {
            self.statements[0].token_literal()
        } else {
            String::new()
        }
    }

    /// The program as it is printed.
    pub fn string(&self) -> (text: String)
        requires
            program_is_complete(self@),
        ensures
            text@ == program_text(self@),
    {
        let mut out = String::new();
        let mut i: usize = 0;
        while i < self.statements.len()
            invariant
                i <= self.statements.len(),
                program_is_complete(self@),
                out@ == program_text(self@.take(i as int)),
            decreases self.statements.len() - i,
        {
            assert(self@.take(i + 1).drop_last() == self@.take(i as int));
            assert(statement_is_complete(self@[i as int]));
            out.append(self.statements[i].string().as_str());
            i += 1;
        }
        assert(self@.take(i as int) == self@);
        out
    }
}

} // verus!
