//! The parser: recursive descent for statements, precedence climbing for
//! expressions, over a lookahead window of two tokens.

use vstd::prelude::*;
use crate::ast::{
    program_is_complete, Boolean, Expression, ExpressionStatement, ExpressionView, Identifier,
    IdentifierView, InfixExpression, IntegerLiteral, LetStatement, PrefixExpression, Program,
    ReturnStatement, Statement, StatementView,
};
use crate::grammar::{
    decimal_value, infix_handler_of, integer_value, is_decimal, parse_expression_spec,
    parse_expression_statement_spec, parse_infix_spec, parse_let_statement_spec,
    parse_prefix_spec, parse_program_spec, parse_return_statement_spec, parse_statement_spec,
    parsed, precedence_of, prefix_handler_of, remaining, unexpected_token_message,
    ExpressionOutcome, StatementOutcome,
};
use crate::laws::lemma_program_is_complete;
use crate::lexer::{
    is_digit, lemma_token_stream_index, offset_after, scan_token, token_stream, Lexer,
};
use crate::token::{token_at, Token, TokenType, TokenView};

verus! {

/// Binding power of operators, from loosest to tightest.
#[derive(Clone, Copy, Debug, PartialEq, Eq, Structural, PartialOrd, Ord)]
pub enum Precedence {
    Lowest,
    /// `==` and `!=`
    Equals,
    /// `<` and `>`
    LessGreater,
    /// `+` and `-`
    Sum,
    /// `*` and `/`
    Product,
    /// unary `-` and `!`
    Prefix,
    /// function application
    Call,
}

impl Precedence {
    /// The place of the level in the order, counted from `Lowest`.
    pub open spec fn spec_rank(self) -> int {
        match self {
            Precedence::Lowest => 0,
            Precedence::Equals => 1,
            Precedence::LessGreater => 2,
            Precedence::Sum => 3,
            Precedence::Product => 4,
            Precedence::Prefix => 5,
            Precedence::Call => 6,
        }
    }

    /// The place of the level in the order, counted from `Lowest`.
    pub fn rank(&self) -> (rank: u8)
        ensures
            rank == self.spec_rank(),
    {
        match self {
            Precedence::Lowest => 0,
            Precedence::Equals => 1,
            Precedence::LessGreater => 2,
            Precedence::Sum => 3,
            Precedence::Product => 4,
            Precedence::Prefix => 5,
            Precedence::Call => 6,
        }
    }
}

/// How an expression that starts with a given token is parsed.
#[derive(Clone, Copy, Debug, PartialEq, Eq, Structural)]
pub enum PrefixHandler {
    Identifier,
    IntegerLiteral,
    Boolean,
    PrefixOperator,
    Grouped,
}

/// How an expression is extended at a given token.
#[derive(Clone, Copy, Debug, PartialEq, Eq, Structural)]
pub enum InfixHandler {
    BinaryOperator,
}

/// The binding power of a token that follows an expression.
fn precedence(kind: TokenType) -> (level: Precedence)
    ensures
        level == precedence_of(kind),
{
    match kind {
        TokenType::Equal | TokenType::NotEqual => Precedence::Equals,
        TokenType::LessThan | TokenType::GreaterThan => Precedence::LessGreater,
        TokenType::Plus | TokenType::Minus => Precedence::Sum,
        TokenType::Asterisk | TokenType::Slash => Precedence::Product,
        TokenType::LParen => Precedence::Call,
        _ => Precedence::Lowest,
    }
}

/// The prefix handler registered for a token category.
fn prefix_handler(kind: TokenType) -> (handler: Option<PrefixHandler>)
    ensures
        handler == prefix_handler_of(kind),
{
    match kind {
        TokenType::Identifier => Some(PrefixHandler::Identifier),
        TokenType::Integer => Some(PrefixHandler::IntegerLiteral),
        TokenType::True | TokenType::False => Some(PrefixHandler::Boolean),
        TokenType::Bang | TokenType::Minus => Some(PrefixHandler::PrefixOperator),
        TokenType::LParen => Some(PrefixHandler::Grouped),
        _ => None,
    }
}

/// The infix handler registered for a token category.
fn infix_handler(kind: TokenType) -> (handler: Option<InfixHandler>)
    ensures
        handler == infix_handler_of(kind),
{
    match kind {
        TokenType::Plus
        | TokenType::Minus
        | TokenType::Asterisk
        | TokenType::Slash
        | TokenType::Equal
        | TokenType::NotEqual
        | TokenType::LessThan
        | TokenType::GreaterThan => Some(InfixHandler::BinaryOperator),
        _ => None,
    }
}

/// The value of a run of digits is not negative and does not shrink when more
/// digits follow.
proof fn lemma_decimal_value_grows(text: Seq<char>, n: int)
    requires
        0 <= n <= text.len(),
        forall|i: int| 0 <= i < text.len() ==> is_digit(#[trigger] text[i]),
    ensures
        0 <= decimal_value(text.take(n)) <= decimal_value(text),
    decreases text.len(),
{
    if text.len() == 0 {
        assert(text.take(n) == text);
    } else if n == text.len() {
        assert(text.take(n) == text);
        lemma_decimal_value_grows(text.drop_last(), n - 1);
    } else {
        assert(text.drop_last().take(n) == text.take(n));
        lemma_decimal_value_grows(text.drop_last(), n);
    }
}

/// The value of the integer literal `text`, if it has one.
pub fn parse_integer(text: &str) -> (value: Option<i64>)
    ensures
        match value {
            Some(v) => integer_value(text@) == Some(v as int),
            None => integer_value(text@) is None,
        },
{
    let mut value: i64 = 0;
    let mut empty = true;
    for c in it: text.chars()
        invariant
            it.seq() == text@,
            empty == (it.index() == 0),
            forall|i: int| 0 <= i < it.index() ==> is_digit(#[trigger] text@[i]),
            value == decimal_value(text@.take(it.index())),
            0 <= value,
    {
        if !(c >= '0' && c <= '9') {
            return None;
        }
        let digit: i64 = (c as u32 - '0' as u32) as i64;
        proof {
            let i = it.index();
            assert(text@.take(i + 1).drop_last() == text@.take(i));
            assert(decimal_value(text@.take(i + 1)) == 10 * value + digit);
            if is_decimal(text@) {
                lemma_decimal_value_grows(text@, i + 1);
            }
        }
        if value > (i64::MAX - digit) / 10 {
            return None;
        }
        value = value * 10 + digit;
        empty = false;
    }
    assert(text@.take(text@.len() as int) == text@);
    if empty {
        None
    } else {
        Some(value)
    }
}

/// Concatenation of sequences is associative.
proof fn lemma_concat_is_associative<A>(a: Seq<A>, b: Seq<A>, c: Seq<A>)
    ensures
        a + (b + c) == (a + b) + c,
{
    assert(a + (b + c) =~= (a + b) + c);
}

/// A parser over the tokens of one lexer.
///
/// `cur_token` and `peek_token` are the lookahead window; `errors` collects the
/// diagnostics. The ghost fields record where in the text the token stream
/// starts and how many tokens the window has moved.
pub struct Parser<'a> {
    l: Lexer<'a>,
    cur_token: Token,
    peek_token: Token,
    errors: Vec<String>,
    start: Ghost<int>,
    cursor: Ghost<nat>,
}

impl<'a> Parser<'a> {
    /// The token stream that the parser reads: the tokens of its lexer from
    /// where the lexer stood when the parser was made.
    pub closed spec fn tokens(&self) -> Seq<TokenView> {
        token_stream(self.l.source(), self.start@)
    }

    /// The position of the current token in `tokens()`.
    pub closed spec fn cursor(&self) -> nat {
        self.cursor@
    }

    /// The diagnostics recorded so far.
    pub closed spec fn diagnostics(&self) -> Seq<Seq<char>> {
        self.errors.deep_view()
    }

    /// The window shows the tokens at `cursor()` and behind it, and the lexer
    /// stands behind the window.
    pub closed spec fn wf(&self) -> bool {
        &&& self.l.wf()
        &&& 0 <= self.start@ <= self.l.source().len()
        &&& self.l.offset() == offset_after(self.l.source(), self.start@, self.cursor@ + 2)
        &&& self.cur_token@ == token_at(self.tokens(), self.cursor@)
        &&& self.peek_token@ == token_at(self.tokens(), self.cursor@ + 1)
    }

    /// The current token.
    pub open spec fn current(&self) -> TokenView {
        token_at(self.tokens(), self.cursor())
    }

    /// The token behind the current one.
    pub open spec fn peek(&self) -> TokenView {
        token_at(self.tokens(), self.cursor() + 1)
    }

    /// The parser has moved `advance` tokens on from `before` over the same
    /// stream and has recorded `errors` since.
    pub open spec fn moved(&self, before: Parser, advance: nat, errors: Seq<Seq<char>>) -> bool {
        &&& self.wf()
        &&& self.tokens() == before.tokens()
        &&& self.cursor() == before.cursor() + advance
        &&& self.diagnostics() =~= before.diagnostics() + errors
    }

    /// Going on from `before`, the parser has parsed `expr` as `outcome` says:
    /// `expr` is the outcome's expression, the window has moved by the
    /// outcome's advance, and the outcome's diagnostics have been recorded.
    pub open spec fn parsed_expression(
        &self,
        before: Parser,
        expr: Option<Expression>,
        outcome: ExpressionOutcome,
    ) -> bool {
        &&& self.moved(before, outcome.advance, outcome.errors)
        &&& expr.deep_view() == outcome.expression
    }

    /// Going on from `before`, the parser has parsed `stmt` as `outcome` says.
    pub open spec fn parsed_statement(
        &self,
        before: Parser,
        stmt: Option<Statement>,
        outcome: StatementOutcome,
    ) -> bool {
        &&& self.moved(before, outcome.advance, outcome.errors)
        &&& stmt.deep_view() == outcome.statement
    }

    /// A parser whose window shows the next two tokens of `l`.
    pub fn new(l: Lexer<'a>) -> (parser: Parser<'a>)
        requires
            l.wf(),
        ensures
            parser.wf(),
            parser.tokens() == token_stream(l.source(), l.offset()),
            parser.cursor() == 0,
            parser.diagnostics() == Seq::<Seq<char>>::empty(),
    {
        let ghost source = l.source();
        let ghost start = l.offset();
        let mut l = l;
        proof {
            l.lemma_offset_in_bounds();
            lemma_token_stream_index(source, start, 0);
            lemma_token_stream_index(source, start, 1);
            assert(offset_after(source, start, 0) == start);
            assert(offset_after(source, start, 1) == scan_token(source, start).1);
        }
        let cur_token = l.next_token();
        let peek_token = l.next_token();
        let parser = Parser {
            l,
            cur_token,
            peek_token,
            errors: Vec::new(),
            start: Ghost(start),
            cursor: Ghost(0),
        };
        assert(parser.errors.deep_view() == Seq::<Seq<char>>::empty());
        parser
    }

    /// The diagnostics recorded so far, in source order.
    pub fn errors(&self) -> (errors: &Vec<String>)
        ensures
            errors.deep_view() == self.diagnostics(),
    {
        &self.errors
    }

    /// Moves the window one token on: the peek token becomes the current one
    /// and a fresh token is pulled from the lexer.
    pub fn next_token(&mut self)
        requires
            old(self).wf(),
        ensures
            final(self).moved(*old(self), 1, Seq::empty()),
    {
        proof {
            lemma_token_stream_index(self.l.source(), self.start@, self.cursor@ + 2);
        }
        self.cur_token = self.peek_token.clone();
        self.peek_token = self.l.next_token();
        self.cursor = Ghost((self.cursor@ + 1) as nat);
    }

    /// Whether the current token has category `t`.
    pub fn cur_token_is(&self, t: TokenType) -> (is: bool)
        requires
            self.wf(),
        ensures
            is == (self.current().kind == t),
    {
        self.cur_token.ttype == t
    }

    /// Whether the peek token has category `t`.
    pub fn peek_token_is(&self, t: &TokenType) -> (is: bool)
        requires
            self.wf(),
        ensures
            is == (self.peek().kind == *t),
    {
        self.peek_token.ttype == *t
    }

    /// Records `message` as the latest diagnostic.
    fn report(&mut self, message: String)
        requires
            old(self).wf(),
        ensures
            final(self).moved(*old(self), 0, seq![message@]),
    {
        let ghost before = self.errors.deep_view();
        self.errors.push(message);
        assert(self.errors.deep_view() =~= before.push(message@));
    }

    /// Records that the peek token is not of the expected category `t`.
    pub fn peek_error(&mut self, t: &TokenType)
        requires
            old(self).wf(),
        ensures
            final(self).moved(
                *old(self),
                0,
                seq![unexpected_token_message(*t, old(self).peek().kind)],
            ),
    {
        let mut message = String::from_str("expected next token to be ");
        message.append(t.name());
        message.append(", got ");
        message.append(self.peek_token.ttype.name());
        message.append(" instead");
        self.report(message);
    }

    /// Moves onto the peek token if it has category `t`; records a diagnostic
    /// and stays otherwise.
    pub fn expect_peek(&mut self, t: TokenType) -> (found: bool)
        requires
            old(self).wf(),
        ensures
            found == (old(self).peek().kind == t),
            found ==> final(self).moved(*old(self), 1, Seq::empty()),
            !found ==> final(self).moved(
                *old(self),
                0,
                seq![unexpected_token_message(t, old(self).peek().kind)],
            ),
    {
        if self.peek_token_is(&t) {
            self.next_token();
            true
        } else {
            self.peek_error(&t);
            false
        }
    }

    /// The binding power of the peek token.
    fn peek_precedence(&self) -> (level: Precedence)
        requires
            self.wf(),
        ensures
            level == precedence_of(self.peek().kind),
    {
        precedence(self.peek_token.ttype)
    }

    /// The binding power of the current token.
    fn cur_precedence(&self) -> (level: Precedence)
        requires
            self.wf(),
        ensures
            level == precedence_of(self.current().kind),
    {
        precedence(self.cur_token.ttype)
    }

    /// The current token as an identifier node.
    pub fn parse_identifier(&self) -> (expr: Expression)
        requires
            self.wf(),
        ensures
            expr@ == ExpressionView::Identifier(
                IdentifierView { token: self.current(), value: self.current().literal },
            ),
    {
        Expression::Identifier(
            Identifier { token: self.cur_token.clone(), value: self.cur_token.literal.clone() },
        )
    }

    /// The current token as an integer literal; a diagnostic where its text has
    /// no value.
    fn parse_integer_literal(&mut self) -> (expr: Option<Expression>)
        requires
            old(self).wf(),
            prefix_handler_of(old(self).current().kind) == Some(PrefixHandler::IntegerLiteral),
        ensures
            final(self).parsed_expression(
                *old(self),
                expr,
                parse_prefix_spec(old(self).tokens(), old(self).cursor()),
            ),
    {
        match parse_integer(self.cur_token.literal.as_str()) {
            Some(value) => Some(
                Expression::IntegerLiteral(IntegerLiteral { token: self.cur_token.clone(), value }),
            ),
            None => {
                let mut message = String::from_str("could not parse ");
                message.append(self.cur_token.literal.as_str());
                message.append(" as integer");
                self.report(message);
                None
            },
        }
    }

    /// The current token as a boolean literal.
    fn parse_boolean(&self) -> (expr: Expression)
        requires
            self.wf(),
        ensures
            expr@ == (ExpressionView::Boolean {
                token: self.current(),
                value: self.current().kind == TokenType::True,
            }),
    {
        Expression::Boolean(
            Boolean { token: self.cur_token.clone(), value: self.cur_token_is(TokenType::True) },
        )
    }

    /// A unary operator and its operand, which binds at `Prefix`.
    fn parse_prefix_expression(&mut self) -> (expr: Option<Expression>)
        requires
            old(self).wf(),
            prefix_handler_of(old(self).current().kind) == Some(PrefixHandler::PrefixOperator),
        ensures
            final(self).parsed_expression(
                *old(self),
                expr,
                parse_prefix_spec(old(self).tokens(), old(self).cursor()),
            ),
        decreases remaining(old(self).tokens(), old(self).cursor()), 1nat,
    {
        let token = self.cur_token.clone();
        let operator = self.cur_token.literal.clone();
        self.next_token();
        match self.parse_expression(Precedence::Prefix) {
            Some(right) => Some(
                Expression::PrefixExpression(
                    PrefixExpression { token, operator, right: Box::new(right) },
                ),
            ),
            None => None,
        }
    }

    /// An expression in parentheses.
    fn parse_grouped_expression(&mut self) -> (expr: Option<Expression>)
        requires
            old(self).wf(),
            prefix_handler_of(old(self).current().kind) == Some(PrefixHandler::Grouped),
        ensures
            final(self).parsed_expression(
                *old(self),
                expr,
                parse_prefix_spec(old(self).tokens(), old(self).cursor()),
            ),
        decreases remaining(old(self).tokens(), old(self).cursor()), 1nat,
    {
        self.next_token();
        let inner = match self.parse_expression(Precedence::Lowest) {
            Some(inner) => inner,
            None => {
                return None;
            },
        };
        if !self.expect_peek(TokenType::RParen) {
            return None;
        }
        Some(inner)
    }

    /// The expression that the current token starts, by the prefix handler
    /// registered for it; a diagnostic where there is none.
    pub fn prefix_fn(&mut self) -> (expr: Option<Expression>)
        requires
            old(self).wf(),
        ensures
            final(self).parsed_expression(
                *old(self),
                expr,
                parse_prefix_spec(old(self).tokens(), old(self).cursor()),
            ),
        decreases remaining(old(self).tokens(), old(self).cursor()), 2nat,
    {
        match prefix_handler(self.cur_token.ttype) {
            Some(PrefixHandler::Identifier) => Some(self.parse_identifier()),
            Some(PrefixHandler::IntegerLiteral) => self.parse_integer_literal(),
            Some(PrefixHandler::Boolean) => Some(self.parse_boolean()),
            Some(PrefixHandler::PrefixOperator) => self.parse_prefix_expression(),
            Some(PrefixHandler::Grouped) => self.parse_grouped_expression(),
            None => {
                let mut message = String::from_str("no prefix parse function for ");
                message.append(self.cur_token.ttype.name());
                self.report(message);
                None
            },
        }
    }

    /// The binary operator at the current token applied to `left` and to the
    /// operand behind it, which binds at the operator's own precedence.
    fn parse_infix_expression(&mut self, left: Expression) -> (expr: Option<Expression>)
        requires
            old(self).wf(),
            infix_handler_of(old(self).current().kind) is Some,
        ensures
            ({
                let operator = old(self).current();
                let operand = parse_expression_spec(
                    old(self).tokens(),
                    old(self).cursor() + 1,
                    precedence_of(operator.kind),
                );
                &&& final(self).moved(*old(self), 1 + operand.advance, operand.errors)
                &&& expr.deep_view() == match operand.expression {
                    Some(right) => Some(
                        ExpressionView::Infix {
                            token: operator,
                            left: Box::new(left@),
                            operator: operator.literal,
                            right: Box::new(right),
                        },
                    ),
                    None => None,
                }
            }),
        decreases remaining(old(self).tokens(), old(self).cursor()), 0nat,
    {
        let token = self.cur_token.clone();
        let operator = self.cur_token.literal.clone();
        let level = self.cur_precedence();
        self.next_token();
        match self.parse_expression(level) {
            Some(right) => Some(
                Expression::InfixExpression(
                    InfixExpression {
                        token,
                        left: Box::new(left),
                        operator,
                        right: Box::new(right),
                    },
                ),
            ),
            None => None,
        }
    }

    /// The expression at the current token that binds tighter than
    /// `precedence`. On success the window ends on the expression's last token.
    pub fn parse_expression(&mut self, precedence: Precedence) -> (expr: Option<Expression>)
        requires
            old(self).wf(),
        ensures
            final(self).parsed_expression(
                *old(self),
                expr,
                parse_expression_spec(old(self).tokens(), old(self).cursor(), precedence),
            ),
        decreases remaining(old(self).tokens(), old(self).cursor()), 3nat,
    {
        let ghost tokens = self.tokens();
        let ghost goal = parse_expression_spec(tokens, self.cursor(), precedence);
        let mut left = match self.prefix_fn() {
            Some(left) => left,
            None => {
                return None;
            },
        };
        while !self.peek_token_is(&TokenType::Semicolon) && precedence.rank()
            < self.peek_precedence().rank()
            invariant
                self.wf(),
                self.tokens() == tokens,
                tokens == old(self).tokens(),
                self.cursor() >= old(self).cursor(),
                goal == parse_expression_spec(tokens, old(self).cursor(), precedence),
                goal.expression == parse_infix_spec(
                    tokens,
                    self.cursor(),
                    precedence,
                    left@,
                ).expression,
                old(self).cursor() + goal.advance == self.cursor() + parse_infix_spec(
                    tokens,
                    self.cursor(),
                    precedence,
                    left@,
                ).advance,
                old(self).diagnostics() + goal.errors =~= self.diagnostics() + parse_infix_spec(
                    tokens,
                    self.cursor(),
                    precedence,
                    left@,
                ).errors,
            decreases remaining(tokens, self.cursor()),
        {
            match infix_handler(self.peek_token.ttype) {
                None => {
                    return Some(left);
                },
                Some(InfixHandler::BinaryOperator) => {
                    self.next_token();
                    left = match self.parse_infix_expression(left) {
                        Some(combined) => combined,
                        None => {
                            return None;
                        },
                    };
                },
            }
        }
        Some(left)
    }

    /// `let <identifier> = <expression>` with an optional semicolon.
    pub fn parse_let_statement(&mut self) -> (stmt: Option<Statement>)
        requires
            old(self).wf(),
        ensures
            final(self).parsed_statement(
                *old(self),
                stmt,
                parse_let_statement_spec(old(self).tokens(), old(self).cursor()),
            ),
    {
        let token = self.cur_token.clone();
        if !self.expect_peek(TokenType::Identifier) {
            return None;
        }
        let name = Identifier {
            token: self.cur_token.clone(),
            value: self.cur_token.literal.clone(),
        };
        if !self.expect_peek(TokenType::Assign) {
            return None;
        }
        self.next_token();
        let value = match self.parse_expression(Precedence::Lowest) {
            Some(value) => value,
            None => {
                return None;
            },
        };
        if self.peek_token_is(&TokenType::Semicolon) {
            self.next_token();
        }
        Some(Statement::LetStatement(LetStatement { token, name: Some(name), value: Some(value) }))
    }

    /// `return <expression>` with an optional semicolon.
    pub fn parse_return_statement(&mut self) -> (stmt: Option<Statement>)
        requires
            old(self).wf(),
        ensures
            final(self).parsed_statement(
                *old(self),
                stmt,
                parse_return_statement_spec(old(self).tokens(), old(self).cursor()),
            ),
    {
        let token = self.cur_token.clone();
        self.next_token();
        let value = match self.parse_expression(Precedence::Lowest) {
            Some(value) => value,
            None => {
                return None;
            },
        };
        if self.peek_token_is(&TokenType::Semicolon) {
            self.next_token();
        }
        Some(Statement::ReturnStatement(ReturnStatement { token, return_value: Some(value) }))
    }

    /// An expression that stands as a statement, with an optional semicolon.
    pub fn parse_expression_statement(&mut self) -> (stmt: Option<Statement>)
        requires
            old(self).wf(),
        ensures
            final(self).parsed_statement(
                *old(self),
                stmt,
                parse_expression_statement_spec(old(self).tokens(), old(self).cursor()),
            ),
    {
        let token = self.cur_token.clone();
        let expression = match self.parse_expression(Precedence::Lowest) {
            Some(expression) => expression,
            None => {
                return None;
            },
        };
        if self.peek_token_is(&TokenType::Semicolon) {
            self.next_token();
        }
        Some(Statement::ExpressionStatement(ExpressionStatement { token, expression }))
    }

    /// The statement at the current token.
    pub fn parse_statement(&mut self) -> (stmt: Option<Statement>)
        requires
            old(self).wf(),
        ensures
            final(self).parsed_statement(
                *old(self),
                stmt,
                parse_statement_spec(old(self).tokens(), old(self).cursor()),
            ),
    {
        match self.cur_token.ttype {
            TokenType::Let => self.parse_let_statement(),
            TokenType::Return => self.parse_return_statement(),
            _ => self.parse_expression_statement(),
        }
    }
    /// Parses statement after statement until the current token is
    /// `EndOfFile`. A statement that parses is appended to the program; one
    /// that fails is left out and has recorded at least one diagnostic. The
    /// window moves one token on after every statement, so parsing never
    /// stalls.
    pub fn parse_program(&mut self) -> (program: Program)
        requires
            old(self).wf(),
        ensures
            final(self).wf(),
            final(self).tokens() == old(self).tokens(),
            final(self).current().kind == TokenType::EndOfFile,
            program@ == parse_program_spec(old(self).tokens(), old(self).cursor()).statements,
            final(self).diagnostics() == old(self).diagnostics() + parse_program_spec(
                old(self).tokens(),
                old(self).cursor(),
            ).errors,
            program_is_complete(program@),
    {
        let ghost tokens = self.tokens();
        let ghost start = self.cursor();
        let ghost recorded = self.diagnostics();
        let mut program = Program::new();
        while self.cur_token.ttype != TokenType::EndOfFile
            invariant
                self.wf(),
                self.tokens() == tokens,
                parse_program_spec(tokens, start).statements == program@ + parse_program_spec(
                    tokens,
                    self.cursor(),
                ).statements,
                recorded + parse_program_spec(tokens, start).errors == self.diagnostics()
                    + parse_program_spec(tokens, self.cursor()).errors,
            decreases remaining(tokens, self.cursor()),
        {
            let ghost parsed_before = program@;
            let ghost recorded_before = self.diagnostics();
            let ghost first = parse_statement_spec(tokens, self.cursor());
            let ghost rest = parse_program_spec(tokens, self.cursor() + first.advance + 1);
            let stmt = self.parse_statement();
            match stmt {
                Some(stmt) => {
                    program.statements.push(stmt);
                    assert(program@ =~= parsed_before.push(stmt@));
                },
                None => {},
            }
            self.next_token();
            proof {
                assert(program@ =~= parsed_before + parsed(first.statement));
                assert(self.diagnostics() =~= recorded_before + first.errors);
                lemma_concat_is_associative(
                    parsed_before,
                    parsed(first.statement),
                    rest.statements,
                );
                lemma_concat_is_associative(recorded_before, first.errors, rest.errors);
            }
        }
        proof {
            lemma_program_is_complete(tokens, start);
            assert(program@ + Seq::<StatementView>::empty() =~= program@);
            assert(self.diagnostics() + Seq::<Seq<char>>::empty() =~= self.diagnostics());
        }
        program
    }
}

/// Parses `input` as a program and returns it with the diagnostics, both in
/// source order. A program without diagnostics parsed without errors.
pub fn parse(input: &str) -> (result: (Program, Vec<String>))
    ensures
        result.0@ == parse_program_spec(token_stream(input@, 0), 0).statements,
        result.1.deep_view() == parse_program_spec(token_stream(input@, 0), 0).errors,
        program_is_complete(result.0@),
{
    let mut parser = Parser::new(Lexer::new(input));
    let program = parser.parse_program();
    (program, parser.errors)
}

} // verus!
