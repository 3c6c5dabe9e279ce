//! The grammar, as functions of a token stream.
//!
//! A position `k` stands for the parser's lookahead window: the current token
//! is `token_at(tokens, k)` and the peek token is `token_at(tokens, k + 1)`.
//! Each function says what is parsed from a position, by how many tokens the
//! window moves, and which diagnostics are recorded on the way. The precedence
//! table and the two handler tables are all that is particular to an operator.

use vstd::prelude::*;
use crate::ast::{ExpressionView, IdentifierView, StatementView};
use crate::lexer::is_digit;
use crate::parser::{InfixHandler, Precedence, PrefixHandler};
use crate::token::{token_at, TokenType, TokenView};

verus! {

/// The binding power of a token that follows an expression; `Lowest` for every
/// token that is no operator. `(` binds as function application does, for
/// which no infix handler is registered.
pub open spec fn precedence_of(kind: TokenType) -> Precedence {
    match kind {
        TokenType::Equal | TokenType::NotEqual => Precedence::Equals,
        TokenType::LessThan | TokenType::GreaterThan => Precedence::LessGreater,
        TokenType::Plus | TokenType::Minus => Precedence::Sum,
        TokenType::Asterisk | TokenType::Slash => Precedence::Product,
        TokenType::LParen => Precedence::Call,
        _ => Precedence::Lowest,
    }
}

/// The prefix handler registered for a token category, if there is one.
pub open spec fn prefix_handler_of(kind: TokenType) -> Option<PrefixHandler> {
    match kind {
        TokenType::Identifier => Some(PrefixHandler::Identifier),
        TokenType::Integer => Some(PrefixHandler::IntegerLiteral),
        TokenType::True | TokenType::False => Some(PrefixHandler::Boolean),
        TokenType::Bang | TokenType::Minus => Some(PrefixHandler::PrefixOperator),
        TokenType::LParen => Some(PrefixHandler::Grouped),
        _ => None,
    }
}

/// The infix handler registered for a token category, if there is one.
pub open spec fn infix_handler_of(kind: TokenType) -> Option<InfixHandler> {
    match kind {
        TokenType::Plus
        | TokenType::Minus
        | TokenType::Asterisk
        | TokenType::Slash
        | TokenType::Equal
        | TokenType::NotEqual
        | TokenType::LessThan
        | TokenType::GreaterThan => Some(InfixHandler::BinaryOperator),
        _ => None,
    }
}

/// The number that a digit stands for.
pub open spec fn digit_value(c: char) -> int {
    c as int - '0' as int
}

/// Every character is a decimal digit, and there is at least one.
pub open spec fn is_decimal(text: Seq<char>) -> bool {
    text.len() > 0 && forall|i: int| 0 <= i < text.len() ==> is_digit(#[trigger] text[i])
}

/// The number that a run of digits denotes in base ten.
pub open spec fn decimal_value(text: Seq<char>) -> int
    decreases text.len(),
{
    if text.len() == 0 {
        0
    } else {
        10 * decimal_value(text.drop_last()) + digit_value(text.last())
    }
}

/// The value of an integer literal: its base-ten value where the text is a run
/// of digits whose value fits in 64 signed bits, nothing otherwise.
pub open spec fn integer_value(text: Seq<char>) -> Option<int> {
    if is_decimal(text) && decimal_value(text) <= i64::MAX {
        Some(decimal_value(text))
    } else {
        None
    }
}

/// The diagnostic for a peek token of the wrong category.
pub open spec fn unexpected_token_message(expected: TokenType, found: TokenType) -> Seq<char> {
    "expected next token to be "@ + expected.spec_name() + ", got "@ + found.spec_name()
        + " instead"@
}

/// The diagnostic for a token that cannot start an expression.
pub open spec fn no_prefix_message(kind: TokenType) -> Seq<char> {
    "no prefix parse function for "@ + kind.spec_name()
}

/// The diagnostic for an integer literal without a value.
pub open spec fn bad_integer_message(literal: Seq<char>) -> Seq<char> {
    "could not parse "@ + literal + " as integer"@
}

/// What parsing an expression gives: the expression unless parsing failed, the
/// number of tokens by which the window moved, and the diagnostics recorded.
pub ghost struct ExpressionOutcome {
    pub expression: Option<ExpressionView>,
    pub advance: nat,
    pub errors: Seq<Seq<char>>,
}

/// What parsing a statement gives.
pub ghost struct StatementOutcome {
    pub statement: Option<StatementView>,
    pub advance: nat,
    pub errors: Seq<Seq<char>>,
}

/// What parsing a program gives: the statements that parsed, in source order,
/// and all diagnostics, in source order.
pub ghost struct ProgramOutcome {
    pub statements: Seq<StatementView>,
    pub errors: Seq<Seq<char>>,
}

/// The number of tokens from position `k` to the end of the stream.
pub open spec fn remaining(tokens: Seq<TokenView>, k: nat) -> nat {
    if k < tokens.len() {
        (tokens.len() - k) as nat
    } else {
        0
    }
}

/// The expression at position `k` that binds tighter than `precedence`: a
/// prefix expression, extended to the right by every infix operator that binds
/// tighter than `precedence`. The window ends on the expression's last token.
pub open spec fn parse_expression_spec(
    tokens: Seq<TokenView>,
    k: nat,
    precedence: Precedence,
) -> ExpressionOutcome
    decreases remaining(tokens, k), 2nat,
{
    let prefix = parse_prefix_spec(tokens, k);
    match prefix.expression {
        None => prefix,
        Some(left) => {
            let rest = parse_infix_spec(tokens, k + prefix.advance, precedence, left);
            ExpressionOutcome {
                expression: rest.expression,
                advance: prefix.advance + rest.advance,
                errors: prefix.errors + rest.errors,
            }
        },
    }
}

/// The expression that the token at `k` starts, without any infix extension.
pub open spec fn parse_prefix_spec(tokens: Seq<TokenView>, k: nat) -> ExpressionOutcome
    decreases remaining(tokens, k), 1nat,
{
    let token = token_at(tokens, k);
    match prefix_handler_of(token.kind) {
        None => ExpressionOutcome {
            expression: None,
            advance: 0,
            errors: seq![no_prefix_message(token.kind)],
        },
        Some(PrefixHandler::Identifier) => ExpressionOutcome {
            expression: Some(
                ExpressionView::Identifier(IdentifierView { token, value: token.literal }),
            ),
            advance: 0,
            errors: Seq::empty(),
        },
        Some(PrefixHandler::IntegerLiteral) => match integer_value(token.literal) {
            Some(value) => ExpressionOutcome {
                expression: Some(ExpressionView::IntegerLiteral { token, value }),
                advance: 0,
                errors: Seq::empty(),
            },
            None => ExpressionOutcome {
                expression: None,
                advance: 0,
                errors: seq![bad_integer_message(token.literal)],
            },
        },
        Some(PrefixHandler::Boolean) => ExpressionOutcome {
            expression: Some(
                ExpressionView::Boolean { token, value: token.kind == TokenType::True },
            ),
            advance: 0,
            errors: Seq::empty(),
        },
        Some(PrefixHandler::PrefixOperator) => {
            let operand = parse_expression_spec(tokens, k + 1, Precedence::Prefix);
            ExpressionOutcome {
                expression: match operand.expression {
                    Some(right) => Some(
                        ExpressionView::Prefix {
                            token,
                            operator: token.literal,
                            right: Box::new(right),
                        },
                    ),
                    None => None,
                },
                advance: 1 + operand.advance,
                errors: operand.errors,
            }
        },
        Some(PrefixHandler::Grouped) => {
            let inner = parse_expression_spec(tokens, k + 1, Precedence::Lowest);
            let closing = token_at(tokens, k + 1 + inner.advance + 1);
            if inner.expression is None {
                ExpressionOutcome {
                    expression: None,
                    advance: 1 + inner.advance,
                    errors: inner.errors,
                }
            } else if closing.kind == TokenType::RParen {
                ExpressionOutcome {
                    expression: inner.expression,
                    advance: 1 + inner.advance + 1,
                    errors: inner.errors,
                }
            } else {
                ExpressionOutcome {
                    expression: None,
                    advance: 1 + inner.advance,
                    errors: inner.errors.push(
                        unexpected_token_message(TokenType::RParen, closing.kind),
                    ),
                }
            }
        },
    }
}

/// Whether the expression that ends at `k` is extended by the token behind it:
/// that token is no semicolon, binds tighter than `precedence`, and has an
/// infix handler.
pub open spec fn extends_at(tokens: Seq<TokenView>, k: nat, precedence: Precedence) -> bool {
    let peek = token_at(tokens, k + 1).kind;
    &&& peek != TokenType::Semicolon
    &&& precedence.spec_rank() < precedence_of(peek).spec_rank()
    &&& infix_handler_of(peek) is Some
}

/// The expression `left`, which ends at `k`, extended to the right by every
/// infix operator that binds tighter than `precedence`. An operator's right
/// operand is parsed at the operator's own precedence, so operators of equal
/// precedence group to the left.
pub open spec fn parse_infix_spec(
    tokens: Seq<TokenView>,
    k: nat,
    precedence: Precedence,
    left: ExpressionView,
) -> ExpressionOutcome
    decreases remaining(tokens, k), 0nat,
{
    if extends_at(tokens, k, precedence) {
        let operator = token_at(tokens, k + 1);
        let operand = parse_expression_spec(tokens, k + 2, precedence_of(operator.kind));
        match operand.expression {
            None => ExpressionOutcome {
                expression: None,
                advance: 2 + operand.advance,
                errors: operand.errors,
            },
            Some(right) => {
                let combined = ExpressionView::Infix {
                    token: operator,
                    left: Box::new(left),
                    operator: operator.literal,
                    right: Box::new(right),
                };
                let rest = parse_infix_spec(
                    tokens,
                    k + 2 + operand.advance,
                    precedence,
                    combined,
                );
                ExpressionOutcome {
                    expression: rest.expression,
                    advance: 2 + operand.advance + rest.advance,
                    errors: operand.errors + rest.errors,
                }
            },
        }
    } else {
        ExpressionOutcome { expression: Some(left), advance: 0, errors: Seq::empty() }
    }
}

/// One more step where a semicolon follows position `k`, none otherwise: a
/// statement takes its closing semicolon along if there is one.
pub open spec fn semicolon_step(tokens: Seq<TokenView>, k: nat) -> nat {
    if token_at(tokens, k + 1).kind == TokenType::Semicolon {
        1
    } else {
        0
    }
}

/// `let <identifier> = <expression>` with an optional semicolon, from the
/// `let` at position `k`.
pub open spec fn parse_let_statement_spec(tokens: Seq<TokenView>, k: nat) -> StatementOutcome {
    let name = token_at(tokens, k + 1);
    let assign = token_at(tokens, k + 2);
    if name.kind != TokenType::Identifier {
        StatementOutcome {
            statement: None,
            advance: 0,
            errors: seq![unexpected_token_message(TokenType::Identifier, name.kind)],
        }
    } else if assign.kind != TokenType::Assign {
        StatementOutcome {
            statement: None,
            advance: 1,
            errors: seq![unexpected_token_message(TokenType::Assign, assign.kind)],
        }
    } else {
        let value = parse_expression_spec(tokens, k + 3, Precedence::Lowest);
        match value.expression {
            None => StatementOutcome {
                statement: None,
                advance: 3 + value.advance,
                errors: value.errors,
            },
            Some(expression) => StatementOutcome {
                statement: Some(
                    StatementView::Let {
                        token: token_at(tokens, k),
                        name: Some(IdentifierView { token: name, value: name.literal }),
                        value: Some(expression),
                    },
                ),
                advance: 3 + value.advance + semicolon_step(tokens, k + 3 + value.advance),
                errors: value.errors,
            },
        }
    }
}

/// `return <expression>` with an optional semicolon, from the `return` at
/// position `k`.
pub open spec fn parse_return_statement_spec(tokens: Seq<TokenView>, k: nat) -> StatementOutcome {
    let value = parse_expression_spec(tokens, k + 1, Precedence::Lowest);
    match value.expression {
        None => StatementOutcome {
            statement: None,
            advance: 1 + value.advance,
            errors: value.errors,
        },
        Some(expression) => StatementOutcome {
            statement: Some(
                StatementView::Return {
                    token: token_at(tokens, k),
                    return_value: Some(expression),
                },
            ),
            advance: 1 + value.advance + semicolon_step(tokens, k + 1 + value.advance),
            errors: value.errors,
        },
    }
}

/// An expression with an optional semicolon, from position `k`.
pub open spec fn parse_expression_statement_spec(
    tokens: Seq<TokenView>,
    k: nat,
) -> StatementOutcome {
    let value = parse_expression_spec(tokens, k, Precedence::Lowest);
    match value.expression {
        None => StatementOutcome { statement: None, advance: value.advance, errors: value.errors },
        Some(expression) => StatementOutcome {
            statement: Some(
                StatementView::Expression { token: token_at(tokens, k), expression },
            ),
            advance: value.advance + semicolon_step(tokens, k + value.advance),
            errors: value.errors,
        },
    }
}

/// The statement at position `k`, chosen by the current token.
pub open spec fn parse_statement_spec(tokens: Seq<TokenView>, k: nat) -> StatementOutcome {
    match token_at(tokens, k).kind {
        TokenType::Let => parse_let_statement_spec(tokens, k),
        TokenType::Return => parse_return_statement_spec(tokens, k),
        _ => parse_expression_statement_spec(tokens, k),
    }
}

/// The statement that was parsed, as a sequence: empty where parsing failed.
pub open spec fn parsed(statement: Option<StatementView>) -> Seq<StatementView> {
    match statement {
        Some(statement) => seq![statement],
        None => Seq::empty(),
    }
}

/// The program from position `k` to the end of the stream: statement after
/// statement until the current token is `EndOfFile`. After each statement,
/// parsed or not, the window moves one token on; a statement that fails is left
/// out of the program, and its diagnostics are kept.
pub open spec fn parse_program_spec(tokens: Seq<TokenView>, k: nat) -> ProgramOutcome
    decreases remaining(tokens, k),
{
    if token_at(tokens, k).kind == TokenType::EndOfFile {
        ProgramOutcome { statements: Seq::empty(), errors: Seq::empty() }
    } else {
        let first = parse_statement_spec(tokens, k);
        let rest = parse_program_spec(tokens, k + first.advance + 1);
        ProgramOutcome {
            statements: parsed(first.statement) + rest.statements,
            errors: first.errors + rest.errors,
        }
    }
}

} // verus!
