//! Laws of the expression grammar: what holds of every tree that is parsed.
//!
//! A tree fits the tokens that introduced its nodes, it holds exactly the
//! tokens of its source, and its operands group as the precedence table says.

use vstd::prelude::*;
use crate::ast::{ExpressionView, StatementView};
use crate::grammar::{
    extends_at, infix_handler_of, integer_value, parse_expression_spec, parse_infix_spec,
    parse_prefix_spec, parse_program_spec, parse_statement_spec, precedence_of, prefix_handler_of,
    remaining, ExpressionOutcome,
};
use crate::language::is_atom;
use crate::parser::{Precedence, PrefixHandler};
use crate::token::{token_at, TokenType, TokenView};

verus! {

/// The expression that an atom is.
pub open spec fn atom(tokens: Seq<TokenView>, k: nat) -> ExpressionView {
    parse_prefix_spec(tokens, k).expression->0
}

/// The unary operator `operator` applied to `right`.
pub open spec fn unary(operator: TokenView, right: ExpressionView) -> ExpressionView {
    ExpressionView::Prefix { token: operator, operator: operator.literal, right: Box::new(right) }
}

/// The binary operator `operator` between `left` and `right`.
pub open spec fn binary(
    operator: TokenView,
    left: ExpressionView,
    right: ExpressionView,
) -> ExpressionView {
    ExpressionView::Infix {
        token: operator,
        left: Box::new(left),
        operator: operator.literal,
        right: Box::new(right),
    }
}

/// An atom that nothing extends is an expression by itself, at every
/// precedence.
pub proof fn lemma_atom_alone(tokens: Seq<TokenView>, k: nat, precedence: Precedence)
    requires
        is_atom(token_at(tokens, k)),
        !extends_at(tokens, k, precedence),
    ensures
        parse_expression_spec(tokens, k, precedence) == (ExpressionOutcome {
            expression: Some(atom(tokens, k)),
            advance: 0,
            errors: Seq::empty(),
        }),
{
    let prefix = parse_prefix_spec(tokens, k);
    assert(prefix.errors + Seq::<Seq<char>>::empty() == prefix.errors);
}

/// The precedence table decides how two binary operators group. In
/// `x o1 y o2 z`, with atoms `x`, `y`, `z` and nothing that extends the
/// expression behind `z`, the operands group as `x o1 (y o2 z)` where `o2`
/// binds tighter than `o1`, and as `(x o1 y) o2 z` otherwise: operators of
/// equal precedence group to the left.
pub proof fn lemma_binary_operators_group_by_precedence(tokens: Seq<TokenView>, k: nat)
    requires
        is_atom(token_at(tokens, k)),
        infix_handler_of(token_at(tokens, k + 1).kind) is Some,
        is_atom(token_at(tokens, k + 2)),
        infix_handler_of(token_at(tokens, k + 3).kind) is Some,
        is_atom(token_at(tokens, k + 4)),
        !extends_at(tokens, k + 4, Precedence::Lowest),
    ensures
        parse_expression_spec(tokens, k, Precedence::Lowest) == (ExpressionOutcome {
            expression: Some(
                if precedence_of(token_at(tokens, k + 1).kind).spec_rank() < precedence_of(
                    token_at(tokens, k + 3).kind,
                ).spec_rank() {
                    binary(
                        token_at(tokens, k + 1),
                        atom(tokens, k),
                        binary(token_at(tokens, k + 3), atom(tokens, k + 2), atom(tokens, k + 4)),
                    )
                } else {
                    binary(
                        token_at(tokens, k + 3),
                        binary(token_at(tokens, k + 1), atom(tokens, k), atom(tokens, k + 2)),
                        atom(tokens, k + 4),
                    )
                },
            ),
            advance: 4,
            errors: Seq::empty(),
        }),
{
    let first = token_at(tokens, k + 1);
    let second = token_at(tokens, k + 3);
    let x = atom(tokens, k);
    let y = atom(tokens, k + 2);
    let z = atom(tokens, k + 4);
    let none = Seq::<Seq<char>>::empty();
    assert(none + none == none);
    assert(extends_at(tokens, k, Precedence::Lowest));
    assert(extends_at(tokens, k + 2, Precedence::Lowest));
    if precedence_of(first.kind).spec_rank() < precedence_of(second.kind).spec_rank() {
        let inner = binary(second, y, z);
        lemma_atom_alone(tokens, k + 4, precedence_of(second.kind));
        assert(parse_infix_spec(tokens, k + 4, precedence_of(first.kind), inner) == (
            ExpressionOutcome { expression: Some(inner), advance: 0, errors: none }));
        assert(parse_infix_spec(tokens, k + 2, precedence_of(first.kind), y) == (
            ExpressionOutcome { expression: Some(inner), advance: 2, errors: none }));
        assert(parse_expression_spec(tokens, k + 2, precedence_of(first.kind)) == (
            ExpressionOutcome { expression: Some(inner), advance: 2, errors: none }));
        let outer = binary(first, x, inner);
        assert(parse_infix_spec(tokens, k + 4, Precedence::Lowest, outer) == (ExpressionOutcome {
            expression: Some(outer),
            advance: 0,
            errors: none,
        }));
        assert(parse_infix_spec(tokens, k, Precedence::Lowest, x) == (ExpressionOutcome {
            expression: Some(outer),
            advance: 4,
            errors: none,
        }));
    } else {
        lemma_atom_alone(tokens, k + 2, precedence_of(first.kind));
        let inner = binary(first, x, y);
        lemma_atom_alone(tokens, k + 4, precedence_of(second.kind));
        let outer = binary(second, inner, z);
        assert(parse_infix_spec(tokens, k + 4, Precedence::Lowest, outer) == (ExpressionOutcome {
            expression: Some(outer),
            advance: 0,
            errors: none,
        }));
        assert(parse_infix_spec(tokens, k + 2, Precedence::Lowest, inner) == (ExpressionOutcome {
            expression: Some(outer),
            advance: 2,
            errors: none,
        }));
        assert(parse_infix_spec(tokens, k, Precedence::Lowest, x) == (ExpressionOutcome {
            expression: Some(outer),
            advance: 4,
            errors: none,
        }));
    }
}

/// A unary operator binds tighter than every binary operator. In `p x o y`,
/// with a unary operator `p`, atoms `x` and `y`, a binary operator `o`, and
/// nothing that extends the expression behind `y`, the operands group as
/// `(p x) o y`.
pub proof fn lemma_unary_binds_tighter_than_binary(tokens: Seq<TokenView>, k: nat)
    requires
        prefix_handler_of(token_at(tokens, k).kind) == Some(PrefixHandler::PrefixOperator),
        is_atom(token_at(tokens, k + 1)),
        infix_handler_of(token_at(tokens, k + 2).kind) is Some,
        is_atom(token_at(tokens, k + 3)),
        !extends_at(tokens, k + 3, Precedence::Lowest),
    ensures
        parse_expression_spec(tokens, k, Precedence::Lowest) == (ExpressionOutcome {
            expression: Some(
                binary(
                    token_at(tokens, k + 2),
                    unary(token_at(tokens, k), atom(tokens, k + 1)),
                    atom(tokens, k + 3),
                ),
            ),
            advance: 3,
            errors: Seq::empty(),
        }),
{
    let operator = token_at(tokens, k + 2);
    let none = Seq::<Seq<char>>::empty();
    assert(none + none == none);
    lemma_atom_alone(tokens, k + 1, Precedence::Prefix);
    let left = unary(token_at(tokens, k), atom(tokens, k + 1));
    assert(parse_prefix_spec(tokens, k) == (ExpressionOutcome {
        expression: Some(left),
        advance: 1,
        errors: none,
    }));
    lemma_atom_alone(tokens, k + 3, precedence_of(operator.kind));
    let whole = binary(operator, left, atom(tokens, k + 3));
    assert(extends_at(tokens, k + 1, Precedence::Lowest));
    assert(parse_infix_spec(tokens, k + 3, Precedence::Lowest, whole) == (ExpressionOutcome {
        expression: Some(whole),
        advance: 0,
        errors: none,
    }));
    assert(parse_infix_spec(tokens, k + 1, Precedence::Lowest, left) == (ExpressionOutcome {
        expression: Some(whole),
        advance: 2,
        errors: none,
    }));
}

/// The shape of a tree that the grammar builds: every node fits the token that
/// introduced it. An identifier's value is its token's text, an integer's
/// value is the base-ten value of its digits, a boolean is `true` exactly for
/// the token `true`, and an operator node carries the text of its operator
/// token.
pub open spec fn expression_is_well_formed(expr: ExpressionView) -> bool
    decreases expr,
{
    match expr {
        ExpressionView::Identifier(ident) => {
            &&& ident.token.kind == TokenType::Identifier
            &&& ident.value == ident.token.literal
        },
        ExpressionView::IntegerLiteral { token, value } => {
            &&& token.kind == TokenType::Integer
            &&& integer_value(token.literal) == Some(value)
        },
        ExpressionView::Boolean { token, value } => {
            &&& token.kind == TokenType::True || token.kind == TokenType::False
            &&& value == (token.kind == TokenType::True)
        },
        ExpressionView::Prefix { token, operator, right } => {
            &&& prefix_handler_of(token.kind) == Some(PrefixHandler::PrefixOperator)
            &&& operator == token.literal
            &&& expression_is_well_formed(*right)
        },
        ExpressionView::Infix { token, left, operator, right } => {
            &&& infix_handler_of(token.kind) is Some
            &&& operator == token.literal
            &&& expression_is_well_formed(*left)
            &&& expression_is_well_formed(*right)
        },
    }
}

/// The shape of a statement that the grammar builds: a `let` has its `let`
/// token, an identifier as its name and a well-formed value; a `return` has
/// its `return` token and a well-formed value; an expression statement has a
/// well-formed expression.
pub open spec fn statement_is_well_formed(stmt: StatementView) -> bool {
    match stmt {
        StatementView::Let { token, name, value } => {
            &&& token.kind == TokenType::Let
            &&& name matches Some(name) && name.token.kind == TokenType::Identifier && name.value
                == name.token.literal
            &&& value matches Some(value) && expression_is_well_formed(value)
        },
        StatementView::Return { token, return_value } => {
            &&& token.kind == TokenType::Return
            &&& return_value matches Some(value) && expression_is_well_formed(value)
        },
        StatementView::Expression { token, expression } => expression_is_well_formed(expression),
    }
}

/// Every expression that is parsed is well formed.
pub proof fn lemma_expression_is_well_formed(
    tokens: Seq<TokenView>,
    k: nat,
    precedence: Precedence,
)
    ensures
        parse_expression_spec(tokens, k, precedence).expression matches Some(expr)
            ==> expression_is_well_formed(expr),
    decreases remaining(tokens, k), 2nat,
{
    lemma_prefix_is_well_formed(tokens, k);
    let prefix = parse_prefix_spec(tokens, k);
    if let Some(left) = prefix.expression {
        lemma_infix_is_well_formed(tokens, k + prefix.advance, precedence, left);
    }
}

/// Every prefix expression that is parsed is well formed.
pub proof fn lemma_prefix_is_well_formed(tokens: Seq<TokenView>, k: nat)
    ensures
        parse_prefix_spec(tokens, k).expression matches Some(expr) ==> expression_is_well_formed(
            expr,
        ),
    decreases remaining(tokens, k), 1nat,
{
    match prefix_handler_of(token_at(tokens, k).kind) {
        Some(PrefixHandler::PrefixOperator) => {
            lemma_expression_is_well_formed(tokens, k + 1, Precedence::Prefix);
        },
        Some(PrefixHandler::Grouped) => {
            lemma_expression_is_well_formed(tokens, k + 1, Precedence::Lowest);
        },
        _ => {},
    }
}

/// Extending a well-formed expression gives a well-formed expression.
pub proof fn lemma_infix_is_well_formed(
    tokens: Seq<TokenView>,
    k: nat,
    precedence: Precedence,
    left: ExpressionView,
)
    requires
        expression_is_well_formed(left),
    ensures
        parse_infix_spec(tokens, k, precedence, left).expression matches Some(expr)
            ==> expression_is_well_formed(expr),
    decreases remaining(tokens, k), 0nat,
{
    if extends_at(tokens, k, precedence) {
        let operator = token_at(tokens, k + 1);
        let operand = parse_expression_spec(tokens, k + 2, precedence_of(operator.kind));
        lemma_expression_is_well_formed(tokens, k + 2, precedence_of(operator.kind));
        if let Some(right) = operand.expression {
            let combined = ExpressionView::Infix {
                token: operator,
                left: Box::new(left),
                operator: operator.literal,
                right: Box::new(right),
            };
            lemma_infix_is_well_formed(tokens, k + 2 + operand.advance, precedence, combined);
        }
    }
}

/// Every statement that is parsed is well formed.
pub proof fn lemma_statement_is_well_formed(tokens: Seq<TokenView>, k: nat)
    ensures
        parse_statement_spec(tokens, k).statement matches Some(stmt) ==> statement_is_well_formed(
            stmt,
        ),
{
    lemma_expression_is_well_formed(tokens, k, Precedence::Lowest);
    lemma_expression_is_well_formed(tokens, k + 1, Precedence::Lowest);
    lemma_expression_is_well_formed(tokens, k + 3, Precedence::Lowest);
}

/// A program all of whose statements are well formed.
pub open spec fn program_is_well_formed(stmts: Seq<StatementView>) -> bool {
    forall|i: int| 0 <= i < stmts.len() ==> statement_is_well_formed(#[trigger] stmts[i])
}

/// Every statement of a parsed program is well formed.
pub proof fn lemma_program_is_well_formed(tokens: Seq<TokenView>, k: nat)
    ensures
        program_is_well_formed(parse_program_spec(tokens, k).statements),
    decreases remaining(tokens, k),
{
    if token_at(tokens, k).kind != TokenType::EndOfFile {
        let first = parse_statement_spec(tokens, k);
        lemma_statement_is_well_formed(tokens, k);
        lemma_program_is_well_formed(tokens, k + first.advance + 1);
    }
}

/// The tokens of a tree, from left to right.
pub open spec fn expression_tokens(expr: ExpressionView) -> Seq<TokenView>
    decreases expr,
{
    match expr {
        ExpressionView::Identifier(ident) => seq![ident.token],
        ExpressionView::IntegerLiteral { token, .. } => seq![token],
        ExpressionView::Boolean { token, .. } => seq![token],
        ExpressionView::Prefix { token, right, .. } => seq![token] + expression_tokens(*right),
        ExpressionView::Infix { token, left, right, .. } => expression_tokens(*left) + seq![token]
            + expression_tokens(*right),
    }
}

/// The `n` tokens of a stream from position `k` on.
pub open spec fn window(tokens: Seq<TokenView>, k: nat, n: nat) -> Seq<TokenView> {
    Seq::new(n, |i: int| token_at(tokens, (k + i) as nat))
}

/// A parenthesis: it groups operands and leaves no node in the tree.
pub open spec fn is_parenthesis(token: TokenView) -> bool {
    token.kind == TokenType::LParen || token.kind == TokenType::RParen
}

/// The tokens of `tokens` that are no parentheses, in their order.
pub open spec fn without_parentheses(tokens: Seq<TokenView>) -> Seq<TokenView>
    decreases tokens.len(),
{
    if tokens.len() == 0 {
        tokens
    } else if is_parenthesis(tokens.last()) {
        without_parentheses(tokens.drop_last())
    } else {
        without_parentheses(tokens.drop_last()).push(tokens.last())
    }
}

/// Leaving out the parentheses of two sequences and joining them is the same
/// as joining them and leaving out the parentheses.
pub proof fn lemma_without_parentheses_joins(a: Seq<TokenView>, b: Seq<TokenView>)
    ensures
        without_parentheses(a + b) == without_parentheses(a) + without_parentheses(b),
    decreases b.len(),
{
    if b.len() == 0 {
        assert(a + b == a);
        assert(without_parentheses(a) + without_parentheses(b) == without_parentheses(a));
    } else {
        assert((a + b).drop_last() == a + b.drop_last());
        assert((a + b).last() == b.last());
        lemma_without_parentheses_joins(a, b.drop_last());
        if !is_parenthesis(b.last()) {
            assert((without_parentheses(a) + without_parentheses(b.drop_last())).push(b.last())
                == without_parentheses(a) + without_parentheses(b.drop_last()).push(b.last()));
        }
    }
}

/// A window of `a + b` tokens is a window of `a` tokens and the window of `b`
/// tokens behind it.
pub proof fn lemma_window_joins(tokens: Seq<TokenView>, k: nat, a: nat, b: nat)
    ensures
        window(tokens, k, a + b) == window(tokens, k, a) + window(tokens, k + a, b),
{
    assert(window(tokens, k, a + b) =~= window(tokens, k, a) + window(tokens, k + a, b));
}

/// A window of one token, without parentheses.
pub proof fn lemma_window_of_one(tokens: Seq<TokenView>, k: nat)
    ensures
        without_parentheses(window(tokens, k, 1)) == if is_parenthesis(token_at(tokens, k)) {
            Seq::<TokenView>::empty()
        } else {
            seq![token_at(tokens, k)]
        },
{
    let one = window(tokens, k, 1);
    assert(one.last() == token_at(tokens, k));
    assert(one.drop_last() == Seq::<TokenView>::empty());
    assert(without_parentheses(one.drop_last()) == Seq::<TokenView>::empty());
    if !is_parenthesis(token_at(tokens, k)) {
        assert(Seq::<TokenView>::empty().push(token_at(tokens, k)) == seq![token_at(tokens, k)]);
    }
}

/// A tree is faithful to its source: the tokens of an expression that is
/// parsed are the tokens that the window has passed, none lost, none added,
/// in their order, without the parentheses.
pub proof fn lemma_expression_is_faithful(
    tokens: Seq<TokenView>,
    k: nat,
    precedence: Precedence,
)
    requires
        parse_expression_spec(tokens, k, precedence).expression is Some,
    ensures
        expression_tokens(parse_expression_spec(tokens, k, precedence).expression->0)
            == without_parentheses(
            window(tokens, k, parse_expression_spec(tokens, k, precedence).advance + 1),
        ),
    decreases remaining(tokens, k), 2nat,
{
    let prefix = parse_prefix_spec(tokens, k);
    let rest = parse_infix_spec(tokens, k + prefix.advance, precedence, prefix.expression->0);
    lemma_prefix_is_faithful(tokens, k);
    lemma_infix_is_faithful(tokens, k + prefix.advance, precedence, prefix.expression->0);
    lemma_window_joins(tokens, k, prefix.advance + 1, rest.advance);
    lemma_without_parentheses_joins(
        window(tokens, k, prefix.advance + 1),
        window(tokens, k + prefix.advance + 1, rest.advance),
    );
}

/// The prefix part of an expression is faithful to its source.
pub proof fn lemma_prefix_is_faithful(tokens: Seq<TokenView>, k: nat)
    requires
        parse_prefix_spec(tokens, k).expression is Some,
    ensures
        expression_tokens(parse_prefix_spec(tokens, k).expression->0) == without_parentheses(
            window(tokens, k, parse_prefix_spec(tokens, k).advance + 1),
        ),
    decreases remaining(tokens, k), 1nat,
{
    lemma_window_of_one(tokens, k);
    match prefix_handler_of(token_at(tokens, k).kind) {
        Some(PrefixHandler::PrefixOperator) => {
            let operand = parse_expression_spec(tokens, k + 1, Precedence::Prefix);
            lemma_expression_is_faithful(tokens, k + 1, Precedence::Prefix);
            lemma_window_joins(tokens, k, 1, operand.advance + 1);
            lemma_without_parentheses_joins(
                window(tokens, k, 1),
                window(tokens, k + 1, operand.advance + 1),
            );
        },
        Some(PrefixHandler::Grouped) => {
            let inner = parse_expression_spec(tokens, k + 1, Precedence::Lowest);
            lemma_expression_is_faithful(tokens, k + 1, Precedence::Lowest);
            lemma_window_of_one(tokens, k + 1 + inner.advance + 1);
            lemma_window_joins(tokens, k, 1, inner.advance + 1 + 1);
            lemma_window_joins(tokens, k + 1, inner.advance + 1, 1);
            lemma_without_parentheses_joins(
                window(tokens, k, 1),
                window(tokens, k + 1, inner.advance + 1 + 1),
            );
            lemma_without_parentheses_joins(
                window(tokens, k + 1, inner.advance + 1),
                window(tokens, k + 1 + inner.advance + 1, 1),
            );
            let middle = without_parentheses(window(tokens, k + 1, inner.advance + 1));
            assert(Seq::<TokenView>::empty() + (middle + Seq::<TokenView>::empty()) == middle);
        },
        _ => {},
    }
}

/// Extending an expression is faithful to the source: the tokens of the
/// extended tree are the tokens of `left` and the tokens that the window has
/// passed since.
pub proof fn lemma_infix_is_faithful(
    tokens: Seq<TokenView>,
    k: nat,
    precedence: Precedence,
    left: ExpressionView,
)
    requires
        parse_infix_spec(tokens, k, precedence, left).expression is Some,
    ensures
        expression_tokens(parse_infix_spec(tokens, k, precedence, left).expression->0)
            == expression_tokens(left) + without_parentheses(
            window(tokens, k + 1, parse_infix_spec(tokens, k, precedence, left).advance),
        ),
    decreases remaining(tokens, k), 0nat,
{
    if extends_at(tokens, k, precedence) {
        let operator = token_at(tokens, k + 1);
        let level = precedence_of(operator.kind);
        let operand = parse_expression_spec(tokens, k + 2, level);
        let combined = ExpressionView::Infix {
            token: operator,
            left: Box::new(left),
            operator: operator.literal,
            right: Box::new(operand.expression->0),
        };
        let rest = parse_infix_spec(tokens, k + 2 + operand.advance, precedence, combined);
        lemma_expression_is_faithful(tokens, k + 2, level);
        lemma_infix_is_faithful(tokens, k + 2 + operand.advance, precedence, combined);
        lemma_window_of_one(tokens, k + 1);
        let first = window(tokens, k + 1, 1);
        let second = window(tokens, k + 2, operand.advance + 1);
        let third = window(tokens, k + 2 + operand.advance + 1, rest.advance);
        lemma_window_joins(tokens, k + 1, 1, operand.advance + 1 + rest.advance);
        lemma_window_joins(tokens, k + 2, operand.advance + 1, rest.advance);
        lemma_without_parentheses_joins(first, second + third);
        lemma_without_parentheses_joins(second, third);
        let a = expression_tokens(left);
        let b = without_parentheses(first);
        let c = without_parentheses(second);
        let d = without_parentheses(third);
        assert(((a + b) + c) + d == a + (b + (c + d)));
    } else {
        assert(window(tokens, k + 1, 0) == Seq::<TokenView>::empty());
        assert(expression_tokens(left) + Seq::<TokenView>::empty() == expression_tokens(left));
    }
}

} // verus!
