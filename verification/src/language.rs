//! The language of expressions, stated without precedence, and the proof that
//! the grammar accepts exactly that language.
//!
//! ```text
//! operand    ::= identifier | boolean | integer | ("!" | "-") operand | "(" expression ")"
//! expression ::= operand { operator operand }
//! ```
//!
//! where an operator is one of `+ - * / == != < >` and an integer is a run of
//! digits whose value fits. Precedence decides how the operands of an
//! expression group, never whether the expression is accepted.

use vstd::prelude::*;
use crate::grammar::{
    extends_at, infix_handler_of, integer_value, parse_expression_spec, parse_infix_spec,
    parse_prefix_spec, precedence_of, prefix_handler_of, remaining,
};
use crate::ast::ExpressionView;
use crate::parser::{Precedence, PrefixHandler};
use crate::token::{token_at, TokenType, TokenView};

verus! {

/// A token that is an operand by itself: an identifier, a boolean, or an
/// integer literal that has a value.
pub open spec fn is_atom(token: TokenView) -> bool {
    match prefix_handler_of(token.kind) {
        Some(PrefixHandler::Identifier) => true,
        Some(PrefixHandler::Boolean) => true,
        Some(PrefixHandler::IntegerLiteral) => integer_value(token.literal) is Some,
        _ => false,
    }
}

/// A binary operator follows position `e`.
pub open spec fn continues_at(tokens: Seq<TokenView>, e: nat) -> bool {
    infix_handler_of(token_at(tokens, e + 1).kind) is Some
}

/// Where an operand starts at position `k`, the number of tokens that follow
/// its first token; nothing where no operand starts there.
pub open spec fn operand_span(tokens: Seq<TokenView>, k: nat) -> Option<nat>
    decreases remaining(tokens, k), 0nat,
{
    match prefix_handler_of(token_at(tokens, k).kind) {
        Some(PrefixHandler::PrefixOperator) => match operand_span(tokens, k + 1) {
            Some(n) => Some(n + 1),
            None => None,
        },
        Some(PrefixHandler::Grouped) => match expression_span(tokens, k + 1) {
            Some(n) => if token_at(tokens, k + 1 + n + 1).kind == TokenType::RParen {
                Some(n + 2)
            } else {
                None
            },
            None => None,
        },
        _ => if is_atom(token_at(tokens, k)) {
            Some(0)
        } else {
            None
        },
    }
}

/// Where an expression starts at position `k`, the number of tokens that
/// follow its first token; nothing where no expression starts there. An
/// expression takes every operator that follows one of its operands, and the
/// operand that the operator asks for.
pub open spec fn expression_span(tokens: Seq<TokenView>, k: nat) -> Option<nat>
    decreases remaining(tokens, k), 1nat,
{
    match operand_span(tokens, k) {
        None => None,
        Some(n) => if continues_at(tokens, k + n) {
            match expression_span(tokens, k + n + 2) {
                Some(m) => Some(n + 2 + m),
                None => None,
            }
        } else {
            Some(n)
        },
    }
}

/// The tokens from `k` to `k + n` are operands with one operator between each
/// two: the start of an expression, or all of it.
pub open spec fn is_chain(tokens: Seq<TokenView>, k: nat, n: nat) -> bool
    decreases n,
{
    match operand_span(tokens, k) {
        None => false,
        Some(first) => first == n || (first + 2 <= n && continues_at(tokens, k + first)
            && is_chain(tokens, k + first + 2, (n - first - 2) as nat)),
    }
}

/// What follows an operand that ends at `e` is the rest of an expression.
pub open spec fn tail_is_valid(tokens: Seq<TokenView>, e: nat) -> bool {
    continues_at(tokens, e) ==> expression_span(tokens, e + 2) is Some
}

/// The last position of the expression one of whose operands ends at `e`.
pub open spec fn chain_end(tokens: Seq<TokenView>, e: nat) -> nat {
    if continues_at(tokens, e) {
        e + 2 + expression_span(tokens, e + 2)->0
    } else {
        e
    }
}

/// Where the extension of an expression that ends at `e` stops: on an operand
/// boundary `end` inside the expression, in front of an operator that does not
/// bind tighter than `precedence`, or at the end of the expression.
pub open spec fn stops_at(
    tokens: Seq<TokenView>,
    e: nat,
    precedence: Precedence,
    end: nat,
) -> bool {
    &&& e <= end <= chain_end(tokens, e)
    &&& tail_is_valid(tokens, end)
    &&& chain_end(tokens, end) == chain_end(tokens, e)
    &&& !extends_at(tokens, end, precedence)
}

/// At `Lowest` an expression is extended by every binary operator.
pub proof fn lemma_lowest_takes_every_operator(tokens: Seq<TokenView>, e: nat)
    ensures
        extends_at(tokens, e, Precedence::Lowest) == continues_at(tokens, e),
{
}

/// No binary operator binds tighter than a unary one.
pub proof fn lemma_nothing_binds_tighter_than_prefix(tokens: Seq<TokenView>, e: nat)
    ensures
        !extends_at(tokens, e, Precedence::Prefix),
{
}

/// Every operand is parsed, whole and without a diagnostic.
pub proof fn lemma_operand_is_accepted(tokens: Seq<TokenView>, k: nat)
    requires
        operand_span(tokens, k) is Some,
    ensures
        parse_prefix_spec(tokens, k).expression is Some,
        parse_prefix_spec(tokens, k).advance == operand_span(tokens, k)->0,
        parse_prefix_spec(tokens, k).errors == Seq::<Seq<char>>::empty(),
    decreases remaining(tokens, k), 0nat,
{
    let none = Seq::<Seq<char>>::empty();
    match prefix_handler_of(token_at(tokens, k).kind) {
        Some(PrefixHandler::PrefixOperator) => {
            lemma_operand_is_accepted(tokens, k + 1);
            let operand = parse_prefix_spec(tokens, k + 1);
            lemma_nothing_binds_tighter_than_prefix(tokens, k + 1 + operand.advance);
            assert(parse_infix_spec(
                tokens,
                k + 1 + operand.advance,
                Precedence::Prefix,
                operand.expression->0,
            ).advance == 0);
            assert(operand.errors + none == none);
            assert(parse_expression_spec(tokens, k + 1, Precedence::Prefix).advance
                == operand.advance);
        },
        Some(PrefixHandler::Grouped) => {
            lemma_expression_is_accepted(tokens, k + 1, Precedence::Lowest);
            let inner = parse_expression_spec(tokens, k + 1, Precedence::Lowest);
            lemma_lowest_takes_every_operator(tokens, k + 1 + inner.advance);
        },
        _ => {},
    }
}

/// An expression whose rest is valid is extended without a diagnostic, up to
/// an operand boundary where no operator binds tighter than `precedence`.
pub proof fn lemma_tail_is_accepted(
    tokens: Seq<TokenView>,
    e: nat,
    precedence: Precedence,
    left: ExpressionView,
)
    requires
        tail_is_valid(tokens, e),
    ensures
        parse_infix_spec(tokens, e, precedence, left).expression is Some,
        parse_infix_spec(tokens, e, precedence, left).errors == Seq::<Seq<char>>::empty(),
        stops_at(
            tokens,
            e,
            precedence,
            e + parse_infix_spec(tokens, e, precedence, left).advance,
        ),
    decreases remaining(tokens, e), 0nat,
{
    let none = Seq::<Seq<char>>::empty();
    if extends_at(tokens, e, precedence) {
        let operator = token_at(tokens, e + 1);
        let level = precedence_of(operator.kind);
        lemma_expression_is_accepted(tokens, e + 2, level);
        let operand = parse_expression_spec(tokens, e + 2, level);
        let combined = ExpressionView::Infix {
            token: operator,
            left: Box::new(left),
            operator: operator.literal,
            right: Box::new(operand.expression->0),
        };
        lemma_tail_is_accepted(tokens, e + 2 + operand.advance, precedence, combined);
        assert(none + none == none);
    }
}

/// Every expression is accepted at every precedence: the grammar parses it
/// without a diagnostic, up to an operand boundary where no operator binds
/// tighter than `precedence`.
pub proof fn lemma_expression_is_accepted(
    tokens: Seq<TokenView>,
    k: nat,
    precedence: Precedence,
)
    requires
        expression_span(tokens, k) is Some,
    ensures
        parse_expression_spec(tokens, k, precedence).expression is Some,
        parse_expression_spec(tokens, k, precedence).errors == Seq::<Seq<char>>::empty(),
        k + parse_expression_spec(tokens, k, precedence).advance <= k + expression_span(
            tokens,
            k,
        )->0,
        tail_is_valid(tokens, k + parse_expression_spec(tokens, k, precedence).advance),
        chain_end(tokens, k + parse_expression_spec(tokens, k, precedence).advance) == k
            + expression_span(tokens, k)->0,
        !extends_at(tokens, k + parse_expression_spec(tokens, k, precedence).advance, precedence),
    decreases remaining(tokens, k), 1nat,
{
    let none = Seq::<Seq<char>>::empty();
    lemma_operand_is_accepted(tokens, k);
    let prefix = parse_prefix_spec(tokens, k);
    lemma_tail_is_accepted(tokens, k + prefix.advance, precedence, prefix.expression->0);
    assert(none + none == none);
}

/// Two chains with an operator between them are one chain.
pub proof fn lemma_chains_join(tokens: Seq<TokenView>, k: nat, a: nat, b: nat)
    requires
        is_chain(tokens, k, a),
        continues_at(tokens, k + a),
        is_chain(tokens, k + a + 2, b),
    ensures
        is_chain(tokens, k, a + 2 + b),
    decreases a,
{
    let first = operand_span(tokens, k)->0;
    if first != a {
        lemma_chains_join(tokens, k + first + 2, (a - first - 2) as nat, b);
    }
}

/// A chain that no operator follows is an expression.
pub proof fn lemma_closed_chain_is_expression(tokens: Seq<TokenView>, k: nat, n: nat)
    requires
        is_chain(tokens, k, n),
        !continues_at(tokens, k + n),
    ensures
        expression_span(tokens, k) == Some(n),
    decreases n,
{
    let first = operand_span(tokens, k)->0;
    if first != n {
        lemma_closed_chain_is_expression(tokens, k + first + 2, (n - first - 2) as nat);
    }
}

/// Whatever is parsed as an expression is a chain of operands, and stops
/// where no operator binds tighter than `precedence`.
pub proof fn lemma_parsed_expression_is_chain(
    tokens: Seq<TokenView>,
    k: nat,
    precedence: Precedence,
)
    requires
        parse_expression_spec(tokens, k, precedence).expression is Some,
    ensures
        is_chain(tokens, k, parse_expression_spec(tokens, k, precedence).advance),
        !extends_at(tokens, k + parse_expression_spec(tokens, k, precedence).advance, precedence),
    decreases remaining(tokens, k), 2nat,
{
    let prefix = parse_prefix_spec(tokens, k);
    lemma_parsed_prefix_is_operand(tokens, k);
    lemma_parsed_tail_is_chain(tokens, k + prefix.advance, precedence, prefix.expression->0);
}

/// Whatever is parsed as the prefix part of an expression is an operand.
pub proof fn lemma_parsed_prefix_is_operand(tokens: Seq<TokenView>, k: nat)
    requires
        parse_prefix_spec(tokens, k).expression is Some,
    ensures
        operand_span(tokens, k) == Some(parse_prefix_spec(tokens, k).advance),
    decreases remaining(tokens, k), 1nat,
{
    match prefix_handler_of(token_at(tokens, k).kind) {
        Some(PrefixHandler::PrefixOperator) => {
            let operand = parse_prefix_spec(tokens, k + 1);
            lemma_parsed_prefix_is_operand(tokens, k + 1);
            lemma_nothing_binds_tighter_than_prefix(tokens, k + 1 + operand.advance);
            assert(parse_infix_spec(
                tokens,
                k + 1 + operand.advance,
                Precedence::Prefix,
                operand.expression->0,
            ).advance == 0);
        },
        Some(PrefixHandler::Grouped) => {
            let inner = parse_expression_spec(tokens, k + 1, Precedence::Lowest);
            lemma_parsed_expression_is_chain(tokens, k + 1, Precedence::Lowest);
            lemma_lowest_takes_every_operator(tokens, k + 1 + inner.advance);
            lemma_closed_chain_is_expression(tokens, k + 1, inner.advance);
        },
        _ => {},
    }
}

/// Whatever extends an expression that ends at `e` is an operator and a chain
/// of operands, and the extension stops where no operator binds tighter than
/// `precedence`.
pub proof fn lemma_parsed_tail_is_chain(
    tokens: Seq<TokenView>,
    e: nat,
    precedence: Precedence,
    left: ExpressionView,
)
    requires
        parse_infix_spec(tokens, e, precedence, left).expression is Some,
    ensures
        ({
            let n = parse_infix_spec(tokens, e, precedence, left).advance;
            &&& n == 0 || (n >= 2 && continues_at(tokens, e) && is_chain(
                tokens,
                e + 2,
                (n - 2) as nat,
            ))
            &&& !extends_at(tokens, e + n, precedence)
        }),
    decreases remaining(tokens, e), 0nat,
{
    if extends_at(tokens, e, precedence) {
        let operator = token_at(tokens, e + 1);
        let level = precedence_of(operator.kind);
        let operand = parse_expression_spec(tokens, e + 2, level);
        lemma_parsed_expression_is_chain(tokens, e + 2, level);
        let combined = ExpressionView::Infix {
            token: operator,
            left: Box::new(left),
            operator: operator.literal,
            right: Box::new(operand.expression->0),
        };
        let rest = parse_infix_spec(tokens, e + 2 + operand.advance, precedence, combined);
        lemma_parsed_tail_is_chain(tokens, e + 2 + operand.advance, precedence, combined);
        if rest.advance != 0 {
            lemma_chains_join(tokens, e + 2, operand.advance, (rest.advance - 2) as nat);
        }
    }
}

/// The grammar accepts exactly the expressions of the language. At `Lowest`
/// an expression is parsed if and only if the tokens from `k` are operands
/// with one binary operator between each two; it is then parsed whole,
/// without a diagnostic.
pub proof fn lemma_grammar_accepts_the_language(tokens: Seq<TokenView>, k: nat)
    ensures
        parse_expression_spec(tokens, k, Precedence::Lowest).expression is Some
            <==> expression_span(tokens, k) is Some,
        expression_span(tokens, k) is Some ==> {
            &&& parse_expression_spec(tokens, k, Precedence::Lowest).advance == expression_span(
                tokens,
                k,
            )->0
            &&& parse_expression_spec(tokens, k, Precedence::Lowest).errors == Seq::<
                Seq<char>,
            >::empty()
        },
{
    let outcome = parse_expression_spec(tokens, k, Precedence::Lowest);
    lemma_lowest_takes_every_operator(tokens, k + outcome.advance);
    if expression_span(tokens, k) is Some {
        lemma_expression_is_accepted(tokens, k, Precedence::Lowest);
    }
    if outcome.expression is Some {
        lemma_parsed_expression_is_chain(tokens, k, Precedence::Lowest);
        lemma_closed_chain_is_expression(tokens, k, outcome.advance);
    }
}

} // verus!
