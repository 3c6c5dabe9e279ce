//! Laws of the tokenizer and of the statement grammar: what holds of every
//! text and of every token stream.

use vstd::prelude::*;
use crate::ast::{
    program_is_complete, statement_is_complete, ExpressionView, IdentifierView, StatementView,
};
use crate::grammar::{
    extends_at, is_decimal, parse_expression_spec, parse_infix_spec, parse_prefix_spec,
    parse_program_spec, parse_statement_spec, parsed, precedence_of, prefix_handler_of, remaining,
    semicolon_step, ProgramOutcome,
};
use crate::language::{expression_span, lemma_grammar_accepts_the_language};
use crate::lexer::{
    char_at, is_alphabetic, is_digit, is_letter, lemma_number_end, lemma_number_run,
    lemma_whitespace_end, lemma_word_end, lemma_word_run, number_end, scan_token, token_stream,
    whitespace_end, word_end,
};
use crate::parser::{Precedence, PrefixHandler};
use crate::token::{token_at, word_kind, TokenType, TokenView};

verus! {

/// An outcome either holds an expression and no diagnostic, or no expression
/// and exactly one diagnostic.
pub open spec fn reported(expression: Option<ExpressionView>, errors: Seq<Seq<char>>) -> bool {
    match expression {
        Some(_) => errors.len() == 0,
        None => errors.len() == 1,
    }
}

/// No expression is lost in silence: parsing an expression either succeeds
/// without a diagnostic or fails with exactly one.
pub proof fn lemma_expression_is_reported(tokens: Seq<TokenView>, k: nat, precedence: Precedence)
    ensures
        reported(
            parse_expression_spec(tokens, k, precedence).expression,
            parse_expression_spec(tokens, k, precedence).errors,
        ),
    decreases remaining(tokens, k), 2nat,
{
    lemma_prefix_is_reported(tokens, k);
    let prefix = parse_prefix_spec(tokens, k);
    if let Some(left) = prefix.expression {
        lemma_infix_is_reported(tokens, k + prefix.advance, precedence, left);
    }
}

/// The prefix part of an expression either succeeds without a diagnostic or
/// fails with exactly one.
pub proof fn lemma_prefix_is_reported(tokens: Seq<TokenView>, k: nat)
    ensures
        reported(parse_prefix_spec(tokens, k).expression, parse_prefix_spec(tokens, k).errors),
    decreases remaining(tokens, k), 1nat,
{
    match prefix_handler_of(token_at(tokens, k).kind) {
        Some(PrefixHandler::PrefixOperator) => {
            lemma_expression_is_reported(tokens, k + 1, Precedence::Prefix);
        },
        Some(PrefixHandler::Grouped) => {
            lemma_expression_is_reported(tokens, k + 1, Precedence::Lowest);
        },
        _ => {},
    }
}

/// Extending an expression to the right either succeeds without a diagnostic
/// or fails with exactly one.
pub proof fn lemma_infix_is_reported(
    tokens: Seq<TokenView>,
    k: nat,
    precedence: Precedence,
    left: ExpressionView,
)
    ensures
        reported(
            parse_infix_spec(tokens, k, precedence, left).expression,
            parse_infix_spec(tokens, k, precedence, left).errors,
        ),
    decreases remaining(tokens, k), 0nat,
{
    if extends_at(tokens, k, precedence) {
        let operator = token_at(tokens, k + 1);
        let operand = parse_expression_spec(tokens, k + 2, precedence_of(operator.kind));
        lemma_expression_is_reported(tokens, k + 2, precedence_of(operator.kind));
        if let Some(right) = operand.expression {
            let combined = ExpressionView::Infix {
                token: operator,
                left: Box::new(left),
                operator: operator.literal,
                right: Box::new(right),
            };
            lemma_infix_is_reported(tokens, k + 2 + operand.advance, precedence, combined);
        }
    }
}

/// No statement is lost in silence: a statement either parses without a
/// diagnostic or is dropped with exactly one. A `let` that parses names what
/// it binds.
pub proof fn lemma_statement_is_reported(tokens: Seq<TokenView>, k: nat)
    ensures
        match parse_statement_spec(tokens, k).statement {
            Some(statement) => parse_statement_spec(tokens, k).errors.len() == 0
                && statement_is_complete(statement),
            None => parse_statement_spec(tokens, k).errors.len() == 1,
        },
{
    lemma_expression_is_reported(tokens, k, Precedence::Lowest);
    lemma_expression_is_reported(tokens, k + 1, Precedence::Lowest);
    lemma_expression_is_reported(tokens, k + 3, Precedence::Lowest);
}

/// The number of statements that are tried from position `k` to the end of
/// the stream.
pub open spec fn attempts(tokens: Seq<TokenView>, k: nat) -> nat
    decreases remaining(tokens, k),
{
    if token_at(tokens, k).kind == TokenType::EndOfFile {
        0
    } else {
        1 + attempts(tokens, k + parse_statement_spec(tokens, k).advance + 1)
    }
}

/// Every statement that is tried is accounted for: it is in the program, or
/// it has left one diagnostic. So a program without diagnostics has lost no
/// statement.
pub proof fn lemma_every_attempt_is_accounted_for(tokens: Seq<TokenView>, k: nat)
    ensures
        parse_program_spec(tokens, k).statements.len() + parse_program_spec(tokens, k).errors.len()
            == attempts(tokens, k),
    decreases remaining(tokens, k),
{
    if token_at(tokens, k).kind != TokenType::EndOfFile {
        let first = parse_statement_spec(tokens, k);
        lemma_statement_is_reported(tokens, k);
        lemma_every_attempt_is_accounted_for(tokens, k + first.advance + 1);
    }
}

/// Every statement of a parsed program can be printed.
pub proof fn lemma_program_is_complete(tokens: Seq<TokenView>, k: nat)
    ensures
        program_is_complete(parse_program_spec(tokens, k).statements),
    decreases remaining(tokens, k),
{
    if token_at(tokens, k).kind != TokenType::EndOfFile {
        let first = parse_statement_spec(tokens, k);
        lemma_statement_is_reported(tokens, k);
        lemma_program_is_complete(tokens, k + first.advance + 1);
    }
}

/// For every `let <identifier> = <expression>`, the statement that is parsed
/// is a `let` whose name is the identifier's token and text exactly and whose
/// value is the expression, and no diagnostic is recorded. The window ends on
/// the closing semicolon if there is one, on the last token of the expression
/// otherwise.
pub proof fn lemma_let_captures_name(tokens: Seq<TokenView>, k: nat)
    requires
        token_at(tokens, k).kind == TokenType::Let,
        token_at(tokens, k + 1).kind == TokenType::Identifier,
        token_at(tokens, k + 2).kind == TokenType::Assign,
        expression_span(tokens, k + 3) is Some,
    ensures
        parse_statement_spec(tokens, k).errors == Seq::<Seq<char>>::empty(),
        parse_statement_spec(tokens, k).statement == Some(
            StatementView::Let {
                token: token_at(tokens, k),
                name: Some(
                    IdentifierView {
                        token: token_at(tokens, k + 1),
                        value: token_at(tokens, k + 1).literal,
                    },
                ),
                value: parse_expression_spec(tokens, k + 3, Precedence::Lowest).expression,
            },
        ),
        parse_expression_spec(tokens, k + 3, Precedence::Lowest).expression is Some,
        parse_statement_spec(tokens, k).advance == 3 + expression_span(tokens, k + 3)->0
            + semicolon_step(tokens, k + 3 + expression_span(tokens, k + 3)->0),
{
    lemma_grammar_accepts_the_language(tokens, k + 3);
}

/// For every `return <expression>`, the statement that is parsed is a
/// `return` of that expression, and no diagnostic is recorded. The window ends
/// on the closing semicolon if there is one, on the last token of the
/// expression otherwise.
pub proof fn lemma_return_is_parsed(tokens: Seq<TokenView>, k: nat)
    requires
        token_at(tokens, k).kind == TokenType::Return,
        expression_span(tokens, k + 1) is Some,
    ensures
        parse_statement_spec(tokens, k).errors == Seq::<Seq<char>>::empty(),
        parse_statement_spec(tokens, k).statement == Some(
            StatementView::Return {
                token: token_at(tokens, k),
                return_value: parse_expression_spec(tokens, k + 1, Precedence::Lowest).expression,
            },
        ),
        parse_expression_spec(tokens, k + 1, Precedence::Lowest).expression is Some,
        parse_statement_spec(tokens, k).advance == 1 + expression_span(tokens, k + 1)->0
            + semicolon_step(tokens, k + 1 + expression_span(tokens, k + 1)->0),
{
    lemma_grammar_accepts_the_language(tokens, k + 1);
}

/// A program that is one statement: where a statement parses at position `k`
/// and `EndOfFile` follows the token on which it ends, the program from `k` is
/// that statement alone and has no diagnostic.
pub proof fn lemma_single_statement_program(tokens: Seq<TokenView>, k: nat)
    requires
        token_at(tokens, k).kind != TokenType::EndOfFile,
        parse_statement_spec(tokens, k).statement is Some,
        token_at(tokens, k + parse_statement_spec(tokens, k).advance + 1).kind
            == TokenType::EndOfFile,
    ensures
        parse_program_spec(tokens, k) == (ProgramOutcome {
            statements: seq![parse_statement_spec(tokens, k).statement->0],
            errors: Seq::empty(),
        }),
{
    lemma_statement_is_reported(tokens, k);
    let first = parse_statement_spec(tokens, k);
    let rest = parse_program_spec(tokens, k + first.advance + 1);
    assert(parsed(first.statement) + rest.statements == seq![first.statement->0]);
    assert(first.errors + rest.errors == Seq::<Seq<char>>::empty());
}

/// The program `let <identifier> = <expression>;`: it parses to that one
/// `let` statement, which captures the identifier exactly, and there is no
/// diagnostic.
pub proof fn lemma_let_program(tokens: Seq<TokenView>, k: nat)
    requires
        token_at(tokens, k).kind == TokenType::Let,
        token_at(tokens, k + 1).kind == TokenType::Identifier,
        token_at(tokens, k + 2).kind == TokenType::Assign,
        expression_span(tokens, k + 3) is Some,
        token_at(tokens, k + 3 + expression_span(tokens, k + 3)->0 + 1).kind
            == TokenType::Semicolon,
        token_at(tokens, k + 3 + expression_span(tokens, k + 3)->0 + 2).kind
            == TokenType::EndOfFile,
    ensures
        parse_program_spec(tokens, k) == (ProgramOutcome {
            statements: seq![
                StatementView::Let {
                    token: token_at(tokens, k),
                    name: Some(
                        IdentifierView {
                            token: token_at(tokens, k + 1),
                            value: token_at(tokens, k + 1).literal,
                        },
                    ),
                    value: parse_expression_spec(tokens, k + 3, Precedence::Lowest).expression,
                },
            ],
            errors: Seq::empty(),
        }),
{
    lemma_let_captures_name(tokens, k);
    lemma_single_statement_program(tokens, k);
}

/// The program `return <expression>;`: it parses to that one `return`
/// statement, and there is no diagnostic.
pub proof fn lemma_return_program(tokens: Seq<TokenView>, k: nat)
    requires
        token_at(tokens, k).kind == TokenType::Return,
        expression_span(tokens, k + 1) is Some,
        token_at(tokens, k + 1 + expression_span(tokens, k + 1)->0 + 1).kind
            == TokenType::Semicolon,
        token_at(tokens, k + 1 + expression_span(tokens, k + 1)->0 + 2).kind
            == TokenType::EndOfFile,
    ensures
        parse_program_spec(tokens, k) == (ProgramOutcome {
            statements: seq![
                StatementView::Return {
                    token: token_at(tokens, k),
                    return_value: parse_expression_spec(
                        tokens,
                        k + 1,
                        Precedence::Lowest,
                    ).expression,
                },
            ],
            errors: Seq::empty(),
        }),
{
    lemma_return_is_parsed(tokens, k);
    lemma_single_statement_program(tokens, k);
}

/// The text of a scanned token fits its category: an integer token is a
/// non-empty run of digits, and a word (a keyword or an identifier) starts
/// with a letter, goes on with letters and underscores, and has the category
/// that `word_kind` gives its text. So an integer literal can lack a value
/// only by being too large.
pub proof fn lemma_scanned_text_fits_category(text: Seq<char>, i: int)
    requires
        0 <= i <= text.len(),
    ensures
        scan_token(text, i).0.kind == TokenType::Integer ==> is_decimal(
            scan_token(text, i).0.literal,
        ),
        is_word_kind(scan_token(text, i).0.kind) ==> {
            let word = scan_token(text, i).0.literal;
            &&& word.len() > 0
            &&& is_alphabetic(word[0])
            &&& forall|j: int| 0 <= j < word.len() ==> is_letter(#[trigger] word[j])
            &&& scan_token(text, i).0.kind == word_kind(word)
        },
{
    lemma_whitespace_end(text, i);
    let p = whitespace_end(text, i);
    let c = char_at(text, p);
    let token = scan_token(text, i).0;
    if token.kind == TokenType::Integer {
        lemma_number_end(text, p);
        let e = number_end(text, p);
        assert forall|j: int| 0 <= j < token.literal.len() implies is_digit(
            #[trigger] token.literal[j],
        ) by {
            lemma_number_run(text, p, p + j);
        }
    }
    if is_word_kind(token.kind) {
        lemma_word_end(text, p);
        let e = word_end(text, p);
        assert forall|j: int| 0 <= j < token.literal.len() implies is_letter(
            #[trigger] token.literal[j],
        ) by {
            lemma_word_run(text, p, p + j);
        }
    }
}

/// The categories of words: the seven keywords and `Identifier`.
pub open spec fn is_word_kind(kind: TokenType) -> bool {
    match kind {
        TokenType::Function
        | TokenType::Let
        | TokenType::True
        | TokenType::False
        | TokenType::If
        | TokenType::Else
        | TokenType::Return
        | TokenType::Identifier => true,
        _ => false,
    }
}

/// Tokenizing is a function of the text alone: tokenizing equal texts gives
/// equal token streams, whenever and however often it is done.
pub proof fn lemma_tokenizing_is_deterministic(a: Seq<char>, b: Seq<char>)
    requires
        a == b,
    ensures
        token_stream(a, 0) == token_stream(b, 0),
{
}

} // verus!
