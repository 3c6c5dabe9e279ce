//! Front end of the Monkey language: a tokenizer, the syntax tree, and a Pratt
//! parser that builds the tree from the token stream and collects diagnostics.
//!
//! Every executable function is verified against a mathematical model. Source
//! text is a `Seq<char>` and the token stream a `Seq<TokenView>`; each type of
//! the tree has a view in which strings are sequences and integers unbounded.
//!
//! - [`token`]: the token categories and the token value.
//! - [`lexer`]: the tokenizer and the model of scanning.
//! - [`ast`]: the syntax tree and the text it is printed as.
//! - [`grammar`]: what is parsed from a position of a token stream.
//! - [`parser`]: the parser, verified against the grammar.
//! - [`language`]: the expressions that the grammar accepts, without precedence.
//! - [`laws`]: what holds of every text and of every token stream.
//! - [`tree`]: what holds of every tree that is parsed.

pub mod ast;
pub mod grammar;
pub mod language;
pub mod laws;
pub mod lexer;
pub mod parser;
pub mod token;
pub mod tree;
