//! The token model: the closed set of lexical categories and the token value.

use vstd::prelude::*;

verus! {

/// The lexical category of a token.
#[derive(Clone, Copy, Debug, PartialEq, Eq, Structural)]
pub enum TokenType {
    Illegal,
    EndOfFile,
    Identifier,
    Integer,
    Assign,
    Equal,
    NotEqual,
    Plus,
    Minus,
    Bang,
    Asterisk,
    Slash,
    LessThan,
    GreaterThan,
    Comma,
    Semicolon,
    LParen,
    RParen,
    LBrace,
    RBrace,
    Function,
    Let,
    True,
    False,
    If,
    Else,
    Return,
}

/// A token: its category and the exact source text it was read from.
#[derive(Debug, PartialEq, Eq)]
pub struct Token {
    pub ttype: TokenType,
    pub literal: String,
}

/// The mathematical value of a token.
pub ghost struct TokenView {
    pub kind: TokenType,
    pub literal: Seq<char>,
}

impl View for Token {
    type V = TokenView;

    open spec fn view(&self) -> TokenView {
        TokenView { kind: self.ttype, literal: self.literal@ }
    }
}

impl DeepView for Token {
    type V = TokenView;

    open spec fn deep_view(&self) -> TokenView {
        self@
    }
}

impl Clone for Token {
    fn clone(&self) -> (copy: Self)
        ensures
            copy == *self,
    {
        Token { ttype: self.ttype, literal: self.literal.clone() }
    }
}

/// The token that ends every stream: `EndOfFile` with empty text.
pub open spec fn end_of_file() -> TokenView {
    TokenView { kind: TokenType::EndOfFile, literal: Seq::<char>::empty() }
}

/// The `k`-th token of a stream. Behind its end the stream goes on with
/// `EndOfFile` for ever.
pub open spec fn token_at(tokens: Seq<TokenView>, k: nat) -> TokenView {
    if k < tokens.len() {
        tokens[k as int]
    } else {
        end_of_file()
    }
}

/// The category of a scanned word: the keyword it spells, or `Identifier`.
pub open spec fn word_kind(word: Seq<char>) -> TokenType {
    if word == "fn"@ {
        TokenType::Function
    } else if word == "let"@ {
        TokenType::Let
    } else if word == "true"@ {
        TokenType::True
    } else if word == "false"@ {
        TokenType::False
    } else if word == "if"@ {
        TokenType::If
    } else if word == "else"@ {
        TokenType::Else
    } else if word == "return"@ {
        TokenType::Return
    } else {
        TokenType::Identifier
    }
}

/// Whether `text` spells exactly `word`.
fn spells(text: &str, len: usize, word: &str) -> (same: bool)
    requires
        len == text@.len(),
    ensures
        same == (text@ == word@),
{
    if word.unicode_len() != len {
        return false;
    }
    let mut i: usize = 0;
    while i < len
        invariant
            len == text@.len(),
            len == word@.len(),
            i <= len,
            text@.take(i as int) == word@.take(i as int),
        decreases len - i,
    {
        if text.get_char(i) != word.get_char(i) {
            return false;
        }
        assert(text@.take(i + 1) == text@.take(i as int).push(text@[i as int]));
        assert(word@.take(i + 1) == word@.take(i as int).push(word@[i as int]));
        i += 1;
    }
    assert(text@.take(len as int) == text@);
    assert(word@.take(len as int) == word@);
    true
}

impl TokenType {
    /// The stable, human-readable name of the category, as diagnostics print it.
    pub open spec fn spec_name(self) -> Seq<char> {
        match self {
            TokenType::Illegal => "Illegal"@,
            TokenType::EndOfFile => "EndOfFile"@,
            TokenType::Identifier => "Identifier"@,
            TokenType::Integer => "Integer"@,
            TokenType::Assign => "Assign"@,
            TokenType::Equal => "Equal"@,
            TokenType::NotEqual => "NotEqual"@,
            TokenType::Plus => "Plus"@,
            TokenType::Minus => "Minus"@,
            TokenType::Bang => "Bang"@,
            TokenType::Asterisk => "Asterisk"@,
            TokenType::Slash => "Slash"@,
            TokenType::LessThan => "LessThan"@,
            TokenType::GreaterThan => "GreaterThan"@,
            TokenType::Comma => "Comma"@,
            TokenType::Semicolon => "Semicolon"@,
            TokenType::LParen => "LParen"@,
            TokenType::RParen => "RParen"@,
            TokenType::LBrace => "LBrace"@,
            TokenType::RBrace => "RBrace"@,
            TokenType::Function => "Function"@,
            TokenType::Let => "Let"@,
            TokenType::True => "True"@,
            TokenType::False => "False"@,
            TokenType::If => "If"@,
            TokenType::Else => "Else"@,
            TokenType::Return => "Return"@,
        }
    }

    /// The name of the category.
    pub fn name(&self) -> (text: &'static str)
        ensures
            text@ == self.spec_name(),
    {
        match self {
            TokenType::Illegal => "Illegal",
            TokenType::EndOfFile => "EndOfFile",
            TokenType::Identifier => "Identifier",
            TokenType::Integer => "Integer",
            TokenType::Assign => "Assign",
            TokenType::Equal => "Equal",
            TokenType::NotEqual => "NotEqual",
            TokenType::Plus => "Plus",
            TokenType::Minus => "Minus",
            TokenType::Bang => "Bang",
            TokenType::Asterisk => "Asterisk",
            TokenType::Slash => "Slash",
            TokenType::LessThan => "LessThan",
            TokenType::GreaterThan => "GreaterThan",
            TokenType::Comma => "Comma",
            TokenType::Semicolon => "Semicolon",
            TokenType::LParen => "LParen",
            TokenType::RParen => "RParen",
            TokenType::LBrace => "LBrace",
            TokenType::RBrace => "RBrace",
            TokenType::Function => "Function",
            TokenType::Let => "Let",
            TokenType::True => "True",
            TokenType::False => "False",
            TokenType::If => "If",
            TokenType::Else => "Else",
            TokenType::Return => "Return",
        }
    }
}

impl Token {
    /// A placeholder token: an identifier with empty text.
    pub fn new() -> (token: Self)
        ensures
            token@ == (TokenView { kind: TokenType::Identifier, literal: Seq::<char>::empty() }),
    {
        Token { ttype: TokenType::Identifier, literal: String::new() }
    }

    /// Classifies a scanned word as one of the seven keywords or as an identifier.
    pub fn lookup_ident(ident: &String) -> (kind: TokenType)
        ensures
            kind == word_kind(ident@),
    {
        let text = ident.as_str();
        let len = text.unicode_len();
        if spells(text, len, "fn") {
            TokenType::Function
        } else if spells(text, len, "let") {
            TokenType::Let
        } else if spells(text, len, "true") {
            TokenType::True
        } else if spells(text, len, "false") {
            TokenType::False
        } else if spells(text, len, "if") {
            TokenType::If
        } else if spells(text, len, "else") {
            TokenType::Else
        } else if spells(text, len, "return") {
            TokenType::Return
        } else {
            TokenType::Identifier
        }
    }
}

} // verus!
