//! The tokenizer: a cursor over source text that hands out one token per call.
//!
//! The model of the text is a `Seq<char>`. `scan_token` says which token starts
//! at an offset and where it ends; `token_stream` is the whole sequence of
//! tokens up to and including the first `EndOfFile`.

use vstd::prelude::*;
use crate::token::{end_of_file, token_at, word_kind, Token, TokenType, TokenView};

verus! {

/// Space, tab, newline and carriage return separate tokens and carry none.
pub open spec fn is_whitespace(c: char) -> bool {
    c == ' ' || c == '\t' || c == '\n' || c == '\r'
}

/// A letter that may start a word: `a`..`z` or `A`..`Z`.
pub open spec fn is_alphabetic(c: char) -> bool {
    ('a' <= c && c <= 'z') || ('A' <= c && c <= 'Z')
}

/// A character that may continue a word: a letter or an underscore.
pub open spec fn is_letter(c: char) -> bool {
    is_alphabetic(c) || c == '_'
}

/// A decimal digit, `0`..`9`.
pub open spec fn is_digit(c: char) -> bool {
    '0' <= c && c <= '9'
}

/// The character at offset `i`, or the null sentinel beyond the end of the text.
pub open spec fn char_at(text: Seq<char>, i: int) -> char {
    if 0 <= i < text.len() {
        text[i]
    } else {
        '\0'
    }
}

/// The first offset at or after `i` that holds no whitespace.
pub open spec fn whitespace_end(text: Seq<char>, i: int) -> int
    decreases text.len() - i,
{
    if is_whitespace(char_at(text, i)) {
        whitespace_end(text, i + 1)
    } else {
        i
    }
}

/// The first offset at or after `i` that holds neither a letter nor an underscore.
pub open spec fn word_end(text: Seq<char>, i: int) -> int
    decreases text.len() - i,
{
    if is_letter(char_at(text, i)) {
        word_end(text, i + 1)
    } else {
        i
    }
}

/// The first offset at or after `i` that holds no digit.
pub open spec fn number_end(text: Seq<char>, i: int) -> int
    decreases text.len() - i,
{
    if is_digit(char_at(text, i)) {
        number_end(text, i + 1)
    } else {
        i
    }
}

/// The category of a punctuation character that is a token by itself whatever
/// follows it.
pub open spec fn punctuation_kind(c: char) -> Option<TokenType> {
    if c == ';' {
        Some(TokenType::Semicolon)
    } else if c == '(' {
        Some(TokenType::LParen)
    } else if c == ')' {
        Some(TokenType::RParen)
    } else if c == ',' {
        Some(TokenType::Comma)
    } else if c == '{' {
        Some(TokenType::LBrace)
    } else if c == '}' {
        Some(TokenType::RBrace)
    } else if c == '+' {
        Some(TokenType::Plus)
    } else if c == '-' {
        Some(TokenType::Minus)
    } else if c == '*' {
        Some(TokenType::Asterisk)
    } else if c == '/' {
        Some(TokenType::Slash)
    } else if c == '<' {
        Some(TokenType::LessThan)
    } else if c == '>' {
        Some(TokenType::GreaterThan)
    } else {
        None
    }
}

/// The token of category `kind` whose text is `text[from..to]`.
pub open spec fn lexeme(text: Seq<char>, kind: TokenType, from: int, to: int) -> TokenView {
    TokenView { kind, literal: text.subrange(from, to) }
}

/// The token that a scan from offset `i` yields, and the offset where the scan
/// stops. Whitespace is skipped first. At the null sentinel the token is
/// `EndOfFile` and the scan stops in front of the sentinel; every other token
/// ends behind its last character.
pub open spec fn scan_token(text: Seq<char>, i: int) -> (TokenView, int) {
    let p = whitespace_end(text, i);
    let c = char_at(text, p);
    if c == '\0' {
        (end_of_file(), p)
    } else if c == '=' && char_at(text, p + 1) == '=' {
        (lexeme(text, TokenType::Equal, p, p + 2), p + 2)
    } else if c == '=' {
        (lexeme(text, TokenType::Assign, p, p + 1), p + 1)
    } else if c == '!' && char_at(text, p + 1) == '=' {
        (lexeme(text, TokenType::NotEqual, p, p + 2), p + 2)
    } else if c == '!' {
        (lexeme(text, TokenType::Bang, p, p + 1), p + 1)
    } else if punctuation_kind(c) is Some {
        (lexeme(text, punctuation_kind(c)->0, p, p + 1), p + 1)
    } else if is_alphabetic(c) {
        let e = word_end(text, p);
        (lexeme(text, word_kind(text.subrange(p, e)), p, e), e)
    } else if is_digit(c) {
        let e = number_end(text, p);
        (lexeme(text, TokenType::Integer, p, e), e)
    } else {
        (lexeme(text, TokenType::Illegal, p, p + 1), p + 1)
    }
}

/// Skipping whitespace moves forward, stays inside the text, and stops on a
/// character that is no whitespace.
pub proof fn lemma_whitespace_end(text: Seq<char>, i: int)
    requires
        0 <= i <= text.len(),
    ensures
        i <= whitespace_end(text, i) <= text.len(),
        !is_whitespace(char_at(text, whitespace_end(text, i))),
        whitespace_end(text, whitespace_end(text, i)) == whitespace_end(text, i),
    decreases text.len() - i,
{
    if is_whitespace(char_at(text, i)) {
        lemma_whitespace_end(text, i + 1);
    }
}

/// A word scan moves forward and stays inside the text.
pub proof fn lemma_word_end(text: Seq<char>, i: int)
    requires
        0 <= i <= text.len(),
    ensures
        i <= word_end(text, i) <= text.len(),
        is_letter(char_at(text, i)) ==> i < word_end(text, i),
    decreases text.len() - i,
{
    if is_letter(char_at(text, i)) {
        lemma_word_end(text, i + 1);
    }
}

/// A number scan moves forward and stays inside the text.
pub proof fn lemma_number_end(text: Seq<char>, i: int)
    requires
        0 <= i <= text.len(),
    ensures
        i <= number_end(text, i) <= text.len(),
        is_digit(char_at(text, i)) ==> i < number_end(text, i),
    decreases text.len() - i,
{
    if is_digit(char_at(text, i)) {
        lemma_number_end(text, i + 1);
    }
}

/// Every character that a word scan passes is a letter or an underscore.
pub proof fn lemma_word_run(text: Seq<char>, i: int, j: int)
    requires
        0 <= i <= j < word_end(text, i),
    ensures
        j < text.len(),
        is_letter(text[j]),
    decreases text.len() - i,
{
    if i < j {
        lemma_word_run(text, i + 1, j);
    }
}

/// Every character that a number scan passes is a digit.
pub proof fn lemma_number_run(text: Seq<char>, i: int, j: int)
    requires
        0 <= i <= j < number_end(text, i),
    ensures
        j < text.len(),
        is_digit(text[j]),
    decreases text.len() - i,
{
    if i < j {
        lemma_number_run(text, i + 1, j);
    }
}

/// Tokens come in strictly increasing source order: a scan never moves back and
/// stays inside the text, every token but `EndOfFile` consumes at least one
/// character, and a scan that has reached `EndOfFile` yields it again from
/// where it stopped.
pub proof fn lemma_scan_token(text: Seq<char>, i: int)
    requires
        0 <= i <= text.len(),
    ensures
        i <= scan_token(text, i).1 <= text.len(),
        scan_token(text, i).0.kind != TokenType::EndOfFile ==> i < scan_token(text, i).1,
        scan_token(text, i).0.kind == TokenType::EndOfFile ==> scan_token(
            text,
            scan_token(text, i).1,
        ) == scan_token(text, i),
{
    lemma_whitespace_end(text, i);
    let p = whitespace_end(text, i);
    lemma_word_end(text, p);
    lemma_number_end(text, p);
}

/// The tokens of `text` from offset `i` on, up to and including the first
/// `EndOfFile`.
pub open spec fn token_stream(text: Seq<char>, i: int) -> Seq<TokenView>
    decreases text.len() - i,
{
    let (token, end) = scan_token(text, i);
    if token.kind == TokenType::EndOfFile {
        seq![token]
    } else {
        proof {
            lemma_scan_token(text, i);
        }
        seq![token] + token_stream(text, end)
    }
}

/// The offset that a scan has reached after `n` tokens, starting from offset `i`.
pub open spec fn offset_after(text: Seq<char>, i: int, n: nat) -> int
    decreases n,
{
    if n == 0 {
        i
    } else {
        scan_token(text, offset_after(text, i, (n - 1) as nat)).1
    }
}

/// Scanning `n` tokens from `i` is scanning one token and then `n - 1` more.
proof fn lemma_offset_after_first(text: Seq<char>, i: int, n: nat)
    requires
        n > 0,
    ensures
        offset_after(text, i, n) == offset_after(text, scan_token(text, i).1, (n - 1) as nat),
    decreases n,
{
    if n > 1 {
        lemma_offset_after_first(text, i, (n - 1) as nat);
    } else {
        assert(offset_after(text, i, 0) == i);
        assert(offset_after(text, scan_token(text, i).1, 0) == scan_token(text, i).1);
    }
}

/// End of stream is absorbing: once a scan yields `EndOfFile`, every later scan
/// yields it too and the offset no longer moves.
pub proof fn lemma_end_of_file_is_final(text: Seq<char>, i: int, n: nat)
    requires
        0 <= i <= text.len(),
        scan_token(text, i).0.kind == TokenType::EndOfFile,
    ensures
        scan_token(text, offset_after(text, i, n)).0 == end_of_file(),
        n > 0 ==> offset_after(text, i, n) == scan_token(text, i).1,
    decreases n,
{
    lemma_scan_token(text, i);
    if n > 0 {
        lemma_end_of_file_is_final(text, i, (n - 1) as nat);
    }
}

/// The `n`-th pull from a lexer that started at offset `i` is the `n`-th token
/// of the stream from `i`, and `EndOfFile` behind the end of the stream.
pub proof fn lemma_token_stream_index(text: Seq<char>, i: int, n: nat)
    requires
        0 <= i <= text.len(),
    ensures
        0 <= offset_after(text, i, n) <= text.len(),
        scan_token(text, offset_after(text, i, n)).0 == token_at(token_stream(text, i), n),
    decreases n,
{
    lemma_scan_token(text, i);
    let (token, end) = scan_token(text, i);
    if n > 0 {
        lemma_offset_after_first(text, i, n);
        if token.kind == TokenType::EndOfFile {
            lemma_end_of_file_is_final(text, i, n);
        } else {
            lemma_token_stream_index(text, end, (n - 1) as nat);
        }
    }
}

/// A token stream is never empty and ends with its only `EndOfFile`.
pub proof fn lemma_token_stream_shape(text: Seq<char>, i: int)
    requires
        0 <= i <= text.len(),
    ensures
        token_stream(text, i).len() > 0,
        token_stream(text, i).last() == end_of_file(),
        forall|k: int|
            0 <= k < token_stream(text, i).len() - 1 ==> (#[trigger] token_stream(text, i)[k]).kind
                != TokenType::EndOfFile,
    decreases text.len() - i,
{
    lemma_scan_token(text, i);
    let (token, end) = scan_token(text, i);
    if token.kind != TokenType::EndOfFile {
        lemma_token_stream_shape(text, end);
    }
}

/// A cursor over one source text.
///
/// `position` is the offset of the character under examination, `ch` that
/// character, and `read_position` the offset that is read next. The read offset
/// stops at the end of the text, so it never runs ahead of what can be indexed.
pub struct Lexer<'a> {
    input: &'a str,
    chars: Vec<char>,
    position: usize,
    read_position: usize,
    ch: char,
}

/// The characters of `input`, decoded once so that the cursor reads in constant
/// time.
fn decode(input: &str) -> (chars: Vec<char>)
    ensures
        chars@ == input@,
{
    let mut chars: Vec<char> = Vec::new();
    for c in it: input.chars()
        invariant
            it.seq() == input@,
            chars@ == it.seq().take(it.index() as int),
    {
        chars.push(c);
    }
    chars
}

/// The category of a punctuation character that needs no lookahead.
fn punctuation(ch: char) -> (kind: Option<TokenType>)
    ensures
        kind == punctuation_kind(ch),
{
    match ch {
        ';' => Some(TokenType::Semicolon),
        '(' => Some(TokenType::LParen),
        ')' => Some(TokenType::RParen),
        ',' => Some(TokenType::Comma),
        '{' => Some(TokenType::LBrace),
        '}' => Some(TokenType::RBrace),
        '+' => Some(TokenType::Plus),
        '-' => Some(TokenType::Minus),
        '*' => Some(TokenType::Asterisk),
        '/' => Some(TokenType::Slash),
        '<' => Some(TokenType::LessThan),
        '>' => Some(TokenType::GreaterThan),
        _ => None,
    }
}

impl<'a> Lexer<'a> {
    /// The text that the lexer reads.
    pub closed spec fn source(&self) -> Seq<char> {
        self.input@
    }

    /// The offset of the character under examination.
    pub closed spec fn offset(&self) -> int {
        self.position as int
    }

    /// The cursor is consistent: it lies inside the text or at its end, the
    /// read offset is never behind it, and `ch` is the character it points at.
    pub closed spec fn wf(&self) -> bool {
        &&& self.chars@ == self.input@
        &&& self.position <= self.chars.len()
        &&& self.position <= self.read_position <= self.chars.len()
        &&& self.read_position == if self.position < self.chars.len() {
            self.position + 1
        } else {
            self.position as int
        }
        &&& self.ch == char_at(self.chars@, self.position as int)
    }

    /// The cursor of a consistent lexer lies inside the text or at its end.
    pub proof fn lemma_offset_in_bounds(&self)
        requires
            self.wf(),
        ensures
            0 <= self.offset() <= self.source().len(),
    {
    }

    /// A lexer at the start of `input`.
    pub fn new(input: &'a str) -> (lexer: Self)
        ensures
            lexer.wf(),
            lexer.source() == input@,
            lexer.offset() == 0,
    {
        let mut lexer = Lexer {
            input,
            chars: decode(input),
            position: 0,
            read_position: 0,
            ch: '\0',
        };
        if lexer.chars.len() > 0 {
            lexer.ch = lexer.chars[0];
            lexer.read_position = 1;
        }
        lexer
    }

    /// Moves the cursor to the next character, or leaves it at the end of the
    /// text.
    fn read_char(&mut self)
        requires
            old(self).wf(),
        ensures
            final(self).wf(),
            final(self).source() == old(self).source(),
            final(self).offset() == if old(self).offset() < old(self).source().len() {
                old(self).offset() + 1
            } else {
                old(self).offset()
            },
    {
        let len = self.chars.len();
        if self.read_position >= len {
            self.ch = '\0';
        } else {
            self.ch = self.chars[self.read_position];
        }
        self.position = self.read_position;
        if self.read_position < len {
            self.read_position += 1;
        }
    }

    /// The character behind the one under examination, without moving.
    fn peek_char(&self) -> (c: char)
        requires
            self.wf(),
            self.offset() < self.source().len(),
        ensures
            c == char_at(self.source(), self.offset() + 1),
    {
        if self.read_position >= self.chars.len() {
            '\0'
        } else {
            self.chars[self.read_position]
        }
    }

    /// Moves the cursor past any whitespace.
    fn skip_whitespace(&mut self)
        requires
            old(self).wf(),
        ensures
            final(self).wf(),
            final(self).source() == old(self).source(),
            final(self).offset() == whitespace_end(old(self).source(), old(self).offset()),
    {
        while self.ch == ' ' || self.ch == '\t' || self.ch == '\n' || self.ch == '\r'
            invariant
                self.wf(),
                self.source() == old(self).source(),
                whitespace_end(self.source(), self.offset()) == whitespace_end(
                    old(self).source(),
                    old(self).offset(),
                ),
            decreases self.source().len() - self.offset(),
        {
            self.read_char();
        }
    }

    /// Whether `ch` may continue a word: a letter or an underscore.
    fn is_letter(&self, ch: char) -> (letter: bool)
        ensures
            letter == is_letter(ch),
    {
        (ch >= 'a' && ch <= 'z') || (ch >= 'A' && ch <= 'Z') || ch == '_'
    }

    /// The token of category `ttype` whose text is the `len` characters at the
    /// cursor.
    fn new_token(&self, ttype: TokenType, len: usize) -> (token: Token)
        requires
            self.wf(),
            self.offset() + len <= self.source().len(),
        ensures
            token@ == lexeme(self.source(), ttype, self.offset(), self.offset() + len),
    {
        let text = self.input.substring_char(self.position, self.position + len);
        Token { ttype, literal: String::from_str(text) }
    }

    /// Reads the word at the cursor and returns its text.
    fn read_identifier(&mut self) -> (word: String)
        requires
            old(self).wf(),
        ensures
            final(self).wf(),
            final(self).source() == old(self).source(),
            final(self).offset() == word_end(old(self).source(), old(self).offset()),
            word@ == old(self).source().subrange(old(self).offset(), final(self).offset()),
    {
        let position = self.position;
        while self.is_letter(self.ch)
            invariant
                self.wf(),
                self.source() == old(self).source(),
                position == old(self).offset(),
                position <= self.offset(),
                word_end(self.source(), self.offset()) == word_end(
                    old(self).source(),
                    old(self).offset(),
                ),
            decreases self.source().len() - self.offset(),
        {
            self.read_char();
        }
        String::from_str(self.input.substring_char(position, self.position))
    }

    /// Reads the run of digits at the cursor and returns its text.
    fn read_number(&mut self) -> (digits: String)
        requires
            old(self).wf(),
        ensures
            final(self).wf(),
            final(self).source() == old(self).source(),
            final(self).offset() == number_end(old(self).source(), old(self).offset()),
            digits@ == old(self).source().subrange(old(self).offset(), final(self).offset()),
    {
        let position = self.position;
        while self.ch >= '0' && self.ch <= '9'
            invariant
                self.wf(),
                self.source() == old(self).source(),
                position == old(self).offset(),
                position <= self.offset(),
                number_end(self.source(), self.offset()) == number_end(
                    old(self).source(),
                    old(self).offset(),
                ),
            decreases self.source().len() - self.offset(),
        {
            self.read_char();
        }
        String::from_str(self.input.substring_char(position, self.position))
    }

    /// Returns the next token and moves the cursor behind it. Once the text is
    /// exhausted every call returns `EndOfFile`. The text itself never changes.
    pub fn next_token(&mut self) -> (token: Token)
        requires
            old(self).wf(),
        ensures
            final(self).wf(),
            final(self).source() == old(self).source(),
            token@ == scan_token(old(self).source(), old(self).offset()).0,
            final(self).offset() == scan_token(old(self).source(), old(self).offset()).1,
            old(self).offset() <= final(self).offset() <= final(self).source().len(),
            token@.kind != TokenType::EndOfFile ==> old(self).offset() < final(self).offset(),
    {
        proof {
            lemma_scan_token(self.source(), self.offset());
        }
        self.skip_whitespace();
        let ch = self.ch;
        if ch == '\0' {
            Token { ttype: TokenType::EndOfFile, literal: String::new() }
        } else if ch == '=' || ch == '!' {
            if self.peek_char() == '=' {
                let ttype = if ch == '=' {
                    TokenType::Equal
                } else {
                    TokenType::NotEqual
                };
                let token = self.new_token(ttype, 2);
                self.read_char();
                self.read_char();
                token
            } else {
                let ttype = if ch == '=' {
                    TokenType::Assign
                } else {
                    TokenType::Bang
                };
                let token = self.new_token(ttype, 1);
                self.read_char();
                token
            }
        } else if let Some(ttype) = punctuation(ch) {
            let token = self.new_token(ttype, 1);
            self.read_char();
            token
        } else if (ch >= 'a' && ch <= 'z') || (ch >= 'A' && ch <= 'Z') {
            let literal = self.read_identifier();
            let ttype = Token::lookup_ident(&literal);
            Token { ttype, literal }
        } else if ch >= '0' && ch <= '9' {
            let literal = self.read_number();
            Token { ttype: TokenType::Integer, literal }
        } else {
            let token = self.new_token(TokenType::Illegal, 1);
            self.read_char();
            token
        }
    }
}

/// All tokens of `input`, up to and including the closing `EndOfFile`.
pub fn tokenize(input: &str) -> (tokens: Vec<Token>)
    ensures
        tokens.deep_view() == token_stream(input@, 0),
{
    let mut lexer = Lexer::new(input);
    let mut tokens: Vec<Token> = Vec::new();
    loop
        invariant_except_break
            lexer.wf(),
            lexer.source() == input@,
            0 <= lexer.offset() <= input@.len(),
            token_stream(input@, 0) == tokens.deep_view() + token_stream(input@, lexer.offset()),
        ensures
            tokens.deep_view() == token_stream(input@, 0),
        decreases input@.len() - lexer.offset(),
    {
        proof {
            lemma_scan_token(input@, lexer.offset());
        }
        let ghost before = tokens.deep_view();
        let token = lexer.next_token();
        let done = token.ttype == TokenType::EndOfFile;
        tokens.push(token);
        assert(tokens.deep_view() == before.push(token@));
        if done {
            break ;
        }
    }
    tokens
}

} // verus!
