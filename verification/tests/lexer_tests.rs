use monkey::lexer::{tokenize, Lexer};
use monkey::token::{Token, TokenType};

fn kinds(input: &str) -> Vec<TokenType> {
    tokenize(input).iter().map(|token| token.ttype).collect()
}

fn pairs(input: &str) -> Vec<(TokenType, String)> {
    tokenize(input).into_iter().map(|token| (token.ttype, token.literal)).collect()
}

fn pair(ttype: TokenType, literal: &str) -> (TokenType, String) {
    (ttype, String::from(literal))
}

#[test]
fn next_token() {
    let input = r#"let five = 5;
                            let ten = 10;
                            let add = fn(x, y) {
                            x + y;
                            };

                            let result = add(five, ten);
                            !-/*5;
                            5 < 10 > 5;

                            if (5 < 10) {
                                return true;
                            } else {
                                return false;
                            }

                            10 == 10;
                            10 != 9;
                            "#;

    let mut l = Lexer::new(&input);
    let token_types = vec![
        TokenType::Let,
        TokenType::Identifier,
        TokenType::Assign,
        TokenType::Integer,
        TokenType::Semicolon,
        TokenType::Let,
        TokenType::Identifier,
        TokenType::Assign,
        TokenType::Integer,
        TokenType::Semicolon,
        TokenType::Let,
        TokenType::Identifier,
        TokenType::Assign,
        TokenType::Function,
        TokenType::LParen,
        TokenType::Identifier,
        TokenType::Comma,
        TokenType::Identifier,
        TokenType::RParen,
        TokenType::LBrace,
        TokenType::Identifier,
        TokenType::Plus,
        TokenType::Identifier,
        TokenType::Semicolon,
        TokenType::RBrace,
        TokenType::Semicolon,
        TokenType::Let,
        TokenType::Identifier,
        TokenType::Assign,
        TokenType::Identifier,
        TokenType::LParen,
        TokenType::Identifier,
        TokenType::Comma,
        TokenType::Identifier,
        TokenType::RParen,
        TokenType::Semicolon,
        TokenType::Bang,
        TokenType::Minus,
        TokenType::Slash,
        TokenType::Asterisk,
        TokenType::Integer,
        TokenType::Semicolon,
        TokenType::Integer,
        TokenType::LessThan,
        TokenType::Integer,
        TokenType::GreaterThan,
        TokenType::Integer,
        TokenType::Semicolon,
        TokenType::If,
        TokenType::LParen,
        TokenType::Integer,
        TokenType::LessThan,
        TokenType::Integer,
        TokenType::RParen,
        TokenType::LBrace,
        TokenType::Return,
        TokenType::True,
        TokenType::Semicolon,
        TokenType::RBrace,
        TokenType::Else,
        TokenType::LBrace,
        TokenType::Return,
        TokenType::False,
        TokenType::Semicolon,
        TokenType::RBrace,
        TokenType::Integer,
        TokenType::Equal,
        TokenType::Integer,
        TokenType::Semicolon,
        TokenType::Integer,
        TokenType::NotEqual,
        TokenType::Integer,
        TokenType::Semicolon,
        TokenType::EndOfFile,
    ];

    for token_type in token_types {
        let tok = l.next_token();
        println!("{:?}", tok.ttype);
        assert_eq!(tok.ttype, token_type)
    }
}

#[test]
fn let_statement_tokens_have_kind_and_text() {
    assert_eq!(
        pairs("let five = 5;"),
        vec![
            pair(TokenType::Let, "let"),
            pair(TokenType::Identifier, "five"),
            pair(TokenType::Assign, "="),
            pair(TokenType::Integer, "5"),
            pair(TokenType::Semicolon, ";"),
            pair(TokenType::EndOfFile, ""),
        ]
    );
}

#[test]
fn two_character_operators_are_one_token() {
    assert_eq!(
        pairs("10 == 10; 10 != 9;"),
        vec![
            pair(TokenType::Integer, "10"),
            pair(TokenType::Equal, "=="),
            pair(TokenType::Integer, "10"),
            pair(TokenType::Semicolon, ";"),
            pair(TokenType::Integer, "10"),
            pair(TokenType::NotEqual, "!="),
            pair(TokenType::Integer, "9"),
            pair(TokenType::Semicolon, ";"),
            pair(TokenType::EndOfFile, ""),
        ]
    );
}

#[test]
fn assign_and_bang_fall_back_to_one_character() {
    assert_eq!(
        pairs("=!=a !b = ="),
        vec![
            pair(TokenType::Assign, "="),
            pair(TokenType::NotEqual, "!="),
            pair(TokenType::Identifier, "a"),
            pair(TokenType::Bang, "!"),
            pair(TokenType::Identifier, "b"),
            pair(TokenType::Assign, "="),
            pair(TokenType::Assign, "="),
            pair(TokenType::EndOfFile, ""),
        ]
    );
    assert_eq!(pairs("="), vec![pair(TokenType::Assign, "="), pair(TokenType::EndOfFile, "")]);
    assert_eq!(pairs("!"), vec![pair(TokenType::Bang, "!"), pair(TokenType::EndOfFile, "")]);
    assert_eq!(
        pairs("==="),
        vec![
            pair(TokenType::Equal, "=="),
            pair(TokenType::Assign, "="),
            pair(TokenType::EndOfFile, "")
        ]
    );
}

#[test]
fn punctuation_is_its_own_literal() {
    assert_eq!(
        pairs(";(),{}+-*/<>"),
        vec![
            pair(TokenType::Semicolon, ";"),
            pair(TokenType::LParen, "("),
            pair(TokenType::RParen, ")"),
            pair(TokenType::Comma, ","),
            pair(TokenType::LBrace, "{"),
            pair(TokenType::RBrace, "}"),
            pair(TokenType::Plus, "+"),
            pair(TokenType::Minus, "-"),
            pair(TokenType::Asterisk, "*"),
            pair(TokenType::Slash, "/"),
            pair(TokenType::LessThan, "<"),
            pair(TokenType::GreaterThan, ">"),
            pair(TokenType::EndOfFile, ""),
        ]
    );
}

#[test]
fn keywords_and_identifiers() {
    assert_eq!(
        pairs("fn let true false if else return lets iff Return foo_bar"),
        vec![
            pair(TokenType::Function, "fn"),
            pair(TokenType::Let, "let"),
            pair(TokenType::True, "true"),
            pair(TokenType::False, "false"),
            pair(TokenType::If, "if"),
            pair(TokenType::Else, "else"),
            pair(TokenType::Return, "return"),
            pair(TokenType::Identifier, "lets"),
            pair(TokenType::Identifier, "iff"),
            pair(TokenType::Identifier, "Return"),
            pair(TokenType::Identifier, "foo_bar"),
            pair(TokenType::EndOfFile, ""),
        ]
    );
}

#[test]
fn lookup_ident_knows_the_seven_keywords() {
    assert_eq!(Token::lookup_ident(&String::from("fn")), TokenType::Function);
    assert_eq!(Token::lookup_ident(&String::from("let")), TokenType::Let);
    assert_eq!(Token::lookup_ident(&String::from("true")), TokenType::True);
    assert_eq!(Token::lookup_ident(&String::from("false")), TokenType::False);
    assert_eq!(Token::lookup_ident(&String::from("if")), TokenType::If);
    assert_eq!(Token::lookup_ident(&String::from("else")), TokenType::Else);
    assert_eq!(Token::lookup_ident(&String::from("return")), TokenType::Return);
    assert_eq!(Token::lookup_ident(&String::from("foobar")), TokenType::Identifier);
    assert_eq!(Token::lookup_ident(&String::from("")), TokenType::Identifier);
    assert_eq!(Token::lookup_ident(&String::from("f")), TokenType::Identifier);
    assert_eq!(Token::lookup_ident(&String::from("fnn")), TokenType::Identifier);
    assert_eq!(Token::lookup_ident(&String::from("LET")), TokenType::Identifier);
}

#[test]
fn new_token_is_an_empty_identifier() {
    let token = Token::new();
    assert_eq!(token.ttype, TokenType::Identifier);
    assert_eq!(token.literal, String::from(""));
}

#[test]
fn token_clone_is_equal() {
    let token = Token { ttype: TokenType::Integer, literal: String::from("42") };
    assert_eq!(token.clone(), token);
}

#[test]
fn token_type_names() {
    assert_eq!(TokenType::Illegal.name(), "Illegal");
    assert_eq!(TokenType::EndOfFile.name(), "EndOfFile");
    assert_eq!(TokenType::Identifier.name(), "Identifier");
    assert_eq!(TokenType::Integer.name(), "Integer");
    assert_eq!(TokenType::Assign.name(), "Assign");
    assert_eq!(TokenType::Equal.name(), "Equal");
    assert_eq!(TokenType::NotEqual.name(), "NotEqual");
    assert_eq!(TokenType::Plus.name(), "Plus");
    assert_eq!(TokenType::Minus.name(), "Minus");
    assert_eq!(TokenType::Bang.name(), "Bang");
    assert_eq!(TokenType::Asterisk.name(), "Asterisk");
    assert_eq!(TokenType::Slash.name(), "Slash");
    assert_eq!(TokenType::LessThan.name(), "LessThan");
    assert_eq!(TokenType::GreaterThan.name(), "GreaterThan");
    assert_eq!(TokenType::Comma.name(), "Comma");
    assert_eq!(TokenType::Semicolon.name(), "Semicolon");
    assert_eq!(TokenType::LParen.name(), "LParen");
    assert_eq!(TokenType::RParen.name(), "RParen");
    assert_eq!(TokenType::LBrace.name(), "LBrace");
    assert_eq!(TokenType::RBrace.name(), "RBrace");
    assert_eq!(TokenType::Function.name(), "Function");
    assert_eq!(TokenType::Let.name(), "Let");
    assert_eq!(TokenType::True.name(), "True");
    assert_eq!(TokenType::False.name(), "False");
    assert_eq!(TokenType::If.name(), "If");
    assert_eq!(TokenType::Else.name(), "Else");
    assert_eq!(TokenType::Return.name(), "Return");
}

#[test]
fn a_word_starts_with_a_letter_and_goes_on_with_letters_and_underscores() {
    assert_eq!(
        pairs("a_b _c d1"),
        vec![
            pair(TokenType::Identifier, "a_b"),
            pair(TokenType::Illegal, "_"),
            pair(TokenType::Identifier, "c"),
            pair(TokenType::Identifier, "d"),
            pair(TokenType::Integer, "1"),
            pair(TokenType::EndOfFile, ""),
        ]
    );
}

#[test]
fn digits_are_scanned_greedily_and_kept_as_text() {
    assert_eq!(
        pairs("007 12ab 99999999999999999999"),
        vec![
            pair(TokenType::Integer, "007"),
            pair(TokenType::Integer, "12"),
            pair(TokenType::Identifier, "ab"),
            pair(TokenType::Integer, "99999999999999999999"),
            pair(TokenType::EndOfFile, ""),
        ]
    );
}

#[test]
fn unknown_characters_are_illegal_tokens_of_one_character() {
    assert_eq!(
        pairs("a @ # b"),
        vec![
            pair(TokenType::Identifier, "a"),
            pair(TokenType::Illegal, "@"),
            pair(TokenType::Illegal, "#"),
            pair(TokenType::Identifier, "b"),
            pair(TokenType::EndOfFile, ""),
        ]
    );
    assert_eq!(
        pairs("é1"),
        vec![
            pair(TokenType::Illegal, "é"),
            pair(TokenType::Integer, "1"),
            pair(TokenType::EndOfFile, ""),
        ]
    );
    assert_eq!(
        pairs("x = \u{4e2d}\u{6587};"),
        vec![
            pair(TokenType::Identifier, "x"),
            pair(TokenType::Assign, "="),
            pair(TokenType::Illegal, "\u{4e2d}"),
            pair(TokenType::Illegal, "\u{6587}"),
            pair(TokenType::Semicolon, ";"),
            pair(TokenType::EndOfFile, ""),
        ]
    );
}

#[test]
fn whitespace_carries_no_token() {
    assert_eq!(kinds(""), vec![TokenType::EndOfFile]);
    assert_eq!(kinds(" \t\r\n "), vec![TokenType::EndOfFile]);
    assert_eq!(
        pairs("\n\tlet\r\n x\t"),
        vec![
            pair(TokenType::Let, "let"),
            pair(TokenType::Identifier, "x"),
            pair(TokenType::EndOfFile, ""),
        ]
    );
}

#[test]
fn end_of_file_is_returned_again_and_again() {
    let mut l = Lexer::new("x");
    assert_eq!(l.next_token(), Token { ttype: TokenType::Identifier, literal: String::from("x") });
    for _ in 0..5 {
        assert_eq!(
            l.next_token(),
            Token { ttype: TokenType::EndOfFile, literal: String::from("") }
        );
    }
    let mut empty = Lexer::new("");
    for _ in 0..3 {
        assert_eq!(empty.next_token().ttype, TokenType::EndOfFile);
    }
}

#[test]
fn the_null_character_ends_the_stream() {
    assert_eq!(
        pairs("a \0 b"),
        vec![pair(TokenType::Identifier, "a"), pair(TokenType::EndOfFile, "")]
    );
    let mut l = Lexer::new("\0x");
    assert_eq!(l.next_token().ttype, TokenType::EndOfFile);
    assert_eq!(l.next_token().ttype, TokenType::EndOfFile);
}

#[test]
fn tokenizing_twice_gives_the_same_tokens() {
    let input = String::from("let x = 5 + y; return !x == (10 != 9); @");
    let before = input.clone();
    let first = tokenize(&input);
    let second = tokenize(&input);
    assert_eq!(first, second);
    assert_eq!(input, before);
    assert_eq!(first.len(), 19);

    let mut a = Lexer::new(&input);
    let mut b = Lexer::new(&input);
    for expected in first.iter() {
        assert_eq!(&a.next_token(), expected);
        assert_eq!(&b.next_token(), expected);
    }
}

#[test]
fn tokenize_ends_with_its_only_end_of_file() {
    let tokens = tokenize("1 + 2");
    assert_eq!(tokens.len(), 4);
    assert_eq!(tokens[3].ttype, TokenType::EndOfFile);
    assert!(tokens[..3].iter().all(|token| token.ttype != TokenType::EndOfFile));
}
