use monkey::ast::{
    Boolean, Expression, ExpressionStatement, Identifier, InfixExpression, IntegerLiteral,
    LetStatement, PrefixExpression, Program, ReturnStatement, Statement,
};
use monkey::token::{Token, TokenType};

fn token(ttype: TokenType, literal: &str) -> Token {
    Token { ttype, literal: String::from(literal) }
}

fn ident(name: &str) -> Identifier {
    Identifier { token: token(TokenType::Identifier, name), value: String::from(name) }
}

fn integer(text: &str, value: i64) -> Expression {
    Expression::IntegerLiteral(IntegerLiteral { token: token(TokenType::Integer, text), value })
}

#[test]
fn test_string() {
    let program = Program {
        statements: vec![Statement::LetStatement(LetStatement {
            token: Token {
                ttype: TokenType::Let,
                literal: String::from("let"),
            },
            name: Some(Identifier {
                token: Token {
                    ttype: TokenType::Identifier,
                    literal: String::from("myVar"),
                },
                value: String::from("myVar"),
            }),
            value: Some(Expression::Identifier(Identifier {
                token: Token {
                    ttype: TokenType::Identifier,
                    literal: String::from("anotherVar"),
                },
                value: String::from("anotherVar"),
            })),
        })],
    };

    assert_eq!(
        program.string(),
        String::from("let myVar = anotherVar;"),
        "program.String() wrong. got={}",
        program.string()
    )
}

#[test]
fn empty_program_has_no_text() {
    let program = Program::new();
    assert_eq!(program.statements.len(), 0);
    assert_eq!(program.string(), String::from(""));
    assert_eq!(program.token_literal(), String::from(""));
}

#[test]
fn program_token_literal_is_that_of_its_first_statement() {
    let program = Program {
        statements: vec![
            Statement::ReturnStatement(ReturnStatement {
                token: token(TokenType::Return, "return"),
                return_value: Some(integer("5", 5)),
            }),
            Statement::ExpressionStatement(ExpressionStatement {
                token: token(TokenType::Identifier, "x"),
                expression: Expression::Identifier(ident("x")),
            }),
        ],
    };
    assert_eq!(program.token_literal(), String::from("return"));
    assert_eq!(program.string(), String::from("return 5;x"));
}

#[test]
fn statements_print_with_and_without_their_value() {
    let with_value = Statement::ReturnStatement(ReturnStatement {
        token: token(TokenType::Return, "return"),
        return_value: Some(Expression::Identifier(ident("x"))),
    });
    assert_eq!(with_value.string(), String::from("return x;"));
    assert_eq!(with_value.token_literal(), String::from("return"));

    let without_value = Statement::ReturnStatement(ReturnStatement {
        token: token(TokenType::Return, "return"),
        return_value: None,
    });
    assert_eq!(without_value.string(), String::from("return ;"));

    let unbound = Statement::LetStatement(LetStatement {
        token: token(TokenType::Let, "let"),
        name: Some(ident("x")),
        value: None,
    });
    assert_eq!(unbound.string(), String::from("let x = ;"));
    assert_eq!(unbound.token_literal(), String::from("let"));

    let bare = Statement::ExpressionStatement(ExpressionStatement {
        token: token(TokenType::Identifier, "foobar"),
        expression: Expression::Identifier(ident("foobar")),
    });
    assert_eq!(bare.string(), String::from("foobar"));
    assert_eq!(bare.token_literal(), String::from("foobar"));
}

#[test]
fn identifier_prints_its_value() {
    let name = Identifier {
        token: token(TokenType::Identifier, "tok"),
        value: String::from("val"),
    };
    assert_eq!(name.string(), String::from("val"));
    assert_eq!(name.token_literal(), String::from("tok"));
    assert_eq!(name.clone(), name);
}

#[test]
fn expressions_print_fully_parenthesized() {
    let negated = Expression::PrefixExpression(PrefixExpression {
        token: token(TokenType::Minus, "-"),
        operator: String::from("-"),
        right: Box::new(Expression::Identifier(ident("a"))),
    });
    assert_eq!(negated.string(), String::from("(-a)"));
    assert_eq!(negated.token_literal(), String::from("-"));

    let product = Expression::InfixExpression(InfixExpression {
        token: token(TokenType::Asterisk, "*"),
        left: Box::new(negated),
        operator: String::from("*"),
        right: Box::new(integer("007", 7)),
    });
    assert_eq!(product.string(), String::from("((-a) * 007)"));
    assert_eq!(product.token_literal(), String::from("*"));
    assert_eq!(product.clone(), product);

    let truth = Expression::Boolean(Boolean { token: token(TokenType::True, "true"), value: true });
    assert_eq!(truth.string(), String::from("true"));
    assert_eq!(truth.token_literal(), String::from("true"));
    assert_eq!(integer("42", 42).string(), String::from("42"));
    assert_eq!(integer("42", 42).token_literal(), String::from("42"));
}
