use monkey::ast::{Expression, Program, Statement};
use monkey::lexer::Lexer;
use monkey::parser::{parse, parse_integer, Parser, Precedence};
use monkey::token::TokenType;

fn check_parse_errors(p: Parser) {
    let errors = p.errors();

    if errors.len() == 0 {
        return;
    }

    for err in errors {
        println!("parser error: {}", err)
    }
    panic!("parser has {} errors", errors.len())
}

fn parse_clean(input: &str) -> Program {
    let (program, errors) = parse(input);
    assert_eq!(errors, Vec::<String>::new(), "input: {}", input);
    program
}

fn text_of(input: &str) -> String {
    parse_clean(input).string()
}

#[test]
fn test_let_statements() {
    let input = r"let x = 5;
                          let y = 10;
                          let foobar = 838383;";
    let l = Lexer::new(input);
    let mut p = Parser::new(l);
    let program = p.parse_program();
    check_parse_errors(p);

    assert_eq!(
        program.statements.len(),
        3,
        "Program.statements does not contain 3 statements got={}",
        program.statements.len()
    );

    let tests = vec!["x", "y", "foobar"];

    for (i, tt) in tests.iter().enumerate() {
        let stmt = match &program.statements[i] {
            Statement::LetStatement(x) => x,
            _ => panic!("Expected letStatement, found {:?}", &program.statements[1]),
        };

        assert_eq!(
            stmt.token.literal,
            String::from("let"),
            "s.token.literal not 'let'. got={}",
            stmt.token.literal
        );

        assert_eq!(
            stmt.name.as_ref().unwrap().value.to_string(),
            *tt,
            "stmt.Name.Value not'{}'.got={}",
            tt,
            stmt.name.as_ref().unwrap().value.to_string()
        );

        assert_eq!(
            stmt.name.as_ref().unwrap().token.literal.to_string(),
            *tt,
            "s.name not '{}'. got={}",
            tt,
            stmt.name.as_ref().unwrap().token.literal.to_string(),
        )
    }
}

#[test]
fn test_return_statements() {
    let input = r"
                         return 5;
                         return 10;
                         return 993322
                         ";

    let l = Lexer::new(input);
    let mut p = Parser::new(l);
    let program = p.parse_program();
    check_parse_errors(p);

    assert_eq!(
        program.statements.len(),
        3,
        "Program.statements does not contain 3 statements got={}",
        program.statements.len()
    );

    for stmt in &program.statements {
        match stmt {
            Statement::LetStatement(x) => panic!("stmt not ast.ReturnStatement, got={:?}", x),
            Statement::ReturnStatement(x) => assert_eq!(
                x.token.literal,
                String::from("return"),
                "returnStmt.TokenLiteral not 'return', got {}",
                x.token.literal
            ),
            _ => (),
        }
    }
}

#[test]
fn identifier_expression() {
    let input = "foobar;";

    let l = Lexer::new(input);
    let mut p = Parser::new(l);
    let program = p.parse_program();
    check_parse_errors(p);

    assert_eq!(
        program.statements.len(),
        1,
        "Program.statements does not contain 1 statements got={}",
        program.statements.len()
    );

    let stmt = program.statements.iter().nth(0).unwrap();

    match stmt {
        Statement::ExpressionStatement(x) => match &x.expression {
            Expression::Identifier(y) => {
                if y.value != String::from("foobar") {
                    panic!("ident.Value not {}. got={}", "foobar", y.value)
                } else if y.token.literal != String::from("foobar") {
                    panic!(
                        "ident.TokenLiteral not {}. got={}",
                        "foobar", y.token.literal
                    )
                }
            }
            _ => panic!("exp not *ast.Identifier. got={:?}", x.expression),
        },
        _ => panic!(
            "program.Statements[0] is not ast.ExpressionStatement. got={:?}",
            stmt
        ),
    };
}

#[test]
fn let_statement_captures_name_and_value() {
    let program = parse_clean("let answer = 6 * 7;");
    assert_eq!(program.statements.len(), 1);
    match &program.statements[0] {
        Statement::LetStatement(stmt) => {
            assert_eq!(stmt.token.ttype, TokenType::Let);
            let name = stmt.name.as_ref().unwrap();
            assert_eq!(name.value, "answer");
            assert_eq!(name.token.ttype, TokenType::Identifier);
            assert_eq!(name.token.literal, "answer");
            assert_eq!(stmt.value.as_ref().unwrap().string(), "(6 * 7)");
        }
        other => panic!("not a let statement: {:?}", other),
    }
    assert_eq!(program.string(), "let answer = (6 * 7);");
}

#[test]
fn return_statement_keeps_its_value() {
    let program = parse_clean("return a + b;");
    assert_eq!(program.statements.len(), 1);
    match &program.statements[0] {
        Statement::ReturnStatement(stmt) => {
            assert_eq!(stmt.token.ttype, TokenType::Return);
            assert_eq!(stmt.token.literal, "return");
            assert_eq!(stmt.return_value.as_ref().unwrap().string(), "(a + b)");
        }
        other => panic!("not a return statement: {:?}", other),
    }
    assert_eq!(program.string(), "return (a + b);");
}

#[test]
fn the_closing_semicolon_is_optional() {
    assert_eq!(text_of("let x = 5"), "let x = 5;");
    assert_eq!(text_of("return x"), "return x;");
    assert_eq!(text_of("x"), "x");
    assert_eq!(text_of("let x = 5 let y = x return y"), "let x = 5;let y = x;return y;");
    assert_eq!(parse_clean("1; 2; 3").statements.len(), 3);
}

#[test]
fn integer_literal_expression() {
    let program = parse_clean("5;");
    assert_eq!(program.statements.len(), 1);
    match &program.statements[0] {
        Statement::ExpressionStatement(stmt) => match &stmt.expression {
            Expression::IntegerLiteral(lit) => {
                assert_eq!(lit.value, 5);
                assert_eq!(lit.token.literal, "5");
                assert_eq!(lit.token.ttype, TokenType::Integer);
            }
            other => panic!("not an integer literal: {:?}", other),
        },
        other => panic!("not an expression statement: {:?}", other),
    }
}

#[test]
fn boolean_expression() {
    let program = parse_clean("true; false;");
    assert_eq!(program.statements.len(), 2);
    let expected = [true, false];
    for (stmt, value) in program.statements.iter().zip(expected.iter()) {
        match stmt {
            Statement::ExpressionStatement(stmt) => match &stmt.expression {
                Expression::Boolean(lit) => assert_eq!(lit.value, *value),
                other => panic!("not a boolean: {:?}", other),
            },
            other => panic!("not an expression statement: {:?}", other),
        }
    }
}

#[test]
fn unary_minus_binds_tighter_than_product() {
    let program = parse_clean("-a * b");
    assert_eq!(program.statements.len(), 1);
    let infix = match &program.statements[0] {
        Statement::ExpressionStatement(stmt) => match &stmt.expression {
            Expression::InfixExpression(infix) => infix,
            other => panic!("not an infix expression: {:?}", other),
        },
        other => panic!("not an expression statement: {:?}", other),
    };
    assert_eq!(infix.operator, "*");
    assert_eq!(infix.token.ttype, TokenType::Asterisk);
    match &*infix.left {
        Expression::PrefixExpression(prefix) => {
            assert_eq!(prefix.operator, "-");
            assert_eq!(prefix.token.ttype, TokenType::Minus);
            match &*prefix.right {
                Expression::Identifier(name) => assert_eq!(name.value, "a"),
                other => panic!("operand is not an identifier: {:?}", other),
            }
        }
        other => panic!("left operand is not a prefix expression: {:?}", other),
    }
    match &*infix.right {
        Expression::Identifier(name) => assert_eq!(name.value, "b"),
        other => panic!("right operand is not an identifier: {:?}", other),
    }
}

#[test]
fn product_binds_tighter_than_sum() {
    let program = parse_clean("a + b * c");
    assert_eq!(program.statements.len(), 1);
    let sum = match &program.statements[0] {
        Statement::ExpressionStatement(stmt) => match &stmt.expression {
            Expression::InfixExpression(infix) => infix,
            other => panic!("not an infix expression: {:?}", other),
        },
        other => panic!("not an expression statement: {:?}", other),
    };
    assert_eq!(sum.operator, "+");
    match &*sum.left {
        Expression::Identifier(name) => assert_eq!(name.value, "a"),
        other => panic!("left operand is not an identifier: {:?}", other),
    }
    match &*sum.right {
        Expression::InfixExpression(product) => {
            assert_eq!(product.operator, "*");
            assert_eq!(product.left.string(), "b");
            assert_eq!(product.right.string(), "c");
        }
        other => panic!("right operand is not a product: {:?}", other),
    }
    assert_eq!(program.string(), "(a + (b * c))");
}

#[test]
fn operator_precedence_and_grouping() {
    let cases = vec![
        ("-a * b", "((-a) * b)"),
        ("!-a", "(!(-a))"),
        ("a + b + c", "((a + b) + c)"),
        ("a + b - c", "((a + b) - c)"),
        ("a * b * c", "((a * b) * c)"),
        ("a * b / c", "((a * b) / c)"),
        ("a + b / c", "(a + (b / c))"),
        ("a + b * c + d / e - f", "(((a + (b * c)) + (d / e)) - f)"),
        ("3 + 4; -5 * 5", "(3 + 4)((-5) * 5)"),
        ("5 > 4 == 3 < 4", "((5 > 4) == (3 < 4))"),
        ("5 < 4 != 3 > 4", "((5 < 4) != (3 > 4))"),
        ("3 + 4 * 5 == 3 * 1 + 4 * 5", "((3 + (4 * 5)) == ((3 * 1) + (4 * 5)))"),
        ("a == b == c", "((a == b) == c)"),
        ("a < b > c", "((a < b) > c)"),
        ("true", "true"),
        ("false", "false"),
        ("3 > 5 == false", "((3 > 5) == false)"),
        ("3 < 5 == true", "((3 < 5) == true)"),
        ("1 + (2 + 3) + 4", "((1 + (2 + 3)) + 4)"),
        ("(5 + 5) * 2", "((5 + 5) * 2)"),
        ("2 / (5 + 5)", "(2 / (5 + 5))"),
        ("-(5 + 5)", "(-(5 + 5))"),
        ("!(true == true)", "(!(true == true))"),
        ("((a))", "a"),
        ("-1 - -2", "((-1) - (-2))"),
        ("!a == !b", "((!a) == (!b))"),
    ];
    for (input, expected) in cases {
        assert_eq!(text_of(input), expected, "input: {}", input);
    }
}

#[test]
fn missing_identifier_after_let() {
    let l = Lexer::new("let = 5;");
    let mut p = Parser::new(l);
    let program = p.parse_program();
    let lets = program
        .statements
        .iter()
        .filter(|stmt| matches!(stmt, Statement::LetStatement(_)))
        .count();
    assert_eq!(lets, 0);
    assert!(p.errors().len() >= 1);
    assert!(p.cur_token_is(TokenType::EndOfFile));
    assert_eq!(
        p.errors(),
        &vec![
            String::from("expected next token to be Identifier, got Assign instead"),
            String::from("no prefix parse function for Assign"),
        ]
    );
    assert_eq!(program.string(), "5");
}

#[test]
fn missing_assign_after_name() {
    let (program, errors) = parse("let x 5;");
    assert_eq!(
        errors,
        vec![String::from("expected next token to be Assign, got Integer instead")]
    );
    assert_eq!(program.string(), "5");
}

#[test]
fn token_without_prefix_handler() {
    let (program, errors) = parse("+");
    assert_eq!(program.statements.len(), 0);
    assert_eq!(errors, vec![String::from("no prefix parse function for Plus")]);

    let (program, errors) = parse("@;");
    assert_eq!(program.statements.len(), 0);
    assert_eq!(
        errors,
        vec![
            String::from("no prefix parse function for Illegal"),
            String::from("no prefix parse function for Semicolon"),
        ]
    );

    let (program, errors) = parse("return;");
    assert_eq!(program.statements.len(), 0);
    assert_eq!(errors, vec![String::from("no prefix parse function for Semicolon")]);

    let (program, errors) = parse("let x = ;");
    assert_eq!(program.statements.len(), 0);
    assert_eq!(errors, vec![String::from("no prefix parse function for Semicolon")]);

    let (program, errors) = parse("-");
    assert_eq!(program.statements.len(), 0);
    assert_eq!(errors, vec![String::from("no prefix parse function for EndOfFile")]);
}

#[test]
fn missing_operand_fails_the_statement() {
    let (program, errors) = parse("a + ; b");
    assert_eq!(errors, vec![String::from("no prefix parse function for Semicolon")]);
    assert_eq!(program.string(), "b");

    let (program, errors) = parse("1 * * 2");
    assert_eq!(errors, vec![String::from("no prefix parse function for Asterisk")]);
    assert_eq!(program.string(), "2");
}

#[test]
fn unterminated_group() {
    let (program, errors) = parse("(1 + 2");
    assert_eq!(program.statements.len(), 0);
    assert_eq!(
        errors,
        vec![String::from("expected next token to be RParen, got EndOfFile instead")]
    );

    let (program, errors) = parse("(a; b");
    assert_eq!(
        errors,
        vec![
            String::from("expected next token to be RParen, got Semicolon instead"),
            String::from("no prefix parse function for Semicolon"),
        ]
    );
    assert_eq!(program.string(), "b");
}

#[test]
fn a_parenthesis_is_no_infix_operator() {
    let (program, errors) = parse("a (b)");
    assert_eq!(errors, Vec::<String>::new());
    assert_eq!(program.statements.len(), 2);
    assert_eq!(program.string(), "ab");
}

#[test]
fn integer_literal_out_of_range() {
    let (program, errors) = parse("9223372036854775808;");
    assert_eq!(program.statements.len(), 0);
    assert_eq!(
        errors,
        vec![
            String::from("could not parse 9223372036854775808 as integer"),
            String::from("no prefix parse function for Semicolon"),
        ]
    );

    let program = parse_clean("9223372036854775807");
    match &program.statements[0] {
        Statement::ExpressionStatement(stmt) => match &stmt.expression {
            Expression::IntegerLiteral(lit) => assert_eq!(lit.value, i64::MAX),
            other => panic!("not an integer literal: {:?}", other),
        },
        other => panic!("not an expression statement: {:?}", other),
    }
}

#[test]
fn parse_integer_reads_base_ten() {
    assert_eq!(parse_integer("0"), Some(0));
    assert_eq!(parse_integer("5"), Some(5));
    assert_eq!(parse_integer("007"), Some(7));
    assert_eq!(parse_integer("838383"), Some(838383));
    assert_eq!(parse_integer("9223372036854775807"), Some(i64::MAX));
    assert_eq!(parse_integer("9223372036854775808"), None);
    assert_eq!(parse_integer("92233720368547758070"), None);
    assert_eq!(parse_integer("99999999999999999999999999"), None);
    assert_eq!(parse_integer("00000000000000000000000000001"), Some(1));
    assert_eq!(parse_integer(""), None);
    assert_eq!(parse_integer("12a"), None);
    assert_eq!(parse_integer("a12"), None);
    assert_eq!(parse_integer("-1"), None);
    assert_eq!(parse_integer("+1"), None);
    assert_eq!(parse_integer("\u{0663}"), None);
}

#[test]
fn malformed_input_still_reaches_the_end() {
    let inputs = vec![
        "let = 5;",
        "let let let",
        "((((",
        "))))",
        "+ - * /",
        "let x = = 5; return return;",
        "@ # $ %",
        "== != < >",
        "if (x) { y } else { z }",
        "fn(x, y) { x + y; }",
    ];
    for input in inputs {
        let mut p = Parser::new(Lexer::new(input));
        let _ = p.parse_program();
        assert!(p.cur_token_is(TokenType::EndOfFile), "input: {}", input);
        assert!(p.errors().len() >= 1, "input: {}", input);
    }
}

#[test]
fn empty_input_is_an_empty_program() {
    let (program, errors) = parse("");
    assert_eq!(program.statements.len(), 0);
    assert_eq!(errors, Vec::<String>::new());
    let (program, errors) = parse("  \n\t ");
    assert_eq!(program.statements.len(), 0);
    assert_eq!(errors, Vec::<String>::new());
}

#[test]
fn a_parser_starts_where_its_lexer_stands() {
    let mut l = Lexer::new("let x = 5; y");
    for _ in 0..5 {
        l.next_token();
    }
    let mut p = Parser::new(l);
    let program = p.parse_program();
    assert_eq!(p.errors().len(), 0);
    assert_eq!(program.string(), "y");
}

#[test]
fn window_primitives() {
    let mut p = Parser::new(Lexer::new("let x"));
    assert!(p.cur_token_is(TokenType::Let));
    assert!(!p.cur_token_is(TokenType::Identifier));
    assert!(p.peek_token_is(&TokenType::Identifier));
    assert!(!p.expect_peek(TokenType::Assign));
    assert!(p.cur_token_is(TokenType::Let));
    assert_eq!(
        p.errors(),
        &vec![String::from("expected next token to be Assign, got Identifier instead")]
    );
    assert!(p.expect_peek(TokenType::Identifier));
    assert!(p.cur_token_is(TokenType::Identifier));
    assert!(p.peek_token_is(&TokenType::EndOfFile));
    p.peek_error(&TokenType::Semicolon);
    assert_eq!(p.errors().len(), 2);
    assert_eq!(
        p.errors()[1],
        String::from("expected next token to be Semicolon, got EndOfFile instead")
    );
    p.next_token();
    assert!(p.cur_token_is(TokenType::EndOfFile));
    p.next_token();
    assert!(p.cur_token_is(TokenType::EndOfFile));
    assert!(p.peek_token_is(&TokenType::EndOfFile));
}

#[test]
fn parse_expression_stops_at_lower_precedence() {
    let mut p = Parser::new(Lexer::new("a * b + c"));
    let product = p.parse_expression(Precedence::Sum).unwrap();
    assert_eq!(product.string(), "(a * b)");
    assert!(p.peek_token_is(&TokenType::Plus));

    let mut p = Parser::new(Lexer::new("a + b + c"));
    let first = p.parse_expression(Precedence::Sum).unwrap();
    assert_eq!(first.string(), "a");
    assert!(p.peek_token_is(&TokenType::Plus));

    let mut p = Parser::new(Lexer::new("a + b; c"));
    let sum = p.parse_expression(Precedence::Lowest).unwrap();
    assert_eq!(sum.string(), "(a + b)");
    assert!(p.peek_token_is(&TokenType::Semicolon));
}

#[test]
fn statement_parsers_can_be_called_directly() {
    let mut p = Parser::new(Lexer::new("let a = 1; return 2; 3"));
    assert_eq!(p.parse_let_statement().unwrap().string(), "let a = 1;");
    assert!(p.cur_token_is(TokenType::Semicolon));
    p.next_token();
    assert_eq!(p.parse_return_statement().unwrap().string(), "return 2;");
    p.next_token();
    assert_eq!(p.parse_expression_statement().unwrap().string(), "3");
    assert!(p.peek_token_is(&TokenType::EndOfFile));

    let mut p = Parser::new(Lexer::new("return x"));
    assert_eq!(p.parse_statement().unwrap().string(), "return x;");

    let mut p = Parser::new(Lexer::new("name"));
    assert_eq!(p.parse_identifier().string(), "name");
    assert_eq!(p.prefix_fn().unwrap().string(), "name");
}

#[test]
fn precedence_levels_are_ordered() {
    let levels = [
        Precedence::Lowest,
        Precedence::Equals,
        Precedence::LessGreater,
        Precedence::Sum,
        Precedence::Product,
        Precedence::Prefix,
        Precedence::Call,
    ];
    for (i, level) in levels.iter().enumerate() {
        assert_eq!(level.rank() as usize, i);
    }
    for pair in levels.windows(2) {
        assert!(pair[0] < pair[1]);
        assert!(pair[0].rank() < pair[1].rank());
    }
}

#[test]
fn diagnostics_come_in_source_order() {
    let (program, errors) = parse("let 1; ok; let y 2; (3");
    assert_eq!(
        errors,
        vec![
            String::from("expected next token to be Identifier, got Integer instead"),
            String::from("expected next token to be Assign, got Integer instead"),
            String::from("expected next token to be RParen, got EndOfFile instead"),
        ]
    );
    assert_eq!(program.string(), "1ok2");
}
