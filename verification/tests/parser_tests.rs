use rosella::{BinaryOp, Expr, Lexer, Number, Parser, RosellaError, Stmt, Token};

fn parse_source(source: &str) -> Result<Vec<Stmt>, RosellaError> {
    let tokens = Lexer::new(source).tokenise().expect("tokens");
    Parser::new(tokens).parse()
}

fn number(text: &str) -> Expr {
    Expr::Number(Number::parse(text).expect("a literal"))
}

fn name(text: &str) -> Expr {
    Expr::Identifier(text.to_string())
}

fn string(text: &str) -> Expr {
    Expr::String(text.to_string())
}

fn binary(left: Expr, operator: BinaryOp, right: Expr) -> Expr {
    Expr::Binary { left: Box::new(left), operator, right: Box::new(right) }
}

fn call(function: &str, args: Vec<Expr>) -> Expr {
    Expr::Call { name: function.to_string(), args }
}

fn parse_error(message: &str) -> RosellaError {
    RosellaError::ParseError(message.to_string())
}

#[test]
fn sum_binds_tighter_than_equality() {
    assert_eq!(
        parse_source("2 + 3 == 5"),
        Ok(vec![Stmt::Expression(binary(
            binary(number("2"), BinaryOp::Add, number("3")),
            BinaryOp::Equal,
            number("5"),
        ))])
    );
}

#[test]
fn product_binds_tighter_than_sum() {
    assert_eq!(
        parse_source("let int x = 1 + 2 * 3;"),
        Ok(vec![Stmt::Let {
            variable_type: "int".to_string(),
            name: "x".to_string(),
            value: binary(
                number("1"),
                BinaryOp::Add,
                binary(number("2"), BinaryOp::Multiply, number("3")),
            ),
        }])
    );
}

#[test]
fn relation_binds_between_equality_and_sum() {
    assert_eq!(
        parse_source("a + 1 < b == c"),
        Ok(vec![Stmt::Expression(binary(
            binary(binary(name("a"), BinaryOp::Add, number("1")), BinaryOp::LessThan, name("b")),
            BinaryOp::Equal,
            name("c"),
        ))])
    );
}

#[test]
fn operators_of_one_level_group_from_the_left() {
    assert_eq!(
        parse_source("1 - 2 - 3"),
        Ok(vec![Stmt::Expression(binary(
            binary(number("1"), BinaryOp::Subtract, number("2")),
            BinaryOp::Subtract,
            number("3"),
        ))])
    );
    assert_eq!(
        parse_source("8 / 4 * 2"),
        Ok(vec![Stmt::Expression(binary(
            binary(number("8"), BinaryOp::Divide, number("4")),
            BinaryOp::Multiply,
            number("2"),
        ))])
    );
}

#[test]
fn every_operator_token_has_its_operator() {
    let cases = [
        ("==", BinaryOp::Equal),
        ("!=", BinaryOp::NotEqual),
        ("<", BinaryOp::LessThan),
        ("<=", BinaryOp::LessThanEq),
        (">", BinaryOp::GreaterThan),
        (">=", BinaryOp::GreaterThanEq),
        ("+", BinaryOp::Add),
        ("-", BinaryOp::Subtract),
        ("*", BinaryOp::Multiply),
        ("/", BinaryOp::Divide),
    ];
    for (text, operator) in cases {
        assert_eq!(
            parse_source(&format!("a {} b", text)),
            Ok(vec![Stmt::Expression(binary(name("a"), operator, name("b")))])
        );
    }
}

#[test]
fn parentheses_group() {
    assert_eq!(
        parse_source("let int x = (1 + 2) * 3;"),
        Ok(vec![Stmt::Let {
            variable_type: "int".to_string(),
            name: "x".to_string(),
            value: binary(
                binary(number("1"), BinaryOp::Add, number("2")),
                BinaryOp::Multiply,
                number("3"),
            ),
        }])
    );
}

#[test]
fn empty_program_has_no_statements() {
    assert_eq!(parse_source(""), Ok(vec![]));
    assert_eq!(Parser::new(vec![]).parse(), Ok(vec![]));
    assert_eq!(Parser::new(vec![Token::EOF, Token::Let]).parse(), Ok(vec![]));
}

#[test]
fn call_statement_needs_its_semicolon() {
    assert_eq!(
        parse_source("print(\"hi\", x, 3);"),
        Ok(vec![Stmt::Expression(call("print", vec![string("hi"), name("x"), number("3")]))])
    );
    assert_eq!(
        parse_source("run();"),
        Ok(vec![Stmt::Expression(call("run", vec![]))])
    );
    assert_eq!(
        parse_source("run()"),
        Err(RosellaError::UnexpectedToken(Token::Semicolon, Token::EOF))
    );
}

#[test]
fn call_as_argument_is_rejected() {
    assert_eq!(
        parse_source("foo(bar(1), 2);"),
        Err(RosellaError::UnexpectedToken(Token::Semicolon, Token::Comma))
    );
    assert_eq!(
        parse_source("foo(bar(1));"),
        Err(RosellaError::UnexpectedToken(Token::Semicolon, Token::RParen))
    );
}

#[test]
fn call_inside_larger_expression_is_rejected() {
    assert_eq!(
        parse_source("let int x = f(1) + 2;"),
        Err(RosellaError::UnexpectedToken(Token::Semicolon, Token::Plus))
    );
}

#[test]
fn call_followed_by_semicolon_may_stand_as_argument() {
    assert_eq!(
        parse_source("copy(path(\"a\");, path(\"b\"););"),
        Ok(vec![Stmt::Expression(call(
            "copy",
            vec![call("path", vec![string("a")]), call("path", vec![string("b")])],
        ))])
    );
}

#[test]
fn arguments_need_comma_or_closing_parenthesis() {
    assert_eq!(
        parse_source("f(1 2);"),
        Err(parse_error("Expected ',' or ')' after argument"))
    );
    assert_eq!(
        parse_source("f(1,"),
        Err(RosellaError::InvalidStatement(Token::EOF))
    );
}

#[test]
fn let_statement() {
    assert_eq!(
        parse_source("let str greeting = \"hello\";"),
        Ok(vec![Stmt::Let {
            variable_type: "str".to_string(),
            name: "greeting".to_string(),
            value: string("hello"),
        }])
    );
}

#[test]
fn let_statement_errors() {
    assert_eq!(
        parse_source("let = 1;"),
        Err(parse_error("Expected identifer (for variable type) after 'let'"))
    );
    assert_eq!(
        parse_source("let int = 1;"),
        Err(parse_error("Expected identifer after 'let'"))
    );
    assert_eq!(
        parse_source("let int x 1;"),
        Err(RosellaError::UnexpectedToken(Token::Assign, Token::Number(Number::parse("1").unwrap())))
    );
    assert_eq!(
        parse_source("let int x = 1"),
        Err(RosellaError::UnexpectedToken(Token::Semicolon, Token::EOF))
    );
    assert_eq!(
        parse_source("let int x = ;"),
        Err(RosellaError::InvalidStatement(Token::Semicolon))
    );
}

#[test]
fn if_statement_without_else() {
    assert_eq!(
        parse_source("if int (x < 10) { print(x); }"),
        Ok(vec![Stmt::If {
            condition_type: "int".to_string(),
            condition: binary(name("x"), BinaryOp::LessThan, number("10")),
            then_branch: vec![Stmt::Expression(call("print", vec![name("x")]))],
            else_branch: None,
        }])
    );
}

#[test]
fn if_statement_with_else_block() {
    assert_eq!(
        parse_source("if str (a == b) { } else { stop(); }"),
        Ok(vec![Stmt::If {
            condition_type: "str".to_string(),
            condition: binary(name("a"), BinaryOp::Equal, name("b")),
            then_branch: vec![],
            else_branch: Some(vec![Stmt::Expression(call("stop", vec![]))]),
        }])
    );
}

#[test]
fn else_if_is_one_statement_in_the_other_branch() {
    assert_eq!(
        parse_source("if int (a) { } else if int (b) { } else { }"),
        Ok(vec![Stmt::If {
            condition_type: "int".to_string(),
            condition: name("a"),
            then_branch: vec![],
            else_branch: Some(vec![Stmt::If {
                condition_type: "int".to_string(),
                condition: name("b"),
                then_branch: vec![],
                else_branch: Some(vec![]),
            }]),
        }])
    );
}

#[test]
fn if_statement_errors() {
    assert_eq!(
        parse_source("if (x) { }"),
        Err(parse_error("Expected identifer (for comparison type) after 'if'"))
    );
    assert_eq!(
        parse_source("if int x) { }"),
        Err(RosellaError::UnexpectedToken(Token::LParen, Token::Identifier("x".to_string())))
    );
    assert_eq!(
        parse_source("if int (x { }"),
        Err(RosellaError::UnexpectedToken(Token::RParen, Token::LBrace))
    );
    assert_eq!(
        parse_source("if int (x) }"),
        Err(RosellaError::UnexpectedToken(Token::LBrace, Token::RBrace))
    );
    assert_eq!(
        parse_source("if int (x) { print(x);"),
        Err(RosellaError::InvalidStatement(Token::EOF))
    );
    assert_eq!(
        parse_source("if int (x) { } else print(x);"),
        Err(RosellaError::UnexpectedToken(Token::LBrace, Token::Identifier("print".to_string())))
    );
}

#[test]
fn with_statement() {
    assert_eq!(
        parse_source("with linux { cd(\"tmp\"); }"),
        Ok(vec![Stmt::With {
            os: "linux".to_string(),
            body: vec![Stmt::Expression(call("cd", vec![string("tmp")]))],
        }])
    );
    assert_eq!(
        parse_source("with { }"),
        Err(parse_error("Expected identifier after 'with'"))
    );
}

#[test]
fn while_statement() {
    assert_eq!(
        parse_source("while int (i <= 3) { let int i = i + 1; }"),
        Ok(vec![Stmt::While {
            condition_type: "int".to_string(),
            condition: binary(name("i"), BinaryOp::LessThanEq, number("3")),
            body: vec![Stmt::Let {
                variable_type: "int".to_string(),
                name: "i".to_string(),
                value: binary(name("i"), BinaryOp::Add, number("1")),
            }],
        }])
    );
    assert_eq!(
        parse_source("while (i) { }"),
        Err(parse_error("Expected identifer (for comparison type) after 'with'"))
    );
}

#[test]
fn function_without_parameters_has_no_list() {
    assert_eq!(
        parse_source("fn setup() { }"),
        Ok(vec![Stmt::Function { name: "setup".to_string(), arguments: None, body: vec![] }])
    );
}

#[test]
fn function_with_parameters() {
    assert_eq!(
        parse_source("fn greet(a, b) { print(a, b); }"),
        Ok(vec![Stmt::Function {
            name: "greet".to_string(),
            arguments: Some(vec![name("a"), name("b")]),
            body: vec![Stmt::Expression(call("print", vec![name("a"), name("b")]))],
        }])
    );
}

#[test]
fn function_errors() {
    assert_eq!(parse_source("fn () { }"), Err(parse_error("Expected identifer after 'fn'")));
    assert_eq!(
        parse_source("fn f { }"),
        Err(RosellaError::UnexpectedToken(Token::LParen, Token::LBrace))
    );
    assert_eq!(
        parse_source("fn f()"),
        Err(RosellaError::UnexpectedToken(Token::LBrace, Token::EOF))
    );
}

#[test]
fn raw_instruction_takes_expressions_up_to_the_semicolon() {
    assert_eq!(
        parse_source("|> ls \"-la\" x + 1 2;"),
        Ok(vec![Stmt::RawInstruction(vec![
            name("ls"),
            string("-la"),
            binary(name("x"), BinaryOp::Add, number("1")),
            number("2"),
        ])])
    );
    assert_eq!(parse_source("|> ;"), Ok(vec![Stmt::RawInstruction(vec![])]));
    assert_eq!(
        parse_source("|> ls"),
        Err(RosellaError::UnexpectedToken(Token::Semicolon, Token::EOF))
    );
}

#[test]
fn token_that_begins_nothing_is_reported() {
    assert_eq!(parse_source(")"), Err(RosellaError::InvalidStatement(Token::RParen)));
    assert_eq!(parse_source("else { }"), Err(RosellaError::InvalidStatement(Token::Else)));
    assert_eq!(parse_source("x ;"), Err(RosellaError::InvalidStatement(Token::Semicolon)));
    assert_eq!(parse_source("1 + ;"), Err(RosellaError::InvalidStatement(Token::Semicolon)));
}

#[test]
fn statements_follow_one_another() {
    let program = parse_source(
        "let int a = 1;\nlet int b = 2;\nif int (a < b) { print(\"less\"); }\nexit(0);",
    )
    .expect("a program");
    assert_eq!(program.len(), 4);
    assert!(matches!(program[0], Stmt::Let { .. }));
    assert!(matches!(program[1], Stmt::Let { .. }));
    assert!(matches!(program[2], Stmt::If { .. }));
    assert!(matches!(program[3], Stmt::Expression(Expr::Call { .. })));
}

#[test]
fn parsing_again_gives_nothing_more() {
    let tokens = Lexer::new("run();").tokenise().expect("tokens");
    let mut parser = Parser::new(tokens);
    assert_eq!(parser.parse(), Ok(vec![Stmt::Expression(call("run", vec![]))]));
    assert_eq!(parser.parse(), Ok(vec![]));
}

#[test]
fn trees_can_be_copied() {
    let program = parse_source(
        "fn f(a) { if int (a < 1) { |> a 1; } else { with linux { while str (a) { } } } }",
    )
    .expect("a program");
    assert_eq!(program.clone(), program);
}
