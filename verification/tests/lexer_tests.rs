use rosella::{Lexer, Number, RosellaError, Token};

fn lex(source: &str) -> Result<Vec<Token>, RosellaError> {
    Lexer::new(source).tokenise()
}

fn number_token(text: &str) -> Token {
    Token::Number(Number::parse(text).expect("a literal"))
}

fn ident(name: &str) -> Token {
    Token::Identifier(name.to_string())
}

#[test]
fn integer_literal_is_one_number_then_end() {
    assert_eq!(lex("42"), Ok(vec![number_token("42"), Token::EOF]));
}

#[test]
fn decimal_literal_is_one_number_then_end() {
    assert_eq!(lex("3.14"), Ok(vec![number_token("3.14"), Token::EOF]));
}

#[test]
fn literal_value_matches_float_reading() {
    for text in ["0", "7", "42", "3.14", "0.5", "10.25", "007.50", "5.", "100", "0.0"] {
        let tokens = lex(text).expect("tokens");
        assert_eq!(tokens.len(), 2);
        match &tokens[0] {
            Token::Number(n) => {
                let expected: f64 = text.parse().expect("a float");
                assert_eq!(n.as_str(), format!("{}", expected));
            }
            other => panic!("not a number: {:?}", other),
        }
        assert_eq!(tokens[1], Token::EOF);
    }
}

#[test]
fn equal_numbers_give_equal_tokens() {
    assert_eq!(lex("2.0"), lex("2"));
    assert_eq!(lex("02.50"), lex("2.5"));
}

#[test]
fn malformed_number_falls_back_to_zero() {
    assert_eq!(lex("1.2.3"), Ok(vec![Token::Number(Number::zero()), Token::EOF]));
    assert_eq!(lex("1..2"), Ok(vec![Token::Number(Number::zero()), Token::EOF]));
}

#[test]
fn keywords_are_told_from_identifiers() {
    assert_eq!(
        lex("fn let if else with while other fnx _x a1_b"),
        Ok(vec![
            Token::Function,
            Token::Let,
            Token::If,
            Token::Else,
            Token::With,
            Token::While,
            ident("other"),
            ident("fnx"),
            ident("_x"),
            ident("a1_b"),
            Token::EOF,
        ])
    );
}

#[test]
fn operators_use_one_character_of_lookahead() {
    assert_eq!(
        lex("= == != < <= > >= + - * / |>"),
        Ok(vec![
            Token::Assign,
            Token::Equal,
            Token::NotEqual,
            Token::LessThan,
            Token::LessThanEq,
            Token::GreaterThan,
            Token::GreaterThanEq,
            Token::Plus,
            Token::Minus,
            Token::Multiply,
            Token::Divide,
            Token::RawInstruction,
            Token::EOF,
        ])
    );
}

#[test]
fn greater_than_keeps_what_follows() {
    assert_eq!(
        lex("a>b"),
        Ok(vec![ident("a"), Token::GreaterThan, ident("b"), Token::EOF])
    );
    assert_eq!(
        lex("a>=b"),
        Ok(vec![ident("a"), Token::GreaterThanEq, ident("b"), Token::EOF])
    );
    assert_eq!(
        lex("a<=b"),
        Ok(vec![ident("a"), Token::LessThanEq, ident("b"), Token::EOF])
    );
}

#[test]
fn delimiters_are_single_tokens() {
    assert_eq!(
        lex("(){}[],;"),
        Ok(vec![
            Token::LParen,
            Token::RParen,
            Token::LBrace,
            Token::RBrace,
            Token::LBraceSquare,
            Token::RBraceSquare,
            Token::Comma,
            Token::Semicolon,
            Token::EOF,
        ])
    );
}

#[test]
fn whitespace_is_skipped() {
    assert_eq!(
        lex(" \t\r\n a \n\n b\t"),
        Ok(vec![ident("a"), ident("b"), Token::EOF])
    );
    assert_eq!(lex(""), Ok(vec![Token::EOF]));
    assert_eq!(lex("   "), Ok(vec![Token::EOF]));
}

#[test]
fn form_feed_is_no_whitespace() {
    assert_eq!(lex("a\u{c}b"), Err(RosellaError::InvalidToken(Some('\u{c}'))));
}

#[test]
fn string_literal_has_no_escapes() {
    assert_eq!(
        lex("\"hello world\""),
        Ok(vec![Token::String("hello world".to_string()), Token::EOF])
    );
    assert_eq!(
        lex("\"a\\\"b"),
        Ok(vec![Token::String("a\\".to_string()), ident("b"), Token::EOF])
    );
    assert_eq!(lex("\"\""), Ok(vec![Token::String(String::new()), Token::EOF]));
}

#[test]
fn unterminated_string_is_an_error() {
    assert_eq!(
        lex("\"never closed"),
        Err(RosellaError::ParseError("Expected \" to end string".to_string()))
    );
    assert_eq!(
        lex("let str s = \"open;"),
        Err(RosellaError::ParseError("Expected \" to end string".to_string()))
    );
}

#[test]
fn block_comment_is_discarded() {
    assert_eq!(
        lex("a /* b c */ d"),
        Ok(vec![ident("a"), ident("d"), Token::EOF])
    );
    assert_eq!(lex("/**/"), Ok(vec![Token::EOF]));
    assert_eq!(lex("/***/x"), Ok(vec![ident("x"), Token::EOF]));
    assert_eq!(lex("/* * / */1"), Ok(vec![number_token("1"), Token::EOF]));
}

#[test]
fn unterminated_comment_is_an_error() {
    assert_eq!(
        lex("a /* never closed"),
        Err(RosellaError::ParseError("Expected */ to end comment".to_string()))
    );
    assert_eq!(
        lex("/*/"),
        Err(RosellaError::ParseError("Expected */ to end comment".to_string()))
    );
}

#[test]
fn stray_bang_and_bar_are_skipped() {
    assert_eq!(
        lex("a ! b | c"),
        Ok(vec![ident("a"), ident("b"), ident("c"), Token::EOF])
    );
    assert_eq!(lex("!"), Ok(vec![Token::EOF]));
    assert_eq!(lex("|"), Ok(vec![Token::EOF]));
}

#[test]
fn unknown_punctuation_is_rejected() {
    assert_eq!(lex("#"), Err(RosellaError::InvalidPunctuation(Some('#'))));
    assert_eq!(lex("a $ b"), Err(RosellaError::InvalidPunctuation(Some('$'))));
    assert_eq!(lex("x.y"), Err(RosellaError::InvalidPunctuation(Some('.'))));
    assert_eq!(lex("'"), Err(RosellaError::InvalidPunctuation(Some('\''))));
}

#[test]
fn unknown_character_is_rejected() {
    assert_eq!(lex("\u{20ac}"), Err(RosellaError::InvalidToken(Some('\u{20ac}'))));
    assert_eq!(lex("a \u{7} b"), Err(RosellaError::InvalidToken(Some('\u{7}'))));
}

#[test]
fn letter_beyond_ascii_opens_an_identifier() {
    assert_eq!(
        lex("\u{e9}t\u{e9}"),
        Ok(vec![ident("\u{e9}t"), ident("\u{e9}"), Token::EOF])
    );
    assert_eq!(lex("\u{3bb}x1"), Ok(vec![ident("\u{3bb}x1"), Token::EOF]));
}

#[test]
fn end_of_stream_is_last_and_only_last() {
    for source in ["", "a b c", "let int x = 1;", "/* c */", "1 2 3 \"s\""] {
        let tokens = lex(source).expect("tokens");
        assert_eq!(tokens.last(), Some(&Token::EOF));
        assert_eq!(tokens.iter().filter(|t| **t == Token::EOF).count(), 1);
    }
}

#[test]
fn a_statement_is_tokenized_in_order() {
    assert_eq!(
        lex("let int result = x + 10;"),
        Ok(vec![
            Token::Let,
            ident("int"),
            ident("result"),
            Token::Assign,
            ident("x"),
            Token::Plus,
            number_token("10"),
            Token::Semicolon,
            Token::EOF,
        ])
    );
}

#[test]
fn tokenising_again_gives_only_the_end() {
    let mut lexer = Lexer::new("a b");
    assert_eq!(lexer.tokenise(), Ok(vec![ident("a"), ident("b"), Token::EOF]));
    assert_eq!(lexer.tokenise(), Ok(vec![Token::EOF]));
}

#[test]
fn token_comparison_and_copy() {
    let a = ident("x");
    assert!(a.same_as(&a.clone()));
    assert!(!a.same_as(&ident("y")));
    assert!(!a.same_as(&Token::String("x".to_string())));
    assert!(Token::LParen.same_as(&Token::LParen));
    assert!(!Token::LParen.same_as(&Token::RParen));
    assert!(number_token("1.0").same_as(&number_token("1")));
}
