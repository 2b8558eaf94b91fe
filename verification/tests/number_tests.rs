use rosella::Number;

fn text_of(literal: &str) -> Option<String> {
    Number::parse(literal).map(|n| n.as_str().to_string())
}

#[test]
fn canonical_text_of_whole_numbers() {
    assert_eq!(text_of("0"), Some("0".to_string()));
    assert_eq!(text_of("42"), Some("42".to_string()));
    assert_eq!(text_of("0042"), Some("42".to_string()));
    assert_eq!(text_of("000"), Some("0".to_string()));
}

#[test]
fn canonical_text_of_fractions() {
    assert_eq!(text_of("3.14"), Some("3.14".to_string()));
    assert_eq!(text_of("3.1400"), Some("3.14".to_string()));
    assert_eq!(text_of("0.50"), Some("0.5".to_string()));
    assert_eq!(text_of("10.0"), Some("10".to_string()));
    assert_eq!(text_of("5."), Some("5".to_string()));
    assert_eq!(text_of("00.001"), Some("0.001".to_string()));
}

#[test]
fn long_literals_are_kept_exactly() {
    assert_eq!(
        text_of("123456789012345678901234567890.5"),
        Some("123456789012345678901234567890.5".to_string())
    );
}

#[test]
fn text_that_is_no_literal_is_refused() {
    assert!(Number::parse("").is_none());
    assert!(Number::parse(".5").is_none());
    assert!(Number::parse("1.2.3").is_none());
    assert!(Number::parse("12a").is_none());
    assert!(Number::parse("-1").is_none());
    assert!(Number::parse("1e5").is_none());
    assert!(Number::parse(" 1").is_none());
}

#[test]
fn zero_is_the_literal_zero() {
    assert_eq!(Number::zero().as_str(), "0");
    assert_eq!(Some(Number::zero()), Number::parse("0.0"));
}

#[test]
fn numbers_of_one_value_are_equal() {
    assert_eq!(Number::parse("1.50"), Number::parse("01.5"));
    assert_ne!(Number::parse("1.5"), Number::parse("1.05"));
    let n = Number::parse("2.5").expect("a literal");
    assert_eq!(n.clone(), n);
}

#[test]
fn canonical_text_is_its_own_canonical_text() {
    for literal in ["0", "000", "12", "0012.3400", "5.", "0.001", "10.0"] {
        let n = Number::parse(literal).expect("a literal");
        assert_eq!(Number::parse(n.as_str()), Some(n.clone()));
        assert_eq!(Number::parse(n.as_str()).expect("a literal").as_str(), n.as_str());
    }
}

#[test]
fn canonical_text_denotes_the_same_number() {
    for literal in ["0", "000", "12", "0012.3400", "5.", "0.001", "10.0", "123.456"] {
        let n = Number::parse(literal).expect("a literal");
        let read: f64 = literal.parse().expect("a float");
        let kept: f64 = n.as_str().parse().expect("a float");
        assert_eq!(read, kept);
    }
}
