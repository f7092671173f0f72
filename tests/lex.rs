use mcml::error::CompileError;
use mcml::lex::{lex, parse_i64, Token};

#[test]
fn bools() {
    assert_eq!(
        vec![
            Token::LeftParen,
            Token::Test,
            Token::String(r#"a "test" \named\ test"#.to_owned()),
            Token::LeftParen,
            Token::Assert,
            Token::Boolean(true),
            Token::Boolean(false),
            Token::RightParen,
            Token::RightParen
        ],
        lex(r#"(test "a \"test\" \\named\\ test" (assert true false))"#).unwrap()
    );
}

#[test]
fn slash() {
    assert_eq!(vec![Token::Slash], lex("/").unwrap());
}

#[test]
fn integers() {
    assert_eq!(
        vec![Token::Int(1), Token::Int(2134234), Token::Int(-12534546), Token::Int(1_000_000)],
        lex("1 2134234 -12534546 1_000_000").unwrap()
    );
}

#[test]
fn asserteq() {
    assert_eq!(vec![Token::AssertEq], lex("asserteq").unwrap());
}

#[test]
fn lex_arithmetic() {
    assert_eq!(vec![Token::Plus, Token::Dash, Token::Star, Token::Slash], lex("+ - * /").unwrap());
}

#[test]
fn lex_let() {
    assert_eq!(vec![Token::Let], lex("let").unwrap());
}

#[test]
fn lex_empty_source() {
    assert_eq!(Vec::<Token>::new(), lex("").unwrap());
}

#[test]
fn lex_integer_extremes() {
    assert_eq!(vec![Token::Int(i64::MAX), Token::Int(i64::MIN)], lex("9223372036854775807 -9223372036854775808").unwrap());
    assert!(lex("9223372036854775808").is_err());
}

#[test]
fn lex_errors() {
    assert_eq!(Err(CompileError::UnknownEscape('n')), lex(r#""a\n""#));
    assert_eq!(Err(CompileError::UnfinishedEscape), lex(r#""a\"#));
    assert_eq!(Err(CompileError::UnexpectedCharacter('#')), lex("#"));
}

#[test]
fn lex_identifiers_and_keywords() {
    assert_eq!(
        vec![Token::Ident("x1".to_owned()), Token::Test, Token::Assert, Token::Boolean(true)],
        lex("x1 test assert true").unwrap()
    );
}

#[test]
fn parse_i64_numerals() {
    assert_eq!(Some(-42), parse_i64(&"-42".chars().collect()));
    assert_eq!(None, parse_i64(&"-".chars().collect()));
    assert_eq!(None, parse_i64(&"4a".chars().collect()));
}
