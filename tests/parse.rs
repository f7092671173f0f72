use mcml::error::{CompileError, SyntaxError};
use mcml::lex::Token;
use mcml::parse::{parse, Definition, Expr, Statement};

fn test_tokens(name: &str, body: Vec<Token>) -> Vec<Token> {
    let mut tokens = vec![Token::LeftParen, Token::Test, Token::String(name.to_owned())];
    tokens.extend(body);
    tokens.push(Token::RightParen);
    tokens
}

fn one_assert(expr: Expr) -> Vec<Definition> {
    vec![Definition::Test { name: "test".to_owned(), stmts: vec![Statement::Assert { expr }] }]
}

#[test]
fn assert_bool() {
    let tokens = vec![
        Token::LeftParen,
        Token::Test,
        Token::String("test".to_owned()),
        Token::LeftParen,
        Token::Assert,
        Token::Boolean(true),
        Token::RightParen,
        Token::RightParen,
    ];
    assert_eq!(one_assert(Expr::LitBool(true)), parse(tokens).unwrap());
}

#[test]
fn command_literal() {
    let tokens = vec![
        Token::LeftParen,
        Token::Test,
        Token::String("test 2".to_owned()),
        Token::LeftParen,
        Token::Slash,
        Token::String("cmd text".to_owned()),
        Token::RightParen,
        Token::RightParen,
    ];
    assert_eq!(
        vec![Definition::Test {
            name: "test 2".to_owned(),
            stmts: vec![Statement::Command { text: "cmd text".to_owned() }]
        }],
        parse(tokens).unwrap()
    );
}

#[test]
fn asserteq_ints() {
    let tokens = vec![
        Token::LeftParen,
        Token::Test,
        Token::String("test 3".to_owned()),
        Token::LeftParen,
        Token::AssertEq,
        Token::Int(5),
        Token::Int(-5),
        Token::RightParen,
        Token::RightParen,
    ];
    assert_eq!(
        vec![Definition::Test {
            name: "test 3".to_owned(),
            stmts: vec![Statement::AssertEq { left: Expr::LitInt(5), right: Expr::LitInt(-5) }]
        }],
        parse(tokens).unwrap()
    );
}

#[test]
fn multitest() {
    let mut tokens = test_tokens(
        "test 1",
        vec![Token::LeftParen, Token::Assert, Token::Boolean(true), Token::RightParen],
    );
    tokens.extend(test_tokens(
        "test 2",
        vec![Token::LeftParen, Token::Assert, Token::Boolean(true), Token::RightParen],
    ));
    assert_eq!(
        vec![
            Definition::Test {
                name: "test 1".to_owned(),
                stmts: vec![Statement::Assert { expr: Expr::LitBool(true) }]
            },
            Definition::Test {
                name: "test 2".to_owned(),
                stmts: vec![Statement::Assert { expr: Expr::LitBool(true) }]
            }
        ],
        parse(tokens).unwrap()
    );
}

fn arithmetic_tokens(op: Token) -> Vec<Token> {
    test_tokens(
        "test",
        vec![
            Token::LeftParen,
            Token::Assert,
            Token::LeftParen,
            op,
            Token::Int(1),
            Token::Int(1),
            Token::RightParen,
            Token::RightParen,
        ],
    )
}

fn one_one() -> (Box<Expr>, Box<Expr>) {
    (Box::new(Expr::LitInt(1)), Box::new(Expr::LitInt(1)))
}

#[test]
fn addition() {
    let (left, right) = one_one();
    assert_eq!(one_assert(Expr::Plus { left, right }), parse(arithmetic_tokens(Token::Plus)).unwrap());
}

#[test]
fn subtraction() {
    let (left, right) = one_one();
    assert_eq!(one_assert(Expr::Minus { left, right }), parse(arithmetic_tokens(Token::Dash)).unwrap());
}

#[test]
fn multiplication() {
    let (left, right) = one_one();
    assert_eq!(one_assert(Expr::Times { left, right }), parse(arithmetic_tokens(Token::Star)).unwrap());
}

#[test]
fn division() {
    let (left, right) = one_one();
    assert_eq!(one_assert(Expr::Divide { left, right }), parse(arithmetic_tokens(Token::Slash)).unwrap());
}

#[test]
fn nested_arithmetic() {
    let tokens = test_tokens(
        "test",
        vec![
            Token::LeftParen,
            Token::Assert,
            Token::LeftParen,
            Token::Plus,
            Token::Int(1),
            Token::LeftParen,
            Token::Star,
            Token::Int(1),
            Token::Int(1),
            Token::RightParen,
            Token::RightParen,
            Token::RightParen,
        ],
    );
    let (left, right) = one_one();
    assert_eq!(
        one_assert(Expr::Plus { left: Box::new(Expr::LitInt(1)), right: Box::new(Expr::Times { left, right }) }),
        parse(tokens).unwrap()
    );
}

#[test]
fn parse_rejects_bad_shapes() {
    assert_eq!(Err(CompileError::Syntax(SyntaxError::ExpectedDefinition)), parse(vec![Token::Test]));
    assert_eq!(
        Err(CompileError::Syntax(SyntaxError::OutOfTokens)),
        parse(vec![Token::LeftParen, Token::Test, Token::String("t".to_owned())])
    );
    assert_eq!(Ok(vec![]), parse(vec![]));
}

#[test]
fn let_statement() {
    let tokens = test_tokens(
        "test",
        vec![
            Token::LeftParen,
            Token::Let,
            Token::LeftParen,
            Token::Ident("x".to_owned()),
            Token::Int(1),
            Token::RightParen,
            Token::RightParen,
        ],
    );
    assert_eq!(
        vec![Definition::Test {
            name: "test".to_owned(),
            stmts: vec![Statement::Let { variable_name: "x".to_owned(), expr: Expr::LitInt(1) }]
        }],
        parse(tokens).unwrap()
    );
}

#[test]
fn variable_usage() {
    let tokens = test_tokens(
        "test",
        vec![Token::LeftParen, Token::Assert, Token::Ident("x".to_owned()), Token::RightParen],
    );
    assert_eq!(one_assert(Expr::Variable("x".to_owned())), parse(tokens).unwrap());
}

#[test]
fn multiple_statements() {
    let tokens = test_tokens(
        "test",
        vec![
            Token::LeftParen,
            Token::Assert,
            Token::Boolean(true),
            Token::RightParen,
            Token::LeftParen,
            Token::Assert,
            Token::Boolean(false),
            Token::RightParen,
        ],
    );
    assert_eq!(
        vec![Definition::Test {
            name: "test".to_owned(),
            stmts: vec![
                Statement::Assert { expr: Expr::LitBool(true) },
                Statement::Assert { expr: Expr::LitBool(false) }
            ]
        }],
        parse(tokens).unwrap()
    );
}
