//! The parser: tokens to test definitions.
use vstd::prelude::*;
use crate::error::{CompileError, SyntaxError};
use crate::lex::Token;

verus! {

#[derive(PartialEq, Eq, Debug)]
pub enum Definition {
    Test { name: String, stmts: Vec<Statement> },
}

#[derive(PartialEq, Eq, Debug)]
pub enum Statement {
    Assert { expr: Expr },
    AssertEq { left: Expr, right: Expr },
    Command { text: String },
    Let { variable_name: String, expr: Expr },
}

#[derive(PartialEq, Eq, Debug)]
pub enum Expr {
    LitBool(bool),
    LitInt(i64),
    Variable(String),
    Plus { left: Box<Expr>, right: Box<Expr> },
    Minus { left: Box<Expr>, right: Box<Expr> },
    Times { left: Box<Expr>, right: Box<Expr> },
    Divide { left: Box<Expr>, right: Box<Expr> },
}

/// The tokens still to be read, the next one last.
struct Tokens {
    inner: Vec<Token>,
}

fn syntax<T>(e: SyntaxError) -> (r: Result<T, CompileError>)
    ensures
        r == Err::<T, CompileError>(CompileError::Syntax(e)),
{
    Err(CompileError::Syntax(e))
}

pub open spec fn out_of_tokens() -> CompileError {
    CompileError::Syntax(SyntaxError::OutOfTokens)
}

/// Reading a parenthesis: the tokens after it, or the error.
pub open spec fn expect_paren(ts: Seq<Token>, open: bool) -> Result<Seq<Token>, CompileError> {
    if ts.len() == 0 {
        Err(out_of_tokens())
    } else if open && ts[0] is LeftParen {
        Ok(ts.drop_first())
    } else if !open && ts[0] is RightParen {
        Ok(ts.drop_first())
    } else if open {
        Err(CompileError::Syntax(SyntaxError::ExpectedOpenParen))
    } else {
        Err(CompileError::Syntax(SyntaxError::ExpectedCloseParen))
    }
}

/// The arithmetic expression that an operator token makes of two operands.
pub open spec fn arith(op: Token, l: Expr, r: Expr) -> Expr {
    match op {
        Token::Plus => Expr::Plus { left: Box::new(l), right: Box::new(r) },
        Token::Dash => Expr::Minus { left: Box::new(l), right: Box::new(r) },
        Token::Star => Expr::Times { left: Box::new(l), right: Box::new(r) },
        _ => Expr::Divide { left: Box::new(l), right: Box::new(r) },
    }
}

pub open spec fn is_operator(t: Token) -> bool {
    t is Plus || t is Dash || t is Star || t is Slash
}

/// An expression read from the front of `ts`, and the tokens after it:
/// a boolean, an integer, a variable, or `( op expr expr )`.
pub open spec fn expr_from(ts: Seq<Token>) -> Result<(Expr, Seq<Token>), CompileError>
    decreases ts.len(), 1nat,
{
    if ts.len() == 0 {
        Err(out_of_tokens())
    } else {
        match ts[0] {
            Token::Boolean(b) => Ok((Expr::LitBool(b), ts.drop_first())),
            Token::Int(i) => Ok((Expr::LitInt(i), ts.drop_first())),
            Token::Ident(x) => Ok((Expr::Variable(x), ts.drop_first())),
            Token::LeftParen => arith_from(ts.drop_first()),
            _ => Err(CompileError::Syntax(SyntaxError::ExpectedExpression)),
        }
    }
}

/// The rest of `( op expr expr )` after its opening parenthesis.
pub open spec fn arith_from(ts: Seq<Token>) -> Result<(Expr, Seq<Token>), CompileError>
    decreases ts.len(), 0nat,
{
    if ts.len() == 0 {
        Err(out_of_tokens())
    } else if !is_operator(ts[0]) {
        Err(CompileError::Syntax(SyntaxError::ExpectedArithmetic))
    } else {
        match expr_from(ts.drop_first()) {
            Err(e) => Err(e),
            Ok((l, r1)) => if r1.len() < ts.len() {
                match expr_from(r1) {
                    Err(e) => Err(e),
                    Ok((r, r2)) => match expect_paren(r2, false) {
                        Err(e) => Err(e),
                        Ok(r3) => Ok((arith(ts[0], l, r), r3)),
                    },
                }
            } else {
                Err(CompileError::Internal)
            },
        }
    }
}

/// A statement read after its opening parenthesis, with its closing one, and the tokens
/// after it.
pub open spec fn stmt_from(ts: Seq<Token>) -> Result<(Statement, Seq<Token>), CompileError> {
    if ts.len() == 0 {
        Err(out_of_tokens())
    } else {
        let r0 = ts.drop_first();
        match ts[0] {
            Token::Assert => match expr_from(r0) {
                Err(e) => Err(e),
                Ok((e, r1)) => match expect_paren(r1, false) {
                    Err(err) => Err(err),
                    Ok(r2) => Ok((Statement::Assert { expr: e }, r2)),
                },
            },
            Token::AssertEq => match expr_from(r0) {
                Err(e) => Err(e),
                Ok((l, r1)) => match expr_from(r1) {
                    Err(e) => Err(e),
                    Ok((r, r2)) => match expect_paren(r2, false) {
                        Err(err) => Err(err),
                        Ok(r3) => Ok((Statement::AssertEq { left: l, right: r }, r3)),
                    },
                },
            },
            Token::Slash => if r0.len() == 0 {
                Err(out_of_tokens())
            } else {
                match r0[0] {
                    Token::String(text) => match expect_paren(r0.drop_first(), false) {
                        Err(err) => Err(err),
                        Ok(r1) => Ok((Statement::Command { text }, r1)),
                    },
                    _ => Err(CompileError::Syntax(SyntaxError::ExpectedCommandText)),
                }
            },
            Token::Let => match expect_paren(r0, true) {
                Err(err) => Err(err),
                Ok(r1) => if r1.len() == 0 {
                    Err(out_of_tokens())
                } else {
                    match r1[0] {
                        Token::Ident(variable_name) => match expr_from(r1.drop_first()) {
                            Err(e) => Err(e),
                            Ok((e, r2)) => match expect_paren(r2, false) {
                                Err(err) => Err(err),
                                Ok(r3) => match expect_paren(r3, false) {
                                    Err(err) => Err(err),
                                    Ok(r4) => Ok((Statement::Let { variable_name, expr: e }, r4)),
                                },
                            },
                        },
                        _ => Err(CompileError::Syntax(SyntaxError::ExpectedIdentifier)),
                    }
                },
            },
            _ => Err(CompileError::Syntax(SyntaxError::ExpectedStatement)),
        }
    }
}

/// The statements of a test up to its closing parenthesis, and the tokens after it.
pub open spec fn body_from(ts: Seq<Token>) -> Result<(Seq<Statement>, Seq<Token>), CompileError>
    decreases ts.len(),
{
    if ts.len() == 0 {
        Err(out_of_tokens())
    } else {
        match ts[0] {
            Token::LeftParen => match stmt_from(ts.drop_first()) {
                Err(e) => Err(e),
                Ok((s, r)) => if r.len() < ts.len() {
                    match body_from(r) {
                        Err(e) => Err(e),
                        Ok((ss, r2)) => Ok((seq![s] + ss, r2)),
                    }
                } else {
                    Err(CompileError::Internal)
                },
            },
            Token::RightParen => Ok((Seq::empty(), ts.drop_first())),
            _ => Err(CompileError::Syntax(SyntaxError::ExpectedStatement)),
        }
    }
}

/// A definition read after its opening parenthesis: `test "name" stmt... )`.
pub open spec fn def_from(ts: Seq<Token>) -> Result<(String, Seq<Statement>, Seq<Token>), CompileError> {
    if ts.len() == 0 {
        Err(out_of_tokens())
    } else if !(ts[0] is Test) {
        Err(CompileError::Syntax(SyntaxError::ExpectedDefinition))
    } else {
        let r0 = ts.drop_first();
        if r0.len() == 0 {
            Err(out_of_tokens())
        } else {
            match r0[0] {
                Token::String(name) => match body_from(r0.drop_first()) {
                    Err(e) => Err(e),
                    Ok((ss, r)) => Ok((name, ss, r)),
                },
                _ => Err(CompileError::Syntax(SyntaxError::ExpectedTestName)),
            }
        }
    }
}

/// The definitions of a whole token sequence, as names and statements.
pub open spec fn program_from(ts: Seq<Token>) -> Result<Seq<(String, Seq<Statement>)>, CompileError>
    decreases ts.len(),
{
    if ts.len() == 0 {
        Ok(Seq::empty())
    } else if !(ts[0] is LeftParen) {
        Err(CompileError::Syntax(SyntaxError::ExpectedDefinition))
    } else {
        match def_from(ts.drop_first()) {
            Err(e) => Err(e),
            Ok((name, ss, r)) => if r.len() < ts.len() {
                match program_from(r) {
                    Err(e) => Err(e),
                    Ok(ds) => Ok(seq![(name, ss)] + ds),
                }
            } else {
                Err(CompileError::Internal)
            },
        }
    }
}

/// The exec result `r` and the tokens `rest` left agree with the spec result `s` of
/// reading from `n` tokens.
pub open spec fn agrees<T>(s: Result<(T, Seq<Token>), CompileError>, r: Result<T, CompileError>, rest: Seq<Token>, n: nat) -> bool {
    match s {
        Ok((v, after)) => r == Ok::<T, CompileError>(v) && rest == after && after.len() < n,
        Err(e) => r == Err::<T, CompileError>(e),
    }
}

pub open spec fn def_parts(d: Definition) -> (String, Seq<Statement>) {
    match d {
        Definition::Test { name, stmts } => (name, stmts@),
    }
}

impl Tokens {
    spec fn rest(&self) -> Seq<Token> {
        reversed(self.inner@)
    }

    fn new(inner: Vec<Token>) -> (r: Self)
        ensures
            r.rest() == inner@,
    {
        let mut inner = inner;
        let ghost all = inner@;
        let mut rev: Vec<Token> = Vec::new();
        while inner.len() > 0
            invariant
                all == inner@ + reversed(rev@),
            decreases inner.len(),
        {
            let ghost before = inner@;
            let t = inner.pop().unwrap();
            rev.push(t);
            assert(reversed(rev@) =~= seq![t] + reversed(rev@.drop_last()));
            assert(before =~= inner@.push(t));
            assert(all =~= inner@ + reversed(rev@));
        }
        assert(all =~= reversed(rev@));
        Tokens { inner: rev }
    }

    fn is_empty(&self) -> (r: bool)
        ensures
            r == (self.rest().len() == 0),
    {
        self.inner.len() == 0
    }

    fn require(&mut self, token: Token) -> (r: Result<(), CompileError>)
        requires
            token is LeftParen || token is RightParen,
        ensures
            match expect_paren(old(self).rest(), token is LeftParen) {
                Ok(after) => r is Ok && final(self).rest() == after,
                Err(e) => r == Err::<(), CompileError>(e),
            },
            r is Err ==> r->Err_0 is Syntax,
    {
        let t = self.next()?;
        match (t, token) {
            (Token::LeftParen, Token::LeftParen) => Ok(()),
            (Token::RightParen, Token::RightParen) => Ok(()),
            (_, Token::LeftParen) => syntax(SyntaxError::ExpectedOpenParen),
            _ => syntax(SyntaxError::ExpectedCloseParen),
        }
    }

    fn next(&mut self) -> (r: Result<Token, CompileError>)
        ensures
            old(self).rest().len() == 0 ==> r == Err::<Token, CompileError>(out_of_tokens())
                && final(self).rest() == old(self).rest(),
            old(self).rest().len() > 0 ==> r == Ok::<Token, CompileError>(old(self).rest()[0])
                && final(self).rest() == old(self).rest().drop_first(),
            r is Err ==> r->Err_0 is Syntax,
    {
        let ghost before = self.inner@;
        match self.inner.pop() {
            Some(t) => {
                assert(reversed(self.inner@) =~= reversed(before).drop_first());
                Ok(t)
            },
            None => syntax(SyntaxError::OutOfTokens),
        }
    }
}

spec fn reversed(s: Seq<Token>) -> Seq<Token> {
    Seq::new(s.len(), |i: int| s[s.len() - 1 - i])
}

/// Parses a sequence of test definitions, each of the form `(test "name" stmt...)`.
pub fn parse(tokens: Vec<Token>) -> (r: Result<Vec<Definition>, CompileError>)
    ensures
        r is Ok <==> program_from(tokens@) is Ok,
        r is Err ==> r == Err::<Vec<Definition>, CompileError>(program_from(tokens@)->Err_0),
        r is Ok ==> r->Ok_0@.len() == program_from(tokens@)->Ok_0.len() && forall|i: int|
            0 <= i < r->Ok_0@.len() ==> def_parts(#[trigger] r->Ok_0@[i]) == program_from(tokens@)->Ok_0[i],
        r is Err ==> r->Err_0 is Syntax,
{
    let ghost all = tokens@;
    let mut ts = Tokens::new(tokens);
    let mut defs: Vec<Definition> = Vec::new();
    while !ts.is_empty()
        invariant
            all == tokens@,
            ts.rest().len() <= all.len(),
            program_from(all) == match program_from(ts.rest()) {
                Ok(ds) => Ok(defs@.map_values(|d: Definition| def_parts(d)) + ds),
                Err(e) => Err::<Seq<(String, Seq<Statement>)>, CompileError>(e),
            },
        decreases ts.rest().len(),
    {
        let token = ts.next()?;
        match token {
            Token::LeftParen => {
                let d = parse_definition(&mut ts)?;
                let ghost dv = def_parts(d);
                let ghost old_defs = defs@;
                defs.push(d);
                proof {
                    assert(defs@.map_values(|d: Definition| def_parts(d)) =~= old_defs.map_values(
                        |d: Definition| def_parts(d),
                    ).push(dv));
                    match program_from(ts.rest()) {
                        Ok(ds) => {
                            assert(old_defs.map_values(|d: Definition| def_parts(d)) + (seq![dv] + ds) =~= defs@.map_values(
                                |d: Definition| def_parts(d),
                            ) + ds);
                        },
                        Err(e) => {},
                    }
                }
            },
            _ => {
                return syntax(SyntaxError::ExpectedDefinition);
            },
        }
    }
    proof {
        assert(defs@.map_values(|d: Definition| def_parts(d)) + Seq::empty() =~= defs@.map_values(
            |d: Definition| def_parts(d),
        ));
    }
    Ok(defs)
}

fn parse_definition(tokens: &mut Tokens) -> (r: Result<Definition, CompileError>)
    ensures
        match def_from(old(tokens).rest()) {
            Ok((name, ss, after)) => r is Ok && def_parts(r->Ok_0) == (name, ss) && final(tokens).rest() == after
                && after.len() < old(tokens).rest().len(),
            Err(e) => r == Err::<Definition, CompileError>(e),
        },
        r is Err ==> r->Err_0 is Syntax,
{
    match tokens.next()? {
        Token::Test => parse_test(tokens),
        _ => syntax(SyntaxError::ExpectedDefinition),
    }
}

fn parse_test(tokens: &mut Tokens) -> (r: Result<Definition, CompileError>)
    ensures
        old(tokens).rest().len() == 0 ==> r == Err::<Definition, CompileError>(out_of_tokens()),
        old(tokens).rest().len() > 0 ==> match old(tokens).rest()[0] {
            Token::String(name) => match body_from(old(tokens).rest().drop_first()) {
                Ok((ss, after)) => r is Ok && def_parts(r->Ok_0) == (name, ss) && final(tokens).rest() == after
                    && after.len() < old(tokens).rest().len(),
                Err(e) => r == Err::<Definition, CompileError>(e),
            },
            _ => r == Err::<Definition, CompileError>(CompileError::Syntax(SyntaxError::ExpectedTestName)),
        },
        r is Err ==> r->Err_0 is Syntax,
{
    if let Token::String(name) = tokens.next()? {
        let ghost body0 = tokens.rest();
        let mut stmts: Vec<Statement> = Vec::new();
        loop
            invariant
                old(tokens).rest().len() > 0,
                old(tokens).rest()[0] == Token::String(name),
                body0 == old(tokens).rest().drop_first(),
                tokens.rest().len() <= body0.len(),
                body_from(body0) == match body_from(tokens.rest()) {
                    Ok((ss, after)) => Ok((stmts@ + ss, after)),
                    Err(e) => Err::<(Seq<Statement>, Seq<Token>), CompileError>(e),
                },
            decreases tokens.rest().len(),
        {
            match tokens.next()? {
                Token::LeftParen => {
                    let s = parse_stmt(tokens)?;
                    let ghost old_stmts = stmts@;
                    stmts.push(s);
                    proof {
                        match body_from(tokens.rest()) {
                            Ok((ss, after)) => {
                                assert(old_stmts + (seq![s] + ss) =~= stmts@ + ss);
                            },
                            Err(e) => {},
                        }
                    }
                },
                Token::RightParen => {
                    proof {
                        assert(stmts@ + Seq::<Statement>::empty() =~= stmts@);
                    }
                    return Ok(Definition::Test { name, stmts });
                },
                _ => {
                    return syntax(SyntaxError::ExpectedStatement);
                },
            }
        }
    } else {
        syntax(SyntaxError::ExpectedTestName)
    }
}

fn parse_stmt(tokens: &mut Tokens) -> (r: Result<Statement, CompileError>)
    ensures
        agrees(stmt_from(old(tokens).rest()), r, final(tokens).rest(), old(tokens).rest().len()),
        r is Err ==> r->Err_0 is Syntax,
{
    let ghost ts = tokens.rest();
    let stmt = match tokens.next()? {
        Token::Assert => Statement::Assert { expr: parse_expr(tokens)? },
        Token::AssertEq => {
            let left = parse_expr(tokens)?;
            let right = parse_expr(tokens)?;
            Statement::AssertEq { left, right }
        },
        Token::Slash => {
            if let Token::String(text) = tokens.next()? {
                Statement::Command { text }
            } else {
                return syntax(SyntaxError::ExpectedCommandText);
            }
        },
        Token::Let => {
            tokens.require(Token::LeftParen)?;
            if let Token::Ident(variable_name) = tokens.next()? {
                let expr = parse_expr(tokens)?;
                tokens.require(Token::RightParen)?;
                Statement::Let { variable_name, expr }
            } else {
                return syntax(SyntaxError::ExpectedIdentifier);
            }
        },
        _ => {
            return syntax(SyntaxError::ExpectedStatement);
        },
    };
    tokens.require(Token::RightParen)?;
    Ok(stmt)
}

fn parse_expr(tokens: &mut Tokens) -> (r: Result<Expr, CompileError>)
    ensures
        agrees(expr_from(old(tokens).rest()), r, final(tokens).rest(), old(tokens).rest().len()),
        r is Err ==> r->Err_0 is Syntax,
    decreases old(tokens).rest().len(), 1nat,
{
    match tokens.next()? {
        Token::Boolean(b) => Ok(Expr::LitBool(b)),
        Token::Int(i) => Ok(Expr::LitInt(i)),
        Token::Ident(x) => Ok(Expr::Variable(x)),
        Token::LeftParen => parse_arithmetic(tokens),
        _ => syntax(SyntaxError::ExpectedExpression),
    }
}

fn parse_arithmetic(tokens: &mut Tokens) -> (r: Result<Expr, CompileError>)
    ensures
        agrees(arith_from(old(tokens).rest()), r, final(tokens).rest(), old(tokens).rest().len()),
        r is Err ==> r->Err_0 is Syntax,
    decreases old(tokens).rest().len(), 0nat,
{
    let head = tokens.next()?;
    let expr = match head {
        Token::Plus => {
            let left = parse_expr(tokens)?;
            let right = parse_expr(tokens)?;
            Expr::Plus { left: Box::new(left), right: Box::new(right) }
        },
        Token::Dash => {
            let left = parse_expr(tokens)?;
            let right = parse_expr(tokens)?;
            Expr::Minus { left: Box::new(left), right: Box::new(right) }
        },
        Token::Star => {
            let left = parse_expr(tokens)?;
            let right = parse_expr(tokens)?;
            Expr::Times { left: Box::new(left), right: Box::new(right) }
        },
        Token::Slash => {
            let left = parse_expr(tokens)?;
            let right = parse_expr(tokens)?;
            Expr::Divide { left: Box::new(left), right: Box::new(right) }
        },
        _ => {
            return syntax(SyntaxError::ExpectedArithmetic);
        },
    };
    tokens.require(Token::RightParen)?;
    Ok(expr)
}

} // verus!
