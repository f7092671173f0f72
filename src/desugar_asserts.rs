//! Rewrites assertions into conditionals that report a TAP line.
use vstd::prelude::*;
use crate::seqs::into_reversed;
use crate::uniquify as prev;
use crate::var::{Var, VarFactory};

verus! {

pub struct Program {
    pub defs: Vec<Definition>,
    pub var_factory: VarFactory,
}

#[derive(Debug, PartialEq, Eq)]
pub enum Definition {
    Test { name: String, stmts: Vec<Statement> },
}

#[derive(Debug, PartialEq, Eq)]
pub enum Statement {
    Expr(Expr),
    Command { text: String },
    Let { var: Var, expr: Expr },
    TellOk { test_name: String },
    TellNotOk { test_name: String },
}

#[derive(Debug, PartialEq, Eq)]
pub enum Expr {
    LitUnit,
    LitBool(bool),
    LitInt(i64),
    Variable(Var),
    Plus { left: Box<Expr>, right: Box<Expr> },
    Minus { left: Box<Expr>, right: Box<Expr> },
    Times { left: Box<Expr>, right: Box<Expr> },
    Divide { left: Box<Expr>, right: Box<Expr> },
    If { cond: Box<Expr>, thn: Box<Expr>, els: Box<Expr> },
    Eq { left: Box<Expr>, right: Box<Expr> },
    Bundle { stmts: Vec<Statement>, expr: Box<Expr> },
}

/// An expression of the source with nothing to desugar, in the richer syntax.
pub open spec fn desugared_expr(e: prev::Expr) -> Expr
    decreases e,
{
    match e {
        prev::Expr::LitBool(b) => Expr::LitBool(b),
        prev::Expr::LitInt(i) => Expr::LitInt(i),
        prev::Expr::Variable(v) => Expr::Variable(v),
        prev::Expr::Plus { left, right } => Expr::Plus {
            left: Box::new(desugared_expr(*left)),
            right: Box::new(desugared_expr(*right)),
        },
        prev::Expr::Minus { left, right } => Expr::Minus {
            left: Box::new(desugared_expr(*left)),
            right: Box::new(desugared_expr(*right)),
        },
        prev::Expr::Times { left, right } => Expr::Times {
            left: Box::new(desugared_expr(*left)),
            right: Box::new(desugared_expr(*right)),
        },
        prev::Expr::Divide { left, right } => Expr::Divide {
            left: Box::new(desugared_expr(*left)),
            right: Box::new(desugared_expr(*right)),
        },
        prev::Expr::If { cond, thn, els } => Expr::If {
            cond: Box::new(desugared_expr(*cond)),
            thn: Box::new(desugared_expr(*thn)),
            els: Box::new(desugared_expr(*els)),
        },
        prev::Expr::Eq { left, right } => Expr::Eq {
            left: Box::new(desugared_expr(*left)),
            right: Box::new(desugared_expr(*right)),
        },
    }
}

/// `e` is a conditional on `cond` whose `then` side runs the desugared statements
/// after the first of `input` and whose `else` side reports failure of test `name`.
pub open spec fn guards(name: String, cond: Expr, e: Expr, input: Seq<prev::Statement>) -> bool
    decreases input.len(), 0nat,
{
    input.len() > 0 && match e {
        Expr::If { cond: c, thn, els } => {
            &&& *c == cond
            &&& match *thn {
                Expr::Bundle { stmts, expr } => *expr == Expr::LitUnit && desugars_to(
                    name,
                    input.drop_first(),
                    stmts@,
                ),
                _ => false,
            }
            &&& match *els {
                Expr::Bundle { stmts, expr } => *expr == Expr::LitUnit && stmts@ == seq![
                    Statement::TellNotOk { test_name: name },
                ],
                _ => false,
            }
        },
        _ => false,
    }
}

/// `output` is what the statements `input` of test `name` desugar to: each assertion
/// becomes an `if` whose `then` side holds everything after it and whose `else` side
/// reports `not ok`; the end of the test reports `ok`.
pub open spec fn desugars_to(name: String, input: Seq<prev::Statement>, output: Seq<Statement>) -> bool
    decreases input.len(), 1nat,
{
    if input.len() == 0 {
        output == seq![Statement::TellOk { test_name: name }]
    } else {
        let rest = input.drop_first();
        match input[0] {
            prev::Statement::Assert { expr } => output.len() == 1 && match output[0] {
                Statement::Expr(e) => guards(name, desugared_expr(expr), e, input),
                _ => false,
            },
            prev::Statement::AssertEq { left, right } => output.len() == 1 && match output[0] {
                Statement::Expr(e) => guards(
                    name,
                    Expr::Eq {
                        left: Box::new(desugared_expr(left)),
                        right: Box::new(desugared_expr(right)),
                    },
                    e,
                    input,
                ),
                _ => false,
            },
            prev::Statement::Command { text } => output.len() >= 1 && output[0]
                == Statement::Command { text } && desugars_to(name, rest, output.drop_first()),
            prev::Statement::Let { var, expr } => output.len() >= 1 && output[0] == Statement::Let {
                var,
                expr: desugared_expr(expr),
            } && desugars_to(name, rest, output.drop_first()),
        }
    }
}

pub open spec fn def_parts(d: Definition) -> (String, Seq<Statement>) {
    match d {
        Definition::Test { name, stmts } => (name, stmts@),
    }
}

pub open spec fn prev_def_parts(d: prev::Definition) -> (String, Seq<prev::Statement>) {
    match d {
        prev::Definition::Test { name, stmts } => (name, stmts@),
    }
}

/// Replaces each test's assertions by conditionals that report `ok` or `not ok`.
pub fn desugar_asserts(program: prev::Program) -> (r: Program)
    ensures
        r.defs@.len() == program.defs@.len(),
        forall|i: int|
            0 <= i < r.defs@.len() ==> {
                let (name, stmts) = def_parts(#[trigger] r.defs@[i]);
                let (pname, pstmts) = prev_def_parts(program.defs@[i]);
                name == pname && desugars_to(name, pstmts, stmts)
            },
        r.var_factory == program.var_factory,
{
    let prev::Program { defs, var_factory } = program;
    let ghost input = defs@;
    let mut rest = into_reversed(defs);
    let mut out: Vec<Definition> = Vec::new();
    while rest.len() > 0
        invariant
            out@.len() + rest@.len() == input.len(),
            forall|k: int| 0 <= k < rest@.len() ==> #[trigger] rest@[k] == input[input.len() - 1 - k],
            forall|i: int|
                0 <= i < out@.len() ==> {
                    let (name, stmts) = def_parts(#[trigger] out@[i]);
                    let (pname, pstmts) = prev_def_parts(input[i]);
                    name == pname && desugars_to(name, pstmts, stmts)
                },
        decreases rest.len(),
    {
        let ghost k = out@.len();
        let d = rest.pop().unwrap();
        assert(d == input[k as int]);
        out.push(desugar_asserts_def(d));
    }
    Program { defs: out, var_factory }
}

fn desugar_asserts_def(def: prev::Definition) -> (r: Definition)
    ensures
        def_parts(r).0 == prev_def_parts(def).0,
        desugars_to(def_parts(r).0, prev_def_parts(def).1, def_parts(r).1),
{
    match def {
        prev::Definition::Test { name, stmts } => {
            let ghost input = stmts@;
            let mut new_stmts: Vec<Statement> = Vec::new();
            new_stmts.push(Statement::TellOk { test_name: name.clone() });
            let mut stmts = stmts;
            assert(new_stmts@ =~= seq![Statement::TellOk { test_name: name }]);
            assert(input.subrange(input.len() as int, input.len() as int) =~= Seq::<
                prev::Statement,
            >::empty());
            assert(input.take(input.len() as int) =~= input);
            while stmts.len() > 0
                invariant
                    stmts@ == input.take(stmts@.len() as int),
                    stmts@.len() <= input.len(),
                    desugars_to(name, input.subrange(stmts@.len() as int, input.len() as int), new_stmts@),
                decreases stmts.len(),
            {
                let ghost m = stmts@.len();
                let stmt = stmts.pop().unwrap();
                let ghost tail = input.subrange(m as int, input.len() as int);
                let ghost whole = input.subrange(m - 1, input.len() as int);
                assert(whole.drop_first() =~= tail);
                assert(whole[0] == stmt);
                assert(stmts@ =~= input.take(stmts@.len() as int));
                new_stmts = desugar_asserts_stmts(&name, stmt, new_stmts, Ghost(tail));
                assert(whole =~= seq![stmt] + tail);
            }
            assert(input.subrange(0, input.len() as int) =~= input);
            Definition::Test { name, stmts: new_stmts }
        },
    }
}

fn desugar_asserts_stmts(
    test_name: &String,
    stmt: prev::Statement,
    continuation: Vec<Statement>,
    Ghost(rest): Ghost<Seq<prev::Statement>>,
) -> (r: Vec<Statement>)
    requires
        desugars_to(*test_name, rest, continuation@),
    ensures
        desugars_to(*test_name, seq![stmt] + rest, r@),
{
    let ghost input = seq![stmt] + rest;
    assert(input.drop_first() =~= rest);
    assert(input[0] == stmt);
    let ghost c = continuation@;
    let mut stmts: Vec<Statement> = Vec::new();
    match stmt {
        prev::Statement::Assert { expr } => {
            let cond = desugar_asserts_expr(expr);
            let e = guarded(test_name, cond, continuation);
            assert(guards(*test_name, desugared_expr(expr), e, input));
            stmts.push(Statement::Expr(e));
            assert(stmts@[0] == Statement::Expr(e));
            assert(desugars_to(*test_name, input, stmts@));
        },
        prev::Statement::AssertEq { left, right } => {
            let ghost cond = Expr::Eq {
                left: Box::new(desugared_expr(left)),
                right: Box::new(desugared_expr(right)),
            };
            let left = desugar_asserts_expr(left);
            let right = desugar_asserts_expr(right);
            let e = guarded(
                test_name,
                Expr::Eq { left: Box::new(left), right: Box::new(right) },
                continuation,
            );
            assert(guards(*test_name, cond, e, input));
            stmts.push(Statement::Expr(e));
            assert(stmts@[0] == Statement::Expr(e));
            assert(desugars_to(*test_name, input, stmts@));
        },
        prev::Statement::Command { text } => {
            stmts.push(Statement::Command { text });
            let mut continuation = continuation;
            stmts.append(&mut continuation);
            assert(stmts@.drop_first() =~= c);
            assert(desugars_to(*test_name, input, stmts@));
        },
        prev::Statement::Let { var, expr } => {
            stmts.push(Statement::Let { var, expr: desugar_asserts_expr(expr) });
            let mut continuation = continuation;
            stmts.append(&mut continuation);
            assert(stmts@.drop_first() =~= c);
            assert(desugars_to(*test_name, input, stmts@));
        },
    }
    stmts
}

/// `if cond { continuation; () } else { not ok; () }`.
fn guarded(test_name: &String, cond: Expr, continuation: Vec<Statement>) -> (r: Expr)
    ensures
        r == (Expr::If {
            cond: Box::new(cond),
            thn: Box::new(Expr::Bundle { stmts: continuation, expr: Box::new(Expr::LitUnit) }),
            els: Box::new(Expr::Bundle { stmts: r->If_els->Bundle_stmts, expr: Box::new(Expr::LitUnit) }),
        }),
        r->If_els->Bundle_stmts@ == seq![Statement::TellNotOk { test_name: *test_name }],
{
    Expr::If {
        cond: Box::new(cond),
        thn: Box::new(Expr::Bundle { stmts: continuation, expr: Box::new(Expr::LitUnit) }),
        els: Box::new(Expr::Bundle { stmts: not_ok(test_name), expr: Box::new(Expr::LitUnit) }),
    }
}

fn not_ok(test_name: &String) -> (r: Vec<Statement>)
    ensures
        r@ == seq![Statement::TellNotOk { test_name: *test_name }],
{
    let mut v: Vec<Statement> = Vec::new();
    v.push(Statement::TellNotOk { test_name: test_name.clone() });
    assert(v@ =~= seq![Statement::TellNotOk { test_name: *test_name }]);
    v
}

fn desugar_asserts_expr(expr: prev::Expr) -> (r: Expr)
    ensures
        r == desugared_expr(expr),
    decreases expr,
{
    match expr {
        prev::Expr::LitBool(b) => Expr::LitBool(b),
        prev::Expr::LitInt(i) => Expr::LitInt(i),
        prev::Expr::Variable(var) => Expr::Variable(var),
        prev::Expr::Plus { left, right } => Expr::Plus {
            left: Box::new(desugar_asserts_expr(*left)),
            right: Box::new(desugar_asserts_expr(*right)),
        },
        prev::Expr::Minus { left, right } => Expr::Minus {
            left: Box::new(desugar_asserts_expr(*left)),
            right: Box::new(desugar_asserts_expr(*right)),
        },
        prev::Expr::Times { left, right } => Expr::Times {
            left: Box::new(desugar_asserts_expr(*left)),
            right: Box::new(desugar_asserts_expr(*right)),
        },
        prev::Expr::Divide { left, right } => Expr::Divide {
            left: Box::new(desugar_asserts_expr(*left)),
            right: Box::new(desugar_asserts_expr(*right)),
        },
        prev::Expr::If { cond, thn, els } => Expr::If {
            cond: Box::new(desugar_asserts_expr(*cond)),
            thn: Box::new(desugar_asserts_expr(*thn)),
            els: Box::new(desugar_asserts_expr(*els)),
        },
        prev::Expr::Eq { left, right } => Expr::Eq {
            left: Box::new(desugar_asserts_expr(*left)),
            right: Box::new(desugar_asserts_expr(*right)),
        },
    }
}

} // verus!
