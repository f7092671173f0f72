//! Gives every `let` a fresh variable and resolves each use to its binding.
use vstd::prelude::*;
use crate::error::CompileError;
use crate::parse as prev;
use crate::seqs::into_reversed;
use crate::var::{Var, VarFactory};

verus! {

pub struct Program {
    pub defs: Vec<Definition>,
    pub var_factory: VarFactory,
}

#[derive(Debug, PartialEq, Eq)]
pub enum Definition {
    Test { name: String, stmts: Vec<Statement> },
}

#[derive(Debug, PartialEq, Eq)]
pub enum Statement {
    Assert { expr: Expr },
    AssertEq { left: Expr, right: Expr },
    Command { text: String },
    Let { var: Var, expr: Expr },
}

#[derive(Debug, PartialEq, Eq)]
pub enum Expr {
    LitBool(bool),
    LitInt(i64),
    Variable(Var),
    Plus { left: Box<Expr>, right: Box<Expr> },
    Minus { left: Box<Expr>, right: Box<Expr> },
    Times { left: Box<Expr>, right: Box<Expr> },
    Divide { left: Box<Expr>, right: Box<Expr> },
    If { cond: Box<Expr>, thn: Box<Expr>, els: Box<Expr> },
    Eq { left: Box<Expr>, right: Box<Expr> },
}

/// The ids of the variables that an expression uses.
pub open spec fn expr_ids(e: Expr) -> Set<u32>
    decreases e,
{
    match e {
        Expr::LitBool(_) => Set::empty(),
        Expr::LitInt(_) => Set::empty(),
        Expr::Variable(v) => set![v.id],
        Expr::Plus { left, right } => expr_ids(*left) + expr_ids(*right),
        Expr::Minus { left, right } => expr_ids(*left) + expr_ids(*right),
        Expr::Times { left, right } => expr_ids(*left) + expr_ids(*right),
        Expr::Divide { left, right } => expr_ids(*left) + expr_ids(*right),
        Expr::If { cond, thn, els } => expr_ids(*cond) + expr_ids(*thn) + expr_ids(*els),
        Expr::Eq { left, right } => expr_ids(*left) + expr_ids(*right),
    }
}

/// The ids of the variables that a statement uses.
pub open spec fn stmt_ids(s: Statement) -> Set<u32> {
    match s {
        Statement::Assert { expr } => expr_ids(expr),
        Statement::AssertEq { left, right } => expr_ids(left) + expr_ids(right),
        Statement::Command { .. } => Set::empty(),
        Statement::Let { expr, .. } => expr_ids(expr),
    }
}

/// The ids that the `let`s of a statement sequence bind, in order.
pub open spec fn let_ids(stmts: Seq<Statement>) -> Seq<u32>
    decreases stmts.len(),
{
    if stmts.len() == 0 {
        Seq::empty()
    } else {
        let_ids(stmts.drop_last()) + match stmts.last() {
            Statement::Let { var, .. } => seq![var.id],
            _ => Seq::empty(),
        }
    }
}

/// Every statement uses only variables that an earlier `let` of the sequence binds.
pub open spec fn well_scoped(stmts: Seq<Statement>) -> bool {
    forall|k: int|
        0 <= k < stmts.len() ==> stmt_ids(#[trigger] stmts[k]).subset_of(
            let_ids(stmts.take(k)).to_set(),
        )
}

/// `ids` counts up by one from `start`.
pub open spec fn numbered_from(ids: Seq<u32>, start: nat) -> bool {
    forall|j: int| 0 <= j < ids.len() ==> #[trigger] ids[j] == start + j
}

pub open spec fn def_stmts(d: Definition) -> Seq<Statement> {
    match d {
        Definition::Test { stmts, .. } => stmts@,
    }
}

/// The ids bound by the `let`s of all definitions, test after test.
pub open spec fn program_let_ids(defs: Seq<Definition>) -> Seq<u32>
    decreases defs.len(),
{
    if defs.len() == 0 {
        Seq::empty()
    } else {
        program_let_ids(defs.drop_last()) + let_ids(def_stmts(defs.last()))
    }
}

/// Ids that count up from a start are pairwise distinct: no two `let`s share a variable.
pub proof fn lemma_numbered_distinct(ids: Seq<u32>, start: nat)
    requires
        numbered_from(ids, start),
    ensures
        forall|i: int, j: int| 0 <= i < j < ids.len() ==> ids[i] != ids[j],
{
    assert forall|i: int, j: int| 0 <= i < j < ids.len() implies ids[i] != ids[j] by {
        assert(ids[i] == start + i);
        assert(ids[j] == start + j);
    }
}

/// After uniquification, the `let`s of the whole program bind pairwise distinct
/// variables, and each test uses only variables bound by an earlier `let` of its own.
pub proof fn lemma_unique_bindings(p: Program)
    requires
        uniquified(p.defs@),
    ensures
        forall|i: int, j: int|
            0 <= i < j < program_let_ids(p.defs@).len() ==> program_let_ids(p.defs@)[i]
                != program_let_ids(p.defs@)[j],
        forall|d: int| 0 <= d < p.defs@.len() ==> well_scoped(def_stmts(#[trigger] p.defs@[d])),
{
    lemma_numbered_distinct(program_let_ids(p.defs@), 0);
}

/// What uniquification establishes of a program.
pub open spec fn uniquified(defs: Seq<Definition>) -> bool {
    &&& numbered_from(program_let_ids(defs), 0)
    &&& forall|d: int| 0 <= d < defs.len() ==> well_scoped(def_stmts(#[trigger] defs[d]))
}

/// Gives each `let` of each test a fresh variable, numbered in program order from 0.
pub fn uniquify(defs: Vec<prev::Definition>) -> (r: Result<Program, CompileError>)
    ensures
        r is Ok ==> uniquified(r->Ok_0.defs@),
        r is Ok ==> r->Ok_0.var_factory.next_id() == program_let_ids(r->Ok_0.defs@).len(),
        r is Ok ==> r->Ok_0.defs@.len() == defs@.len(),
        r is Err ==> r->Err_0 is UnboundVariable || r->Err_0 == CompileError::TooManyVariables,
        r is Err && r->Err_0 is UnboundVariable ==> !well_bound(defs@),
        r is Ok ==> forall|d: int|
            0 <= d < defs@.len() ==> uniquified_from(#[trigger] defs@[d], r->Ok_0.defs@[d]),
        r is Ok ==> well_bound(defs@),
        r is Err && r->Err_0 is UnboundVariable ==> unbound_somewhere(defs@, r->Err_0->UnboundVariable_0@),
        well_bound(defs@) && total_lets(defs@) <= u32::MAX ==> r is Ok,
{
    let mut new_defs: Vec<Definition> = Vec::new();
    let mut var_factory = VarFactory::new();
    let ghost input = defs@;
    let mut rest = into_reversed(defs);
    let ghost n = rest@.len();
    while rest.len() > 0
        invariant
            input == defs@,
            n == input.len(),
            forall|j: int| 0 <= j < rest@.len() ==> #[trigger] rest@[j] == input[input.len() - 1 - j],
            new_defs@.len() + rest@.len() == n,
            forall|i: int| 0 <= i < new_defs@.len() ==> uniquified_from(input[i], #[trigger] new_defs@[i]),
            forall|i: int| 0 <= i < new_defs@.len() ==> test_bound(source_stmts(#[trigger] input[i])),
            var_factory.next_id() == total_lets(input.take(new_defs@.len() as int)),
            uniquified(new_defs@),
            var_factory.next_id() == program_let_ids(new_defs@).len(),
        decreases rest.len(),
    {
        let ghost d = n - rest@.len();
        let def = rest.pop().unwrap();
        assert(def == input[d]);
        let prev::Definition::Test { name, stmts } = def;
        proof {
            assert(well_bound(input) ==> test_bound(source_stmts(input[d])));
            assert forall|nm: Seq<char>| unbound_in(source_stmts(input[d]), nm) implies #[trigger] unbound_somewhere(
                input,
                nm,
            ) by {}
            assert(input.take(d + 1).drop_last() =~= input.take(d));
            lemma_total_lets_prefix(input, d + 1);
        }
        let ghost before = new_defs@;
        let d = uniquify_test(&mut var_factory, name, stmts)?;
        new_defs.push(d);
        proof {
            assert forall|i: int| 0 <= i < new_defs@.len() implies uniquified_from(input[i], #[trigger] new_defs@[i]) by {
                if i < before.len() {
                    assert(new_defs@[i] == before[i]);
                }
            }
            assert(new_defs@.drop_last() =~= before);
            let ids = program_let_ids(new_defs@);
            let mine = let_ids(def_stmts(d));
            assert(ids =~= program_let_ids(before) + mine);
            assert forall|j: int| 0 <= j < ids.len() implies #[trigger] ids[j] == j by {
                if j >= program_let_ids(before).len() {
                    assert(ids[j] == mine[j - program_let_ids(before).len()]);
                }
            }
            assert forall|k: int| 0 <= k < new_defs@.len() implies well_scoped(
                def_stmts(#[trigger] new_defs@[k]),
            ) by {
                if k < before.len() {
                    assert(new_defs@[k] == before[k]);
                }
            }
        }
    }
    Ok(Program { defs: new_defs, var_factory })
}

/// The names that a source expression uses.
pub open spec fn expr_names(e: prev::Expr) -> Set<Seq<char>>
    decreases e,
{
    match e {
        prev::Expr::LitBool(_) => Set::empty(),
        prev::Expr::LitInt(_) => Set::empty(),
        prev::Expr::Variable(n) => set![n@],
        prev::Expr::Plus { left, right } => expr_names(*left) + expr_names(*right),
        prev::Expr::Minus { left, right } => expr_names(*left) + expr_names(*right),
        prev::Expr::Times { left, right } => expr_names(*left) + expr_names(*right),
        prev::Expr::Divide { left, right } => expr_names(*left) + expr_names(*right),
    }
}

/// The names that a source statement uses.
pub open spec fn stmt_names(s: prev::Statement) -> Set<Seq<char>> {
    match s {
        prev::Statement::Assert { expr } => expr_names(expr),
        prev::Statement::AssertEq { left, right } => expr_names(left) + expr_names(right),
        prev::Statement::Command { .. } => Set::empty(),
        prev::Statement::Let { expr, .. } => expr_names(expr),
    }
}

/// The names that the `let`s of a sequence of source statements bind.
pub open spec fn let_names(stmts: Seq<prev::Statement>) -> Set<Seq<char>> {
    Set::new(
        |n: Seq<char>|
            exists|i: int|
                0 <= i < stmts.len() && #[trigger] stmts[i] is Let && stmts[i]->Let_variable_name@ == n,
    )
}

/// Every statement of a test uses only names that an earlier `let` of the test binds.
pub open spec fn test_bound(stmts: Seq<prev::Statement>) -> bool {
    forall|k: int| 0 <= k < stmts.len() ==> stmt_names(#[trigger] stmts[k]).subset_of(let_names(stmts.take(k)))
}

pub open spec fn source_stmts(d: prev::Definition) -> Seq<prev::Statement> {
    match d {
        prev::Definition::Test { stmts, .. } => stmts@,
    }
}

/// `out` is the definition `d` with the same name and its uses resolved.
pub open spec fn uniquified_from(d: prev::Definition, out: Definition) -> bool {
    match (d, out) {
        (prev::Definition::Test { name, stmts }, Definition::Test { name: n2, stmts: s2 }) => name == n2 && resolves(
            stmts@,
            s2@,
        ),
    }
}

/// How many `let`s the statements hold.
pub open spec fn lets_count(stmts: Seq<prev::Statement>) -> nat
    decreases stmts.len(),
{
    if stmts.len() == 0 {
        0
    } else {
        lets_count(stmts.drop_last()) + if stmts.last() is Let { 1nat } else { 0nat }
    }
}

/// How many `let`s the definitions hold.
pub open spec fn total_lets(defs: Seq<prev::Definition>) -> nat
    decreases defs.len(),
{
    if defs.len() == 0 {
        0
    } else {
        total_lets(defs.drop_last()) + lets_count(source_stmts(defs.last()))
    }
}

proof fn lemma_lets_prefix(s: Seq<prev::Statement>, k: int)
    requires
        0 <= k <= s.len(),
    ensures
        lets_count(s.take(k)) <= lets_count(s),
    decreases s.len() - k,
{
    if k < s.len() {
        lemma_lets_prefix(s, k + 1);
        assert(s.take(k + 1).drop_last() =~= s.take(k));
    } else {
        assert(s.take(k) =~= s);
    }
}

proof fn lemma_total_lets_prefix(s: Seq<prev::Definition>, k: int)
    requires
        0 <= k <= s.len(),
    ensures
        total_lets(s.take(k)) <= total_lets(s),
    decreases s.len() - k,
{
    if k < s.len() {
        lemma_total_lets_prefix(s, k + 1);
        assert(s.take(k + 1).drop_last() =~= s.take(k));
    } else {
        assert(s.take(k) =~= s);
    }
}

/// Some statement of the test uses the name `n` before any `let` of it.
pub open spec fn unbound_in(stmts: Seq<prev::Statement>, n: Seq<char>) -> bool {
    exists|k: int|
        0 <= k < stmts.len() && #[trigger] stmt_names(stmts[k]).contains(n) && !let_names(stmts.take(k)).contains(n)
}

/// Some test uses the name `n` before any `let` of it.
pub open spec fn unbound_somewhere(defs: Seq<prev::Definition>, n: Seq<char>) -> bool {
    exists|d: int| 0 <= d < defs.len() && unbound_in(source_stmts(#[trigger] defs[d]), n)
}

/// Every test uses only names bound earlier in it.
pub open spec fn well_bound(defs: Seq<prev::Definition>) -> bool {
    forall|d: int| 0 <= d < defs.len() ==> test_bound(source_stmts(#[trigger] defs[d]))
}

/// The names that an environment binds.
spec fn env_names(env: Seq<(String, Var)>) -> Set<Seq<char>> {
    Set::new(|n: Seq<char>| exists|i: int| 0 <= i < env.len() && env[i].0@ == n)
}

/// The variable of the latest binding of the name `n` in `env`.
pub open spec fn latest(env: Seq<(String, Var)>, n: Seq<char>) -> Option<Var>
    decreases env.len(),
{
    if env.len() == 0 {
        None
    } else if env.last().0@ == n {
        Some(env.last().1)
    } else {
        latest(env.drop_last(), n)
    }
}

/// `e` with each name replaced by the variable of its latest binding in `env`; `None`
/// where some name is unbound.
pub open spec fn renamed(e: prev::Expr, env: Seq<(String, Var)>) -> Option<Expr>
    decreases e,
{
    match e {
        prev::Expr::LitBool(b) => Some(Expr::LitBool(b)),
        prev::Expr::LitInt(i) => Some(Expr::LitInt(i)),
        prev::Expr::Variable(n) => match latest(env, n@) {
            Some(v) => Some(Expr::Variable(v)),
            None => None,
        },
        prev::Expr::Plus { left, right } => match (renamed(*left, env), renamed(*right, env)) {
            (Some(l), Some(r)) => Some(Expr::Plus { left: Box::new(l), right: Box::new(r) }),
            _ => None,
        },
        prev::Expr::Minus { left, right } => match (renamed(*left, env), renamed(*right, env)) {
            (Some(l), Some(r)) => Some(Expr::Minus { left: Box::new(l), right: Box::new(r) }),
            _ => None,
        },
        prev::Expr::Times { left, right } => match (renamed(*left, env), renamed(*right, env)) {
            (Some(l), Some(r)) => Some(Expr::Times { left: Box::new(l), right: Box::new(r) }),
            _ => None,
        },
        prev::Expr::Divide { left, right } => match (renamed(*left, env), renamed(*right, env)) {
            (Some(l), Some(r)) => Some(Expr::Divide { left: Box::new(l), right: Box::new(r) }),
            _ => None,
        },
    }
}

/// The bindings that the `let`s of `ins`, uniquified to `outs`, make, in order.
pub open spec fn bindings(ins: Seq<prev::Statement>, outs: Seq<Statement>) -> Seq<(String, Var)>
    decreases ins.len(),
{
    if ins.len() == 0 || outs.len() == 0 {
        Seq::empty()
    } else {
        bindings(ins.drop_last(), outs.drop_last()) + match (ins.last(), outs.last()) {
            (prev::Statement::Let { variable_name, .. }, Statement::Let { var, .. }) => seq![(variable_name, var)],
            _ => Seq::empty(),
        }
    }
}

/// `out` is the statement `s` with its names resolved in `env`; a `let` keeps its
/// expression and gets a variable named after it.
pub open spec fn corresponds(s: prev::Statement, out: Statement, env: Seq<(String, Var)>) -> bool {
    match (s, out) {
        (prev::Statement::Assert { expr }, Statement::Assert { expr: e }) => renamed(expr, env) == Some(e),
        (prev::Statement::AssertEq { left, right }, Statement::AssertEq { left: l, right: r }) => renamed(left, env)
            == Some(l) && renamed(right, env) == Some(r),
        (prev::Statement::Command { text }, Statement::Command { text: t }) => t == text,
        (prev::Statement::Let { variable_name, expr }, Statement::Let { var, expr: e }) => renamed(expr, env) == Some(e)
            && var.name == Some(variable_name),
        _ => false,
    }
}

/// Each output statement is its input statement with every use resolved to the latest
/// `let` of its name before it in the test.
pub open spec fn resolves(ins: Seq<prev::Statement>, outs: Seq<Statement>) -> bool {
    &&& outs.len() == ins.len()
    &&& forall|k: int|
        0 <= k < ins.len() ==> corresponds(#[trigger] ins[k], outs[k], bindings(ins.take(k), outs.take(k)))
}

/// An environment: names bound so far, the latest binding last.
type Env = Vec<(String, Var)>;

/// The ids of the variables that an environment binds.
spec fn env_ids(env: Seq<(String, Var)>) -> Set<u32> {
    Set::new(|x: u32| exists|i: int| 0 <= i < env.len() && env[i].1.id == x)
}

fn lookup(env: &Env, name: &String) -> (r: Option<Var>)
    ensures
        r is Some ==> exists|i: int| 0 <= i < env@.len() && env@[i].1 == r->0,
        r is None ==> !env_names(env@).contains(name@),
        r is Some ==> env_names(env@).contains(name@),
        r == latest(env@, name@),
{
    let mut i: usize = env.len();
    assert(env@.take(env@.len() as int) =~= env@);
    while i > 0
        invariant
            i <= env@.len(),
            latest(env@, name@) == latest(env@.take(i as int), name@),
            forall|j: int| i <= j < env@.len() ==> env@[j].0@ != name@,
        decreases i,
    {
        assert(env@.take(i as int).drop_last() =~= env@.take(i - 1));
        i = i - 1;
        if env[i].0 == *name {
            assert(env@[i as int].0@ == name@);
            return Some(env[i].1.dup());
        }
    }
    None
}

fn uniquify_test(var_factory: &mut VarFactory, name: String, stmts: Vec<prev::Statement>) -> (r:
    Result<Definition, CompileError>)
    ensures
        r is Ok ==> well_scoped(def_stmts(r->Ok_0)),
        r is Ok ==> numbered_from(let_ids(def_stmts(r->Ok_0)), old(var_factory).next_id()),
        r is Ok ==> final(var_factory).next_id() == old(var_factory).next_id() + let_ids(
            def_stmts(r->Ok_0),
        ).len(),
        r is Err ==> r->Err_0 is UnboundVariable || r->Err_0 == CompileError::TooManyVariables,
        r is Err && r->Err_0 is UnboundVariable ==> !test_bound(stmts@),
        r is Ok ==> resolves(stmts@, def_stmts(r->Ok_0)),
        r is Ok ==> test_bound(stmts@),
        r is Ok ==> r->Ok_0->Test_name == name,
        r is Err && r->Err_0 is UnboundVariable ==> unbound_in(stmts@, r->Err_0->UnboundVariable_0@),
        test_bound(stmts@) && old(var_factory).next_id() + lets_count(stmts@) <= u32::MAX ==> r is Ok,
        r is Ok ==> let_ids(def_stmts(r->Ok_0)).len() == lets_count(stmts@),
{
    let mut env: Env = Vec::new();
    let mut new_stmts: Vec<Statement> = Vec::new();
    let ghost input = stmts@;
    let mut pending = into_reversed(stmts);
    proof {
        assert(env_names(env@) =~= let_names(input.take(0)));
    }
    while pending.len() > 0
        invariant
            input == stmts@,
            pending@.len() <= input.len(),
            forall|j: int| 0 <= j < pending@.len() ==> #[trigger] pending@[j] == input[input.len() - 1 - j],
            env_names(env@) == let_names(input.take(input.len() - pending@.len())),
            new_stmts@.len() == input.len() - pending@.len(),
            let_ids(new_stmts@).len() == lets_count(input.take(new_stmts@.len() as int)),
            forall|j: int|
                0 <= j < new_stmts@.len() ==> stmt_names(#[trigger] input[j]).subset_of(let_names(input.take(j))),
            env@ == bindings(input.take(new_stmts@.len() as int), new_stmts@),
            forall|j: int|
                0 <= j < new_stmts@.len() ==> corresponds(
                    #[trigger] input[j],
                    new_stmts@[j],
                    bindings(input.take(j), new_stmts@.take(j)),
                ),
            well_scoped(new_stmts@),
            numbered_from(let_ids(new_stmts@), old(var_factory).next_id()),
            var_factory.next_id() == old(var_factory).next_id() + let_ids(new_stmts@).len(),
            forall|i: int|
                0 <= i < env@.len() ==> let_ids(new_stmts@).to_set().contains(
                    (#[trigger] env@[i]).1.id,
                ),
        decreases pending.len(),
    {
        let ghost k = input.len() - pending@.len();
        let stmt = pending.pop().unwrap();
        assert(stmt == input[k]);
        let ghost bound = let_ids(new_stmts@).to_set();
        let ghost names0 = env_names(env@);
        let ghost env0 = env@;
        let ghost outs0 = new_stmts@;
        proof {
            assert(test_bound(input) ==> stmt_names(input[k]).subset_of(let_names(input.take(k))));
            assert forall|n: Seq<char>|
                stmt_names(input[k]).contains(n) && !let_names(input.take(k)).contains(n) implies #[trigger] unbound_in(
                input,
                n,
            ) by {}
            assert(input.take(k + 1).drop_last() =~= input.take(k));
            lemma_lets_prefix(input, k + 1);
        }
        let s = match stmt {
            prev::Statement::Assert { expr } => Statement::Assert { expr: uniquify_expr(&env, expr)? },
            prev::Statement::AssertEq { left, right } => {
                let left = uniquify_expr(&env, left)?;
                let right = uniquify_expr(&env, right)?;
                Statement::AssertEq { left, right }
            },
            prev::Statement::Command { text } => Statement::Command { text },
            prev::Statement::Let { variable_name, expr } => {
                let expr = uniquify_expr(&env, expr)?;
                if var_factory.exhausted() {
                    return Err(CompileError::TooManyVariables);
                }
                let var = var_factory.named(variable_name.clone());
                env.push((variable_name, var.dup()));
                Statement::Let { var, expr }
            },
        };
        proof {
            let t0 = input.take(k);
            let t1 = input.take(k + 1);
            assert(t1 =~= t0.push(input[k]));
            assert forall|n: Seq<char>| env_names(env@).contains(n) implies let_names(t1).contains(n) by {
                let i = choose|i: int| 0 <= i < env@.len() && env@[i].0@ == n;
                if i < env0.len() {
                    assert(env@[i] == env0[i]);
                    assert(names0.contains(n));
                    let j = choose|j: int| 0 <= j < t0.len() && #[trigger] t0[j] is Let && t0[j]->Let_variable_name@ == n;
                    assert(t1[j] == t0[j]);
                } else {
                    assert(t1[k] == input[k]);
                }
            }
            assert forall|n: Seq<char>| let_names(t1).contains(n) implies env_names(env@).contains(n) by {
                let j = choose|j: int| 0 <= j < t1.len() && #[trigger] t1[j] is Let && t1[j]->Let_variable_name@ == n;
                if j < k {
                    assert(t0[j] == t1[j]);
                    assert(let_names(t0).contains(n));
                    let i = choose|i: int| 0 <= i < env0.len() && env0[i].0@ == n;
                    assert(env@[i] == env0[i]);
                } else {
                    assert(env@[env@.len() - 1].0@ == n);
                }
            }
            assert(env_names(env@) =~= let_names(t1));
        }
        assert(stmt_ids(s).subset_of(bound));
        let ghost before = new_stmts@;
        new_stmts.push(s);
        proof {
            let t0 = input.take(k);
            let t1 = input.take(k + 1);
            assert(new_stmts@.take(k) =~= outs0);
            assert(new_stmts@.drop_last() =~= outs0);
            assert(t1.drop_last() =~= t0);
            assert(corresponds(input[k], new_stmts@[k], bindings(input.take(k), new_stmts@.take(k))));
            assert(env@ =~= bindings(t1, new_stmts@));
            assert forall|j: int| 0 <= j < new_stmts@.len() implies corresponds(
                #[trigger] input[j],
                new_stmts@[j],
                bindings(input.take(j), new_stmts@.take(j)),
            ) by {
                if j < k {
                    assert(new_stmts@.take(j) =~= outs0.take(j));
                    assert(new_stmts@[j] == outs0[j]);
                }
            }

            assert(new_stmts@.drop_last() =~= before);
            assert(new_stmts@.take(before.len() as int) =~= before);
            assert forall|k: int| 0 <= k < new_stmts@.len() implies stmt_ids(
                #[trigger] new_stmts@[k],
            ).subset_of(let_ids(new_stmts@.take(k)).to_set()) by {
                if k < before.len() {
                    assert(new_stmts@.take(k) =~= before.take(k));
                }
            }
            let ids = let_ids(new_stmts@);
            assert forall|j: int| 0 <= j < ids.len() implies #[trigger] ids[j]
                == old(var_factory).next_id() + j by {
                if j < let_ids(before).len() {
                    assert(ids[j] == let_ids(before)[j]);
                }
            }
            assert forall|i: int| 0 <= i < env@.len() implies ids.to_set().contains(
                (#[trigger] env@[i]).1.id,
            ) by {
                let x = env@[i].1.id;
                if bound.contains(x) {
                    let w = choose|w: int| 0 <= w < let_ids(before).len() && let_ids(before)[w] == x;
                    assert(ids[w] == x);
                } else {
                    assert(ids[ids.len() - 1] == x);
                }
            }
        }
    }
    proof {
        assert(input.take(input.len() as int) =~= input);
    }
    Ok(Definition::Test { name, stmts: new_stmts })
}

fn uniquify_expr(env: &Env, expr: prev::Expr) -> (r: Result<Expr, CompileError>)
    ensures
        r is Ok ==> expr_ids(r->Ok_0).subset_of(env_ids(env@)),
        r is Err ==> r->Err_0 is UnboundVariable,
        r is Err ==> !expr_names(expr).subset_of(env_names(env@)),
        r is Err ==> expr_names(expr).contains(r->Err_0->UnboundVariable_0@) && !env_names(env@).contains(
            r->Err_0->UnboundVariable_0@,
        ),
        r is Ok ==> renamed(expr, env@) == Some(r->Ok_0),
        r is Ok ==> expr_names(expr).subset_of(env_names(env@)),
    decreases expr,
{
    match expr {
        prev::Expr::LitBool(b) => Ok(Expr::LitBool(b)),
        prev::Expr::LitInt(i) => Ok(Expr::LitInt(i)),
        prev::Expr::Variable(name) => match lookup(env, &name) {
            Some(v) => Ok(Expr::Variable(v)),
            None => Err(CompileError::UnboundVariable(name)),
        },
        prev::Expr::Plus { left, right } => {
            let left = uniquify_expr(env, *left)?;
            let right = uniquify_expr(env, *right)?;
            Ok(Expr::Plus { left: Box::new(left), right: Box::new(right) })
        },
        prev::Expr::Minus { left, right } => {
            let left = uniquify_expr(env, *left)?;
            let right = uniquify_expr(env, *right)?;
            Ok(Expr::Minus { left: Box::new(left), right: Box::new(right) })
        },
        prev::Expr::Times { left, right } => {
            let left = uniquify_expr(env, *left)?;
            let right = uniquify_expr(env, *right)?;
            Ok(Expr::Times { left: Box::new(left), right: Box::new(right) })
        },
        prev::Expr::Divide { left, right } => {
            let left = uniquify_expr(env, *left)?;
            let right = uniquify_expr(env, *right)?;
            Ok(Expr::Divide { left: Box::new(left), right: Box::new(right) })
        },
    }
}

} // verus!
