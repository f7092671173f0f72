//! Flattens test bodies into a control-flow graph of three-address blocks.
use vstd::prelude::*;
use crate::cfg::{Edge, BlockGraph};
use crate::desugar_asserts as prev;
use crate::error::CompileError;
use crate::var::{Var, VarFactory};

verus! {

pub type Cfg = BlockGraph<Block, Jmp>;

pub struct Program {
    pub blocks: Cfg,
    pub tests: Vec<Test>,
    pub var_factory: VarFactory,
}

#[derive(Debug, Clone, PartialEq, Eq)]
pub struct Block {
    pub stmts: Vec<Statement>,
}

#[derive(Debug, Clone, PartialEq, Eq)]
pub enum Jmp {
    Unconditional,
    If(Condition),
    Unless(Condition),
}

#[derive(Debug, Clone, PartialEq, Eq)]
pub enum Condition {
    Cmp { cmp: Cmp, left: Atom, right: Atom },
    Atm(Atom),
}

#[derive(Debug, Clone, PartialEq, Eq)]
pub enum Statement {
    Assign { var: Var, expr: Expr },
    TellOk { test_name: String },
    TellNotOk { test_name: String },
    Command { text: String },
}

#[derive(Debug, Clone, PartialEq, Eq)]
pub enum Expr {
    Atom(Atom),
    Binary { op: Op, left: Atom, right: Atom },
    Cmp { cmp: Cmp, left: Atom, right: Atom },
}

#[derive(Debug, Clone, PartialEq, Eq)]
pub enum Atom {
    Var(Var),
    LitUnit,
    LitInt(i64),
    LitBool(bool),
}

#[derive(PartialEq, Eq, Debug, Clone, Copy, Structural)]
pub enum Op {
    Plus,
    Minus,
    Times,
    Divide,
}

#[derive(PartialEq, Eq, Debug, Clone, Copy, Structural)]
pub enum Cmp {
    Eq,
}

#[derive(Debug, Clone, PartialEq, Eq)]
pub struct Test {
    pub name: String,
    pub block: usize,
}

impl Atom {
    pub fn dup(&self) -> (r: Atom)
        ensures
            r == *self,
    {
        match self {
            Atom::Var(v) => Atom::Var(v.dup()),
            Atom::LitUnit => Atom::LitUnit,
            Atom::LitInt(i) => Atom::LitInt(*i),
            Atom::LitBool(b) => Atom::LitBool(*b),
        }
    }
}

impl Condition {
    pub fn dup(&self) -> (r: Condition)
        ensures
            r == *self,
    {
        match self {
            Condition::Cmp { cmp, left, right } => Condition::Cmp {
                cmp: *cmp,
                left: left.dup(),
                right: right.dup(),
            },
            Condition::Atm(a) => Condition::Atm(a.dup()),
        }
    }
}

/// Every branch leaves its block by exactly two edges, `If(c)` and then `Unless(c)`
/// with the same condition; a block left by an unconditional edge has no other.
#[verifier::opaque]
pub open spec fn branch_shaped(edges: Seq<Edge<Jmp>>) -> bool {
    forall|i: int|
        0 <= i < edges.len() ==> match (#[trigger] edges[i]).weight {
            Jmp::Unconditional => forall|j: int|
                0 <= j < edges.len() && j != i ==> edges[j].source != edges[i].source,
            Jmp::If(c) => {
                &&& i + 1 < edges.len()
                &&& edges[i + 1].source == edges[i].source
                &&& edges[i + 1].weight == Jmp::Unless(c)
                &&& forall|j: int|
                    0 <= j < edges.len() && j != i && j != i + 1 ==> edges[j].source
                        != edges[i].source
            },
            Jmp::Unless(c) => {
                &&& i >= 1
                &&& edges[i - 1].source == edges[i].source
                &&& edges[i - 1].weight == Jmp::If(c)
            },
        }
}

/// The shape that linearization gives a control-flow graph.
pub open spec fn well_formed(g: &Cfg) -> bool {
    g.forward() && branch_shaped(g.edges@)
}

/// An expression of literals, variables, arithmetic and equality only.
pub open spec fn flat(e: prev::Expr) -> bool
    decreases e,
{
    match e {
        prev::Expr::LitUnit => true,
        prev::Expr::LitBool(_) => true,
        prev::Expr::LitInt(_) => true,
        prev::Expr::Variable(_) => true,
        prev::Expr::Plus { left, right } => flat(*left) && flat(*right),
        prev::Expr::Minus { left, right } => flat(*left) && flat(*right),
        prev::Expr::Times { left, right } => flat(*left) && flat(*right),
        prev::Expr::Divide { left, right } => flat(*left) && flat(*right),
        prev::Expr::Eq { left, right } => flat(*left) && flat(*right),
        _ => false,
    }
}

/// The temporary numbered `n`.
pub open spec fn temp(n: nat) -> Var {
    Var { name: None, id: n as u32 }
}

/// What lowering a flat expression appends to the current block when temporaries are
/// numbered from `n`, the atom that holds its value, and the next free number: operands
/// first, left before right, then one assignment of the operation to a fresh temporary.
pub open spec fn lowered(e: prev::Expr, n: nat) -> (Seq<Statement>, Atom, nat)
    decreases e,
{
    match e {
        prev::Expr::LitUnit => (Seq::empty(), Atom::LitUnit, n),
        prev::Expr::LitBool(b) => (Seq::empty(), Atom::LitBool(b), n),
        prev::Expr::LitInt(i) => (Seq::empty(), Atom::LitInt(i), n),
        prev::Expr::Variable(v) => (Seq::empty(), Atom::Var(v), n),
        prev::Expr::Plus { left, right } => {
            let (sl, al, n1) = lowered(*left, n);
            let (sr, ar, n2) = lowered(*right, n1);
            (sl + sr + seq![Statement::Assign { var: temp(n2), expr: Expr::Binary { op: Op::Plus, left: al, right: ar } }], Atom::Var(temp(n2)), n2 + 1)
        },
        prev::Expr::Minus { left, right } => {
            let (sl, al, n1) = lowered(*left, n);
            let (sr, ar, n2) = lowered(*right, n1);
            (sl + sr + seq![Statement::Assign { var: temp(n2), expr: Expr::Binary { op: Op::Minus, left: al, right: ar } }], Atom::Var(temp(n2)), n2 + 1)
        },
        prev::Expr::Times { left, right } => {
            let (sl, al, n1) = lowered(*left, n);
            let (sr, ar, n2) = lowered(*right, n1);
            (sl + sr + seq![Statement::Assign { var: temp(n2), expr: Expr::Binary { op: Op::Times, left: al, right: ar } }], Atom::Var(temp(n2)), n2 + 1)
        },
        prev::Expr::Divide { left, right } => {
            let (sl, al, n1) = lowered(*left, n);
            let (sr, ar, n2) = lowered(*right, n1);
            (sl + sr + seq![Statement::Assign { var: temp(n2), expr: Expr::Binary { op: Op::Divide, left: al, right: ar } }], Atom::Var(temp(n2)), n2 + 1)
        },
        prev::Expr::Eq { left, right } => {
            let (sl, al, n1) = lowered(*left, n);
            let (sr, ar, n2) = lowered(*right, n1);
            (sl + sr + seq![Statement::Assign { var: temp(n2), expr: Expr::Cmp { cmp: Cmp::Eq, left: al, right: ar } }], Atom::Var(temp(n2)), n2 + 1)
        },
        _ => (Seq::empty(), Atom::LitUnit, n),
    }
}

/// A statement whose expression is flat.
pub open spec fn flat_stmt(s: prev::Statement) -> bool {
    match s {
        prev::Statement::Expr(e) => flat(e),
        prev::Statement::Let { expr, .. } => flat(expr),
        _ => true,
    }
}

/// What lowering a statement with a flat expression appends, and the next free number.
pub open spec fn lowered_stmt(s: prev::Statement, n: nat) -> (Seq<Statement>, nat) {
    match s {
        prev::Statement::Expr(e) => (lowered(e, n).0, lowered(e, n).2),
        prev::Statement::Let { var, expr } => (
            lowered(expr, n).0.push(Statement::Assign { var, expr: Expr::Atom(lowered(expr, n).1) }),
            lowered(expr, n).2,
        ),
        prev::Statement::TellOk { test_name } => (seq![Statement::TellOk { test_name }], n),
        prev::Statement::TellNotOk { test_name } => (seq![Statement::TellNotOk { test_name }], n),
        prev::Statement::Command { text } => (seq![Statement::Command { text }], n),
    }
}

/// What lowering a sequence of such statements appends, one after the other.
pub open spec fn lowered_stmts(stmts: Seq<prev::Statement>, n: nat) -> (Seq<Statement>, nat)
    decreases stmts.len(),
{
    if stmts.len() == 0 {
        (Seq::empty(), n)
    } else {
        let (p, m) = lowered_stmts(stmts.drop_last(), n);
        let (q, m2) = lowered_stmt(stmts.last(), m);
        (p + q, m2)
    }
}

pub open spec fn all_flat(stmts: Seq<prev::Statement>) -> bool {
    forall|k: int| 0 <= k < stmts.len() ==> flat_stmt(#[trigger] stmts[k])
}

/// The entry block of a test with flat statements holds exactly their lowering, with
/// temporaries numbered from some start.
pub open spec fn entry_lowered(g: &Cfg, entry: usize, stmts: Seq<prev::Statement>) -> bool {
    exists|n: nat| #[trigger] lowered_stmts(stmts, n).0 == g.nodes@[entry as int].stmts@
}

/// Going from `g0` to `g1` appended `stmts` to block `c` and changed nothing else.
pub open spec fn appended(g0: &Cfg, g1: &Cfg, c: usize, stmts: Seq<Statement>) -> bool {
    &&& g1.edges@ == g0.edges@
    &&& g1.nodes@.len() == g0.nodes@.len()
    &&& c < g0.nodes@.len()
    &&& g1.nodes@[c as int].stmts@ == g0.nodes@[c as int].stmts@ + stmts
    &&& forall|b: int| 0 <= b < g0.nodes@.len() && b != c ==> #[trigger] g1.nodes@[b] == g0.nodes@[b]
}

/// How many temporaries lowering the expression takes: one per operation and per `if`.
pub open spec fn expr_temps(e: prev::Expr) -> nat
    decreases e, 0nat,
{
    match e {
        prev::Expr::Plus { left, right } => expr_temps(*left) + expr_temps(*right) + 1,
        prev::Expr::Minus { left, right } => expr_temps(*left) + expr_temps(*right) + 1,
        prev::Expr::Times { left, right } => expr_temps(*left) + expr_temps(*right) + 1,
        prev::Expr::Divide { left, right } => expr_temps(*left) + expr_temps(*right) + 1,
        prev::Expr::Eq { left, right } => expr_temps(*left) + expr_temps(*right) + 1,
        prev::Expr::If { cond, thn, els } => (match *cond {
            prev::Expr::Eq { left, right } => expr_temps(*left) + expr_temps(*right),
            c => expr_temps(c),
        }) + 1 + expr_temps(*thn) + expr_temps(*els),
        prev::Expr::Bundle { stmts, expr } => stmts_temps_upto(stmts, stmts@.len() as int) + expr_temps(*expr),
        _ => 0,
    }
}

/// How many temporaries lowering the first `k` statements takes.
pub open spec fn stmts_temps_upto(stmts: Vec<prev::Statement>, k: int) -> nat
    decreases stmts, k,
{
    if k <= 0 || k > stmts@.len() {
        0
    } else {
        stmts_temps_upto(stmts, k - 1) + stmt_temps(stmts@[k - 1])
    }
}

/// How many temporaries lowering a test takes.
pub open spec fn def_temps(d: prev::Definition) -> nat {
    match d {
        prev::Definition::Test { stmts, .. } => stmts_temps_upto(stmts, stmts@.len() as int),
    }
}

/// How many temporaries lowering the tests takes.
pub open spec fn defs_temps(defs: Seq<prev::Definition>) -> nat
    decreases defs.len(),
{
    if defs.len() == 0 {
        0
    } else {
        defs_temps(defs.drop_last()) + def_temps(defs.last())
    }
}

proof fn lemma_defs_temps_prefix(s: Seq<prev::Definition>, k: int)
    requires
        0 <= k <= s.len(),
    ensures
        defs_temps(s.take(k)) <= defs_temps(s),
    decreases s.len() - k,
{
    if k < s.len() {
        lemma_defs_temps_prefix(s, k + 1);
        assert(s.take(k + 1).drop_last() =~= s.take(k));
    } else {
        assert(s.take(k) =~= s);
    }
}

proof fn lemma_temps_upto_mono(stmts: Vec<prev::Statement>, j: int, k: int)
    requires
        0 <= j <= k <= stmts@.len(),
    ensures
        stmts_temps_upto(stmts, j) <= stmts_temps_upto(stmts, k),
    decreases k - j,
{
    if j < k {
        lemma_temps_upto_mono(stmts, j, k - 1);
    }
}

/// How many temporaries lowering the statement takes.
pub open spec fn stmt_temps(s: prev::Statement) -> nat
    decreases s, 0nat,
{
    match s {
        prev::Statement::Expr(e) => expr_temps(e),
        prev::Statement::Let { expr, .. } => expr_temps(expr),
        _ => 0,
    }
}

/// The atom that lowering `e` yields: a literal or variable stands for itself, and a
/// compound expression is held in a fresh temporary numbered in `[lo, hi)`.
pub open spec fn yields(e: prev::Expr, a: Atom, lo: nat, hi: nat) -> bool
    decreases e,
{
    match e {
        prev::Expr::LitUnit => a == Atom::LitUnit,
        prev::Expr::LitBool(b) => a == Atom::LitBool(b),
        prev::Expr::LitInt(i) => a == Atom::LitInt(i),
        prev::Expr::Variable(v) => a == Atom::Var(v),
        prev::Expr::Bundle { expr, .. } => yields(*expr, a, lo, hi),
        _ => a is Var && a->Var_0.name is None && lo <= a->Var_0.id < hi,
    }
}

proof fn lemma_yields_widen(e: prev::Expr, a: Atom, lo: nat, lo2: nat, hi: nat)
    requires
        yields(e, a, lo2, hi),
        lo <= lo2,
    ensures
        yields(e, a, lo, hi),
    decreases e,
{
    if let prev::Expr::Bundle { expr, .. } = e {
        lemma_yields_widen(*expr, a, lo, lo2, hi);
    }
}

/// In a linearized program every branch leaves its block by exactly two edges,
/// `If(c)` and then `Unless(c)` with the identical condition, and the two sides join at
/// one block whose only incoming edges are two unconditional edges, one from a block
/// reached from each side.
pub proof fn lemma_branches_complementary_and_join(p: &Program, i: int)
    requires
        well_formed(&p.blocks),
        joined_since(p.blocks.edges@, 0),
        0 <= i < p.blocks.edges@.len(),
        p.blocks.edges@[i].weight is If,
    ensures
        i + 1 < p.blocks.edges@.len(),
        p.blocks.edges@[i + 1].source == p.blocks.edges@[i].source,
        p.blocks.edges@[i + 1].weight == Jmp::Unless(p.blocks.edges@[i].weight->If_0),
        forall|j: int|
            0 <= j < p.blocks.edges@.len() && j != i && j != i + 1 ==> p.blocks.edges@[j].source
                != p.blocks.edges@[i].source,
        exists|j: usize, a: int, b: int| #[trigger] joins_at(p.blocks.edges@, i, j, a, b),
{
    assert(branch_joins(p.blocks.edges@, i));
    lemma_shape(p.blocks.edges@, i);
}

proof fn lemma_shape(edges: Seq<Edge<Jmp>>, i: int)
    requires
        branch_shaped(edges),
        0 <= i < edges.len(),
        edges[i].weight is If,
    ensures
        i + 1 < edges.len(),
        edges[i + 1].source == edges[i].source,
        edges[i + 1].weight == Jmp::Unless(edges[i].weight->If_0),
        forall|j: int| 0 <= j < edges.len() && j != i && j != i + 1 ==> edges[j].source != edges[i].source,
{
    reveal(branch_shaped);
}

/// What a lowering step keeps: the graph grows, keeps its shape, and the block that
/// statements go to next has no outgoing edge yet.
pub open spec fn step(old_g: &Cfg, g: &Cfg, old_cur: usize, cur: usize) -> bool {
    &&& well_formed(g)
    &&& g.extends(old_g)
    &&& cur < g.nodes@.len()
    &&& !g.has_out(cur as int)
    &&& (cur == old_cur || cur >= old_g.nodes@.len())
    &&& forall|i: int|
        old_g.edges@.len() <= i < g.edges@.len() ==> (#[trigger] g.edges@[i]).source == old_cur
            || g.edges@[i].source >= old_g.nodes@.len()
    &&& reaches(g.edges@, old_cur, cur)
    &&& joined_since(g.edges@, old_g.edges@.len() as int)
    &&& forall|i: int| old_g.edges@.len() <= i < g.edges@.len() ==> #[trigger] g.edges@[i].target >= old_g.nodes@.len()
    &&& forall|b: int| 0 <= b < old_g.nodes@.len() && b != old_cur ==> #[trigger] g.nodes@[b] == old_g.nodes@[b]
}

/// Every edge that leaves a block in `[lo, hi)` enters one in `[lo, hi)`.
pub open spec fn closed(edges: Seq<Edge<Jmp>>, lo: int, hi: int) -> bool {
    forall|f: int|
        0 <= f < edges.len() && lo <= #[trigger] edges[f].source < hi ==> lo <= edges[f].target < hi
}

proof fn lemma_path_closed(edges: Seq<Edge<Jmp>>, lo: int, hi: int, p: Seq<usize>, i: int)
    requires
        closed(edges, lo, hi),
        is_path(edges, p),
        lo <= p[0] < hi,
        0 <= i < p.len(),
    ensures
        lo <= p[i] < hi,
    decreases i,
{
    if i > 0 {
        lemma_path_closed(edges, lo, hi, p, i - 1);
        let j = i - 1;
        assert(has_edge(edges, p[j], p[j + 1]));
        let e = choose|e: int| 0 <= e < edges.len() && edges[e].source == p[j] && edges[e].target == p[j + 1];
    }
}

/// What a block of a closed range reaches stays in the range.
proof fn lemma_reach_closed(edges: Seq<Edge<Jmp>>, lo: int, hi: int, a: usize, b: usize)
    requires
        closed(edges, lo, hi),
        lo <= a < hi,
        reaches(edges, a, b),
    ensures
        lo <= b < hi,
{
    if a != b {
        let p = choose|p: Seq<usize>| is_path(edges, p) && p[0] == a && p.last() == b;
        lemma_path_closed(edges, lo, hi, p, p.len() - 1);
    }
}

/// An edge leads from block `a` to block `b`.
pub open spec fn has_edge(edges: Seq<Edge<Jmp>>, a: usize, b: usize) -> bool {
    exists|e: int| 0 <= e < edges.len() && edges[e].source == a && edges[e].target == b
}

/// Each block of `p` has an edge to the next.
pub open spec fn is_path(edges: Seq<Edge<Jmp>>, p: Seq<usize>) -> bool {
    p.len() >= 1 && forall|i: int| 0 <= i < p.len() - 1 ==> #[trigger] has_edge(edges, p[i], p[i + 1])
}

/// Block `b` can be reached from block `a` by following edges.
pub open spec fn reaches(edges: Seq<Edge<Jmp>>, a: usize, b: usize) -> bool {
    a == b || exists|p: Seq<usize>| is_path(edges, p) && p[0] == a && p.last() == b
}

/// The branch of `If` edge `i` joins at block `j`: exactly two edges enter `j`, the
/// unconditional edges `a` and `b`, and they leave blocks that the targets of the `If`
/// and `Unless` edges reach.
pub open spec fn joins_at(edges: Seq<Edge<Jmp>>, i: int, j: usize, a: int, b: int) -> bool {
    &&& 0 <= a < edges.len()
    &&& 0 <= b < edges.len()
    &&& a != b
    &&& edges[a].target == j
    &&& edges[b].target == j
    &&& edges[a].weight == Jmp::Unconditional
    &&& edges[b].weight == Jmp::Unconditional
    &&& reaches(edges, edges[i].target, edges[a].source)
    &&& reaches(edges, edges[i + 1].target, edges[b].source)
    &&& forall|f: int| 0 <= f < edges.len() && #[trigger] edges[f].target == j ==> f == a || f == b
}

/// The branch whose `If` edge is edge `i` joins again at one block, entered only by the
/// unconditional edges that end its two sides.
pub open spec fn branch_joins(edges: Seq<Edge<Jmp>>, i: int) -> bool {
    i + 1 < edges.len() && exists|j: usize, a: int, b: int| #[trigger] joins_at(edges, i, j, a, b)
}

/// Every branch whose `If` edge comes at or after position `n` joins again.
pub open spec fn joined_since(edges: Seq<Edge<Jmp>>, n: int) -> bool {
    forall|i: int| n <= i < edges.len() && edges[i].weight is If ==> #[trigger] branch_joins(edges, i)
}

/// `new` holds the edges of `old` first.
pub open spec fn edge_prefix(old: Seq<Edge<Jmp>>, new: Seq<Edge<Jmp>>) -> bool {
    old.len() <= new.len() && forall|i: int| 0 <= i < old.len() ==> #[trigger] new[i] == old[i]
}

proof fn lemma_reaches_extend(old: Seq<Edge<Jmp>>, new: Seq<Edge<Jmp>>, a: usize, b: usize)
    requires
        edge_prefix(old, new),
        reaches(old, a, b),
    ensures
        reaches(new, a, b),
{
    if a != b {
        let p = choose|p: Seq<usize>| is_path(old, p) && p[0] == a && p.last() == b;
        assert forall|i: int| 0 <= i < p.len() - 1 implies #[trigger] has_edge(new, p[i], p[i + 1]) by {
            assert(has_edge(old, p[i], p[i + 1]));
            let e = choose|e: int| 0 <= e < old.len() && old[e].source == p[i] && old[e].target == p[i + 1];
            assert(new[e] == old[e]);
        }
        assert(is_path(new, p));
    }
}

proof fn lemma_reaches_edge(edges: Seq<Edge<Jmp>>, a: usize, b: usize, e: int)
    requires
        reaches(edges, a, b),
        0 <= e < edges.len(),
        edges[e].source == b,
    ensures
        reaches(edges, a, edges[e].target),
{
    let c = edges[e].target;
    assert(has_edge(edges, b, c));
    if a == b {
        let q = seq![a, c];
        assert(has_edge(edges, q[0], q[1]));
        assert(is_path(edges, q));
        assert(q[0] == a && q.last() == c);
    } else {
        let p = choose|p: Seq<usize>| is_path(edges, p) && p[0] == a && p.last() == b;
        let q = p.push(c);
        assert forall|i: int| 0 <= i < q.len() - 1 implies #[trigger] has_edge(edges, q[i], q[i + 1]) by {
            if i < p.len() - 1 {
                assert(q[i] == p[i] && q[i + 1] == p[i + 1]);
            } else {
                assert(q[i] == b && q[i + 1] == c);
            }
        }
        assert(is_path(edges, q));
        assert(q[0] == a && q.last() == c);
    }
}

proof fn lemma_reaches_trans(edges: Seq<Edge<Jmp>>, a: usize, b: usize, c: usize)
    requires
        reaches(edges, a, b),
        reaches(edges, b, c),
    ensures
        reaches(edges, a, c),
{
    if a != b && b != c {
        let p1 = choose|p: Seq<usize>| is_path(edges, p) && p[0] == a && p.last() == b;
        let p2 = choose|p: Seq<usize>| is_path(edges, p) && p[0] == b && p.last() == c;
        let q = p1 + p2.drop_first();
        assert forall|i: int| 0 <= i < q.len() - 1 implies #[trigger] has_edge(edges, q[i], q[i + 1]) by {
            if i < p1.len() - 1 {
                assert(q[i] == p1[i] && q[i + 1] == p1[i + 1]);
            } else {
                let j = i - (p1.len() - 1);
                assert(q[i] == p2[j] && q[i + 1] == p2[j + 1]);
            }
        }
        assert(is_path(edges, q));
        assert(q.last() == c);
    }
}

proof fn lemma_joins_extend(old: Seq<Edge<Jmp>>, new: Seq<Edge<Jmp>>, i: int, bound: nat)
    requires
        edge_prefix(old, new),
        0 <= i < old.len(),
        branch_joins(old, i),
        forall|f: int| 0 <= f < old.len() ==> #[trigger] old[f].target < bound,
        forall|f: int| old.len() <= f < new.len() ==> #[trigger] new[f].target >= bound,
    ensures
        branch_joins(new, i),
{
    let (j, a, b) = choose|j: usize, a: int, b: int| #[trigger] joins_at(old, i, j, a, b);
    lemma_reaches_extend(old, new, old[i].target, old[a].source);
    lemma_reaches_extend(old, new, old[i + 1].target, old[b].source);
    assert(new[i] == old[i] && new[i + 1] == old[i + 1]);
    assert(new[a] == old[a] && new[b] == old[b]);
    assert forall|f: int| 0 <= f < new.len() && #[trigger] new[f].target == j implies f == a || f == b by {
        if f < old.len() {
            assert(new[f] == old[f]);
        } else {
            assert(old[a].target < bound);
        }
    }
    assert(joins_at(new, i, j, a, b));
}

/// Lowers every test into the graph; each test gets its own entry block.
pub fn linearize(program: prev::Program) -> (r: Result<Program, CompileError>)
    ensures
        r is Ok ==> well_formed(&r->Ok_0.blocks),
        r is Ok ==> joined_since(r->Ok_0.blocks.edges@, 0),
        r is Ok ==> forall|t: int|
            0 <= t < r->Ok_0.tests@.len() && all_flat(prev::def_parts(program.defs@[t]).1) ==> #[trigger] entry_lowered(
                &r->Ok_0.blocks,
                r->Ok_0.tests@[t].block,
                prev::def_parts(program.defs@[t]).1,
            ),
        r is Ok ==> forall|t: int, f: int|
            0 <= t < r->Ok_0.tests@.len() && 0 <= f < r->Ok_0.blocks.edges@.len() ==> #[trigger] r->Ok_0.blocks.edges@[f].target
                != (#[trigger] r->Ok_0.tests@[t]).block,
        r is Ok ==> forall|t1: int, t2: int, b: usize|
            0 <= t1 < r->Ok_0.tests@.len() && 0 <= t2 < r->Ok_0.tests@.len() && t1 != t2 ==> !(#[trigger] reaches(
                r->Ok_0.blocks.edges@,
                r->Ok_0.tests@[t1].block,
                b,
            ) && #[trigger] reaches(r->Ok_0.blocks.edges@, r->Ok_0.tests@[t2].block, b)),
        r is Err ==> r->Err_0 == CompileError::TooManyVariables,
        program.var_factory.next_id() + defs_temps(program.defs@) <= u32::MAX ==> r is Ok,
        r is Ok ==> r->Ok_0.tests@.len() == program.defs@.len(),
        r is Ok ==> forall|i: int|
            0 <= i < r->Ok_0.tests@.len() ==> (#[trigger] r->Ok_0.tests@[i]).block
                < r->Ok_0.blocks.nodes@.len() && r->Ok_0.tests@[i].name == prev::def_parts(
                program.defs@[i],
            ).0,
{
    let ghost p0 = program;
    let prev::Program { defs, var_factory } = program;
    let mut var_factory = var_factory;
    let mut blocks: Cfg = BlockGraph::new();
    let mut tests: Vec<Test> = Vec::new();
    proof {
        reveal(branch_shaped);
    }
    let mut i: usize = 0;
    let ghost mut his: Seq<int> = Seq::empty();
    while i < defs.len()
        invariant
            i <= defs@.len(),
            p0 == program,
            defs@ == p0.defs@,
            var_factory.next_id() == p0.var_factory.next_id() + defs_temps(defs@.take(i as int)),
            well_formed(&blocks),
            joined_since(blocks.edges@, 0),
            forall|t: int|
                0 <= t < tests@.len() && all_flat(prev::def_parts(defs@[t]).1) ==> #[trigger] entry_lowered(
                    &blocks,
                    tests@[t].block,
                    prev::def_parts(defs@[t]).1,
                ),
            forall|t: int, f: int|
                0 <= t < tests@.len() && 0 <= f < blocks.edges@.len() ==> #[trigger] blocks.edges@[f].target
                    != (#[trigger] tests@[t]).block,
            his.len() == tests@.len(),
            forall|t: int| 0 <= t < tests@.len() ==> (#[trigger] tests@[t]).block < his[t] <= blocks.nodes@.len(),
            forall|t: int| 0 <= t < tests@.len() ==> closed(blocks.edges@, tests@[t].block as int, #[trigger] his[t]),
            forall|t1: int, t2: int| 0 <= t1 < t2 < tests@.len() ==> #[trigger] his[t1] <= (#[trigger] tests@[t2]).block,
            tests@.len() == i,
            forall|k: int|
                0 <= k < i ==> (#[trigger] tests@[k]).block < blocks.nodes@.len() && tests@[k].name
                    == prev::def_parts(defs@[k]).0,
        decreases defs.len() - i,
    {
        let prev::Definition::Test { name, stmts } = &defs[i];
        let ghost before = blocks;
        let ghost n_before = var_factory.next_id();
        proof {
            assert(defs@.take(i + 1).drop_last() =~= defs@.take(i as int));
            lemma_defs_temps_prefix(defs@, i + 1);
            assert(def_temps(defs@[i as int]) == stmts_temps_upto(*stmts, stmts@.len() as int));
        }
        let block = linearize_stmts(&mut var_factory, &mut blocks, stmts)?;
        proof {
            assert(edge_prefix(before.edges@, blocks.edges@));
            assert forall|j: int| 0 <= j < blocks.edges@.len() && blocks.edges@[j].weight is If implies #[trigger] branch_joins(
                blocks.edges@,
                j,
            ) by {
                if j < before.edges@.len() {
                    assert(blocks.edges@[j] == before.edges@[j]);
                    assert(branch_joins(before.edges@, j));
                    assert forall|f: int| 0 <= f < before.edges@.len() implies #[trigger] before.edges@[f].target
                        < before.nodes@.len() by {}
                    lemma_joins_extend(before.edges@, blocks.edges@, j, before.nodes@.len());
                }
            }
        }
        let ghost old_tests = tests@;
        tests.push(Test { name: name.clone(), block });
        proof {
            assert forall|t: int|
                0 <= t < tests@.len() && all_flat(prev::def_parts(defs@[t]).1) implies #[trigger] entry_lowered(
                &blocks,
                tests@[t].block,
                prev::def_parts(defs@[t]).1,
            ) by {
                if t < old_tests.len() {
                    assert(tests@[t] == old_tests[t]);
                    assert(entry_lowered(&before, old_tests[t].block, prev::def_parts(defs@[t]).1));
                    let n = choose|n: nat| #[trigger] lowered_stmts(prev::def_parts(defs@[t]).1, n).0
                        == before.nodes@[old_tests[t].block as int].stmts@;
                    assert(blocks.nodes@[old_tests[t].block as int] == before.nodes@[old_tests[t].block as int]);
                    assert(lowered_stmts(prev::def_parts(defs@[t]).1, n).0 == blocks.nodes@[tests@[t].block as int].stmts@);
                } else {
                    assert(lowered_stmts(prev::def_parts(defs@[t]).1, n_before).0 == blocks.nodes@[tests@[t].block as int].stmts@);
                }
            }
        }
        proof {
            assert forall|t: int, f: int|
                0 <= t < tests@.len() && 0 <= f < blocks.edges@.len() implies #[trigger] blocks.edges@[f].target
                    != (#[trigger] tests@[t]).block by {
                if f < before.edges@.len() {
                    assert(blocks.edges@[f] == before.edges@[f]);
                    assert(before.edges@[f].target < before.nodes@.len());
                    if t < old_tests.len() {
                        assert(tests@[t] == old_tests[t]);
                    }
                } else if t < old_tests.len() {
                    assert(tests@[t] == old_tests[t]);
                    assert(old_tests[t].block < before.nodes@.len());
                }
            }
        }
        proof {
            let old_his = his;
            his = his.push(blocks.nodes@.len() as int);
            let e = blocks.edges@;
            assert forall|t: int| 0 <= t < tests@.len() implies closed(e, tests@[t].block as int, #[trigger] his[t]) by {
                assert forall|f: int| 0 <= f < e.len() && tests@[t].block <= #[trigger] e[f].source < his[t] implies tests@[t].block
                    <= e[f].target < his[t] by {
                    if f < before.edges@.len() {
                        assert(e[f] == before.edges@[f]);
                        assert(before.edges@[f].source < before.edges@[f].target < before.nodes@.len());
                        if t < old_tests.len() {
                            assert(tests@[t] == old_tests[t]);
                            assert(his[t] == old_his[t]);
                            assert(closed(before.edges@, old_tests[t].block as int, old_his[t]));
                        }
                    } else {
                        assert(e[f].source < e[f].target < blocks.nodes@.len());
                        if t < old_tests.len() {
                            assert(his[t] == old_his[t]);
                        }
                    }
                }
            }
            assert forall|t: int| 0 <= t < tests@.len() implies (#[trigger] tests@[t]).block < his[t] <= blocks.nodes@.len() by {
                if t < old_tests.len() {
                    assert(tests@[t] == old_tests[t]);
                    assert(his[t] == old_his[t]);
                }
            }
            assert forall|t1: int, t2: int| 0 <= t1 < t2 < tests@.len() implies #[trigger] his[t1] <= (
            #[trigger] tests@[t2]).block by {
                assert(his[t1] == old_his[t1]);
                if t2 < old_tests.len() {
                    assert(tests@[t2] == old_tests[t2]);
                }
            }
        }
        i = i + 1;
    }
    proof {
        let e = blocks.edges@;
        assert forall|t1: int, t2: int, b: usize|
            0 <= t1 < tests@.len() && 0 <= t2 < tests@.len() && t1 != t2 implies !(#[trigger] reaches(e, tests@[t1].block, b)
                && #[trigger] reaches(e, tests@[t2].block, b)) by {
            if reaches(e, tests@[t1].block, b) && reaches(e, tests@[t2].block, b) {
                lemma_reach_closed(e, tests@[t1].block as int, his[t1], tests@[t1].block, b);
                lemma_reach_closed(e, tests@[t2].block as int, his[t2], tests@[t2].block, b);
                if t1 < t2 {
                    assert(his[t1] <= tests@[t2].block);
                } else {
                    assert(his[t2] <= tests@[t1].block);
                }
            }
        }
    }
    Ok(Program { blocks, tests, var_factory })
}

fn new_block(g: &mut Cfg) -> (r: usize)
    requires
        well_formed(old(g)),
    ensures
        step(old(g), final(g), r, r),
        r == old(g).nodes@.len(),
        final(g).nodes@.len() == old(g).nodes@.len() + 1,
        final(g).edges@ == old(g).edges@,
        final(g).nodes@[r as int].stmts@ == Seq::<Statement>::empty(),
        forall|b: int| 0 <= b < old(g).nodes@.len() ==> #[trigger] final(g).nodes@[b] == old(g).nodes@[b],
{
    let r = g.add_node(Block { stmts: Vec::new() });
    assert forall|i: int| 0 <= i < g.edges@.len() implies #[trigger] g.edges@[i].source != r by {
        assert(old(g).edges@[i] == g.edges@[i]);
    }
    r
}

fn push_stmt(g: &mut Cfg, b: usize, s: Statement)
    requires
        b < old(g).nodes@.len(),
    ensures
        final(g).nodes@.len() == old(g).nodes@.len(),
        final(g).edges@ == old(g).edges@,
        final(g).nodes@[b as int].stmts@ == old(g).nodes@[b as int].stmts@.push(s),
        forall|c: int| 0 <= c < old(g).nodes@.len() && c != b ==> #[trigger] final(g).nodes@[c] == old(g).nodes@[c],
{
    g.nodes[b].stmts.push(s);
}

fn linearize_stmts(var_factory: &mut VarFactory, g: &mut Cfg, stmts: &Vec<prev::Statement>) -> (r:
    Result<usize, CompileError>)
    requires
        well_formed(old(g)),
    ensures
        r is Ok ==> well_formed(final(g)),
        r is Ok ==> final(g).extends(old(g)),
        r is Ok ==> joined_since(final(g).edges@, old(g).edges@.len() as int),
        r is Err ==> r->Err_0 == CompileError::TooManyVariables,
        r is Ok ==> r->Ok_0 < final(g).nodes@.len(),
        r is Ok ==> r->Ok_0 == old(g).nodes@.len(),
        r is Ok ==> forall|f: int|
            old(g).edges@.len() <= f < final(g).edges@.len() ==> #[trigger] final(g).edges@[f].target > r->Ok_0
                && final(g).edges@[f].source >= r->Ok_0,
        r is Ok ==> forall|b: int| 0 <= b < old(g).nodes@.len() ==> #[trigger] final(g).nodes@[b] == old(g).nodes@[b],
        old(var_factory).next_id() + stmts_temps_upto(*stmts, stmts@.len() as int) <= u32::MAX ==> r is Ok,
        r is Ok ==> final(var_factory).next_id() == old(var_factory).next_id() + stmts_temps_upto(
            *stmts,
            stmts@.len() as int,
        ),
        r is Ok && all_flat(stmts@) ==> final(g).nodes@[r->Ok_0 as int].stmts@ == lowered_stmts(
            stmts@,
            old(var_factory).next_id(),
        ).0,
{
    let begin = new_block(g);
    let ghost n0 = var_factory.next_id();
    proof {
        assert(stmts@.take(0) =~= Seq::<prev::Statement>::empty());
    }
    let mut current = begin;
    let mut i: usize = 0;
    while i < stmts.len()
        invariant
            i <= stmts@.len(),
            step(old(g), g, begin, current),
            begin < g.nodes@.len(),
            begin == old(g).nodes@.len(),
            forall|f: int| old(g).edges@.len() <= f < g.edges@.len() ==> #[trigger] g.edges@[f].target > begin
                && g.edges@[f].source >= begin,
            n0 == old(var_factory).next_id(),
            var_factory.next_id() == n0 + stmts_temps_upto(*stmts, i as int),
            all_flat(stmts@) ==> current == begin && g.nodes@[begin as int].stmts@ == lowered_stmts(
                stmts@.take(i as int),
                n0,
            ).0 && var_factory.next_id() == lowered_stmts(stmts@.take(i as int), n0).1,
        decreases stmts.len() - i,
    {
        let ghost g0 = *g;
        let ghost c0 = current;
        proof {
            lemma_temps_upto_mono(*stmts, i + 1, stmts@.len() as int);
        }
        linearize_stmt(var_factory, g, &mut current, &stmts[i])?;
        proof {
            if all_flat(stmts@) {
                assert(flat_stmt(stmts@[i as int]));
                assert(stmts@.take(i + 1).drop_last() =~= stmts@.take(i as int));
                assert(stmts@.take(i + 1).last() == stmts@[i as int]);
                let (p, m) = lowered_stmts(stmts@.take(i as int), n0);
                let (q, m2) = lowered_stmt(stmts@[i as int], m);
                assert(g.nodes@[begin as int].stmts@ =~= p + q);
            }
            lemma_step_trans(*old(g), g0, *g, begin, c0, current);
            assert forall|f: int| old(g).edges@.len() <= f < g.edges@.len() implies #[trigger] g.edges@[f].target > begin
                && g.edges@[f].source >= begin by {
                if f < g0.edges@.len() {
                    assert(g.edges@[f] == g0.edges@[f]);
                }
            }
        }
        i = i + 1;
    }
    proof {
        assert(stmts@.take(stmts@.len() as int) =~= stmts@);
    }
    Ok(begin)
}

fn linearize_stmt(
    var_factory: &mut VarFactory,
    g: &mut Cfg,
    current: &mut usize,
    stmt: &prev::Statement,
) -> (r: Result<(), CompileError>)
    requires
        step(old(g), old(g), *old(current), *old(current)),
    ensures
        r is Ok ==> step(old(g), final(g), *old(current), *final(current)),
        r is Err ==> r->Err_0 == CompileError::TooManyVariables && !final(var_factory).can_issue(),
        final(var_factory).next_id() >= old(var_factory).next_id(),
        r is Ok && flat_stmt(*stmt) ==> *final(current) == *old(current) && appended(
            old(g),
            final(g),
            *old(current),
            lowered_stmt(*stmt, old(var_factory).next_id()).0,
        ) && final(var_factory).next_id() == lowered_stmt(*stmt, old(var_factory).next_id()).1,
        old(var_factory).next_id() + stmt_temps(*stmt) <= u32::MAX ==> r is Ok,
        r is Ok ==> final(var_factory).next_id() == old(var_factory).next_id() + stmt_temps(*stmt),
    decreases stmt, 0nat,
{
    let ghost g0 = *g;
    match stmt {
        prev::Statement::Expr(expr) => {
            linearize_expr(var_factory, g, current, expr)?;
        },
        prev::Statement::TellOk { test_name } => {
            push_stmt(g, *current, Statement::TellOk { test_name: test_name.clone() });
            assert(g.nodes@[*current as int].stmts@ =~= g0.nodes@[*current as int].stmts@ + seq![
                Statement::TellOk { test_name: *test_name },
            ]);
        },
        prev::Statement::TellNotOk { test_name } => {
            push_stmt(g, *current, Statement::TellNotOk { test_name: test_name.clone() });
            assert(g.nodes@[*current as int].stmts@ =~= g0.nodes@[*current as int].stmts@ + seq![
                Statement::TellNotOk { test_name: *test_name },
            ]);
        },
        prev::Statement::Command { text } => {
            push_stmt(g, *current, Statement::Command { text: text.clone() });
            assert(g.nodes@[*current as int].stmts@ =~= g0.nodes@[*current as int].stmts@ + seq![
                Statement::Command { text: *text },
            ]);
        },
        prev::Statement::Let { var, expr } => {
            let ghost n0 = var_factory.next_id();
            let atom = linearize_expr(var_factory, g, current, expr)?;
            let ghost g1 = *g;
            push_stmt(g, *current, Statement::Assign { var: var.dup(), expr: Expr::Atom(atom) });
            proof {
                if flat(*expr) {
                    assert(g.nodes@[*current as int].stmts@ =~= g0.nodes@[*current as int].stmts@ + lowered(*expr, n0).0.push(
                        Statement::Assign { var: *var, expr: Expr::Atom(atom) },
                    ));
                }
            }
        },
    }
    Ok(())
}

#[verifier::loop_isolation(false)]
fn linearize_expr(
    var_factory: &mut VarFactory,
    g: &mut Cfg,
    current: &mut usize,
    expr: &prev::Expr,
) -> (r: Result<Atom, CompileError>)
    requires
        step(old(g), old(g), *old(current), *old(current)),
    ensures
        r is Ok ==> step(old(g), final(g), *old(current), *final(current)),
        r is Err ==> r->Err_0 == CompileError::TooManyVariables && !final(var_factory).can_issue(),
        r is Ok ==> yields(*expr, r->Ok_0, old(var_factory).next_id(), final(var_factory).next_id()),
        final(var_factory).next_id() >= old(var_factory).next_id(),
        r is Ok && flat(*expr) ==> *final(current) == *old(current) && appended(
            old(g),
            final(g),
            *old(current),
            lowered(*expr, old(var_factory).next_id()).0,
        ) && r->Ok_0 == lowered(*expr, old(var_factory).next_id()).1 && final(var_factory).next_id() == lowered(
            *expr,
            old(var_factory).next_id(),
        ).2,
        old(var_factory).next_id() + expr_temps(*expr) <= u32::MAX ==> r is Ok,
        r is Ok ==> final(var_factory).next_id() == old(var_factory).next_id() + expr_temps(*expr),
    decreases expr, 1nat,
{
    match expr {
        prev::Expr::LitUnit => Ok(Atom::LitUnit),
        prev::Expr::Bundle { stmts, expr: tail } => {
            let ghost c0 = *current;
            let ghost g0 = *g;
            proof {
                lemma_step_refl(g0, c0);
            }
            let mut i: usize = 0;
            while i < stmts.len()
                invariant
                    i <= stmts@.len(),
                    step(&g0, g, c0, *current),
                    var_factory.next_id() >= old(var_factory).next_id(),
                    var_factory.next_id() == old(var_factory).next_id() + stmts_temps_upto(*stmts, i as int),
                decreases stmts.len() - i,
            {
                proof {
                    lemma_temps_upto_mono(*stmts, i + 1, stmts@.len() as int);
                }
                assert(decreases_to!(*expr => *stmts));
                assert(decreases_to!(*stmts => stmts[i as int]));
                let ghost g1 = *g;
                let ghost c1 = *current;
                linearize_stmt(var_factory, g, current, &stmts[i])?;
                proof {
                    lemma_step_trans(g0, g1, *g, c0, c1, *current);
                }
                i = i + 1;
            }
            let ghost g1 = *g;
            let ghost c1 = *current;
            let ghost lo = var_factory.next_id();
            let r = linearize_expr(var_factory, g, current, tail)?;
            proof {
                lemma_step_trans(g0, g1, *g, c0, c1, *current);
                lemma_yields_widen(**tail, r, old(var_factory).next_id(), lo, var_factory.next_id());
            }
            Ok(r)
        },
        prev::Expr::LitBool(b) => Ok(Atom::LitBool(*b)),
        prev::Expr::LitInt(i) => Ok(Atom::LitInt(*i)),
        prev::Expr::Variable(x) => Ok(Atom::Var(x.dup())),
        prev::Expr::Plus { .. } => linearize_binary(var_factory, g, current, expr),
        prev::Expr::Minus { .. } => linearize_binary(var_factory, g, current, expr),
        prev::Expr::Times { .. } => linearize_binary(var_factory, g, current, expr),
        prev::Expr::Divide { .. } => linearize_binary(var_factory, g, current, expr),
        prev::Expr::Eq { .. } => linearize_binary(var_factory, g, current, expr),
        prev::Expr::If { .. } => linearize_if(var_factory, g, current, expr),
    }
}

/// Branches on the condition of an `if` from the current block into a `then` and an
/// `else` block, each assigning its value to a fresh variable, and continues in a block
/// that both join.
fn linearize_if(
    var_factory: &mut VarFactory,
    g: &mut Cfg,
    current: &mut usize,
    expr: &prev::Expr,
) -> (r: Result<Atom, CompileError>)
    requires
        step(old(g), old(g), *old(current), *old(current)),
        expr is If,
    ensures
        r is Ok ==> step(old(g), final(g), *old(current), *final(current)),
        r is Err ==> r->Err_0 == CompileError::TooManyVariables && !final(var_factory).can_issue(),
        r is Ok ==> yields(*expr, r->Ok_0, old(var_factory).next_id(), final(var_factory).next_id()),
        final(var_factory).next_id() >= old(var_factory).next_id(),
        old(var_factory).next_id() + expr_temps(*expr) <= u32::MAX ==> r is Ok,
        r is Ok ==> final(var_factory).next_id() == old(var_factory).next_id() + expr_temps(*expr),
    decreases expr, 0nat,
{
    let prev::Expr::If { cond, thn, els } = expr else {
        return Err(CompileError::Internal);
    };
    let ghost ga = *g;
    let ghost ca = *current;
    let cond = match &**cond {
        prev::Expr::Eq { left, right } => {
            let left = linearize_expr(var_factory, g, current, left)?;
            let ghost gb = *g;
            let ghost cb = *current;
            let right = linearize_expr(var_factory, g, current, right)?;
            proof {
                lemma_step_trans(ga, gb, *g, ca, cb, *current);
            }
            Condition::Cmp { cmp: Cmp::Eq, left, right }
        },
        e => Condition::Atm(linearize_expr(var_factory, g, current, e)?),
    };
    if var_factory.exhausted() {
        return Err(CompileError::TooManyVariables);
    }
    let var = var_factory.tmp();
    let cur = *current;
    let ghost g0 = *g;
    let mut thn_block = new_block(g);
    let mut els_block = new_block(g);
    let ghost g1 = *g;
    g.add_edge(cur, thn_block, Jmp::If(cond.dup()));
    g.add_edge(cur, els_block, Jmp::Unless(cond));
    let ghost g2 = *g;
    proof {
        lemma_add_branch(g1, g2, cur);
        assert forall|i: int| 0 <= i < g2.edges@.len() implies #[trigger] g2.edges@[i].source
            != thn_block && g2.edges@[i].source != els_block by {
            if i < g1.edges@.len() {
                assert(g2.edges@[i] == g1.edges@[i]);
            }
        }
        assert(step(&g2, &g2, thn_block, thn_block));
    }
    let ghost t0 = thn_block;
    linearize_branch(var_factory, g, &mut thn_block, var.dup(), thn)?;
    let ghost g3 = *g;
    proof {
        assert forall|i: int| 0 <= i < g3.edges@.len() implies #[trigger] g3.edges@[i].source
            != els_block by {
            if i < g2.edges@.len() {
                assert(g3.edges@[i] == g2.edges@[i]);
            }
        }
        assert(step(&g3, &g3, els_block, els_block));
    }
    let ghost e0 = els_block;
    linearize_branch(var_factory, g, &mut els_block, var.dup(), els)?;
    let ghost g4 = *g;
    proof {
        assert(thn_block != els_block);
        assert forall|i: int| 0 <= i < g4.edges@.len() implies #[trigger] g4.edges@[i].source
            != thn_block by {
            if i < g3.edges@.len() {
                assert(g4.edges@[i] == g3.edges@[i]);
            }
        }
    }
    let after = new_block(g);
    let ghost g5 = *g;
    g.add_edge(thn_block, after, Jmp::Unconditional);
    let ghost g6 = *g;
    proof {
        lemma_add_jump(g5, g6, thn_block, after);
        assert forall|i: int| 0 <= i < g6.edges@.len() implies #[trigger] g6.edges@[i].source
            != els_block by {
            if i < g5.edges@.len() {
                assert(g6.edges@[i] == g5.edges@[i]);
            }
        }
    }
    g.add_edge(els_block, after, Jmp::Unconditional);
    proof {
        lemma_add_jump(g6, *g, els_block, after);
        assert forall|i: int| 0 <= i < g.edges@.len() implies #[trigger] g.edges@[i].source
            != after by {
            if i < g5.edges@.len() {
                assert(g.edges@[i] == g5.edges@[i]);
            }
        }
        assert forall|i: int| 0 <= i < g0.edges@.len() implies #[trigger] g.edges@[i]
            == g0.edges@[i] by {
            assert(g1.edges@[i] == g0.edges@[i]);
            assert(g2.edges@[i] == g1.edges@[i]);
            assert(g3.edges@[i] == g2.edges@[i]);
            assert(g4.edges@[i] == g3.edges@[i]);
            assert(g5.edges@[i] == g4.edges@[i]);
            assert(g6.edges@[i] == g5.edges@[i]);
        }
        assert forall|i: int| g0.edges@.len() <= i < g.edges@.len() implies (#[trigger] g.edges@[i]).source
            == cur || g.edges@[i].source >= g0.nodes@.len() by {
            if i < g2.edges@.len() {
            } else if i < g3.edges@.len() {
                assert(g3.edges@[i] == g.edges@[i]);
            } else if i < g4.edges@.len() {
                assert(g4.edges@[i] == g.edges@[i]);
            } else if i < g5.edges@.len() {
                assert(g5.edges@[i] == g.edges@[i]);
            }
        }
        let fe = g.edges@;
        let k = g1.edges@.len() as int;
        assert(edge_prefix(g3.edges@, fe));
        assert(edge_prefix(g4.edges@, fe));
        assert(fe[k] == g2.edges@[k] && fe[k + 1] == g2.edges@[k + 1]);
        let tj = g5.edges@.len() as int;
        assert(fe[tj].source == thn_block && fe[tj].target == after);
        assert(fe[tj + 1].source == els_block && fe[tj + 1].target == after);
        lemma_reaches_extend(g3.edges@, fe, t0, thn_block);
        lemma_reaches_edge(fe, t0, thn_block, tj);
        lemma_reaches_extend(g4.edges@, fe, e0, els_block);
        lemma_reaches_edge(fe, e0, els_block, tj + 1);
        lemma_reaches_edge(fe, cur, cur, k);
        lemma_reaches_trans(fe, cur, t0, after);
        assert forall|f: int| 0 <= f < fe.len() && #[trigger] fe[f].target == after implies f == tj || f == tj + 1 by {
            if f < tj {
                assert(fe[f] == g4.edges@[f]);
                assert(g4.edges@[f].target < g4.nodes@.len());
            }
        }
        assert(joins_at(fe, k, after, tj, tj + 1));
        assert(branch_joins(fe, k));
        assert forall|i: int| g0.edges@.len() <= i < fe.len() && fe[i].weight is If implies #[trigger] branch_joins(fe, i) by {
            if i == k {
            } else if i == k + 1 {
                assert(fe[i] == g2.edges@[i]);
            } else if i < g3.edges@.len() {
                assert(fe[i] == g3.edges@[i]);
                assert(branch_joins(g3.edges@, i));
                assert forall|f: int| 0 <= f < g3.edges@.len() implies #[trigger] g3.edges@[f].target < g3.nodes@.len() by {}
                assert forall|f: int| g3.edges@.len() <= f < fe.len() implies #[trigger] fe[f].target >= g3.nodes@.len() by {
                    if f < g4.edges@.len() {
                        assert(fe[f] == g4.edges@[f]);
                    }
                }
                lemma_joins_extend(g3.edges@, fe, i, g3.nodes@.len());
            } else if i < g4.edges@.len() {
                assert(fe[i] == g4.edges@[i]);
                assert(branch_joins(g4.edges@, i));
                assert forall|f: int| 0 <= f < g4.edges@.len() implies #[trigger] g4.edges@[f].target < g4.nodes@.len() by {}
                lemma_joins_extend(g4.edges@, fe, i, g4.nodes@.len());
            } else {
                assert(i == tj || i == tj + 1);
            }
        }
        assert forall|f: int| g0.edges@.len() <= f < fe.len() implies #[trigger] fe[f].target >= g0.nodes@.len() by {
            if f < g2.edges@.len() {
            } else if f < g3.edges@.len() {
                assert(fe[f] == g3.edges@[f]);
            } else if f < g4.edges@.len() {
                assert(fe[f] == g4.edges@[f]);
            }
        }
        assert(step(&g0, g, cur, after));
        lemma_step_trans(ga, g0, *g, ca, cur, after);
    }
    *current = after;
    Ok(Atom::Var(var))
}

proof fn lemma_step_refl(g: Cfg, c: usize)
    requires
        step(&g, &g, c, c),
    ensures
        step(&g, &g, c, c),
{
}

proof fn lemma_step_trans(a: Cfg, b: Cfg, c: Cfg, c0: usize, c1: usize, c2: usize)
    requires
        step(&a, &b, c0, c1),
        step(&b, &c, c1, c2),
    ensures
        step(&a, &c, c0, c2),
{
    assert forall|i: int| 0 <= i < a.edges@.len() implies #[trigger] c.edges@[i] == a.edges@[i] by {
        assert(b.edges@[i] == a.edges@[i]);
    }
    assert(edge_prefix(b.edges@, c.edges@));
    lemma_reaches_extend(b.edges@, c.edges@, c0, c1);
    lemma_reaches_trans(c.edges@, c0, c1, c2);
    assert forall|i: int| a.edges@.len() <= i < c.edges@.len() && c.edges@[i].weight is If implies #[trigger] branch_joins(
        c.edges@,
        i,
    ) by {
        if i < b.edges@.len() {
            assert(b.edges@[i] == c.edges@[i]);
            assert(branch_joins(b.edges@, i));
            assert forall|f: int| 0 <= f < b.edges@.len() implies #[trigger] b.edges@[f].target < b.nodes@.len() by {}
            lemma_joins_extend(b.edges@, c.edges@, i, b.nodes@.len());
        }
    }
    assert forall|i: int| a.edges@.len() <= i < c.edges@.len() implies #[trigger] c.edges@[i].target >= a.nodes@.len() by {
        if i < b.edges@.len() {
            assert(b.edges@[i] == c.edges@[i]);
        }
    }
}

/// Adding an unconditional edge from a block without outgoing edges to a later one
/// keeps the graph well formed.
proof fn lemma_add_jump(g1: Cfg, g: Cfg, b: usize, t: usize)
    requires
        well_formed(&g1),
        !g1.has_out(b as int),
        b < t < g1.nodes@.len(),
        g.nodes@ == g1.nodes@,
        g.edges@ == g1.edges@.push(Edge { source: b, target: t, weight: Jmp::Unconditional }),
    ensures
        well_formed(&g),
        g.extends(&g1),
{
    reveal(branch_shaped);
    let n = g1.edges@.len() as int;
    assert forall|i: int| 0 <= i < n implies (#[trigger] g1.edges@[i]).source != b by {}
    assert forall|i: int| 0 <= i < n implies #[trigger] g.edges@[i] == g1.edges@[i] by {}
    assert forall|i: int| 0 <= i < g.edges@.len() implies match (#[trigger] g.edges@[i]).weight {
        Jmp::Unconditional => forall|j: int|
            0 <= j < g.edges@.len() && j != i ==> g.edges@[j].source != g.edges@[i].source,
        Jmp::If(c) => {
            &&& i + 1 < g.edges@.len()
            &&& g.edges@[i + 1].source == g.edges@[i].source
            &&& g.edges@[i + 1].weight == Jmp::Unless(c)
            &&& forall|j: int|
                0 <= j < g.edges@.len() && j != i && j != i + 1 ==> g.edges@[j].source
                    != g.edges@[i].source
        },
        Jmp::Unless(c) => {
            &&& i >= 1
            &&& g.edges@[i - 1].source == g.edges@[i].source
            &&& g.edges@[i - 1].weight == Jmp::If(c)
        },
    } by {
        if i < n {
            if i + 1 < n {
                assert(g.edges@[i + 1] == g1.edges@[i + 1]);
            }
            if i >= 1 {
                assert(g.edges@[i - 1] == g1.edges@[i - 1]);
            }
        }
    }
}

proof fn lemma_add_branch(g1: Cfg, g: Cfg, cur: usize)
    requires
        well_formed(&g1),
        !g1.has_out(cur as int),
        cur < g1.nodes@.len() - 2,
        g.nodes@ == g1.nodes@,
        g.edges@.len() == g1.edges@.len() + 2,
        forall|i: int| 0 <= i < g1.edges@.len() ==> #[trigger] g.edges@[i] == g1.edges@[i],
        g.edges@[g1.edges@.len() as int].source == cur,
        g.edges@[g1.edges@.len() as int + 1].source == cur,
        g.edges@[g1.edges@.len() as int].target == g1.nodes@.len() - 2,
        g.edges@[g1.edges@.len() as int + 1].target == g1.nodes@.len() - 1,
        g.edges@[g1.edges@.len() as int].weight is If,
        g.edges@[g1.edges@.len() as int + 1].weight == Jmp::Unless(g.edges@[g1.edges@.len() as int].weight->If_0),
    ensures
        well_formed(&g),
{
    reveal(branch_shaped);
    let n = g1.edges@.len() as int;
    assert forall|i: int| 0 <= i < n implies (#[trigger] g1.edges@[i]).source != cur by {}
    assert forall|i: int| 0 <= i < g.edges@.len() implies match (#[trigger] g.edges@[i]).weight {
        Jmp::Unconditional => forall|j: int|
            0 <= j < g.edges@.len() && j != i ==> g.edges@[j].source != g.edges@[i].source,
        Jmp::If(c) => {
            &&& i + 1 < g.edges@.len()
            &&& g.edges@[i + 1].source == g.edges@[i].source
            &&& g.edges@[i + 1].weight == Jmp::Unless(c)
            &&& forall|j: int|
                0 <= j < g.edges@.len() && j != i && j != i + 1 ==> g.edges@[j].source
                    != g.edges@[i].source
        },
        Jmp::Unless(c) => {
            &&& i >= 1
            &&& g.edges@[i - 1].source == g.edges@[i].source
            &&& g.edges@[i - 1].weight == Jmp::If(c)
        },
    } by {
        if i < n {
            assert(g.edges@[i] == g1.edges@[i]);
            if i + 1 < n {
                assert(g.edges@[i + 1] == g1.edges@[i + 1]);
            }
            if i >= 1 {
                assert(g.edges@[i - 1] == g1.edges@[i - 1]);
            }
            assert forall|j: int| 0 <= j < g.edges@.len() && j >= n implies g.edges@[j].source
                != g.edges@[i].source by {}
        }
    }
}

fn linearize_branch(
    var_factory: &mut VarFactory,
    g: &mut Cfg,
    current: &mut usize,
    var: Var,
    expr: &prev::Expr,
) -> (r: Result<(), CompileError>)
    requires
        step(old(g), old(g), *old(current), *old(current)),
    ensures
        r is Ok ==> step(old(g), final(g), *old(current), *final(current)),
        r is Err ==> r->Err_0 == CompileError::TooManyVariables && !final(var_factory).can_issue(),
        final(var_factory).next_id() >= old(var_factory).next_id(),
        old(var_factory).next_id() + expr_temps(*expr) <= u32::MAX ==> r is Ok,
        r is Ok ==> final(var_factory).next_id() == old(var_factory).next_id() + expr_temps(*expr),
    decreases expr, 2nat,
{
    let atm = linearize_expr(var_factory, g, current, expr)?;
    push_stmt(g, *current, Statement::Assign { var, expr: Expr::Atom(atm) });
    Ok(())
}

fn linearize_binary(
    var_factory: &mut VarFactory,
    g: &mut Cfg,
    current: &mut usize,
    expr: &prev::Expr,
) -> (r: Result<Atom, CompileError>)
    requires
        step(old(g), old(g), *old(current), *old(current)),
        expr is Plus || expr is Minus || expr is Times || expr is Divide || expr is Eq,
    ensures
        r is Ok ==> step(old(g), final(g), *old(current), *final(current)),
        r is Err ==> r->Err_0 == CompileError::TooManyVariables && !final(var_factory).can_issue(),
        r is Ok ==> yields(*expr, r->Ok_0, old(var_factory).next_id(), final(var_factory).next_id()),
        final(var_factory).next_id() >= old(var_factory).next_id(),
        r is Ok && flat(*expr) ==> *final(current) == *old(current) && appended(
            old(g),
            final(g),
            *old(current),
            lowered(*expr, old(var_factory).next_id()).0,
        ) && r->Ok_0 == lowered(*expr, old(var_factory).next_id()).1 && final(var_factory).next_id() == lowered(
            *expr,
            old(var_factory).next_id(),
        ).2,
        old(var_factory).next_id() + expr_temps(*expr) <= u32::MAX ==> r is Ok,
        r is Ok ==> final(var_factory).next_id() == old(var_factory).next_id() + expr_temps(*expr),
    decreases expr, 0nat,
{
    let (op, left, right) = match expr {
        prev::Expr::Plus { left, right } => (Some(Op::Plus), left, right),
        prev::Expr::Minus { left, right } => (Some(Op::Minus), left, right),
        prev::Expr::Times { left, right } => (Some(Op::Times), left, right),
        prev::Expr::Divide { left, right } => (Some(Op::Divide), left, right),
        prev::Expr::Eq { left, right } => (None, left, right),
        _ => {
            return Err(CompileError::Internal);
        },
    };
    let ghost lexpr = **left;
    let ghost rexpr = **right;
    let ghost ga = *g;
    let ghost ca = *current;
    let ghost n0 = var_factory.next_id();
    let left = linearize_expr(var_factory, g, current, left)?;
    let ghost gb = *g;
    let ghost cb = *current;
    let ghost n1 = var_factory.next_id();
    let right = linearize_expr(var_factory, g, current, right)?;
    proof {
        lemma_step_trans(ga, gb, *g, ca, cb, *current);
    }
    let ghost gc = *g;
    let ghost n2 = var_factory.next_id();
    if var_factory.exhausted() {
        return Err(CompileError::TooManyVariables);
    }
    let var = var_factory.tmp();
    let e = match op {
        Some(op) => Expr::Binary { op, left, right },
        None => Expr::Cmp { cmp: Cmp::Eq, left, right },
    };
    let ghost asg = Statement::Assign { var: var, expr: e };
    push_stmt(g, *current, Statement::Assign { var: var.dup(), expr: e });
    proof {
        if flat(*expr) {
            assert(flat(lexpr) && flat(rexpr));
            let (sl, al, m1) = lowered(lexpr, n0);
            let (sr, ar, m2) = lowered(rexpr, n1);
            assert(m1 == n1 && m2 == n2);
            assert(var == temp(n2));
            assert(lowered(*expr, n0) == (sl + sr + seq![asg], Atom::Var(temp(n2)), n2 + 1));
            assert(g.nodes@[ca as int].stmts@ =~= ga.nodes@[ca as int].stmts@ + (sl + sr + seq![asg]));
        }
    }
    Ok(Atom::Var(var))
}

} // verus!
