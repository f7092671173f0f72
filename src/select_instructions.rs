//! Rewrites three-address statements into scoreboard instructions.
use vstd::prelude::*;
use crate::cfg::{Edge, BlockGraph};
use crate::error::CompileError;
use crate::linearize::{self as prev, Atom, Cmp, Test};
use crate::utility::append;
use crate::var::{Var, VarFactory};

verus! {

pub type Cfg = BlockGraph<Block, Jmp>;

pub struct Program {
    pub blocks: Cfg,
    pub tests: Vec<Test>,
}

#[derive(Debug, Clone, PartialEq, Eq)]
pub struct Block {
    pub instrs: Vec<Instruction>,
}

#[derive(Debug, Clone, PartialEq, Eq)]
pub enum Jmp {
    ExecuteIfScoreMatchesFunction { var: Var, value: i64, block: usize },
    ExecuteUnlessScoreMatchesFunction { var: Var, value: i64, block: usize },
    ExecuteIfScoreEqualsFunction { a: Var, b: Var, block: usize },
    ExecuteUnlessScoreEqualsFunction { a: Var, b: Var, block: usize },
    Function { block: usize },
}

#[derive(Debug, Clone, PartialEq, Eq)]
pub enum Instruction {
    SetScore { var: Var, value: i64 },
    Operation { op: Op, source: Var, destination: Var },
    Tellraw { text: String },
    Command { text: String },
    ExecuteIfScoreMatchesSet { var: Var, value: i64, set_var: Var, set_value: i64 },
    ExecuteUnlessScoreMatchesSet { var: Var, value: i64, set_var: Var, set_value: i64 },
    ExecuteIfScoreEqualsSet { a: Var, b: Var, set_var: Var, set_value: i64 },
    ExecuteUnlessScoreEqualsSet { a: Var, b: Var, set_var: Var, set_value: i64 },
}

#[derive(PartialEq, Eq, Debug, Clone, Copy, Structural)]
pub enum Op {
    Equals,
    PlusEquals,
    MinusEquals,
    TimesEquals,
    DivideEquals,
}

impl Op {
    /// The operator as the command language writes it.
    pub fn symbol(&self) -> (r: &'static str)
        ensures
            r@ == op_symbol(*self),
    {
        match self {
            Op::Equals => "=",
            Op::PlusEquals => "+=",
            Op::MinusEquals => "-=",
            Op::TimesEquals => "*=",
            Op::DivideEquals => "/=",
        }
    }
}

pub open spec fn op_symbol(op: Op) -> Seq<char> {
    match op {
        Op::Equals => "="@,
        Op::PlusEquals => "+="@,
        Op::MinusEquals => "-="@,
        Op::TimesEquals => "*="@,
        Op::DivideEquals => "/="@,
    }
}

/// The compound assignment of an arithmetic operator.
pub open spec fn assign_op(op: prev::Op) -> Op {
    match op {
        prev::Op::Plus => Op::PlusEquals,
        prev::Op::Minus => Op::MinusEquals,
        prev::Op::Times => Op::TimesEquals,
        prev::Op::Divide => Op::DivideEquals,
    }
}

fn op_assign(op: prev::Op) -> (r: Op)
    ensures
        r == assign_op(op),
{
    match op {
        prev::Op::Plus => Op::PlusEquals,
        prev::Op::Minus => Op::MinusEquals,
        prev::Op::Times => Op::TimesEquals,
        prev::Op::Divide => Op::DivideEquals,
    }
}

/// The score that a literal stands for: an integer itself, a boolean as 1 or 0.
pub open spec fn literal_score(a: Atom) -> Option<i64> {
    match a {
        Atom::LitInt(i) => Some(i),
        Atom::LitBool(b) => Some(if b { 1i64 } else { 0i64 }),
        _ => None,
    }
}

/// Two literals of the same type, and whether they are equal.
pub open spec fn literal_equality(l: Atom, r: Atom) -> Option<bool> {
    match (l, r) {
        (Atom::LitInt(a), Atom::LitInt(b)) => Some(a == b),
        (Atom::LitBool(a), Atom::LitBool(b)) => Some(a == b),
        _ => None,
    }
}

/// A variable compared with a literal, in either order: the variable and the score.
pub open spec fn var_against_literal(l: Atom, r: Atom) -> Option<(Var, i64)> {
    match (l, r) {
        (Atom::Var(v), a) => if literal_score(a) is Some {
            Some((v, literal_score(a)->0))
        } else {
            None
        },
        (a, Atom::Var(v)) => if literal_score(a) is Some {
            Some((v, literal_score(a)->0))
        } else {
            None
        },
        _ => None,
    }
}

/// The jump that an edge into `block` becomes: `None` where its condition is a type
/// error, `Some(None)` where the condition is constantly false and the edge goes.
pub open spec fn selected_jmp(jmp: prev::Jmp, block: usize) -> Option<Option<Jmp>> {
    match jmp {
        prev::Jmp::Unconditional => Some(Some(Jmp::Function { block })),
        prev::Jmp::If(c) => selected_branch(c, true, block),
        prev::Jmp::Unless(c) => selected_branch(c, false, block),
    }
}

/// The jump taken when `c` holds (`when`) or when it does not (`!when`).
pub open spec fn selected_branch(c: prev::Condition, when: bool, block: usize) -> Option<Option<Jmp>> {
    match c {
        prev::Condition::Atm(Atom::LitBool(b)) => Some(
            if b == when {
                Some(Jmp::Function { block })
            } else {
                None
            },
        ),
        prev::Condition::Atm(Atom::Var(v)) => Some(Some(guarded_matches(v, 1, when, block))),
        prev::Condition::Atm(_) => None,
        prev::Condition::Cmp { cmp: Cmp::Eq, left, right } => if literal_equality(left, right) is Some {
            Some(
                if literal_equality(left, right)->0 == when {
                    Some(Jmp::Function { block })
                } else {
                    None
                },
            )
        } else if var_against_literal(left, right) is Some {
            let (v, k) = var_against_literal(left, right)->0;
            Some(Some(guarded_matches(v, k, when, block)))
        } else {
            match (left, right) {
                (Atom::Var(a), Atom::Var(b)) => Some(
                    Some(
                        if when {
                            Jmp::ExecuteIfScoreEqualsFunction { a, b, block }
                        } else {
                            Jmp::ExecuteUnlessScoreEqualsFunction { a, b, block }
                        },
                    ),
                ),
                _ => None,
            }
        },
    }
}

pub open spec fn guarded_matches(var: Var, value: i64, when: bool, block: usize) -> Jmp {
    if when {
        Jmp::ExecuteIfScoreMatchesFunction { var, value, block }
    } else {
        Jmp::ExecuteUnlessScoreMatchesFunction { var, value, block }
    }
}

/// What loads the left operand of an arithmetic assignment into `var`.
pub open spec fn load(var: Var, a: Atom) -> Option<Instruction> {
    match a {
        Atom::Var(u) => Some(Instruction::Operation { op: Op::Equals, source: u, destination: var }),
        _ => if literal_score(a) is Some {
            Some(Instruction::SetScore { var, value: literal_score(a)->0 })
        } else {
            None
        },
    }
}

/// `out` is what the statement `stmt` becomes, a fresh temporary `tmp` standing
/// for a literal right operand.
pub open spec fn selects(stmt: prev::Statement, tmp: Var, out: Seq<Instruction>) -> bool {
    match stmt {
        prev::Statement::TellOk { test_name } => out.len() == 1 && out[0] is Tellraw
            && out[0]->Tellraw_text@ == "ok - "@ + test_name@,
        prev::Statement::TellNotOk { test_name } => out.len() == 1 && out[0] is Tellraw
            && out[0]->Tellraw_text@ == "not ok - "@ + test_name@,
        prev::Statement::Command { text } => out == seq![Instruction::Command { text }],
        prev::Statement::Assign { var, expr: prev::Expr::Atom(a) } => match a {
            Atom::LitUnit => out.len() == 0,
            Atom::Var(u) => out == seq![
                Instruction::Operation { op: Op::Equals, source: u, destination: var },
            ],
            _ => out == seq![Instruction::SetScore { var, value: literal_score(a)->0 }],
        },
        prev::Statement::Assign { var, expr: prev::Expr::Cmp { cmp: Cmp::Eq, left, right } } =>
            if literal_equality(left, right) is Some {
            out == seq![
                Instruction::SetScore {
                    var,
                    value: if literal_equality(left, right)->0 { 1i64 } else { 0i64 },
                },
            ]
        } else if var_against_literal(left, right) is Some {
            let (v, k) = var_against_literal(left, right)->0;
            out == seq![
                Instruction::ExecuteIfScoreMatchesSet { var: v, value: k, set_var: var, set_value: 1 },
                Instruction::ExecuteUnlessScoreMatchesSet { var: v, value: k, set_var: var, set_value: 0 },
            ]
        } else {
            match (left, right) {
                (Atom::Var(a), Atom::Var(b)) => out == seq![
                    Instruction::ExecuteIfScoreEqualsSet { a, b, set_var: var, set_value: 1 },
                    Instruction::ExecuteUnlessScoreEqualsSet { a, b, set_var: var, set_value: 0 },
                ],
                _ => false,
            }
        },
        prev::Statement::Assign { var, expr: prev::Expr::Binary { op, left, right } } => {
            &&& load(var, left) is Some
            &&& match right {
                Atom::Var(u) => out == seq![
                    load(var, left)->0,
                    Instruction::Operation { op: assign_op(op), source: u, destination: var },
                ],
                _ => literal_score(right) is Some && out == seq![
                    load(var, left)->0,
                    Instruction::SetScore { var: tmp, value: literal_score(right)->0 },
                    Instruction::Operation { op: assign_op(op), source: tmp, destination: var },
                ],
            }
        },
    }
}

/// The statement is arithmetic with a literal right operand, which takes a temporary.
pub open spec fn takes_temporary(stmt: prev::Statement) -> bool {
    match stmt {
        prev::Statement::Assign { expr: prev::Expr::Binary { right, .. }, .. } => !(right is Var),
        _ => false,
    }
}

/// The statement is well typed: no unit in arithmetic or comparisons, and
/// comparisons between literals of one type.
pub open spec fn selectable(stmt: prev::Statement) -> bool {
    match stmt {
        prev::Statement::Assign { expr: prev::Expr::Cmp { left, right, .. }, .. } =>
            literal_equality(left, right) is Some || var_against_literal(left, right) is Some || (
            left is Var && right is Var),
        prev::Statement::Assign { var, expr: prev::Expr::Binary { left, right, .. } } =>
            load(var, left) is Some && (right is Var || literal_score(right) is Some),
        _ => true,
    }
}

fn one(i: Instruction) -> (r: Vec<Instruction>)
    ensures
        r@ == seq![i],
{
    let mut v: Vec<Instruction> = Vec::new();
    v.push(i);
    assert(v@ =~= seq![i]);
    v
}

fn score(b: bool) -> (r: i64)
    ensures
        r == (if b { 1i64 } else { 0i64 }),
{
    if b { 1 } else { 0 }
}

/// The score of a literal atom, if it is one.
fn literal(a: &Atom) -> (r: Option<i64>)
    ensures
        r == literal_score(*a),
{
    match a {
        Atom::LitInt(i) => Some(*i),
        Atom::LitBool(b) => Some(score(*b)),
        _ => None,
    }
}

fn tell(prefix: &str, test_name: &String) -> (r: Instruction)
    ensures
        r is Tellraw,
        r->Tellraw_text@ == prefix@ + test_name@,
{
    let mut text = String::from_str(prefix);
    append(&mut text, test_name.as_str());
    Instruction::Tellraw { text }
}

pub fn select_instructions_stmt(stmt: prev::Statement, var_factory: &mut VarFactory) -> (r: Result<
    Vec<Instruction>,
    CompileError,
>)
    ensures
        r is Ok ==> selects(
            stmt,
            Var { name: None, id: old(var_factory).next_id() as u32 },
            r->Ok_0@,
        ),
        r is Ok ==> selectable(stmt),
        !selectable(stmt) ==> r == Err::<Vec<Instruction>, CompileError>(CompileError::TypeError),
        r is Err ==> !selectable(stmt) || (!old(var_factory).can_issue() && takes_temporary(stmt)),
        r is Err ==> r->Err_0 == CompileError::TypeError || r->Err_0 == CompileError::TooManyVariables,
        r == Err::<Vec<Instruction>, CompileError>(CompileError::TypeError) ==> !selectable(stmt),
        r is Ok ==> final(var_factory).next_id() == old(var_factory).next_id() + if takes_temporary(stmt) {
            1nat
        } else {
            0nat
        },
        final(var_factory).next_id() >= old(var_factory).next_id(),
{
    match stmt {
        prev::Statement::TellOk { test_name } => {
            Ok(one(tell("ok - ", &test_name)))
        },
        prev::Statement::TellNotOk { test_name } => {
            Ok(one(tell("not ok - ", &test_name)))
        },
        prev::Statement::Command { text } => Ok(one(Instruction::Command { text })),
        prev::Statement::Assign { var, expr: prev::Expr::Atom(a) } => match a {
            Atom::LitUnit => Ok(Vec::new()),
            Atom::Var(u) => Ok(one(Instruction::Operation { op: Op::Equals, source: u, destination: var })),
            Atom::LitInt(value) => Ok(one(Instruction::SetScore { var, value })),
            Atom::LitBool(b) => Ok(one(Instruction::SetScore { var, value: score(b) })),
        },
        prev::Statement::Assign { var, expr: prev::Expr::Cmp { cmp: Cmp::Eq, left, right } } => select_cmp(var, left, right),
        prev::Statement::Assign { var, expr: prev::Expr::Binary { op, left, right } } => select_binary(var, op, left, right, var_factory),
    }
}

fn select_cmp(var: Var, left: Atom, right: Atom) -> (r: Result<Vec<Instruction>, CompileError>)
    ensures
        r is Ok ==> selects(
            prev::Statement::Assign { var, expr: prev::Expr::Cmp { cmp: Cmp::Eq, left, right } },
            var,
            r->Ok_0@,
        ),
        r is Ok <==> selectable(prev::Statement::Assign { var, expr: prev::Expr::Cmp { cmp: Cmp::Eq, left, right } }),
        r is Err ==> r->Err_0 == CompileError::TypeError,
{
    match (left, right) {
        (Atom::LitInt(a), Atom::LitInt(b)) => Ok(one(Instruction::SetScore { var, value: score(a == b) })),
        (Atom::LitBool(a), Atom::LitBool(b)) => Ok(one(Instruction::SetScore { var, value: score(a == b) })),
        (Atom::Var(a), Atom::Var(b)) => Ok(
            vec![
                Instruction::ExecuteIfScoreEqualsSet { a: a.dup(), b: b.dup(), set_var: var.dup(), set_value: 1 },
                Instruction::ExecuteUnlessScoreEqualsSet { a, b, set_var: var, set_value: 0 },
            ],
        ),
        (Atom::Var(v), other) => match literal(&other) {
            Some(k) => Ok(
                vec![
                    Instruction::ExecuteIfScoreMatchesSet { var: v.dup(), value: k, set_var: var.dup(), set_value: 1 },
                    Instruction::ExecuteUnlessScoreMatchesSet { var: v, value: k, set_var: var, set_value: 0 },
                ],
            ),
            None => Err(CompileError::TypeError),
        },
        (other, Atom::Var(v)) => match literal(&other) {
            Some(k) => Ok(
                vec![
                    Instruction::ExecuteIfScoreMatchesSet { var: v.dup(), value: k, set_var: var.dup(), set_value: 1 },
                    Instruction::ExecuteUnlessScoreMatchesSet { var: v, value: k, set_var: var, set_value: 0 },
                ],
            ),
            None => Err(CompileError::TypeError),
        },
        _ => Err(CompileError::TypeError),
    }
}

fn select_binary(var: Var, op: prev::Op, left: Atom, right: Atom, var_factory: &mut VarFactory) -> (r: Result<Vec<Instruction>, CompileError>)
    ensures
        r is Ok ==> selects(
            prev::Statement::Assign { var, expr: prev::Expr::Binary { op, left, right } },
            Var { name: None, id: old(var_factory).next_id() as u32 },
            r->Ok_0@,
        ),
        r is Ok ==> selectable(prev::Statement::Assign { var, expr: prev::Expr::Binary { op, left, right } }),
        !selectable(prev::Statement::Assign { var, expr: prev::Expr::Binary { op, left, right } }) ==> r == Err::<Vec<Instruction>, CompileError>(CompileError::TypeError),
        r is Err ==> !selectable(prev::Statement::Assign { var, expr: prev::Expr::Binary { op, left, right } }) || (
        !old(var_factory).can_issue() && !(right is Var)),
        r is Err ==> r->Err_0 == CompileError::TypeError || r->Err_0 == CompileError::TooManyVariables,
        r == Err::<Vec<Instruction>, CompileError>(CompileError::TypeError) ==> !selectable(prev::Statement::Assign { var, expr: prev::Expr::Binary { op, left, right } }),
        r is Ok ==> final(var_factory).next_id() == old(var_factory).next_id() + if right is Var {
            0nat
        } else {
            1nat
        },
        final(var_factory).next_id() >= old(var_factory).next_id(),
{
    let first = match left {
        Atom::Var(u) => Instruction::Operation { op: Op::Equals, source: u, destination: var.dup() },
        other => match literal(&other) {
            Some(k) => Instruction::SetScore { var: var.dup(), value: k },
            None => {
                return Err(CompileError::TypeError);
            },
        },
    };
    match right {
        Atom::Var(u) => Ok(
            vec![first, Instruction::Operation { op: op_assign(op), source: u, destination: var }],
        ),
        other => match literal(&other) {
            Some(k) => {
                if var_factory.exhausted() {
                    return Err(CompileError::TooManyVariables);
                }
                let t = var_factory.tmp();
                Ok(
                    vec![
                        first,
                        Instruction::SetScore { var: t.dup(), value: k },
                        Instruction::Operation { op: op_assign(op), source: t, destination: var },
                    ],
                )
            },
            None => Err(CompileError::TypeError),
        },
    }
}

/// The jump that a graph edge into `block` becomes, or `None` where it can never be taken.
pub fn select_instructions_jmp(jmp: &prev::Jmp, block: usize) -> (r: Result<Option<Jmp>, CompileError>)
    ensures
        r is Ok <==> selected_jmp(*jmp, block) is Some,
        r is Ok ==> r->Ok_0 == selected_jmp(*jmp, block)->0,
        r is Err ==> r->Err_0 == CompileError::TypeError,
{
    match jmp {
        prev::Jmp::Unconditional => Ok(Some(Jmp::Function { block })),
        prev::Jmp::If(c) => select_branch(c, true, block),
        prev::Jmp::Unless(c) => select_branch(c, false, block),
    }
}

fn matches_jmp(var: Var, value: i64, when: bool, block: usize) -> (r: Jmp)
    ensures
        r == guarded_matches(var, value, when, block),
{
    if when {
        Jmp::ExecuteIfScoreMatchesFunction { var, value, block }
    } else {
        Jmp::ExecuteUnlessScoreMatchesFunction { var, value, block }
    }
}

fn select_branch(c: &prev::Condition, when: bool, block: usize) -> (r: Result<Option<Jmp>, CompileError>)
    ensures
        r is Ok <==> selected_branch(*c, when, block) is Some,
        r is Ok ==> r->Ok_0 == selected_branch(*c, when, block)->0,
        r is Err ==> r->Err_0 == CompileError::TypeError,
{
    match c {
        prev::Condition::Atm(Atom::LitBool(b)) => Ok(
            if *b == when {
                Some(Jmp::Function { block })
            } else {
                None
            },
        ),
        prev::Condition::Atm(Atom::Var(v)) => Ok(Some(matches_jmp(v.dup(), 1, when, block))),
        prev::Condition::Atm(_) => Err(CompileError::TypeError),
        prev::Condition::Cmp { cmp: Cmp::Eq, left, right } => match (left, right) {
            (Atom::LitInt(a), Atom::LitInt(b)) => Ok(
                if (*a == *b) == when {
                    Some(Jmp::Function { block })
                } else {
                    None
                },
            ),
            (Atom::LitBool(a), Atom::LitBool(b)) => Ok(
                if (*a == *b) == when {
                    Some(Jmp::Function { block })
                } else {
                    None
                },
            ),
            (Atom::Var(a), Atom::Var(b)) => Ok(
                Some(
                    if when {
                        Jmp::ExecuteIfScoreEqualsFunction { a: a.dup(), b: b.dup(), block }
                    } else {
                        Jmp::ExecuteUnlessScoreEqualsFunction { a: a.dup(), b: b.dup(), block }
                    },
                ),
            ),
            (Atom::Var(v), other) => match literal(other) {
                Some(k) => Ok(Some(matches_jmp(v.dup(), k, when, block))),
                None => Err(CompileError::TypeError),
            },
            (other, Atom::Var(v)) => match literal(other) {
                Some(k) => Ok(Some(matches_jmp(v.dup(), k, when, block))),
                None => Err(CompileError::TypeError),
            },
            _ => Err(CompileError::TypeError),
        },
    }
}

} // verus!

verus! {

/// The statement became `part`, with some fresh temporary.
pub open spec fn selected_part(stmt: prev::Statement, part: Seq<Instruction>) -> bool {
    exists|id: u32| selects(stmt, Var { name: None, id }, part)
}

/// The instructions of the parts, one part after the other.
pub open spec fn concat_all(parts: Seq<Seq<Instruction>>) -> Seq<Instruction>
    decreases parts.len(),
{
    if parts.len() == 0 {
        Seq::empty()
    } else {
        concat_all(parts.drop_last()) + parts.last()
    }
}

/// `instrs` is what the statements become, statement by statement.
pub open spec fn selects_block(stmts: Seq<prev::Statement>, instrs: Seq<Instruction>) -> bool {
    exists|parts: Seq<Seq<Instruction>>|
        parts.len() == stmts.len() && instrs == concat_all(parts) && forall|i: int|
            0 <= i < stmts.len() ==> #[trigger] selected_part(stmts[i], parts[i])
}

/// Every statement of the block is well typed.
pub open spec fn block_selectable(b: prev::Block) -> bool {
    forall|k: int| 0 <= k < b.stmts@.len() ==> selectable(#[trigger] b.stmts@[k])
}

/// Every statement is well typed and every edge's condition is.
pub open spec fn program_selectable(p: prev::Program) -> bool {
    &&& forall|b: int| 0 <= b < p.blocks.nodes@.len() ==> block_selectable(#[trigger] p.blocks.nodes@[b])
    &&& forall|e: int|
        0 <= e < p.blocks.edges@.len() ==> selected_jmp(
            (#[trigger] p.blocks.edges@[e]).weight,
            p.blocks.edges@[e].target,
        ) is Some
}

/// How many temporaries the statements take: one per literal right operand.
pub open spec fn stmts_temps(stmts: Seq<prev::Statement>) -> nat
    decreases stmts.len(),
{
    if stmts.len() == 0 {
        0
    } else {
        stmts_temps(stmts.drop_last()) + if takes_temporary(stmts.last()) { 1nat } else { 0nat }
    }
}

/// How many temporaries the blocks take.
pub open spec fn blocks_temps(blocks: Seq<prev::Block>) -> nat
    decreases blocks.len(),
{
    if blocks.len() == 0 {
        0
    } else {
        blocks_temps(blocks.drop_last()) + stmts_temps(blocks.last().stmts@)
    }
}

proof fn lemma_stmts_temps_prefix(s: Seq<prev::Statement>, k: int)
    requires
        0 <= k <= s.len(),
    ensures
        stmts_temps(s.take(k)) <= stmts_temps(s),
    decreases s.len() - k,
{
    if k < s.len() {
        lemma_stmts_temps_prefix(s, k + 1);
        assert(s.take(k + 1).drop_last() =~= s.take(k));
    } else {
        assert(s.take(k) =~= s);
    }
}

proof fn lemma_blocks_temps_prefix(s: Seq<prev::Block>, k: int)
    requires
        0 <= k <= s.len(),
    ensures
        blocks_temps(s.take(k)) <= blocks_temps(s),
    decreases s.len() - k,
{
    if k < s.len() {
        lemma_blocks_temps_prefix(s, k + 1);
        assert(s.take(k + 1).drop_last() =~= s.take(k));
    } else {
        assert(s.take(k) =~= s);
    }
}

fn select_instructions_block(block: prev::Block, var_factory: &mut VarFactory) -> (r: Result<
    Block,
    CompileError,
>)
    ensures
        block_selectable(block) && old(var_factory).next_id() + stmts_temps(block.stmts@) <= u32::MAX ==> r is Ok,
        r is Ok ==> final(var_factory).next_id() == old(var_factory).next_id() + stmts_temps(block.stmts@),
        r is Ok ==> selects_block(block.stmts@, r->Ok_0.instrs@),
        r is Err ==> r->Err_0 == CompileError::TooManyVariables || !block_selectable(block),
        r is Err ==> r->Err_0 == CompileError::TooManyVariables || r->Err_0 == CompileError::TypeError,
{
    let prev::Block { stmts } = block;
    let ghost input = stmts@;
    let mut rest = crate::seqs::into_reversed(stmts);
    let mut instrs: Vec<Instruction> = Vec::new();
    let ghost mut parts: Seq<Seq<Instruction>> = Seq::empty();
    while rest.len() > 0
        invariant
            input == block.stmts@,
            parts.len() + rest@.len() == input.len(),
            var_factory.next_id() == old(var_factory).next_id() + stmts_temps(input.take(parts.len() as int)),
            forall|k: int| 0 <= k < rest@.len() ==> #[trigger] rest@[k] == input[input.len() - 1 - k],
            instrs@ == concat_all(parts),
            forall|i: int| 0 <= i < parts.len() ==> #[trigger] selected_part(input[i], parts[i]),
        decreases rest.len(),
    {
        let ghost k = parts.len() as int;
        let stmt = rest.pop().unwrap();
        assert(stmt == input[k]);
        let ghost id = var_factory.next_id() as u32;
        proof {
            assert(input.take(k + 1).drop_last() =~= input.take(k));
            lemma_stmts_temps_prefix(input, k + 1);
            if block_selectable(block) {
                assert(selectable(input[k]));
            }
        }
        let res = select_instructions_stmt(stmt, var_factory);
        let mut part = match res {
            Ok(p) => p,
            Err(e) => {
                proof {
                    if e != CompileError::TooManyVariables {
                        assert(!selectable(input[k]));
                        assert(!block_selectable(block));
                    }
                }
                return Err(e);
            },
        };
        let ghost p = part@;
        assert(selects(input[k], Var { name: None, id }, p));
        instrs.append(&mut part);
        proof {
            let old_parts = parts;
            parts = parts.push(p);
            assert(parts.drop_last() =~= old_parts);
            assert(selected_part(input[k], parts[k]));
            assert forall|i: int| 0 <= i < parts.len() implies #[trigger] selected_part(input[i], parts[i]) by {
                if i < k {
                    assert(parts[i] == old_parts[i]);
                }
            }
        }
    }
    proof {
        assert(input.take(input.len() as int) =~= input);
    }
    Ok(Block { instrs })
}

/// The edges of `new` are edges of `old` with their jumps selected, in order; an edge of
/// `old` whose jump can never be taken is gone.
pub open spec fn selects_edges(old: Seq<Edge<prev::Jmp>>, new: Seq<Edge<Jmp>>) -> bool {
    forall|j: int|
        0 <= j < new.len() ==> exists|i: int|
            0 <= i < old.len() && old[i].source == (#[trigger] new[j]).source && old[i].target
                == new[j].target && selected_jmp(old[i].weight, old[i].target) == Some(
                Some(new[j].weight),
            )
}

/// Selects target instructions for every block and every edge of the graph.
pub fn select_instructions(program: prev::Program) -> (r: Result<Program, CompileError>)
    ensures
        r is Ok ==> r->Ok_0.blocks.nodes@.len() == program.blocks.nodes@.len(),
        r is Ok ==> forall|b: int|
            0 <= b < r->Ok_0.blocks.nodes@.len() ==> selects_block(
                program.blocks.nodes@[b].stmts@,
                (#[trigger] r->Ok_0.blocks.nodes@[b]).instrs@,
            ),
        r is Ok ==> selects_edges(program.blocks.edges@, r->Ok_0.blocks.edges@),
        r is Ok ==> (program.blocks.forward() ==> r->Ok_0.blocks.forward()),
        r is Ok ==> r->Ok_0.tests == program.tests,
        r is Err ==> r->Err_0 == CompileError::TooManyVariables || !program_selectable(program),
        r is Err ==> r->Err_0 == CompileError::TooManyVariables || r->Err_0 == CompileError::TypeError,
        program_selectable(program) && program.var_factory.next_id() + blocks_temps(program.blocks.nodes@)
            <= u32::MAX ==> r is Ok,
{
    let ghost p0 = program;
    let prev::Program { blocks, tests, var_factory } = program;
    let mut var_factory = var_factory;
    let BlockGraph { nodes, edges: old_edges } = blocks;
    let ghost input = nodes@;
    let n = nodes.len();
    let mut rest = crate::seqs::into_reversed(nodes);
    let mut new_nodes: Vec<Block> = Vec::new();
    while rest.len() > 0
        invariant
            p0 == program,
            input == p0.blocks.nodes@,
            var_factory.next_id() == p0.var_factory.next_id() + blocks_temps(input.take(new_nodes@.len() as int)),
            new_nodes@.len() + rest@.len() == input.len(),
            forall|k: int| 0 <= k < rest@.len() ==> #[trigger] rest@[k] == input[input.len() - 1 - k],
            forall|b: int|
                0 <= b < new_nodes@.len() ==> selects_block(
                    input[b].stmts@,
                    (#[trigger] new_nodes@[b]).instrs@,
                ),
        decreases rest.len(),
    {
        let ghost k = new_nodes@.len() as int;
        let block = rest.pop().unwrap();
        assert(block == input[k]);
        proof {
            assert(input.take(k + 1).drop_last() =~= input.take(k));
            lemma_blocks_temps_prefix(input, k + 1);
        }
        let b = match select_instructions_block(block, &mut var_factory) {
            Ok(b) => b,
            Err(e) => {
                proof {
                    if e != CompileError::TooManyVariables {
                        assert(!block_selectable(p0.blocks.nodes@[k]));
                        assert(!program_selectable(p0));
                    }
                }
                return Err(e);
            },
        };
        new_nodes.push(b);
    }
    let mut new_edges: Vec<Edge<Jmp>> = Vec::new();
    let mut i: usize = 0;
    while i < old_edges.len()
        invariant
            p0 == program,
            old_edges@ == p0.blocks.edges@,
            i <= old_edges@.len(),
            new_nodes@.len() == input.len(),
            selects_edges(old_edges@, new_edges@),
            forall|j: int| 0 <= j < new_edges@.len() ==> exists|e: int| 0 <= e < old_edges@.len()
                && old_edges@[e].source == (#[trigger] new_edges@[j]).source
                && old_edges@[e].target == new_edges@[j].target,
        decreases old_edges.len() - i,
    {
        let e = &old_edges[i];
        let sel = select_instructions_jmp(&e.weight, e.target);
        if sel.is_err() {
            proof {
                assert(selected_jmp(p0.blocks.edges@[i as int].weight, p0.blocks.edges@[i as int].target) is None);
                assert(!program_selectable(p0));
            }
            return Err(CompileError::TypeError);
        }
        match sel.unwrap() {
            Some(jmp) => {
                let ghost before = new_edges@;
                new_edges.push(Edge { source: e.source, target: e.target, weight: jmp });
                proof {
                    let j = before.len() as int;
                    assert(old_edges@[i as int].source == new_edges@[j].source);
                    assert forall|q: int| 0 <= q < new_edges@.len() implies exists|e: int|
                        0 <= e < old_edges@.len() && old_edges@[e].source == (
                        #[trigger] new_edges@[q]).source && old_edges@[e].target
                        == new_edges@[q].target && selected_jmp(old_edges@[e].weight, old_edges@[e].target)
                        == Some(Some(new_edges@[q].weight)) by {
                        if q < j {
                            assert(new_edges@[q] == before[q]);
                        } else {
                            assert(old_edges@[i as int].target == new_edges@[q].target);
                        }
                    }
                    assert forall|q: int| 0 <= q < new_edges@.len() implies exists|e: int|
                        0 <= e < old_edges@.len() && old_edges@[e].source == (
                        #[trigger] new_edges@[q]).source && old_edges@[e].target
                        == new_edges@[q].target by {
                        if q < j {
                            assert(new_edges@[q] == before[q]);
                        } else {
                            assert(old_edges@[i as int].target == new_edges@[q].target);
                        }
                    }
                }
            },
            None => {},
        }
        i = i + 1;
    }
    let r = Program { blocks: BlockGraph { nodes: new_nodes, edges: new_edges }, tests };
    proof {
        if forall|e: int| 0 <= e < old_edges@.len() ==> (#[trigger] old_edges@[e]).source
            < old_edges@[e].target < input.len() {
            assert forall|j: int| 0 <= j < r.blocks.edges@.len() implies (
            #[trigger] r.blocks.edges@[j]).source < r.blocks.edges@[j].target
                < r.blocks.nodes@.len() by {
                let e = choose|e: int| 0 <= e < old_edges@.len() && old_edges@[e].source == (
                    r.blocks.edges@[j]).source && old_edges@[e].target == r.blocks.edges@[j].target;
            }
        }
    }
    Ok(r)
}

} // verus!

verus! {

impl Instruction {
    /// An exact copy of this instruction.
    pub fn dup(&self) -> (r: Instruction)
        ensures
            r == *self,
    {
        match self {
            Instruction::SetScore { var, value } => Instruction::SetScore { var: var.dup(), value: *value },
            Instruction::Operation { op, source, destination } => Instruction::Operation {
                op: *op,
                source: source.dup(),
                destination: destination.dup(),
            },
            Instruction::Tellraw { text } => Instruction::Tellraw { text: text.clone() },
            Instruction::Command { text } => Instruction::Command { text: text.clone() },
            Instruction::ExecuteIfScoreMatchesSet { var, value, set_var, set_value } =>
                Instruction::ExecuteIfScoreMatchesSet {
                var: var.dup(),
                value: *value,
                set_var: set_var.dup(),
                set_value: *set_value,
            },
            Instruction::ExecuteUnlessScoreMatchesSet { var, value, set_var, set_value } =>
                Instruction::ExecuteUnlessScoreMatchesSet {
                var: var.dup(),
                value: *value,
                set_var: set_var.dup(),
                set_value: *set_value,
            },
            Instruction::ExecuteIfScoreEqualsSet { a, b, set_var, set_value } =>
                Instruction::ExecuteIfScoreEqualsSet {
                a: a.dup(),
                b: b.dup(),
                set_var: set_var.dup(),
                set_value: *set_value,
            },
            Instruction::ExecuteUnlessScoreEqualsSet { a, b, set_var, set_value } =>
                Instruction::ExecuteUnlessScoreEqualsSet {
                a: a.dup(),
                b: b.dup(),
                set_var: set_var.dup(),
                set_value: *set_value,
            },
        }
    }
}

} // verus!
