//! Turns the edges of the control-flow graph into jump instructions at block ends.
use vstd::prelude::*;
use crate::assign_homes::{self as prev, Location};
use crate::cfg::Edge;
use crate::linearize::Test;
use crate::select_instructions::Op;

verus! {

pub struct Program {
    pub blocks: Vec<Block>,
    pub tests: Vec<Test>,
}

#[derive(Debug, Clone, PartialEq, Eq)]
pub struct Block {
    pub instrs: Vec<Instruction>,
}

#[derive(Debug, Clone, PartialEq, Eq)]
pub enum Instruction {
    SetScore { location: Location, value: i64 },
    Operation { op: Op, source: Location, destination: Location },
    Tellraw { text: String },
    Command { text: String },
    ExecuteIfScoreMatches { location: Location, value: i64, run: Run },
    ExecuteUnlessScoreMatches { location: Location, value: i64, run: Run },
    ExecuteIfScoreEquals { a: Location, b: Location, run: Run },
    ExecuteUnlessScoreEquals { a: Location, b: Location, run: Run },
    Function { block: usize },
}

/// What a guarded instruction runs: a block, or a score assignment.
#[derive(Debug, Clone, Copy, PartialEq, Eq, Structural)]
pub enum Run {
    Function { block: usize },
    SetScore { location: Location, value: i64 },
}

/// The instruction in the form with an explicit `run` part.
pub open spec fn inserted_instr(i: prev::Instruction) -> Instruction {
    match i {
        prev::Instruction::SetScore { location, value } => Instruction::SetScore { location, value },
        prev::Instruction::Operation { op, source, destination } => Instruction::Operation { op, source, destination },
        prev::Instruction::Tellraw { text } => Instruction::Tellraw { text },
        prev::Instruction::Command { text } => Instruction::Command { text },
        prev::Instruction::ExecuteIfScoreMatchesSet { location, value, set_location, set_value } =>
            Instruction::ExecuteIfScoreMatches {
            location,
            value,
            run: Run::SetScore { location: set_location, value: set_value },
        },
        prev::Instruction::ExecuteUnlessScoreMatchesSet { location, value, set_location, set_value } =>
            Instruction::ExecuteUnlessScoreMatches {
            location,
            value,
            run: Run::SetScore { location: set_location, value: set_value },
        },
        prev::Instruction::ExecuteIfScoreEqualsSet { a, b, set_location, set_value } => Instruction::ExecuteIfScoreEquals {
            a,
            b,
            run: Run::SetScore { location: set_location, value: set_value },
        },
        prev::Instruction::ExecuteUnlessScoreEqualsSet { a, b, set_location, set_value } =>
            Instruction::ExecuteUnlessScoreEquals {
            a,
            b,
            run: Run::SetScore { location: set_location, value: set_value },
        },
    }
}

/// The instruction that takes a jump.
pub open spec fn jump_instr(j: prev::Jmp) -> Instruction {
    match j {
        prev::Jmp::ExecuteIfScoreMatchesFunction { location, value, block } => Instruction::ExecuteIfScoreMatches {
            location,
            value,
            run: Run::Function { block },
        },
        prev::Jmp::ExecuteUnlessScoreMatchesFunction { location, value, block } =>
            Instruction::ExecuteUnlessScoreMatches { location, value, run: Run::Function { block } },
        prev::Jmp::ExecuteIfScoreEqualsFunction { a, b, block } => Instruction::ExecuteIfScoreEquals {
            a,
            b,
            run: Run::Function { block },
        },
        prev::Jmp::ExecuteUnlessScoreEqualsFunction { a, b, block } => Instruction::ExecuteUnlessScoreEquals {
            a,
            b,
            run: Run::Function { block },
        },
        prev::Jmp::Function { block } => Instruction::Function { block },
    }
}

/// The jumps out of block `b`, in the order of the edges.
pub open spec fn out_jumps(edges: Seq<Edge<prev::Jmp>>, b: usize) -> Seq<Instruction>
    decreases edges.len(),
{
    if edges.len() == 0 {
        Seq::empty()
    } else {
        out_jumps(edges.drop_last(), b) + if edges.last().source == b {
            seq![jump_instr(edges.last().weight)]
        } else {
            Seq::empty()
        }
    }
}

/// Block `b` with its instructions in the new form and its jumps at the end.
pub open spec fn jumped_block(block: prev::Block, edges: Seq<Edge<prev::Jmp>>, b: usize, out: Block) -> bool {
    out.instrs@ == block.instrs@.map_values(|i: prev::Instruction| inserted_instr(i)) + out_jumps(edges, b)
}

/// Appends to each block one jump instruction per outgoing edge, in edge order.
pub fn insert_jmps(program: prev::Program) -> (r: Program)
    ensures
        r.blocks@.len() == program.blocks.nodes@.len(),
        forall|b: int|
            0 <= b < r.blocks@.len() ==> jumped_block(
                program.blocks.nodes@[b],
                program.blocks.edges@,
                b as usize,
                #[trigger] r.blocks@[b],
            ),
        r.tests == program.tests,
{
    let prev::Program { blocks, tests } = program;
    let crate::cfg::BlockGraph { nodes, edges } = blocks;
    let ghost input = nodes@;
    let mut rest = crate::seqs::into_reversed(nodes);
    let mut out: Vec<Block> = Vec::new();
    while rest.len() > 0
        invariant
            out@.len() + rest@.len() == input.len(),
            forall|k: int| 0 <= k < rest@.len() ==> #[trigger] rest@[k] == input[input.len() - 1 - k],
            forall|b: int| 0 <= b < out@.len() ==> jumped_block(input[b], edges@, b as usize, #[trigger] out@[b]),
        decreases rest.len(),
    {
        let idx = out.len();
        let block = rest.pop().unwrap();
        assert(block == input[idx as int]);
        out.push(insert_jmps_block(idx, block, &edges));
    }
    Program { blocks: out, tests }
}

fn insert_jmps_block(idx: usize, block: prev::Block, edges: &Vec<Edge<prev::Jmp>>) -> (r: Block)
    ensures
        jumped_block(block, edges@, idx, r),
{
    let prev::Block { instrs } = block;
    let ghost input = instrs@;
    let mut rest = crate::seqs::into_reversed(instrs);
    let mut out: Vec<Instruction> = Vec::new();
    while rest.len() > 0
        invariant
            out@.len() + rest@.len() == input.len(),
            forall|k: int| 0 <= k < rest@.len() ==> #[trigger] rest@[k] == input[input.len() - 1 - k],
            out@ == input.take(out@.len() as int).map_values(|i: prev::Instruction| inserted_instr(i)),
        decreases rest.len(),
    {
        let ghost k = out@.len() as int;
        let instr = rest.pop().unwrap();
        assert(instr == input[k]);
        out.push(insert_jmps_instr(instr));
        assert(out@ =~= input.take(k + 1).map_values(|i: prev::Instruction| inserted_instr(i)));
    }
    assert(input.take(input.len() as int) =~= input);
    let ghost body = out@;
    let mut e: usize = 0;
    while e < edges.len()
        invariant
            e <= edges@.len(),
            out@ == body + out_jumps(edges@.take(e as int), idx),
        decreases edges.len() - e,
    {
        assert(edges@.take(e + 1).drop_last() =~= edges@.take(e as int));
        if edges[e].source == idx {
            out.push(insert_jmps_jmp(&edges[e].weight));
        }
        e = e + 1;
        assert(out@ =~= body + out_jumps(edges@.take(e as int), idx));
    }
    assert(edges@.take(edges@.len() as int) =~= edges@);
    Block { instrs: out }
}

pub fn insert_jmps_instr(instr: prev::Instruction) -> (r: Instruction)
    ensures
        r == inserted_instr(instr),
{
    match instr {
        prev::Instruction::SetScore { location, value } => Instruction::SetScore { location, value },
        prev::Instruction::Operation { op, source, destination } => Instruction::Operation { op, source, destination },
        prev::Instruction::Tellraw { text } => Instruction::Tellraw { text },
        prev::Instruction::Command { text } => Instruction::Command { text },
        prev::Instruction::ExecuteIfScoreMatchesSet { location, value, set_location, set_value } =>
            Instruction::ExecuteIfScoreMatches {
            location,
            value,
            run: Run::SetScore { location: set_location, value: set_value },
        },
        prev::Instruction::ExecuteUnlessScoreMatchesSet { location, value, set_location, set_value } =>
            Instruction::ExecuteUnlessScoreMatches {
            location,
            value,
            run: Run::SetScore { location: set_location, value: set_value },
        },
        prev::Instruction::ExecuteIfScoreEqualsSet { a, b, set_location, set_value } => Instruction::ExecuteIfScoreEquals {
            a,
            b,
            run: Run::SetScore { location: set_location, value: set_value },
        },
        prev::Instruction::ExecuteUnlessScoreEqualsSet { a, b, set_location, set_value } =>
            Instruction::ExecuteUnlessScoreEquals {
            a,
            b,
            run: Run::SetScore { location: set_location, value: set_value },
        },
    }
}

pub fn insert_jmps_jmp(jmp: &prev::Jmp) -> (r: Instruction)
    ensures
        r == jump_instr(*jmp),
{
    match jmp {
        prev::Jmp::ExecuteIfScoreMatchesFunction { location, value, block } => Instruction::ExecuteIfScoreMatches {
            location: *location,
            value: *value,
            run: Run::Function { block: *block },
        },
        prev::Jmp::ExecuteUnlessScoreMatchesFunction { location, value, block } =>
            Instruction::ExecuteUnlessScoreMatches { location: *location, value: *value, run: Run::Function { block: *block } },
        prev::Jmp::ExecuteIfScoreEqualsFunction { a, b, block } => Instruction::ExecuteIfScoreEquals {
            a: *a,
            b: *b,
            run: Run::Function { block: *block },
        },
        prev::Jmp::ExecuteUnlessScoreEqualsFunction { a, b, block } => Instruction::ExecuteUnlessScoreEquals {
            a: *a,
            b: *b,
            run: Run::Function { block: *block },
        },
        prev::Jmp::Function { block } => Instruction::Function { block: *block },
    }
}

} // verus!
