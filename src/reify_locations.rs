//! Expands stack-slot operands into pushes and pops around one stack item.
use vstd::prelude::*;
use crate::assign_homes::{self as homes, Register};
use crate::insert_jmps as prev;
use crate::linearize::Test;
use crate::select_instructions::Op;

verus! {

pub struct Program {
    pub blocks: Vec<Block>,
    pub tests: Vec<Test>,
}

#[derive(Debug, Clone, PartialEq, Eq)]
pub struct Block {
    pub instrs: Vec<Instruction>,
}

#[derive(Debug, Clone, PartialEq, Eq)]
pub enum Instruction {
    SetScore { location: Location, value: i64 },
    Operation { op: Op, source: Location, destination: Location },
    Push { offset: u32 },
    Pop { offset: u32 },
    Tellraw { text: String },
    Command { text: String },
    ExecuteIfScoreMatches { location: Location, value: i64, run: Run },
    ExecuteUnlessScoreMatches { location: Location, value: i64, run: Run },
    ExecuteIfScoreEquals { a: Location, b: Location, run: Run },
    ExecuteUnlessScoreEquals { a: Location, b: Location, run: Run },
    Function { block: usize },
}

#[derive(Debug, Clone, Copy, PartialEq, Eq, Structural)]
pub enum Run {
    Function { block: usize },
    SetScore { location: Location, value: i64 },
}

/// An operand after reification: a register, the stack item, or the scratch register.
/// No stack slot is ever an operand.
#[derive(Debug, Clone, Copy, PartialEq, Eq, Structural)]
pub enum Location {
    Register(Register),
    StackItem,
    Scratch,
}

/// A register stays; a stack slot is read through the stack item.
pub open spec fn through_item(l: homes::Location) -> Location {
    match l {
        homes::Location::Register(r) => Location::Register(r),
        homes::Location::Stack { .. } => Location::StackItem,
    }
}

/// What loads an operand: a pop for a stack slot, nothing for a register.
pub open spec fn load(l: homes::Location) -> Seq<Instruction> {
    match l {
        homes::Location::Register(_) => Seq::empty(),
        homes::Location::Stack { offset } => seq![Instruction::Pop { offset }],
    }
}

/// What stores an operand back: a push for a stack slot, nothing for a register.
pub open spec fn store(l: homes::Location) -> Seq<Instruction> {
    match l {
        homes::Location::Register(_) => Seq::empty(),
        homes::Location::Stack { offset } => seq![Instruction::Push { offset }],
    }
}

/// The reified run part, and the instructions that must follow the guarded instruction.
pub open spec fn reified_run(run: prev::Run) -> (Run, Seq<Instruction>) {
    match run {
        prev::Run::Function { block } => (Run::Function { block }, Seq::empty()),
        prev::Run::SetScore { location, value } => (Run::SetScore { location: through_item(location), value }, store(location)),
    }
}

/// The first operand of a comparison: a stack slot goes through the scratch register,
/// so that the stack item is free for the second.
pub open spec fn first_operand(l: homes::Location) -> (Seq<Instruction>, Location) {
    match l {
        homes::Location::Register(r) => (Seq::empty(), Location::Register(r)),
        homes::Location::Stack { offset } => (
            seq![
                Instruction::Pop { offset },
                Instruction::Operation { op: Op::Equals, source: Location::StackItem, destination: Location::Scratch },
            ],
            Location::Scratch,
        ),
    }
}

/// What an instruction becomes once stack slots are expanded.
pub open spec fn reified(i: prev::Instruction) -> Seq<Instruction> {
    match i {
        prev::Instruction::SetScore { location, value } => seq![
            Instruction::SetScore { location: through_item(location), value },
        ] + store(location),
        prev::Instruction::Operation { op, source, destination } => if op == Op::Equals && source == destination {
            Seq::empty()
        } else {
            match (source, destination) {
                (homes::Location::Stack { offset: a }, homes::Location::Stack { offset: b }) => seq![
                    Instruction::Pop { offset: a },
                    Instruction::Operation { op: Op::Equals, source: Location::StackItem, destination: Location::Scratch },
                    Instruction::Pop { offset: b },
                    Instruction::Operation { op, source: Location::Scratch, destination: Location::StackItem },
                    Instruction::Push { offset: b },
                ],
                _ => load(source) + load(destination) + seq![
                    Instruction::Operation { op, source: through_item(source), destination: through_item(destination) },
                ] + store(destination),
            }
        },
        prev::Instruction::Tellraw { text } => seq![Instruction::Tellraw { text }],
        prev::Instruction::Command { text } => seq![Instruction::Command { text }],
        prev::Instruction::ExecuteIfScoreMatches { location, value, run } => load(location) + seq![
            Instruction::ExecuteIfScoreMatches { location: through_item(location), value, run: reified_run(run).0 },
        ] + reified_run(run).1,
        prev::Instruction::ExecuteUnlessScoreMatches { location, value, run } => load(location) + seq![
            Instruction::ExecuteUnlessScoreMatches { location: through_item(location), value, run: reified_run(run).0 },
        ] + reified_run(run).1,
        prev::Instruction::ExecuteIfScoreEquals { a, b, run } => first_operand(a).0 + load(b) + seq![
            Instruction::ExecuteIfScoreEquals { a: first_operand(a).1, b: through_item(b), run: reified_run(run).0 },
        ] + reified_run(run).1,
        prev::Instruction::ExecuteUnlessScoreEquals { a, b, run } => first_operand(a).0 + load(b) + seq![
            Instruction::ExecuteUnlessScoreEquals { a: first_operand(a).1, b: through_item(b), run: reified_run(run).0 },
        ] + reified_run(run).1,
        prev::Instruction::Function { block } => seq![Instruction::Function { block }],
    }
}

/// The reified instructions of a block, one instruction after the other.
pub open spec fn reified_all(instrs: Seq<prev::Instruction>) -> Seq<Instruction>
    decreases instrs.len(),
{
    if instrs.len() == 0 {
        Seq::empty()
    } else {
        reified_all(instrs.drop_last()) + reified(instrs.last())
    }
}

fn push_load(out: &mut Vec<Instruction>, l: homes::Location)
    ensures
        final(out)@ == old(out)@ + load(l),
{
    if let homes::Location::Stack { offset } = l {
        out.push(Instruction::Pop { offset });
    }
    assert(out@ =~= old(out)@ + load(l));
}

fn push_store(out: &mut Vec<Instruction>, l: homes::Location)
    ensures
        final(out)@ == old(out)@ + store(l),
{
    if let homes::Location::Stack { offset } = l {
        out.push(Instruction::Push { offset });
    }
    assert(out@ =~= old(out)@ + store(l));
}

fn item_or_register(l: homes::Location) -> (r: Location)
    ensures
        r == through_item(l),
{
    match l {
        homes::Location::Register(r) => Location::Register(r),
        homes::Location::Stack { .. } => Location::StackItem,
    }
}

fn reify_location_run(run: prev::Run) -> (r: (Run, Option<u32>))
    ensures
        r.0 == reified_run(run).0,
        reified_run(run).1 == match r.1 {
            Some(offset) => seq![Instruction::Push { offset }],
            None => Seq::<Instruction>::empty(),
        },
{
    match run {
        prev::Run::Function { block } => (Run::Function { block }, None),
        prev::Run::SetScore { location: homes::Location::Register(r), value } => (
            Run::SetScore { location: Location::Register(r), value },
            None,
        ),
        prev::Run::SetScore { location: homes::Location::Stack { offset }, value } => (
            Run::SetScore { location: Location::StackItem, value },
            Some(offset),
        ),
    }
}

fn push_first_operand(out: &mut Vec<Instruction>, l: homes::Location) -> (r: Location)
    ensures
        final(out)@ == old(out)@ + first_operand(l).0,
        r == first_operand(l).1,
{
    match l {
        homes::Location::Register(r) => {
            assert(out@ =~= old(out)@ + first_operand(l).0);
            Location::Register(r)
        },
        homes::Location::Stack { offset } => {
            out.push(Instruction::Pop { offset });
            out.push(Instruction::Operation { op: Op::Equals, source: Location::StackItem, destination: Location::Scratch });
            assert(out@ =~= old(out)@ + first_operand(l).0);
            Location::Scratch
        },
    }
}

/// Appends what `instr` becomes once its stack slots are expanded.
pub fn reify_location_instr(out: &mut Vec<Instruction>, instr: prev::Instruction)
    ensures
        final(out)@ == old(out)@ + reified(instr),
{
    let ghost i0 = instr;
    match instr {
        prev::Instruction::SetScore { location, value } => {
            out.push(Instruction::SetScore { location: item_or_register(location), value });
            push_store(out, location);
        },
        prev::Instruction::Operation { op, source, destination } => {
            if op == Op::Equals && source == destination {
            } else {
                match (source, destination) {
                    (homes::Location::Stack { offset: a }, homes::Location::Stack { offset: b }) => {
                        out.push(Instruction::Pop { offset: a });
                        out.push(Instruction::Operation { op: Op::Equals, source: Location::StackItem, destination: Location::Scratch });
                        out.push(Instruction::Pop { offset: b });
                        out.push(Instruction::Operation { op, source: Location::Scratch, destination: Location::StackItem });
                        out.push(Instruction::Push { offset: b });
                    },
                    _ => {
                        push_load(out, source);
                        push_load(out, destination);
                        out.push(Instruction::Operation { op, source: item_or_register(source), destination: item_or_register(destination) });
                        push_store(out, destination);
                    },
                }
            }
        },
        prev::Instruction::Tellraw { text } => out.push(Instruction::Tellraw { text }),
        prev::Instruction::Command { text } => out.push(Instruction::Command { text }),
        prev::Instruction::ExecuteIfScoreMatches { location, value, run } => {
            push_load(out, location);
            let (run, after) = reify_location_run(run);
            out.push(Instruction::ExecuteIfScoreMatches { location: item_or_register(location), value, run });
            if let Some(offset) = after {
                out.push(Instruction::Push { offset });
            }
        },
        prev::Instruction::ExecuteUnlessScoreMatches { location, value, run } => {
            push_load(out, location);
            let (run, after) = reify_location_run(run);
            out.push(Instruction::ExecuteUnlessScoreMatches { location: item_or_register(location), value, run });
            if let Some(offset) = after {
                out.push(Instruction::Push { offset });
            }
        },
        prev::Instruction::ExecuteIfScoreEquals { a, b, run } => {
            let a = push_first_operand(out, a);
            push_load(out, b);
            let (run, after) = reify_location_run(run);
            out.push(Instruction::ExecuteIfScoreEquals { a, b: item_or_register(b), run });
            if let Some(offset) = after {
                out.push(Instruction::Push { offset });
            }
        },
        prev::Instruction::ExecuteUnlessScoreEquals { a, b, run } => {
            let a = push_first_operand(out, a);
            push_load(out, b);
            let (run, after) = reify_location_run(run);
            out.push(Instruction::ExecuteUnlessScoreEquals { a, b: item_or_register(b), run });
            if let Some(offset) = after {
                out.push(Instruction::Push { offset });
            }
        },
        prev::Instruction::Function { block } => out.push(Instruction::Function { block }),
    }
    assert(out@ =~= old(out)@ + reified(i0));
}

fn reify_location_block(block: prev::Block) -> (r: Block)
    ensures
        r.instrs@ == reified_all(block.instrs@),
{
    let prev::Block { instrs } = block;
    let ghost input = instrs@;
    let mut rest = crate::seqs::into_reversed(instrs);
    let mut out: Vec<Instruction> = Vec::new();
    let ghost mut done: int = 0;
    while rest.len() > 0
        invariant
            done + rest@.len() == input.len(),
            0 <= done <= input.len(),
            forall|k: int| 0 <= k < rest@.len() ==> #[trigger] rest@[k] == input[input.len() - 1 - k],
            out@ == reified_all(input.take(done)),
        decreases rest.len(),
    {
        let instr = rest.pop().unwrap();
        assert(instr == input[done]);
        reify_location_instr(&mut out, instr);
        proof {
            assert(input.take(done + 1).drop_last() =~= input.take(done));
            done = done + 1;
        }
    }
    assert(input.take(done) =~= input);
    Block { instrs: out }
}

/// Expands every stack-slot operand of every block.
pub fn reify_location(program: prev::Program) -> (r: Program)
    ensures
        r.blocks@.len() == program.blocks@.len(),
        forall|b: int| 0 <= b < r.blocks@.len() ==> (#[trigger] r.blocks@[b]).instrs@ == reified_all(program.blocks@[b].instrs@),
        r.tests == program.tests,
{
    let prev::Program { blocks, tests } = program;
    let ghost input = blocks@;
    let mut rest = crate::seqs::into_reversed(blocks);
    let mut out: Vec<Block> = Vec::new();
    while rest.len() > 0
        invariant
            out@.len() + rest@.len() == input.len(),
            forall|k: int| 0 <= k < rest@.len() ==> #[trigger] rest@[k] == input[input.len() - 1 - k],
            forall|b: int| 0 <= b < out@.len() ==> (#[trigger] out@[b]).instrs@ == reified_all(input[b].instrs@),
        decreases rest.len(),
    {
        let ghost k = out@.len() as int;
        let block = rest.pop().unwrap();
        assert(block == input[k]);
        out.push(reify_location_block(block));
    }
    Program { blocks: out, tests }
}

} // verus!
