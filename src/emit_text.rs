//! Writes the reified program as command scripts.
use vstd::prelude::*;
use crate::datapack::Function;
use crate::reify_locations::{self as prev, Location, Run};
use crate::runtime::{init_text, pop_text, push_text, setup_runtime, Runtime};
use crate::select_instructions::op_symbol;
use crate::assign_homes::register_name;
use crate::utility::{append, decimal, escape, escaped, push_decimal, push_usize};

verus! {

/// How an operand is written: `rN registry`, `eN registry`, `item stack` or
/// `scratch registry`.
pub open spec fn location_text(l: Location) -> Seq<char> {
    match l {
        Location::Register(r) => register_name(r) + " registry"@,
        Location::StackItem => "item stack"@,
        Location::Scratch => "scratch registry"@,
    }
}

/// How the run part of a guarded instruction is written.
pub open spec fn run_text(run: Run) -> Seq<char> {
    match run {
        Run::Function { block } => "function mctest:block"@ + decimal(block as int),
        Run::SetScore { location, value } => "scoreboard players set "@ + location_text(location) + " "@
            + decimal(value as int),
    }
}

/// The line or lines that an instruction is written as.
pub open spec fn instr_text(i: prev::Instruction) -> Seq<char> {
    match i {
        prev::Instruction::SetScore { location, value } => "scoreboard players set "@ + location_text(location)
            + " "@ + decimal(value as int) + "\n"@,
        prev::Instruction::Operation { op, source, destination } => "scoreboard players operation "@
            + location_text(destination) + " "@ + op_symbol(op) + " "@ + location_text(source) + "\n"@,
        prev::Instruction::Push { offset } => "scoreboard players set offset stack "@ + decimal(offset as int)
            + "\nfunction mctest:push\n"@,
        prev::Instruction::Pop { offset } => "scoreboard players set offset stack "@ + decimal(offset as int)
            + "\nfunction mctest:pop\n"@,
        prev::Instruction::Tellraw { text } => "tellraw @s \""@ + escaped(text@) + "\"\n"@,
        prev::Instruction::Command { text } => text@ + "\n"@,
        prev::Instruction::ExecuteIfScoreMatches { location, value, run } => "execute if score "@
            + location_text(location) + " matches "@ + decimal(value as int) + " run "@ + run_text(run) + "\n"@,
        prev::Instruction::ExecuteUnlessScoreMatches { location, value, run } => "execute unless score "@
            + location_text(location) + " matches "@ + decimal(value as int) + " run "@ + run_text(run) + "\n"@,
        prev::Instruction::ExecuteIfScoreEquals { a, b, run } => "execute if score "@ + location_text(a)
            + " = "@ + location_text(b) + " run "@ + run_text(run) + "\n"@,
        prev::Instruction::ExecuteUnlessScoreEquals { a, b, run } => "execute unless score "@ + location_text(a)
            + " = "@ + location_text(b) + " run "@ + run_text(run) + "\n"@,
        prev::Instruction::Function { block } => "function mctest:block"@ + decimal(block as int) + "\n"@,
    }
}

/// The text of a sequence of instructions, one after the other.
pub open spec fn instrs_text(instrs: Seq<prev::Instruction>) -> Seq<char>
    decreases instrs.len(),
{
    if instrs.len() == 0 {
        Seq::empty()
    } else {
        instrs_text(instrs.drop_last()) + instr_text(instrs.last())
    }
}

/// The `function mctest:testN` lines of the `run` script for the first `k` tests.
pub open spec fn test_calls(k: nat) -> Seq<char>
    decreases k,
{
    if k == 0 {
        Seq::empty()
    } else {
        test_calls((k - 1) as nat) + "function mctest:test"@ + decimal(k - 1) + "\n"@
    }
}

/// The `run` script: set-up, the TAP header, a call of every test, and the end marker.
pub open spec fn run_text_of(n: nat) -> Seq<char> {
    init_text() + "tellraw @s \"TAP version 14\"\n"@ + "tellraw @s \"1.."@ + decimal(n as int) + "\"\n"@
        + "scoreboard players set ptr stack 10\n"@ + "\n"@ + test_calls(n) + "\ntellraw @s \"<EOF>\""@
}

/// The names and contents of the scripts of the first `n` blocks that are no test's
/// entry, in block order.
pub open spec fn other_scripts(program: prev::Program, n: nat) -> Seq<(Seq<char>, Seq<char>)>
    decreases n,
{
    if n == 0 {
        Seq::empty()
    } else {
        let b = n - 1;
        other_scripts(program, b as nat) + if is_entry(program.tests@, b) {
            Seq::empty()
        } else {
            seq![("block"@ + decimal(b), instrs_text(program.blocks@[b].instrs@))]
        }
    }
}

/// `fs[start..]` holds the scripts `scripts`, one for one.
pub open spec fn scripts_at(fs: Seq<Function>, start: int, scripts: Seq<(Seq<char>, Seq<char>)>) -> bool {
    forall|k: int|
        0 <= k < scripts.len() ==> (#[trigger] fs[start + k]).name@ == scripts[k].0 && fs[start + k].content@
            == scripts[k].1
}

/// Block `b` is the entry of some test.
pub open spec fn is_entry(tests: Seq<crate::linearize::Test>, b: int) -> bool {
    exists|t: int| 0 <= t < tests.len() && tests[t].block == b
}

/// The scripts of a program: `push` and `pop`, `testN` for each test's entry block,
/// `blockI` for every other block, and `run`.
pub fn emit_text(program: prev::Program) -> (r: Vec<Function>)
    requires
        forall|t: int| 0 <= t < program.tests@.len() ==> (#[trigger] program.tests@[t]).block < program.blocks@.len(),
    ensures
        r@.len() == 3 + program.tests@.len() + other_scripts(program, program.blocks@.len() as nat).len(),
        forall|f: int| 0 <= f < r@.len() ==> (#[trigger] r@[f]).namespace@ == "mctest"@,
        r@[0].name@ == "push"@ && r@[0].content@ == push_text(),
        r@[1].name@ == "pop"@ && r@[1].content@ == pop_text(),
        forall|t: int|
            0 <= t < program.tests@.len() ==> (#[trigger] r@[2 + t]).name@ == "test"@ + decimal(t)
                && r@[2 + t].content@ == instrs_text(program.blocks@[program.tests@[t].block as int].instrs@),
        r@[r@.len() - 1].name@ == "run"@,
        r@[r@.len() - 1].content@ == run_text_of(program.tests@.len()),
        scripts_at(r@, 2 + program.tests@.len() as int, other_scripts(program, program.blocks@.len() as nat)),
{
    let Runtime { init, functions } = setup_runtime();
    let mut preamble = init;
    let mut functions = functions;
    append(&mut preamble, "tellraw @s \"TAP version 14\"\n");
    append(&mut preamble, "tellraw @s \"1..");
    push_usize(&mut preamble, program.tests.len());
    append(&mut preamble, "\"\n");
    append(&mut preamble, "scoreboard players set ptr stack 10\n");
    let mut tests = String::new();
    let mut i: usize = 0;
    while i < program.tests.len()
        invariant
            i <= program.tests@.len(),
            forall|t: int| 0 <= t < program.tests@.len() ==> (#[trigger] program.tests@[t]).block < program.blocks@.len(),
            functions@.len() == 2 + i,
            forall|f: int| 0 <= f < functions@.len() ==> (#[trigger] functions@[f]).namespace@ == "mctest"@,
            functions@[0].name@ == "push"@ && functions@[0].content@ == push_text(),
            functions@[1].name@ == "pop"@ && functions@[1].content@ == pop_text(),
            forall|t: int|
                0 <= t < i ==> (#[trigger] functions@[2 + t]).name@ == "test"@ + decimal(t)
                    && functions@[2 + t].content@ == instrs_text(program.blocks@[program.tests@[t].block as int].instrs@),
            tests@ == test_calls(i as nat),
        decreases program.tests.len() - i,
    {
        let content = emit_text_block(&program.blocks[program.tests[i].block]);
        let mut name = String::from_str("test");
        push_usize(&mut name, i);
        functions.push(Function { namespace: String::from_str("mctest"), name, content });
        append(&mut tests, "function mctest:test");
        push_usize(&mut tests, i);
        append(&mut tests, "\n");
        i = i + 1;
        assert(tests@ =~= test_calls(i as nat));
    }
    let n_fixed = functions.len();
    let mut idx: usize = 0;
    while idx < program.blocks.len()
        invariant
            idx <= program.blocks@.len(),
            n_fixed == 2 + program.tests@.len(),
            functions@.len() == n_fixed + other_scripts(program, idx as nat).len(),
            forall|f: int| 0 <= f < functions@.len() ==> (#[trigger] functions@[f]).namespace@ == "mctest"@,
            functions@[0].name@ == "push"@ && functions@[0].content@ == push_text(),
            functions@[1].name@ == "pop"@ && functions@[1].content@ == pop_text(),
            forall|t: int|
                0 <= t < program.tests@.len() ==> (#[trigger] functions@[2 + t]).name@ == "test"@ + decimal(t)
                    && functions@[2 + t].content@ == instrs_text(program.blocks@[program.tests@[t].block as int].instrs@),
            scripts_at(functions@, n_fixed as int, other_scripts(program, idx as nat)),
        decreases program.blocks.len() - idx,
    {
        let ghost before = functions@;
        if !is_test_entry(&program.tests, idx) {
            let content = emit_text_block(&program.blocks[idx]);
            let mut name = String::from_str("block");
            push_usize(&mut name, idx);
            functions.push(Function { namespace: String::from_str("mctest"), name, content });
            proof {
                let sc = other_scripts(program, (idx + 1) as nat);
                assert forall|k: int| 0 <= k < sc.len() implies (#[trigger] functions@[n_fixed + k]).name@ == sc[k].0
                    && functions@[n_fixed + k].content@ == sc[k].1 by {
                    if k < sc.len() - 1 {
                        assert(functions@[n_fixed + k] == before[n_fixed + k]);
                    }
                }
            }
        } else {
            assert(other_scripts(program, (idx + 1) as nat) =~= other_scripts(program, idx as nat));
        }
        idx = idx + 1;
    }
    let mut run = preamble;
    append(&mut run, "\n");
    append(&mut run, tests.as_str());
    append(&mut run, "\ntellraw @s \"<EOF>\"");
    let ghost before = functions@;
    functions.push(Function { namespace: String::from_str("mctest"), name: String::from_str("run"), content: run });
    proof {
        assert(run@ =~= run_text_of(program.tests@.len()));
        assert forall|t: int| 0 <= t < program.tests@.len() implies (#[trigger] functions@[2 + t]).name@ == "test"@ + decimal(t)
            && functions@[2 + t].content@ == instrs_text(program.blocks@[program.tests@[t].block as int].instrs@) by {
            assert(functions@[2 + t] == before[2 + t]);
        }
        let sc = other_scripts(program, program.blocks@.len() as nat);
        assert forall|k: int| 0 <= k < sc.len() implies (#[trigger] functions@[n_fixed + k]).name@ == sc[k].0
            && functions@[n_fixed + k].content@ == sc[k].1 by {
            assert(functions@[n_fixed + k] == before[n_fixed + k]);
        }
    }
    functions
}

/// Whether block `b` is the entry of one of the tests.
fn is_test_entry(tests: &Vec<crate::linearize::Test>, b: usize) -> (r: bool)
    ensures
        r == is_entry(tests@, b as int),
{
    let mut t: usize = 0;
    while t < tests.len()
        invariant
            t <= tests@.len(),
            forall|k: int| 0 <= k < t ==> tests@[k].block != b,
        decreases tests.len() - t,
    {
        if tests[t].block == b {
            return true;
        }
        t = t + 1;
    }
    false
}

/// The text of a block.
pub fn emit_text_block(block: &prev::Block) -> (r: String)
    ensures
        r@ == instrs_text(block.instrs@),
{
    let mut text = String::new();
    let mut i: usize = 0;
    while i < block.instrs.len()
        invariant
            i <= block.instrs@.len(),
            text@ == instrs_text(block.instrs@.take(i as int)),
        decreases block.instrs.len() - i,
    {
        emit_text_instr(&mut text, &block.instrs[i]);
        assert(block.instrs@.take(i + 1).drop_last() =~= block.instrs@.take(i as int));
        i = i + 1;
    }
    assert(block.instrs@.take(block.instrs@.len() as int) =~= block.instrs@);
    text
}

fn push_location(s: &mut String, l: &Location)
    ensures
        final(s)@ == old(s)@ + location_text(*l),
{
    match l {
        Location::Register(r) => {
            append(s, r.name());
            append(s, " registry");
        },
        Location::StackItem => append(s, "item stack"),
        Location::Scratch => append(s, "scratch registry"),
    }
    assert(s@ =~= old(s)@ + location_text(*l));
}

/// Appends the text of a run part.
pub fn emit_text_run(s: &mut String, run: &Run)
    ensures
        final(s)@ == old(s)@ + run_text(*run),
{
    match run {
        Run::Function { block } => {
            append(s, "function mctest:block");
            push_usize(s, *block);
        },
        Run::SetScore { location, value } => {
            append(s, "scoreboard players set ");
            push_location(s, location);
            append(s, " ");
            push_decimal(s, *value);
        },
    }
    assert(s@ =~= old(s)@ + run_text(*run));
}

/// Appends the text of an instruction.
pub fn emit_text_instr(s: &mut String, instr: &prev::Instruction)
    ensures
        final(s)@ == old(s)@ + instr_text(*instr),
{
    match instr {
        prev::Instruction::SetScore { .. } => emit_set_score(s, instr),
        prev::Instruction::Operation { .. } => emit_operation(s, instr),
        prev::Instruction::Push { .. } => emit_push(s, instr),
        prev::Instruction::Pop { .. } => emit_pop(s, instr),
        prev::Instruction::Tellraw { .. } => emit_tellraw(s, instr),
        prev::Instruction::Command { .. } => emit_command(s, instr),
        prev::Instruction::ExecuteIfScoreMatches { .. } => emit_execute_if_score_matches(s, instr),
        prev::Instruction::ExecuteUnlessScoreMatches { .. } => emit_execute_unless_score_matches(s, instr),
        prev::Instruction::ExecuteIfScoreEquals { .. } => emit_execute_if_score_equals(s, instr),
        prev::Instruction::ExecuteUnlessScoreEquals { .. } => emit_execute_unless_score_equals(s, instr),
        prev::Instruction::Function { .. } => emit_function(s, instr),
    }
}

fn emit_set_score(s: &mut String, instr: &prev::Instruction)
    requires
        instr is SetScore,
    ensures
        final(s)@ == old(s)@ + instr_text(*instr),
{
    let prev::Instruction::SetScore { location, value } = instr else {
        return;
    };
        append(s, "scoreboard players set ");
        push_location(s, location);
        append(s, " ");
        push_decimal(s, *value);
        append(s, "\n");
    assert(s@ =~= old(s)@ + instr_text(*instr));
}

fn emit_operation(s: &mut String, instr: &prev::Instruction)
    requires
        instr is Operation,
    ensures
        final(s)@ == old(s)@ + instr_text(*instr),
{
    let prev::Instruction::Operation { op, source, destination } = instr else {
        return;
    };
        append(s, "scoreboard players operation ");
        push_location(s, destination);
        append(s, " ");
        append(s, op.symbol());
        append(s, " ");
        push_location(s, source);
        append(s, "\n");
    assert(s@ =~= old(s)@ + instr_text(*instr));
}

fn emit_push(s: &mut String, instr: &prev::Instruction)
    requires
        instr is Push,
    ensures
        final(s)@ == old(s)@ + instr_text(*instr),
{
    let prev::Instruction::Push { offset } = instr else {
        return;
    };
        append(s, "scoreboard players set offset stack ");
        push_usize(s, *offset as usize);
        append(s, "\nfunction mctest:push\n");
    assert(s@ =~= old(s)@ + instr_text(*instr));
}

fn emit_pop(s: &mut String, instr: &prev::Instruction)
    requires
        instr is Pop,
    ensures
        final(s)@ == old(s)@ + instr_text(*instr),
{
    let prev::Instruction::Pop { offset } = instr else {
        return;
    };
        append(s, "scoreboard players set offset stack ");
        push_usize(s, *offset as usize);
        append(s, "\nfunction mctest:pop\n");
    assert(s@ =~= old(s)@ + instr_text(*instr));
}

fn emit_tellraw(s: &mut String, instr: &prev::Instruction)
    requires
        instr is Tellraw,
    ensures
        final(s)@ == old(s)@ + instr_text(*instr),
{
    let prev::Instruction::Tellraw { text } = instr else {
        return;
    };
        append(s, "tellraw @s \"");
        let e = escape(text.as_str());
        append(s, e.as_str());
        append(s, "\"\n");
    assert(s@ =~= old(s)@ + instr_text(*instr));
}

fn emit_command(s: &mut String, instr: &prev::Instruction)
    requires
        instr is Command,
    ensures
        final(s)@ == old(s)@ + instr_text(*instr),
{
    let prev::Instruction::Command { text } = instr else {
        return;
    };
        append(s, text.as_str());
        append(s, "\n");
    assert(s@ =~= old(s)@ + instr_text(*instr));
}

fn emit_execute_if_score_matches(s: &mut String, instr: &prev::Instruction)
    requires
        instr is ExecuteIfScoreMatches,
    ensures
        final(s)@ == old(s)@ + instr_text(*instr),
{
    let prev::Instruction::ExecuteIfScoreMatches { location, value, run } = instr else {
        return;
    };
        append(s, "execute if score ");
        push_location(s, location);
        append(s, " matches ");
        push_decimal(s, *value);
        append(s, " run ");
        emit_text_run(s, run);
        append(s, "\n");
    assert(s@ =~= old(s)@ + instr_text(*instr));
}

fn emit_execute_unless_score_matches(s: &mut String, instr: &prev::Instruction)
    requires
        instr is ExecuteUnlessScoreMatches,
    ensures
        final(s)@ == old(s)@ + instr_text(*instr),
{
    let prev::Instruction::ExecuteUnlessScoreMatches { location, value, run } = instr else {
        return;
    };
        append(s, "execute unless score ");
        push_location(s, location);
        append(s, " matches ");
        push_decimal(s, *value);
        append(s, " run ");
        emit_text_run(s, run);
        append(s, "\n");
    assert(s@ =~= old(s)@ + instr_text(*instr));
}

fn emit_execute_if_score_equals(s: &mut String, instr: &prev::Instruction)
    requires
        instr is ExecuteIfScoreEquals,
    ensures
        final(s)@ == old(s)@ + instr_text(*instr),
{
    let prev::Instruction::ExecuteIfScoreEquals { a, b, run } = instr else {
        return;
    };
        append(s, "execute if score ");
        push_location(s, a);
        append(s, " = ");
        push_location(s, b);
        append(s, " run ");
        emit_text_run(s, run);
        append(s, "\n");
    assert(s@ =~= old(s)@ + instr_text(*instr));
}

fn emit_execute_unless_score_equals(s: &mut String, instr: &prev::Instruction)
    requires
        instr is ExecuteUnlessScoreEquals,
    ensures
        final(s)@ == old(s)@ + instr_text(*instr),
{
    let prev::Instruction::ExecuteUnlessScoreEquals { a, b, run } = instr else {
        return;
    };
        append(s, "execute unless score ");
        push_location(s, a);
        append(s, " = ");
        push_location(s, b);
        append(s, " run ");
        emit_text_run(s, run);
        append(s, "\n");
    assert(s@ =~= old(s)@ + instr_text(*instr));
}

fn emit_function(s: &mut String, instr: &prev::Instruction)
    requires
        instr is Function,
    ensures
        final(s)@ == old(s)@ + instr_text(*instr),
{
    let prev::Instruction::Function { block } = instr else {
        return;
    };
        append(s, "function mctest:block");
        push_usize(s, *block);
        append(s, "\n");
    assert(s@ =~= old(s)@ + instr_text(*instr));
}

} // verus!
