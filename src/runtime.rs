//! The runtime: scoreboard set-up and the stack helpers `push` and `pop`.
use vstd::prelude::*;
use crate::datapack::Function;
use crate::utility::{append, decimal, push_usize};

verus! {

/// The set-up commands and the helper scripts that compiled code relies on.
pub struct Runtime {
    pub init: String,
    pub functions: Vec<Function>,
}

/// `scoreboard players set {prefix}{i} registry 0` for `i` from 1 to `k`.
pub open spec fn register_lines(prefix: Seq<char>, k: nat) -> Seq<char>
    decreases k,
{
    if k == 0 {
        Seq::empty()
    } else {
        register_lines(prefix, (k - 1) as nat) + "scoreboard players set "@ + prefix + decimal(k as int)
            + " registry 0\n"@
    }
}

/// `scoreboard players set {i} stack 0` for `i` from 0 below `k`.
pub open spec fn stack_lines(k: nat) -> Seq<char>
    decreases k,
{
    if k == 0 {
        Seq::empty()
    } else {
        stack_lines((k - 1) as nat) + "scoreboard players set "@ + decimal(k - 1) + " stack 0\n"@
    }
}

/// The set-up commands: both scoreboards, every register and every stack cell at 0.
pub open spec fn init_text() -> Seq<char> {
    "scoreboard objectives add registry dummy\n"@ + register_lines("r"@, 8) + register_lines("e"@, 8)
        + register_lines("a"@, 8) + "scoreboard objectives add stack dummy\n"@
        + "scoreboard players set ptr stack 0\n"@ + "scoreboard players set offset stack 0\n"@
        + "scoreboard players set item stack 0\n"@ + stack_lines(32)
}

/// For each cell `i` below `k`, a command run when `tmp` is `i` that copies between the
/// stack item and cell `i`: `before` and `after` surround the cell's number.
pub open spec fn cell_lines(before: Seq<char>, after: Seq<char>, k: nat) -> Seq<char>
    decreases k,
{
    if k == 0 {
        Seq::empty()
    } else {
        cell_lines(before, after, (k - 1) as nat) + "execute if score tmp stack matches "@ + decimal(k - 1)
            + " run scoreboard players operation "@ + before + decimal(k - 1) + after
    }
}

/// The start of both helpers: `tmp` is the cell `ptr - offset`.
pub open spec fn cell_address() -> Seq<char> {
    "scoreboard players operation tmp stack = ptr stack\n"@
        + "scoreboard players operation tmp stack -= offset stack\n"@
}

pub open spec fn push_text() -> Seq<char> {
    cell_address() + cell_lines(""@, " stack = item stack\n"@, 32)
}

pub open spec fn pop_text() -> Seq<char> {
    cell_address() + cell_lines("item stack = "@, " stack\n"@, 32)
}

pub fn setup_runtime() -> (r: Runtime)
    ensures
        r.init@ == init_text(),
        r.functions@.len() == 2,
        r.functions@[0].namespace@ == "mctest"@ && r.functions@[0].name@ == "push"@
            && r.functions@[0].content@ == push_text(),
        r.functions@[1].namespace@ == "mctest"@ && r.functions@[1].name@ == "pop"@
            && r.functions@[1].content@ == pop_text(),
{
    Runtime { init: setup_init(), functions: setup_functions() }
}

fn add_register_lines(s: &mut String, prefix: &str)
    ensures
        final(s)@ == old(s)@ + register_lines(prefix@, 8),
{
    let mut i: usize = 1;
    while i <= 8
        invariant
            1 <= i <= 9,
            s@ == old(s)@ + register_lines(prefix@, (i - 1) as nat),
        decreases 9 - i,
    {
        append(s, "scoreboard players set ");
        append(s, prefix);
        push_usize(s, i);
        append(s, " registry 0\n");
        assert(s@ =~= old(s)@ + register_lines(prefix@, i as nat));
        i = i + 1;
    }
}

fn setup_init() -> (r: String)
    ensures
        r@ == init_text(),
{
    let mut init = String::new();
    append(&mut init, "scoreboard objectives add registry dummy\n");
    add_register_lines(&mut init, "r");
    add_register_lines(&mut init, "e");
    add_register_lines(&mut init, "a");
    append(&mut init, "scoreboard objectives add stack dummy\n");
    append(&mut init, "scoreboard players set ptr stack 0\n");
    append(&mut init, "scoreboard players set offset stack 0\n");
    append(&mut init, "scoreboard players set item stack 0\n");
    let ghost head = init@;
    let mut i: usize = 0;
    while i < 32
        invariant
            i <= 32,
            init@ == head + stack_lines(i as nat),
        decreases 32 - i,
    {
        append(&mut init, "scoreboard players set ");
        push_usize(&mut init, i);
        append(&mut init, " stack 0\n");
        i = i + 1;
        assert(init@ =~= head + stack_lines(i as nat));
    }
    assert(init@ =~= init_text());
    init
}

fn setup_functions() -> (r: Vec<Function>)
    ensures
        r@.len() == 2,
        r@[0].namespace@ == "mctest"@ && r@[0].name@ == "push"@ && r@[0].content@ == push_text(),
        r@[1].namespace@ == "mctest"@ && r@[1].name@ == "pop"@ && r@[1].content@ == pop_text(),
{
    let mut funcs: Vec<Function> = Vec::new();
    funcs.push(setup_push());
    funcs.push(setup_pop());
    funcs
}

fn helper(name: &str, before: &str, after: &str) -> (r: Function)
    ensures
        r.namespace@ == "mctest"@,
        r.name@ == name@,
        r.content@ == cell_address() + cell_lines(before@, after@, 32),
{
    let mut content = String::new();
    append(&mut content, "scoreboard players operation tmp stack = ptr stack\n");
    append(&mut content, "scoreboard players operation tmp stack -= offset stack\n");
    let ghost head = content@;
    assert(head =~= cell_address());
    let mut i: usize = 0;
    while i < 32
        invariant
            i <= 32,
            content@ == head + cell_lines(before@, after@, i as nat),
        decreases 32 - i,
    {
        append(&mut content, "execute if score tmp stack matches ");
        push_usize(&mut content, i);
        append(&mut content, " run scoreboard players operation ");
        append(&mut content, before);
        push_usize(&mut content, i);
        append(&mut content, after);
        i = i + 1;
        assert(content@ =~= head + cell_lines(before@, after@, i as nat));
    }
    Function { namespace: String::from_str("mctest"), name: String::from_str(name), content }
}

fn setup_push() -> (r: Function)
    ensures
        r.namespace@ == "mctest"@ && r.name@ == "push"@ && r.content@ == push_text(),
{
    helper("push", "", " stack = item stack\n")
}

fn setup_pop() -> (r: Function)
    ensures
        r.namespace@ == "mctest"@ && r.name@ == "pop"@ && r.content@ == pop_text(),
{
    helper("pop", "item stack = ", " stack\n")
}

} // verus!
