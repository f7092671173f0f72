//! Register allocation: gives every variable a home, a register or a stack slot.
use vstd::prelude::*;
use crate::cfg::BlockGraph;
use crate::error::CompileError;
use crate::linearize::Test;
use crate::select_instructions::{self as prev, Op};
use crate::var::Var;

pub mod build_interference;
pub mod build_move;
pub mod color_graph;
pub mod ugraph;
pub mod uncover_live;
pub mod var_set;


verus! {

pub type Cfg = BlockGraph<Block, Jmp>;

pub struct Program {
    pub blocks: Cfg,
    pub tests: Vec<Test>,
}

#[derive(Debug, Clone, PartialEq, Eq)]
pub struct Block {
    pub instrs: Vec<Instruction>,
}

#[derive(Debug, Clone, PartialEq, Eq)]
pub enum Instruction {
    SetScore { location: Location, value: i64 },
    Operation { op: Op, source: Location, destination: Location },
    Tellraw { text: String },
    Command { text: String },
    ExecuteIfScoreMatchesSet { location: Location, value: i64, set_location: Location, set_value: i64 },
    ExecuteUnlessScoreMatchesSet { location: Location, value: i64, set_location: Location, set_value: i64 },
    ExecuteIfScoreEqualsSet { a: Location, b: Location, set_location: Location, set_value: i64 },
    ExecuteUnlessScoreEqualsSet { a: Location, b: Location, set_location: Location, set_value: i64 },
}

#[derive(Debug, Clone, PartialEq, Eq)]
pub enum Jmp {
    ExecuteIfScoreMatchesFunction { location: Location, value: i64, block: usize },
    ExecuteUnlessScoreMatchesFunction { location: Location, value: i64, block: usize },
    ExecuteIfScoreEqualsFunction { a: Location, b: Location, block: usize },
    ExecuteUnlessScoreEqualsFunction { a: Location, b: Location, block: usize },
    Function { block: usize },
}

/// Where a variable lives: a register, or a stack slot at an offset of at least 1.
#[derive(Debug, Clone, Copy, PartialEq, Eq, Structural)]
pub enum Location {
    Register(Register),
    Stack { offset: u32 },
}

#[derive(Debug, Clone, Copy, PartialEq, Eq, Structural)]
pub enum Register {
    R1,
    R2,
    R3,
    R4,
    R5,
    R6,
    R7,
    R8,
    E1,
    E2,
    E3,
    E4,
    E5,
    E6,
    E7,
    E8,
}

/// The register of each of the colors 0 to 15: R1 to R8, then E1 to E8.
pub open spec fn register_of(c: nat) -> Register {
    if c == 0 { Register::R1 } else if c == 1 { Register::R2 } else if c == 2 { Register::R3 }
    else if c == 3 { Register::R4 } else if c == 4 { Register::R5 } else if c == 5 { Register::R6 }
    else if c == 6 { Register::R7 } else if c == 7 { Register::R8 } else if c == 8 { Register::E1 }
    else if c == 9 { Register::E2 } else if c == 10 { Register::E3 } else if c == 11 { Register::E4 }
    else if c == 12 { Register::E5 } else if c == 13 { Register::E6 } else if c == 14 { Register::E7 }
    else { Register::E8 }
}

/// The home of a color: a register for 0 to 15, the stack slot `c - 15` beyond.
pub open spec fn color_location(c: u32) -> Location {
    if c < 16 {
        Location::Register(register_of(c as nat))
    } else {
        Location::Stack { offset: (c - 15) as u32 }
    }
}

/// The color of a home: the inverse of `color_location`.
pub open spec fn location_color(l: Location) -> int {
    match l {
        Location::Register(r) => register_color(r) as int,
        Location::Stack { offset } => offset + 15,
    }
}

pub open spec fn register_color(r: Register) -> nat {
    match r {
        Register::R1 => 0,
        Register::R2 => 1,
        Register::R3 => 2,
        Register::R4 => 3,
        Register::R5 => 4,
        Register::R6 => 5,
        Register::R7 => 6,
        Register::R8 => 7,
        Register::E1 => 8,
        Register::E2 => 9,
        Register::E3 => 10,
        Register::E4 => 11,
        Register::E5 => 12,
        Register::E6 => 13,
        Register::E7 => 14,
        Register::E8 => 15,
    }
}

impl Location {
    pub fn from_color(color: u32) -> (r: Self)
        ensures
            r == color_location(color),
    {
        if color < 16 {
            Location::Register(Register::from_index(color))
        } else {
            Location::Stack { offset: color - 15 }
        }
    }
}

impl Register {
    fn from_index(c: u32) -> (r: Register)
        requires
            c < 16,
        ensures
            r == register_of(c as nat),
    {
        if c == 0 { Register::R1 } else if c == 1 { Register::R2 } else if c == 2 { Register::R3 }
        else if c == 3 { Register::R4 } else if c == 4 { Register::R5 } else if c == 5 { Register::R6 }
        else if c == 6 { Register::R7 } else if c == 7 { Register::R8 } else if c == 8 { Register::E1 }
        else if c == 9 { Register::E2 } else if c == 10 { Register::E3 } else if c == 11 { Register::E4 }
        else if c == 12 { Register::E5 } else if c == 13 { Register::E6 } else if c == 14 { Register::E7 }
        else { Register::E8 }
    }

    pub fn to_color(&self) -> (r: u32)
        ensures
            r == register_color(*self),
            r < 16,
    {
        match self {
            Register::R1 => 0,
            Register::R2 => 1,
            Register::R3 => 2,
            Register::R4 => 3,
            Register::R5 => 4,
            Register::R6 => 5,
            Register::R7 => 6,
            Register::R8 => 7,
            Register::E1 => 8,
            Register::E2 => 9,
            Register::E3 => 10,
            Register::E4 => 11,
            Register::E5 => 12,
            Register::E6 => 13,
            Register::E7 => 14,
            Register::E8 => 15,
        }
    }

    /// The register's name in the command language.
    pub fn name(&self) -> (r: &'static str)
        ensures
            r@ == register_name(*self),
    {
        match self {
            Register::R1 => "r1",
            Register::R2 => "r2",
            Register::R3 => "r3",
            Register::R4 => "r4",
            Register::R5 => "r5",
            Register::R6 => "r6",
            Register::R7 => "r7",
            Register::R8 => "r8",
            Register::E1 => "e1",
            Register::E2 => "e2",
            Register::E3 => "e3",
            Register::E4 => "e4",
            Register::E5 => "e5",
            Register::E6 => "e6",
            Register::E7 => "e7",
            Register::E8 => "e8",
        }
    }
}

pub open spec fn register_name(r: Register) -> Seq<char> {
    match r {
        Register::R1 => "r1"@,
        Register::R2 => "r2"@,
        Register::R3 => "r3"@,
        Register::R4 => "r4"@,
        Register::R5 => "r5"@,
        Register::R6 => "r6"@,
        Register::R7 => "r7"@,
        Register::R8 => "r8"@,
        Register::E1 => "e1"@,
        Register::E2 => "e2"@,
        Register::E3 => "e3"@,
        Register::E4 => "e4"@,
        Register::E5 => "e5"@,
        Register::E6 => "e6"@,
        Register::E7 => "e7"@,
        Register::E8 => "e8"@,
    }
}

/// Colors and homes correspond one to one: colors 0 to 15 are the sixteen registers,
/// and color `off + 15` is the stack slot `off` for every `off >= 1`.
pub proof fn lemma_location_bijection(c: u32, l: Location)
    ensures
        location_color(color_location(c)) == c,
        (l is Register || 1 <= l->Stack_offset <= u32::MAX - 15) ==> 0 <= location_color(l)
            <= u32::MAX && color_location(location_color(l) as u32) == l,
        c < 16 <==> color_location(c) is Register,
{
    match l {
        Location::Register(r) => {
            assert(register_of(register_color(r)) == r);
        },
        Location::Stack { offset } => {},
    }
}

/// The variables that an instruction writes.
pub open spec fn writes(i: prev::Instruction) -> Set<u32> {
    match i {
        prev::Instruction::SetScore { var, .. } => set![var.id],
        prev::Instruction::Operation { destination, .. } => set![destination.id],
        prev::Instruction::Tellraw { .. } => Set::empty(),
        prev::Instruction::Command { .. } => Set::empty(),
        prev::Instruction::ExecuteIfScoreMatchesSet { set_var, .. } => set![set_var.id],
        prev::Instruction::ExecuteUnlessScoreMatchesSet { set_var, .. } => set![set_var.id],
        prev::Instruction::ExecuteIfScoreEqualsSet { set_var, .. } => set![set_var.id],
        prev::Instruction::ExecuteUnlessScoreEqualsSet { set_var, .. } => set![set_var.id],
    }
}

/// The variables that an instruction reads.
pub open spec fn reads(i: prev::Instruction) -> Set<u32> {
    match i {
        prev::Instruction::SetScore { .. } => Set::empty(),
        prev::Instruction::Operation { op, source, destination } => if op == Op::Equals {
            set![source.id]
        } else {
            set![source.id, destination.id]
        },
        prev::Instruction::Tellraw { .. } => Set::empty(),
        prev::Instruction::Command { .. } => Set::empty(),
        prev::Instruction::ExecuteIfScoreMatchesSet { var, .. } => set![var.id],
        prev::Instruction::ExecuteUnlessScoreMatchesSet { var, .. } => set![var.id],
        prev::Instruction::ExecuteIfScoreEqualsSet { a, b, .. } => set![a.id, b.id],
        prev::Instruction::ExecuteUnlessScoreEqualsSet { a, b, .. } => set![a.id, b.id],
    }
}

/// The variables that a jump reads.
pub open spec fn jmp_reads(j: prev::Jmp) -> Set<u32> {
    match j {
        prev::Jmp::ExecuteIfScoreMatchesFunction { var, .. } => set![var.id],
        prev::Jmp::ExecuteUnlessScoreMatchesFunction { var, .. } => set![var.id],
        prev::Jmp::ExecuteIfScoreEqualsFunction { a, b, .. } => set![a.id, b.id],
        prev::Jmp::ExecuteUnlessScoreEqualsFunction { a, b, .. } => set![a.id, b.id],
        prev::Jmp::Function { .. } => Set::empty(),
    }
}

fn ids1(a: &Var) -> (r: Vec<u32>)
    ensures
        r@ == seq![a.id],
        r@.to_set() == set![a.id],
        r@.no_duplicates(),
{
    let mut v: Vec<u32> = Vec::new();
    v.push(a.id);
    assert(v@ =~= seq![a.id]);
    assert(v@.to_set() =~= set![a.id]) by {
        assert(v@[0] == a.id);
    }
    v
}

fn ids2(a: &Var, b: &Var) -> (r: Vec<u32>)
    ensures
        r@.to_set() == set![a.id, b.id],
        r@.no_duplicates(),
{
    let mut v = ids1(a);
    if a.id != b.id {
        v.push(b.id);
        assert(v@ =~= seq![a.id, b.id]);
        assert(v@.to_set() =~= set![a.id, b.id]) by {
            assert(v@[0] == a.id);
            assert(v@[1] == b.id);
        }
    } else {
        assert(set![a.id, b.id] =~= set![a.id]);
    }
    v
}

/// The variables that an instruction writes, without repetition.
pub fn write_set(instr: &prev::Instruction) -> (r: Vec<u32>)
    ensures
        r@.to_set() == writes(*instr),
        r@.no_duplicates(),
{
    match instr {
        prev::Instruction::SetScore { var, .. } => ids1(var),
        prev::Instruction::Operation { destination, .. } => ids1(destination),
        prev::Instruction::Tellraw { .. } => {
            let v: Vec<u32> = Vec::new();
            assert(v@.to_set() =~= Set::empty());
            v
        },
        prev::Instruction::Command { .. } => {
            let v: Vec<u32> = Vec::new();
            assert(v@.to_set() =~= Set::empty());
            v
        },
        prev::Instruction::ExecuteIfScoreMatchesSet { set_var, .. } => ids1(set_var),
        prev::Instruction::ExecuteUnlessScoreMatchesSet { set_var, .. } => ids1(set_var),
        prev::Instruction::ExecuteIfScoreEqualsSet { set_var, .. } => ids1(set_var),
        prev::Instruction::ExecuteUnlessScoreEqualsSet { set_var, .. } => ids1(set_var),
    }
}

/// The variables that an instruction reads, without repetition.
pub fn read_set(instr: &prev::Instruction) -> (r: Vec<u32>)
    ensures
        r@.to_set() == reads(*instr),
        r@.no_duplicates(),
{
    match instr {
        prev::Instruction::SetScore { .. } => {
            let v: Vec<u32> = Vec::new();
            assert(v@.to_set() =~= Set::empty());
            v
        },
        prev::Instruction::Operation { op, source, destination } => {
            if *op == Op::Equals {
                ids1(source)
            } else {
                ids2(source, destination)
            }
        },
        prev::Instruction::Tellraw { .. } => {
            let v: Vec<u32> = Vec::new();
            assert(v@.to_set() =~= Set::empty());
            v
        },
        prev::Instruction::Command { .. } => {
            let v: Vec<u32> = Vec::new();
            assert(v@.to_set() =~= Set::empty());
            v
        },
        prev::Instruction::ExecuteIfScoreMatchesSet { var, .. } => ids1(var),
        prev::Instruction::ExecuteUnlessScoreMatchesSet { var, .. } => ids1(var),
        prev::Instruction::ExecuteIfScoreEqualsSet { a, b, .. } => ids2(a, b),
        prev::Instruction::ExecuteUnlessScoreEqualsSet { a, b, .. } => ids2(a, b),
    }
}

/// The variables that a jump reads, without repetition.
pub fn jmp_read_set(jmp: &prev::Jmp) -> (r: Vec<u32>)
    ensures
        r@.to_set() == jmp_reads(*jmp),
        r@.no_duplicates(),
{
    match jmp {
        prev::Jmp::ExecuteIfScoreMatchesFunction { var, .. } => ids1(var),
        prev::Jmp::ExecuteUnlessScoreMatchesFunction { var, .. } => ids1(var),
        prev::Jmp::ExecuteIfScoreEqualsFunction { a, b, .. } => ids2(a, b),
        prev::Jmp::ExecuteUnlessScoreEqualsFunction { a, b, .. } => ids2(a, b),
        prev::Jmp::Function { .. } => {
            let v: Vec<u32> = Vec::new();
            assert(v@.to_set() =~= Set::empty());
            v
        },
    }
}

} // verus!

verus! {

/// The home of variable `id`: the location of the color at its position in `vars`.
pub open spec fn home(vars: Seq<u32>, colors: Seq<u32>, id: u32) -> Location {
    color_location(colors[choose|i: int| 0 <= i < vars.len() && vars[i] == id])
}

/// The instruction with each variable replaced by its home.
pub open spec fn homed_instr(i: prev::Instruction, vars: Seq<u32>, colors: Seq<u32>) -> Instruction {
    match i {
        prev::Instruction::SetScore { var, value } => Instruction::SetScore { location: home(vars, colors, var.id), value },
        prev::Instruction::Operation { op, source, destination } => Instruction::Operation {
            op,
            source: home(vars, colors, source.id),
            destination: home(vars, colors, destination.id),
        },
        prev::Instruction::Tellraw { text } => Instruction::Tellraw { text },
        prev::Instruction::Command { text } => Instruction::Command { text },
        prev::Instruction::ExecuteIfScoreMatchesSet { var, value, set_var, set_value } =>
            Instruction::ExecuteIfScoreMatchesSet {
            location: home(vars, colors, var.id),
            value,
            set_location: home(vars, colors, set_var.id),
            set_value,
        },
        prev::Instruction::ExecuteUnlessScoreMatchesSet { var, value, set_var, set_value } =>
            Instruction::ExecuteUnlessScoreMatchesSet {
            location: home(vars, colors, var.id),
            value,
            set_location: home(vars, colors, set_var.id),
            set_value,
        },
        prev::Instruction::ExecuteIfScoreEqualsSet { a, b, set_var, set_value } => Instruction::ExecuteIfScoreEqualsSet {
            a: home(vars, colors, a.id),
            b: home(vars, colors, b.id),
            set_location: home(vars, colors, set_var.id),
            set_value,
        },
        prev::Instruction::ExecuteUnlessScoreEqualsSet { a, b, set_var, set_value } =>
            Instruction::ExecuteUnlessScoreEqualsSet {
            a: home(vars, colors, a.id),
            b: home(vars, colors, b.id),
            set_location: home(vars, colors, set_var.id),
            set_value,
        },
    }
}

/// The jump with each variable replaced by its home.
pub open spec fn homed_jmp(j: prev::Jmp, vars: Seq<u32>, colors: Seq<u32>) -> Jmp {
    match j {
        prev::Jmp::ExecuteIfScoreMatchesFunction { var, value, block } => Jmp::ExecuteIfScoreMatchesFunction {
            location: home(vars, colors, var.id),
            value,
            block,
        },
        prev::Jmp::ExecuteUnlessScoreMatchesFunction { var, value, block } =>
            Jmp::ExecuteUnlessScoreMatchesFunction { location: home(vars, colors, var.id), value, block },
        prev::Jmp::ExecuteIfScoreEqualsFunction { a, b, block } => Jmp::ExecuteIfScoreEqualsFunction {
            a: home(vars, colors, a.id),
            b: home(vars, colors, b.id),
            block,
        },
        prev::Jmp::ExecuteUnlessScoreEqualsFunction { a, b, block } => Jmp::ExecuteUnlessScoreEqualsFunction {
            a: home(vars, colors, a.id),
            b: home(vars, colors, b.id),
            block,
        },
        prev::Jmp::Function { block } => Jmp::Function { block },
    }
}

/// The colors are a proper coloring of the interference edges over `vars`.
pub open spec fn properly_colored(edges: Set<(usize, usize)>, colors: Seq<u32>) -> bool {
    forall|i: usize, j: usize|
        i < colors.len() && j < colors.len() && i != j && #[trigger] edges.contains((i, j)) ==> colors[i as int]
            != colors[j as int]
}

/// Interfering variables get different homes.
pub proof fn lemma_interfering_homes_differ(
    edges: Set<(usize, usize)>,
    vars: Seq<u32>,
    colors: Seq<u32>,
    a: u32,
    b: u32,
)
    requires
        vars.no_duplicates(),
        colors.len() == vars.len(),
        properly_colored(edges, colors),
        build_interference::joined(edges, vars, a, b),
        a != b,
    ensures
        home(vars, colors, a) != home(vars, colors, b),
{
    let (i, j) = choose|i: usize, j: usize|
        i < vars.len() && j < vars.len() && vars[i as int] == a && vars[j as int] == b
            && #[trigger] edges.contains((i, j));
    let ia = choose|k: int| 0 <= k < vars.len() && vars[k] == a;
    let ib = choose|k: int| 0 <= k < vars.len() && vars[k] == b;
    assert(ia == i as int);
    assert(ib == j as int);
    lemma_location_bijection(colors[ia], color_location(colors[ib]));
    lemma_location_bijection(colors[ib], color_location(colors[ia]));
}

/// Every variable that the instruction names is in `vars`.
pub open spec fn instr_placed(i: prev::Instruction, vars: Seq<u32>) -> bool {
    match i {
        prev::Instruction::SetScore { var, .. } => vars.contains(var.id),
        prev::Instruction::Operation { source, destination, .. } => vars.contains(source.id) && vars.contains(
            destination.id,
        ),
        prev::Instruction::Tellraw { .. } => true,
        prev::Instruction::Command { .. } => true,
        prev::Instruction::ExecuteIfScoreMatchesSet { var, set_var, .. } => vars.contains(var.id) && vars.contains(
            set_var.id,
        ),
        prev::Instruction::ExecuteUnlessScoreMatchesSet { var, set_var, .. } => vars.contains(var.id) && vars.contains(
            set_var.id,
        ),
        prev::Instruction::ExecuteIfScoreEqualsSet { a, b, set_var, .. } => vars.contains(a.id) && vars.contains(b.id)
            && vars.contains(set_var.id),
        prev::Instruction::ExecuteUnlessScoreEqualsSet { a, b, set_var, .. } => vars.contains(a.id) && vars.contains(
            b.id,
        ) && vars.contains(set_var.id),
    }
}

/// Every variable that the jump reads is in `vars`.
pub open spec fn jmp_placed(j: prev::Jmp, vars: Seq<u32>) -> bool {
    match j {
        prev::Jmp::ExecuteIfScoreMatchesFunction { var, .. } => vars.contains(var.id),
        prev::Jmp::ExecuteUnlessScoreMatchesFunction { var, .. } => vars.contains(var.id),
        prev::Jmp::ExecuteIfScoreEqualsFunction { a, b, .. } => vars.contains(a.id) && vars.contains(b.id),
        prev::Jmp::ExecuteUnlessScoreEqualsFunction { a, b, .. } => vars.contains(a.id) && vars.contains(b.id),
        prev::Jmp::Function { .. } => true,
    }
}

/// An instruction is placed exactly when every variable it names is in `vars`.
pub proof fn lemma_placed(i: prev::Instruction, vars: Seq<u32>)
    ensures
        instr_placed(i, vars) <==> build_move::instr_vars(i).subset_of(vars.to_set()),
{
    match i {
        prev::Instruction::Operation { op, source, destination } => {
            assert(build_move::instr_vars(i).contains(source.id));
            assert(build_move::instr_vars(i).contains(destination.id));
        },
        prev::Instruction::ExecuteIfScoreMatchesSet { var, set_var, .. } => {
            assert(build_move::instr_vars(i).contains(var.id));
            assert(build_move::instr_vars(i).contains(set_var.id));
        },
        prev::Instruction::ExecuteUnlessScoreMatchesSet { var, set_var, .. } => {
            assert(build_move::instr_vars(i).contains(var.id));
            assert(build_move::instr_vars(i).contains(set_var.id));
        },
        prev::Instruction::ExecuteIfScoreEqualsSet { a, b, set_var, .. } => {
            assert(build_move::instr_vars(i).contains(a.id));
            assert(build_move::instr_vars(i).contains(b.id));
            assert(build_move::instr_vars(i).contains(set_var.id));
        },
        prev::Instruction::ExecuteUnlessScoreEqualsSet { a, b, set_var, .. } => {
            assert(build_move::instr_vars(i).contains(a.id));
            assert(build_move::instr_vars(i).contains(b.id));
            assert(build_move::instr_vars(i).contains(set_var.id));
        },
        prev::Instruction::SetScore { var, .. } => {
            assert(build_move::instr_vars(i).contains(var.id));
        },
        _ => {},
    }
}

/// A jump is placed when every variable it reads is in `vars`.
pub proof fn lemma_jmp_placed(j: prev::Jmp, vars: Seq<u32>)
    ensures
        jmp_reads(j).subset_of(vars.to_set()) ==> jmp_placed(j, vars),
{
    match j {
        prev::Jmp::ExecuteIfScoreMatchesFunction { var, .. } => {
            assert(jmp_reads(j).contains(var.id));
        },
        prev::Jmp::ExecuteUnlessScoreMatchesFunction { var, .. } => {
            assert(jmp_reads(j).contains(var.id));
        },
        prev::Jmp::ExecuteIfScoreEqualsFunction { a, b, .. } => {
            assert(jmp_reads(j).contains(a.id));
            assert(jmp_reads(j).contains(b.id));
        },
        prev::Jmp::ExecuteUnlessScoreEqualsFunction { a, b, .. } => {
            assert(jmp_reads(j).contains(a.id));
            assert(jmp_reads(j).contains(b.id));
        },
        _ => {},
    }
}

/// The home of variable `v`.
fn home_of(vars: &Vec<u32>, colors: &Vec<u32>, v: &Var) -> (r: Result<Location, CompileError>)
    requires
        vars@.no_duplicates(),
        colors@.len() == vars@.len(),
    ensures
        r is Ok <==> vars@.contains(v.id),
        r is Ok ==> r->Ok_0 == home(vars@, colors@, v.id),
{
    match var_set::index_of(vars, v.id) {
        Some(i) => {
            let ghost k = choose|k: int| 0 <= k < vars@.len() && vars@[k] == v.id;
            assert(k == i as int);
            Ok(Location::from_color(colors[i]))
        },
        None => Err(CompileError::Internal),
    }
}

pub fn assign_homes_instr(instr: prev::Instruction, vars: &Vec<u32>, colors: &Vec<u32>) -> (r: Result<
    Instruction,
    CompileError,
>)
    requires
        vars@.no_duplicates(),
        colors@.len() == vars@.len(),
    ensures
        r is Ok <==> instr_placed(instr, vars@),
        r is Ok ==> r->Ok_0 == homed_instr(instr, vars@, colors@),
{
    let r = match instr {
        prev::Instruction::SetScore { var, value } => Instruction::SetScore { location: home_of(vars, colors, &var)?, value },
        prev::Instruction::Operation { op, source, destination } => {
            let source_home = home_of(vars, colors, &source)?;
            let destination_home = home_of(vars, colors, &destination)?;
            Instruction::Operation { op, source: source_home, destination: destination_home }
        },
        prev::Instruction::Tellraw { text } => Instruction::Tellraw { text },
        prev::Instruction::Command { text } => Instruction::Command { text },
        prev::Instruction::ExecuteIfScoreMatchesSet { var, value, set_var, set_value } => {
            let location = home_of(vars, colors, &var)?;
            let set_location = home_of(vars, colors, &set_var)?;
            Instruction::ExecuteIfScoreMatchesSet { location, value, set_location, set_value }
        },
        prev::Instruction::ExecuteUnlessScoreMatchesSet { var, value, set_var, set_value } => {
            let location = home_of(vars, colors, &var)?;
            let set_location = home_of(vars, colors, &set_var)?;
            Instruction::ExecuteUnlessScoreMatchesSet { location, value, set_location, set_value }
        },
        prev::Instruction::ExecuteIfScoreEqualsSet { a, b, set_var, set_value } => {
            let a = home_of(vars, colors, &a)?;
            let b = home_of(vars, colors, &b)?;
            let set_location = home_of(vars, colors, &set_var)?;
            Instruction::ExecuteIfScoreEqualsSet { a, b, set_location, set_value }
        },
        prev::Instruction::ExecuteUnlessScoreEqualsSet { a, b, set_var, set_value } => {
            let a = home_of(vars, colors, &a)?;
            let b = home_of(vars, colors, &b)?;
            let set_location = home_of(vars, colors, &set_var)?;
            Instruction::ExecuteUnlessScoreEqualsSet { a, b, set_location, set_value }
        },
    };
    Ok(r)
}

fn assign_homes_jmp(jmp: &prev::Jmp, vars: &Vec<u32>, colors: &Vec<u32>) -> (r: Result<Jmp, CompileError>)
    requires
        vars@.no_duplicates(),
        colors@.len() == vars@.len(),
    ensures
        r is Ok <==> jmp_placed(*jmp, vars@),
        r is Ok ==> r->Ok_0 == homed_jmp(*jmp, vars@, colors@),
{
    match jmp {
        prev::Jmp::ExecuteIfScoreMatchesFunction { var, value, block } => Ok(
            Jmp::ExecuteIfScoreMatchesFunction { location: home_of(vars, colors, var)?, value: *value, block: *block },
        ),
        prev::Jmp::ExecuteUnlessScoreMatchesFunction { var, value, block } => Ok(
            Jmp::ExecuteUnlessScoreMatchesFunction { location: home_of(vars, colors, var)?, value: *value, block: *block },
        ),
        prev::Jmp::ExecuteIfScoreEqualsFunction { a, b, block } => {
            let a = home_of(vars, colors, a)?;
            let b = home_of(vars, colors, b)?;
            Ok(Jmp::ExecuteIfScoreEqualsFunction { a, b, block: *block })
        },
        prev::Jmp::ExecuteUnlessScoreEqualsFunction { a, b, block } => {
            let a = home_of(vars, colors, a)?;
            let b = home_of(vars, colors, b)?;
            Ok(Jmp::ExecuteUnlessScoreEqualsFunction { a, b, block: *block })
        },
        prev::Jmp::Function { block } => Ok(Jmp::Function { block: *block }),
    }
}

fn assign_homes_block(block: prev::Block, vars: &Vec<u32>, colors: &Vec<u32>) -> (r: Result<Block, CompileError>)
    requires
        vars@.no_duplicates(),
        colors@.len() == vars@.len(),
    ensures
        (forall|k: int| 0 <= k < block.instrs@.len() ==> instr_placed(#[trigger] block.instrs@[k], vars@)) ==> r is Ok,
        r is Ok ==> r->Ok_0.instrs@.len() == block.instrs@.len(),
        r is Ok ==> forall|k: int|
            0 <= k < block.instrs@.len() ==> #[trigger] r->Ok_0.instrs@[k] == homed_instr(block.instrs@[k], vars@, colors@),
{
    let prev::Block { instrs } = block;
    let ghost input = instrs@;
    let mut rest = crate::seqs::into_reversed(instrs);
    let mut out: Vec<Instruction> = Vec::new();
    while rest.len() > 0
        invariant
            vars@.no_duplicates(),
            colors@.len() == vars@.len(),
            out@.len() + rest@.len() == input.len(),
            forall|k: int| 0 <= k < rest@.len() ==> #[trigger] rest@[k] == input[input.len() - 1 - k],
            forall|k: int| 0 <= k < out@.len() ==> #[trigger] out@[k] == homed_instr(input[k], vars@, colors@),
            input == block.instrs@,
        decreases rest.len(),
    {
        let ghost k = out@.len() as int;
        let instr = rest.pop().unwrap();
        assert(instr == input[k]);
        out.push(assign_homes_instr(instr, vars, colors)?);
    }
    Ok(Block { instrs: out })
}

/// Gives every variable a home: live analysis, interference and move graphs, coloring,
/// and the rewrite of every instruction and jump.
pub fn assign_homes(program: prev::Program) -> (r: Result<Program, CompileError>)
    ensures
        r is Ok ==> r->Ok_0.blocks.nodes@.len() == program.blocks.nodes@.len(),
        r is Ok ==> r->Ok_0.blocks.edges@.len() == program.blocks.edges@.len(),
        r is Ok ==> forall|e: int| 0 <= e < program.blocks.edges@.len() ==> (#[trigger] r->Ok_0.blocks.edges@[e]).source
            == program.blocks.edges@[e].source && r->Ok_0.blocks.edges@[e].target == program.blocks.edges@[e].target,
        r is Ok ==> r->Ok_0.tests == program.tests,
        program.blocks.forward() ==> r is Ok,
        uncover_live::edges_in_range(&program) && uncover_live::pairs_acyclic(
            uncover_live::edge_pairs(program.blocks.edges@),
        ) ==> r is Ok,
        r is Ok ==> exists|vars: Seq<u32>, colors: Seq<u32>|
            #[trigger] homes_assigned(&program, &r->Ok_0, vars, colors) && allocation(&program, vars, colors),
{
    let ghost p0 = program;
    let vars = build_move::collect_vars(&program);
    let move_graph = build_move::build_move(&program, &vars)?;
    let annotated = uncover_live::uncover_live(&program)?;
    proof {
        let vs = vars@.to_set();
        let m = uncover_live::read_somewhere(&program);
        assert forall|x: u32| m.contains(x) implies vars@.contains(x) by {
            if exists|b: int, k: int|
                0 <= b < program.blocks.nodes@.len() && 0 <= k < program.blocks.nodes@[b].instrs@.len()
                    && #[trigger] reads(program.blocks.nodes@[b].instrs@[k]).contains(x) {
                let (b, k) = choose|b: int, k: int|
                    0 <= b < program.blocks.nodes@.len() && 0 <= k < program.blocks.nodes@[b].instrs@.len()
                        && #[trigger] reads(program.blocks.nodes@[b].instrs@[k]).contains(x);
                assert(build_move::instr_vars(program.blocks.nodes@[b].instrs@[k]).contains(x));
            } else {
                let e = choose|e: int|
                    0 <= e < program.blocks.edges@.len() && #[trigger] jmp_reads(program.blocks.edges@[e].weight).contains(x);
                assert(jmp_reads(program.blocks.edges@[e].weight).subset_of(vs));
            }
            assert(vs.contains(x));
        }
        assert forall|b: int, k: int|
            0 <= b < annotated.blocks@.len() && 0 <= k < annotated.blocks@[b].instrs@.len() implies build_interference::instr_covered(
            #[trigger] annotated.blocks@[b].instrs@[k],
            vars@,
        ) by {
            let ai = annotated.blocks@[b].instrs@[k];
            assert(uncover_live::annotates(program.blocks.nodes@[b], annotated.blocks@[b], uncover_live::exit_of(annotated.blocks@[b])));
            assert(ai.instr == program.blocks.nodes@[b].instrs@[k]);
            assert(build_move::instr_vars(ai.instr).subset_of(vs));
            assert forall|x: u32| #[trigger] writes(ai.instr).contains(x) implies vars@.contains(x) by {
                assert(vs.contains(x));
            }
            assert(uncover_live::live_within(annotated.blocks@[b], m));
            assert forall|x: u32| #[trigger] ai.live_after@.contains(x) implies vars@.contains(x) by {
                assert(ai.live_after@.to_set().contains(x));
                assert(m.contains(x));
            }
        }
    }
    let interference = build_interference::build_interference(&annotated, &vars)?;
    proof {
        lemma_distinct_ids(vars@);
    }
    let colors = color_graph::color_graph(&interference, &move_graph)?;
    proof {
        let vs = vars@.to_set();
        assert forall|b: int, k: int|
            0 <= b < program.blocks.nodes@.len() && 0 <= k < program.blocks.nodes@[b].instrs@.len() implies instr_placed(
            #[trigger] program.blocks.nodes@[b].instrs@[k],
            vars@,
        ) by {
            lemma_placed(program.blocks.nodes@[b].instrs@[k], vars@);
        }
        assert forall|e: int| 0 <= e < program.blocks.edges@.len() implies jmp_placed(
            (#[trigger] program.blocks.edges@[e]).weight,
            vars@,
        ) by {
            lemma_jmp_placed(program.blocks.edges@[e].weight, vars@);
        }
    }
    let r = assign_homes_program(program, &vars, &colors)?;
    proof {
        let edges = ugraph::ugraph_edges(interference);
        assert(allocation_by(&p0, vars@, colors@, annotated, edges));
        assert(homes_assigned(&p0, &r, vars@, colors@) && allocation(&p0, vars@, colors@));
    }
    Ok(r)
}

proof fn lemma_below_len_u32(n: nat)
    requires
        n <= u32::MAX + 1,
    ensures
        Set::new(|x: u32| x < n).finite(),
        Set::new(|x: u32| x < n).len() == n,
    decreases n,
{
    if n == 0 {
        assert(Set::new(|x: u32| x < n) =~= Set::<u32>::empty());
    } else {
        lemma_below_len_u32((n - 1) as nat);
        assert(Set::new(|x: u32| x < n) =~= Set::new(|x: u32| x < (n - 1) as nat).insert((n - 1) as u32));
    }
}

/// Distinct 32-bit ids number at most 2^32.
proof fn lemma_distinct_ids(s: Seq<u32>)
    requires
        s.no_duplicates(),
    ensures
        s.len() <= u32::MAX + 1,
{
    s.unique_seq_to_set();
    lemma_below_len_u32((u32::MAX + 1) as nat);
    vstd::set_lib::lemma_len_subset(s.to_set(), Set::new(|x: u32| x < u32::MAX + 1));
}

/// `colors` is a proper coloring of the interference graph `edges` over `vars`, built
/// from the liveness annotation `annotated` of `program`.
pub open spec fn allocation_by(
    program: &prev::Program,
    vars: Seq<u32>,
    colors: Seq<u32>,
    annotated: uncover_live::Program,
    edges: Set<(usize, usize)>,
) -> bool {
    &&& annotated.blocks@.len() == program.blocks.nodes@.len()
    &&& forall|b: int|
        0 <= b < annotated.blocks@.len() ==> uncover_live::annotates(
            program.blocks.nodes@[b],
            #[trigger] annotated.blocks@[b],
            uncover_live::exit_of(annotated.blocks@[b]),
        )
    &&& forall|b: int|
        0 <= b < annotated.blocks@.len() ==> uncover_live::exit_of(#[trigger] annotated.blocks@[b])
            == uncover_live::live_out(
            program.blocks.edges@,
            annotated.blocks@.map_values(|x: uncover_live::Block| Some(x)),
            b,
        )
    &&& vars.to_set() == build_move::program_vars(program)
    &&& build_interference::interference_sound(edges, vars, &annotated)
    &&& build_interference::edges_witnessed(edges, vars, annotated)
    &&& colors.len() == vars.len()
    &&& properly_colored(edges, colors)
}

/// The homes come from a proper coloring of an interference graph that is sound for
/// the liveness of `program`.
pub open spec fn allocation(program: &prev::Program, vars: Seq<u32>, colors: Seq<u32>) -> bool {
    exists|annotated: uncover_live::Program, edges: Set<(usize, usize)>|
        #[trigger] allocation_by(program, vars, colors, annotated, edges)
}

/// Every variable that an instruction or a jump of the program names is in `vars`.
pub open spec fn program_placed(program: &prev::Program, vars: Seq<u32>) -> bool {
    &&& forall|b: int, k: int|
        0 <= b < program.blocks.nodes@.len() && 0 <= k < program.blocks.nodes@[b].instrs@.len() ==> instr_placed(
            #[trigger] program.blocks.nodes@[b].instrs@[k],
            vars,
        )
    &&& forall|e: int| 0 <= e < program.blocks.edges@.len() ==> jmp_placed((#[trigger] program.blocks.edges@[e]).weight, vars)
}

/// `out` is `program` with the variables replaced by homes from a proper coloring
/// of the interference of `program`.
pub open spec fn homes_assigned(program: &prev::Program, out: &Program, vars: Seq<u32>, colors: Seq<u32>) -> bool {
    &&& vars.no_duplicates()
    &&& colors.len() == vars.len()
    &&& out.blocks.nodes@.len() == program.blocks.nodes@.len()
    &&& forall|b: int|
        0 <= b < out.blocks.nodes@.len() ==> (#[trigger] out.blocks.nodes@[b]).instrs@.len()
            == program.blocks.nodes@[b].instrs@.len()
    &&& forall|b: int, k: int|
        0 <= b < out.blocks.nodes@.len() && 0 <= k < out.blocks.nodes@[b].instrs@.len() ==> #[trigger] out.blocks.nodes@[b].instrs@[k]
            == homed_instr(program.blocks.nodes@[b].instrs@[k], vars, colors)
    &&& forall|e: int|
        0 <= e < out.blocks.edges@.len() ==> (#[trigger] out.blocks.edges@[e]).weight == homed_jmp(
            program.blocks.edges@[e].weight,
            vars,
            colors,
        )
}

fn assign_homes_program(program: prev::Program, vars: &Vec<u32>, colors: &Vec<u32>) -> (r: Result<Program, CompileError>)
    ensures
        r is Ok ==> r->Ok_0.blocks.nodes@.len() == program.blocks.nodes@.len(),
        r is Ok ==> r->Ok_0.blocks.edges@.len() == program.blocks.edges@.len(),
        r is Ok ==> forall|e: int| 0 <= e < program.blocks.edges@.len() ==> (#[trigger] r->Ok_0.blocks.edges@[e]).source
            == program.blocks.edges@[e].source && r->Ok_0.blocks.edges@[e].target == program.blocks.edges@[e].target,
        r is Ok ==> r->Ok_0.tests == program.tests,
        r is Ok ==> homes_assigned(&program, &r->Ok_0, vars@, colors@),
        program_placed(&program, vars@) && colors@.len() == vars@.len() && vars@.no_duplicates() ==> r is Ok,
{
    let ghost p0 = program;
    if !(colors.len() == vars.len()) {
        return Err(CompileError::Internal);
    }
    if !no_repeats(vars) {
        return Err(CompileError::Internal);
    }
    let prev::Program { blocks, tests } = program;
    let crate::cfg::BlockGraph { nodes, edges: old_edges } = blocks;
    let ghost input = nodes@;
    let mut rest = crate::seqs::into_reversed(nodes);
    let mut new_nodes: Vec<Block> = Vec::new();
    while rest.len() > 0
        invariant
            vars@.no_duplicates(),
            colors@.len() == vars@.len(),
            input == p0.blocks.nodes@,
            p0 == program,
            new_nodes@.len() + rest@.len() == input.len(),
            forall|k: int| 0 <= k < rest@.len() ==> #[trigger] rest@[k] == input[input.len() - 1 - k],
            forall|b: int, k: int|
                0 <= b < new_nodes@.len() && 0 <= k < new_nodes@[b].instrs@.len() ==> #[trigger] new_nodes@[b].instrs@[k]
                    == homed_instr(input[b].instrs@[k], vars@, colors@),
            forall|b: int| 0 <= b < new_nodes@.len() ==> (#[trigger] new_nodes@[b]).instrs@.len() == input[b].instrs@.len(),
        decreases rest.len(),
    {
        let ghost k = new_nodes@.len() as int;
        let block = rest.pop().unwrap();
        assert(block == input[k]);
        proof {
            if program_placed(&p0, vars@) {
                assert forall|j: int| 0 <= j < block.instrs@.len() implies instr_placed(#[trigger] block.instrs@[j], vars@) by {
                    assert(block.instrs@[j] == p0.blocks.nodes@[k].instrs@[j]);
                }
            }
        }
        let b = assign_homes_block(block, vars, colors)?;
        new_nodes.push(b);
    }
    let mut new_edges: Vec<crate::cfg::Edge<Jmp>> = Vec::new();
    let mut i: usize = 0;
    while i < old_edges.len()
        invariant
            vars@.no_duplicates(),
            colors@.len() == vars@.len(),
            old_edges@ == p0.blocks.edges@,
            p0 == program,
            i <= old_edges@.len(),
            new_edges@.len() == i,
            forall|e: int| 0 <= e < i ==> (#[trigger] new_edges@[e]).source == old_edges@[e].source
                && new_edges@[e].target == old_edges@[e].target
                && new_edges@[e].weight == homed_jmp(old_edges@[e].weight, vars@, colors@),
        decreases old_edges.len() - i,
    {
        let e = &old_edges[i];
        let weight = assign_homes_jmp(&e.weight, vars, colors)?;
        new_edges.push(crate::cfg::Edge { source: e.source, target: e.target, weight });
        i = i + 1;
    }
    Ok(Program { blocks: crate::cfg::BlockGraph { nodes: new_nodes, edges: new_edges }, tests })
}

/// Whether `v` holds no value twice.
fn no_repeats(v: &Vec<u32>) -> (r: bool)
    ensures
        r == v@.no_duplicates(),
{
    let mut i: usize = 0;
    while i < v.len()
        invariant
            i <= v@.len(),
            forall|a: int, b: int| 0 <= a < b < v@.len() && a < i ==> v@[a] != v@[b],
        decreases v.len() - i,
    {
        let mut j: usize = i + 1;
        while j < v.len()
            invariant
                i < j <= v@.len(),
                forall|a: int, b: int| 0 <= a < b < v@.len() && a < i ==> v@[a] != v@[b],
                forall|b: int| i < b < j ==> v@[i as int] != v@[b],
            decreases v.len() - j,
        {
            if v[i] == v[j] {
                return false;
            }
            j = j + 1;
        }
        i = i + 1;
    }
    true
}

} // verus!
