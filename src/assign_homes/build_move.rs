//! The move graph: variables joined by a copy from one to the other.
use vstd::prelude::*;
use crate::assign_homes::ugraph::{
    UnGraph, symmetric, ugraph_add_node, ugraph_contains_edge, ugraph_edges, ugraph_new, ugraph_nodes,
    ugraph_update_edge,
};
use crate::assign_homes::build_interference::{joined, lemma_joined_mono};
use crate::assign_homes::var_set::{index_of, insert_all};
use crate::assign_homes::{jmp_read_set, jmp_reads, read_set, reads, write_set, writes};
use crate::error::CompileError;
use crate::select_instructions::{self as prev, Op};

verus! {

/// The variables that an instruction names.
pub open spec fn instr_vars(i: prev::Instruction) -> Set<u32> {
    writes(i).union(reads(i))
}

/// Every variable that an instruction or a jump of the program names is in `vars`.
pub open spec fn covers(program: &prev::Program, vars: Set<u32>) -> bool {
    &&& forall|b: int, k: int|
        0 <= b < program.blocks.nodes@.len() && 0 <= k < program.blocks.nodes@[b].instrs@.len()
            ==> instr_vars(#[trigger] program.blocks.nodes@[b].instrs@[k]).subset_of(vars)
    &&& forall|e: int|
        0 <= e < program.blocks.edges@.len() ==> jmp_reads(
            (#[trigger] program.blocks.edges@[e]).weight,
        ).subset_of(vars)
}

/// The variables that the instructions and jumps of the program name.
pub open spec fn program_vars(program: &prev::Program) -> Set<u32> {
    Set::new(
        |x: u32|
            (exists|b: int, k: int|
                0 <= b < program.blocks.nodes@.len() && 0 <= k < program.blocks.nodes@[b].instrs@.len()
                    && #[trigger] instr_vars(program.blocks.nodes@[b].instrs@[k]).contains(x)) || (exists|e: int|
                0 <= e < program.blocks.edges@.len() && #[trigger] jmp_reads(program.blocks.edges@[e].weight).contains(x)),
    )
}

/// Every variable that the program names, each once.
pub fn collect_vars(program: &prev::Program) -> (r: Vec<u32>)
    ensures
        r@.no_duplicates(),
        covers(program, r@.to_set()),
        r@.to_set() == program_vars(program),
{
    let mut vs: Vec<u32> = Vec::new();
    let mut b: usize = 0;
    while b < program.blocks.nodes.len()
        invariant
            b <= program.blocks.nodes@.len(),
            vs@.no_duplicates(),
            vs@.to_set().subset_of(program_vars(program)),
            forall|c: int, k: int|
                0 <= c < b && 0 <= k < program.blocks.nodes@[c].instrs@.len() ==> instr_vars(
                    #[trigger] program.blocks.nodes@[c].instrs@[k],
                ).subset_of(vs@.to_set()),
        decreases program.blocks.nodes.len() - b,
    {
        let instrs = &program.blocks.nodes[b].instrs;
        let mut k: usize = 0;
        while k < instrs.len()
            invariant
                b < program.blocks.nodes@.len(),
                instrs == program.blocks.nodes@[b as int].instrs,
                k <= instrs@.len(),
                vs@.no_duplicates(),
                vs@.to_set().subset_of(program_vars(program)),
                forall|c: int, j: int|
                    0 <= c < b && 0 <= j < program.blocks.nodes@[c].instrs@.len() ==> instr_vars(
                        #[trigger] program.blocks.nodes@[c].instrs@[j],
                    ).subset_of(vs@.to_set()),
                forall|j: int| 0 <= j < k ==> instr_vars(#[trigger] instrs@[j]).subset_of(vs@.to_set()),
            decreases instrs.len() - k,
        {
            collect_vars_instr(&mut vs, &instrs[k]);
            proof {
                assert forall|x: u32| instr_vars(instrs@[k as int]).contains(x) implies program_vars(program).contains(x) by {
                    assert(instr_vars(program.blocks.nodes@[b as int].instrs@[k as int]).contains(x));
                }
            }
            k = k + 1;
        }
        b = b + 1;
    }
    let mut e: usize = 0;
    while e < program.blocks.edges.len()
        invariant
            e <= program.blocks.edges@.len(),
            vs@.no_duplicates(),
            vs@.to_set().subset_of(program_vars(program)),
            forall|c: int, k: int|
                0 <= c < program.blocks.nodes@.len() && 0 <= k < program.blocks.nodes@[c].instrs@.len()
                    ==> instr_vars(#[trigger] program.blocks.nodes@[c].instrs@[k]).subset_of(vs@.to_set()),
            forall|j: int|
                0 <= j < e ==> jmp_reads((#[trigger] program.blocks.edges@[j]).weight).subset_of(vs@.to_set()),
        decreases program.blocks.edges.len() - e,
    {
        insert_all(&mut vs, &jmp_read_set(&program.blocks.edges[e].weight));
        proof {
            assert forall|x: u32| jmp_reads(program.blocks.edges@[e as int].weight).contains(x) implies program_vars(
                program,
            ).contains(x) by {}
        }
        e = e + 1;
    }
    proof {
        assert forall|x: u32| program_vars(program).contains(x) implies vs@.to_set().contains(x) by {
            if exists|b: int, k: int|
                0 <= b < program.blocks.nodes@.len() && 0 <= k < program.blocks.nodes@[b].instrs@.len()
                    && #[trigger] instr_vars(program.blocks.nodes@[b].instrs@[k]).contains(x) {
                let (b, k) = choose|b: int, k: int|
                    0 <= b < program.blocks.nodes@.len() && 0 <= k < program.blocks.nodes@[b].instrs@.len()
                        && #[trigger] instr_vars(program.blocks.nodes@[b].instrs@[k]).contains(x);
                assert(instr_vars(program.blocks.nodes@[b].instrs@[k]).subset_of(vs@.to_set()));
            } else {
                let e = choose|e: int|
                    0 <= e < program.blocks.edges@.len() && #[trigger] jmp_reads(program.blocks.edges@[e].weight).contains(x);
                assert(jmp_reads(program.blocks.edges@[e].weight).subset_of(vs@.to_set()));
            }
        }
        assert(vs@.to_set() =~= program_vars(program));
    }
    vs
}

/// Adds the variables that `instr` names to the set `vs`.
pub fn collect_vars_instr(vs: &mut Vec<u32>, instr: &prev::Instruction)
    requires
        old(vs)@.no_duplicates(),
    ensures
        final(vs)@.no_duplicates(),
        final(vs)@.to_set() == old(vs)@.to_set().union(instr_vars(*instr)),
{
    insert_all(vs, &write_set(instr));
    insert_all(vs, &read_set(instr));
    assert(vs@.to_set() =~= old(vs)@.to_set().union(instr_vars(*instr)));
}

/// The move graph over the variables `vars`: node `i` stands for `vars[i]`.
pub struct MoveGraph {
    pub graph: UnGraph,
}

/// The move graph has one node per variable, in the order of `vars`.
pub open spec fn graph_over(g: UnGraph, vars: Seq<u32>) -> bool {
    ugraph_nodes(g) == vars && symmetric(ugraph_edges(g))
}

/// Node `i` stands for a variable copied to or from the one of node `j`.
pub open spec fn copies(program: &prev::Program, vars: Seq<u32>, i: int, j: int) -> bool {
    exists|b: int, k: int|
        0 <= b < program.blocks.nodes@.len() && 0 <= k < program.blocks.nodes@[b].instrs@.len()
            && match #[trigger] program.blocks.nodes@[b].instrs@[k] {
            prev::Instruction::Operation { op: Op::Equals, source, destination } => (vars[i]
                == source.id && vars[j] == destination.id) || (vars[i] == destination.id && vars[j]
                == source.id),
            _ => false,
        }
}

impl MoveGraph {
    /// Whether the variables of nodes `a` and `b` are joined by a copy.
    pub fn move_related(&self, a: usize, b: usize) -> (r: bool)
        ensures
            r == ugraph_edges(self.graph).contains((a, b)),
    {
        ugraph_contains_edge(&self.graph, a, b)
    }
}

/// A graph over `vars` with no edge.
pub fn empty_graph(vars: &Vec<u32>) -> (r: UnGraph)
    ensures
        graph_over(r, vars@),
        ugraph_edges(r) == Set::<(usize, usize)>::empty(),
{
    let mut g = ugraph_new();
    let mut i: usize = 0;
    while i < vars.len()
        invariant
            i <= vars@.len(),
            ugraph_nodes(g) == vars@.take(i as int),
            ugraph_edges(g) == Set::<(usize, usize)>::empty(),
        decreases vars.len() - i,
    {
        ugraph_add_node(&mut g, vars[i]);
        i = i + 1;
        assert(ugraph_nodes(g) =~= vars@.take(i as int));
    }
    assert(vars@.take(vars@.len() as int) =~= vars@);
    g
}

/// A copy instruction's source and destination are joined in `edges`.
pub open spec fn copy_joined(i: prev::Instruction, edges: Set<(usize, usize)>, vars: Seq<u32>) -> bool {
    match i {
        prev::Instruction::Operation { op: Op::Equals, source, destination } => joined(
            edges,
            vars,
            source.id,
            destination.id,
        ),
        _ => true,
    }
}

/// Joins each pair of variables that a copy instruction relates.
pub fn build_move(program: &prev::Program, vars: &Vec<u32>) -> (r: Result<MoveGraph, CompileError>)
    ensures
        covers(program, vars@.to_set()) ==> r is Ok,
        r is Ok ==> forall|b: int, k: int|
            0 <= b < program.blocks.nodes@.len() && 0 <= k < program.blocks.nodes@[b].instrs@.len() ==> copy_joined(
                #[trigger] program.blocks.nodes@[b].instrs@[k],
                ugraph_edges(r->Ok_0.graph),
                vars@,
            ),
        r is Ok ==> graph_over(r->Ok_0.graph, vars@),
        r is Ok ==> forall|i: usize, j: usize|
            #[trigger] ugraph_edges(r->Ok_0.graph).contains((i, j)) ==> copies(program, vars@, i as int, j as int),
{
    let mut graph = empty_graph(vars);
    let mut b: usize = 0;
    while b < program.blocks.nodes.len()
        invariant
            b <= program.blocks.nodes@.len(),
            graph_over(graph, vars@),
            forall|i: usize, j: usize|
                #[trigger] ugraph_edges(graph).contains((i, j)) ==> copies(program, vars@, i as int, j as int),
            forall|c: int, k: int|
                0 <= c < b && 0 <= k < program.blocks.nodes@[c].instrs@.len() ==> copy_joined(
                    #[trigger] program.blocks.nodes@[c].instrs@[k],
                    ugraph_edges(graph),
                    vars@,
                ),
        decreases program.blocks.nodes.len() - b,
    {
        let instrs = &program.blocks.nodes[b].instrs;
        let mut k: usize = 0;
        while k < instrs.len()
            invariant
                b < program.blocks.nodes@.len(),
                instrs == program.blocks.nodes@[b as int].instrs,
                k <= instrs@.len(),
                graph_over(graph, vars@),
                forall|i: usize, j: usize|
                    #[trigger] ugraph_edges(graph).contains((i, j)) ==> copies(program, vars@, i as int, j as int),
                forall|c: int, j: int|
                    0 <= c < b && 0 <= j < program.blocks.nodes@[c].instrs@.len() ==> copy_joined(
                        #[trigger] program.blocks.nodes@[c].instrs@[j],
                        ugraph_edges(graph),
                        vars@,
                    ),
                forall|j: int| 0 <= j < k ==> copy_joined(#[trigger] instrs@[j], ugraph_edges(graph), vars@),
            decreases instrs.len() - k,
        {
            let ghost e0 = ugraph_edges(graph);
            if let prev::Instruction::Operation { op: Op::Equals, source, destination } = &instrs[k] {
                match (index_of(vars, source.id), index_of(vars, destination.id)) {
                    (Some(s), Some(d)) => {
                        ugraph_update_edge(&mut graph, s, d);
                        proof {
                            assert(copies(program, vars@, s as int, d as int));
                            assert(copies(program, vars@, d as int, s as int));
                            assert(ugraph_edges(graph).contains((s, d)));
                            assert(joined(ugraph_edges(graph), vars@, source.id, destination.id));
                        }
                    },
                    _ => {
                        proof {
                            if covers(program, vars@.to_set()) {
                                assert(instr_vars(instrs@[k as int]).contains(source.id));
                                assert(instr_vars(instrs@[k as int]).contains(destination.id));
                                assert(vars@.to_set().contains(source.id));
                                assert(vars@.to_set().contains(destination.id));
                            }
                        }
                        return Err(CompileError::Internal);
                    },
                }
            }
            proof {
                let e1 = ugraph_edges(graph);
                assert(e0.subset_of(e1));
                assert forall|c: int, j: int|
                    0 <= c < b && 0 <= j < program.blocks.nodes@[c].instrs@.len() implies copy_joined(
                    #[trigger] program.blocks.nodes@[c].instrs@[j],
                    e1,
                    vars@,
                ) by {
                    if let prev::Instruction::Operation { op: Op::Equals, source, destination } = program.blocks.nodes@[c].instrs@[j] {
                        lemma_joined_mono(e0, e1, vars@, source.id, destination.id);
                    }
                }
                assert forall|j: int| 0 <= j <= k implies copy_joined(#[trigger] instrs@[j], e1, vars@) by {
                    if j < k {
                        if let prev::Instruction::Operation { op: Op::Equals, source, destination } = instrs@[j] {
                            lemma_joined_mono(e0, e1, vars@, source.id, destination.id);
                        }
                    }
                }
            }
            k = k + 1;
        }
        b = b + 1;
    }
    Ok(MoveGraph { graph })
}

} // verus!
