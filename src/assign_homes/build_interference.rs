//! The interference graph: variables that must not share a home.
use vstd::prelude::*;
use crate::assign_homes::build_move::{empty_graph, graph_over};
use crate::assign_homes::ugraph::{UnGraph, symmetric, ugraph_edges, ugraph_nodes, ugraph_update_edge};
use crate::assign_homes::uncover_live::{self as prev, AnnotatedInstruction};
use crate::assign_homes::var_set::index_of;
use crate::assign_homes::{write_set, writes};
use crate::error::CompileError;
use crate::select_instructions::{Instruction, Op};

verus! {

/// Variables `a` and `b` are joined in the graph over `vars`.
pub open spec fn joined(edges: Set<(usize, usize)>, vars: Seq<u32>, a: u32, b: u32) -> bool {
    exists|i: usize, j: usize|
        i < vars.len() && j < vars.len() && vars[i as int] == a && vars[j as int] == b
            && #[trigger] edges.contains((i, j))
}

/// The edges that an annotated instruction calls for are present: a copy's destination
/// interferes with every variable live after it but its source; any other instruction's
/// written variables interfere with every other variable live after it.
pub open spec fn instr_sound(edges: Set<(usize, usize)>, vars: Seq<u32>, ai: AnnotatedInstruction) -> bool {
    match ai.instr {
        Instruction::Operation { op: Op::Equals, source, destination } => forall|x: u32|
            #[trigger] ai.live_after@.contains(x) && x != destination.id && x != source.id ==> joined(
                edges,
                vars,
                destination.id,
                x,
            ),
        _ => forall|w: u32, x: u32|
            #[trigger] writes(ai.instr).contains(w) && #[trigger] ai.live_after@.contains(x) && x != w
                ==> joined(edges, vars, w, x),
    }
}

/// Every instruction of every block has the edges that it calls for.
pub open spec fn interference_sound(edges: Set<(usize, usize)>, vars: Seq<u32>, program: &prev::Program) -> bool {
    forall|b: int, k: int|
        0 <= b < program.blocks@.len() && 0 <= k < program.blocks@[b].instrs@.len() ==> instr_sound(
            edges,
            vars,
            #[trigger] program.blocks@[b].instrs@[k],
        )
}

pub proof fn lemma_joined_mono(e1: Set<(usize, usize)>, e2: Set<(usize, usize)>, vars: Seq<u32>, a: u32, b: u32)
    requires
        e1.subset_of(e2),
        joined(e1, vars, a, b),
    ensures
        joined(e2, vars, a, b),
{
    let (i, j) = choose|i: usize, j: usize|
        i < vars.len() && j < vars.len() && vars[i as int] == a && vars[j as int] == b
            && #[trigger] e1.contains((i, j));
    assert(e2.contains((i, j)));
}

proof fn lemma_sound_mono(e1: Set<(usize, usize)>, e2: Set<(usize, usize)>, vars: Seq<u32>, ai: AnnotatedInstruction)
    requires
        e1.subset_of(e2),
        instr_sound(e1, vars, ai),
    ensures
        instr_sound(e2, vars, ai),
{
    match ai.instr {
        Instruction::Operation { op: Op::Equals, source, destination } => {
            assert forall|x: u32|
                #[trigger] ai.live_after@.contains(x) && x != destination.id && x != source.id implies joined(
                e2,
                vars,
                destination.id,
                x,
            ) by {
                lemma_joined_mono(e1, e2, vars, destination.id, x);
            }
        },
        _ => {
            assert forall|w: u32, x: u32|
                #[trigger] writes(ai.instr).contains(w) && #[trigger] ai.live_after@.contains(x) && x != w
                    implies joined(e2, vars, w, x) by {
                lemma_joined_mono(e1, e2, vars, w, x);
            }
        },
    }
}

/// The annotated instruction calls for an edge between `d` and `x`: `d` is written and
/// `x` is live after it (for a copy, `x` is not its source).
pub open spec fn calls_for(ai: AnnotatedInstruction, d: u32, x: u32) -> bool {
    match ai.instr {
        Instruction::Operation { op: Op::Equals, source, destination } => d == destination.id
            && ai.live_after@.contains(x) && x != destination.id && x != source.id,
        _ => writes(ai.instr).contains(d) && ai.live_after@.contains(x) && x != d,
    }
}

/// Some instruction of the program calls for an edge between `a` and `b`.
pub open spec fn witnessed(program: prev::Program, a: u32, b: u32) -> bool {
    exists|bl: int, k: int|
        0 <= bl < program.blocks@.len() && 0 <= k < program.blocks@[bl].instrs@.len() && (calls_for(
            #[trigger] program.blocks@[bl].instrs@[k],
            a,
            b,
        ) || calls_for(program.blocks@[bl].instrs@[k], b, a))
}

/// Every edge of the graph over `vars` is called for by some instruction.
pub open spec fn edges_witnessed(edges: Set<(usize, usize)>, vars: Seq<u32>, program: prev::Program) -> bool {
    forall|i: usize, j: usize|
        #[trigger] edges.contains((i, j)) ==> i < vars.len() && j < vars.len() && witnessed(
            program,
            vars[i as int],
            vars[j as int],
        )
}

proof fn lemma_witness_step(
    e0: Set<(usize, usize)>,
    e1: Set<(usize, usize)>,
    vars: Seq<u32>,
    program: prev::Program,
    bl: int,
    k: int,
    a: u32,
    b: u32,
)
    requires
        edges_witnessed(e0, vars, program),
        0 <= bl < program.blocks@.len(),
        0 <= k < program.blocks@[bl].instrs@.len(),
        calls_for(program.blocks@[bl].instrs@[k], a, b),
        forall|p: usize, q: usize|
            #[trigger] e1.contains((p, q)) ==> e0.contains((p, q)) || (p < vars.len() && q < vars.len() && (
            (vars[p as int] == a && vars[q as int] == b) || (vars[p as int] == b && vars[q as int] == a))),
    ensures
        edges_witnessed(e1, vars, program),
{
    assert forall|p: usize, q: usize| #[trigger] e1.contains((p, q)) implies p < vars.len() && q < vars.len()
        && witnessed(program, vars[p as int], vars[q as int]) by {
        if !e0.contains((p, q)) {
            assert(calls_for(program.blocks@[bl].instrs@[k], a, b));
        }
    }
}

/// Joins variables `a` and `b`.
fn add_edge(graph: &mut UnGraph, vars: &Vec<u32>, a: u32, b: u32) -> (r: Result<(), CompileError>)
    requires
        graph_over(*old(graph), vars@),
    ensures
        r is Ok ==> graph_over(*final(graph), vars@),
        r is Ok ==> ugraph_edges(*old(graph)).subset_of(ugraph_edges(*final(graph))),
        r is Ok ==> joined(ugraph_edges(*final(graph)), vars@, a, b),
        vars@.contains(a) && vars@.contains(b) ==> r is Ok,
        r is Ok ==> forall|p: usize, q: usize|
            #[trigger] ugraph_edges(*final(graph)).contains((p, q)) ==> ugraph_edges(*old(graph)).contains((p, q)) || (
            p < vars@.len() && q < vars@.len() && ((vars@[p as int] == a && vars@[q as int] == b) || (
            vars@[p as int] == b && vars@[q as int] == a))),
{
    match (index_of(vars, a), index_of(vars, b)) {
        (Some(i), Some(j)) => {
            ugraph_update_edge(graph, i, j);
            proof {
                let e = ugraph_edges(*graph);
                assert(e.contains((i, j)));
                assert forall|p: usize, q: usize| #[trigger] e.contains((p, q)) implies e.contains((q, p)) by {
                    if !ugraph_edges(*old(graph)).contains((p, q)) {
                    } else {
                        assert(ugraph_edges(*old(graph)).contains((q, p)));
                    }
                }
            }
            Ok(())
        },
        _ => Err(CompileError::Internal),
    }
}

/// Every variable that an instruction writes or that is live after it is in `vars`.
pub open spec fn instr_covered(ai: AnnotatedInstruction, vars: Seq<u32>) -> bool {
    (forall|x: u32| #[trigger] writes(ai.instr).contains(x) ==> vars.contains(x)) && (forall|x: u32|
        #[trigger] ai.live_after@.contains(x) ==> vars.contains(x))
}

/// Every annotated instruction of the program is covered by `vars`.
pub open spec fn covered(program: &prev::Program, vars: Seq<u32>) -> bool {
    forall|b: int, k: int|
        0 <= b < program.blocks@.len() && 0 <= k < program.blocks@[b].instrs@.len() ==> instr_covered(
            #[trigger] program.blocks@[b].instrs@[k],
            vars,
        )
}

/// Builds the interference graph over `vars` from the annotated program.
pub fn build_interference(program: &prev::Program, vars: &Vec<u32>) -> (r: Result<UnGraph, CompileError>)
    ensures
        covered(program, vars@) ==> r is Ok,
        r is Ok ==> edges_witnessed(ugraph_edges(r->Ok_0), vars@, *program),
        r is Ok ==> graph_over(r->Ok_0, vars@),
        r is Ok ==> interference_sound(ugraph_edges(r->Ok_0), vars@, program),
{
    let mut graph = empty_graph(vars);
    let mut b: usize = 0;
    while b < program.blocks.len()
        invariant
            b <= program.blocks@.len(),
            graph_over(graph, vars@),
            edges_witnessed(ugraph_edges(graph), vars@, *program),
            forall|c: int, k: int|
                0 <= c < b && 0 <= k < program.blocks@[c].instrs@.len() ==> instr_sound(
                    ugraph_edges(graph),
                    vars@,
                    #[trigger] program.blocks@[c].instrs@[k],
                ),
        decreases program.blocks.len() - b,
    {
        let ghost e0 = ugraph_edges(graph);
        proof {
            if covered(program, vars@) {
                assert forall|k: int| 0 <= k < program.blocks@[b as int].instrs@.len() implies instr_covered(
                    #[trigger] program.blocks@[b as int].instrs@[k],
                    vars@,
                ) by {}
            }
        }
        build_interference_block(&mut graph, vars, &program.blocks[b], Ghost(*program), Ghost(b as int))?;
        proof {
            assert forall|c: int, k: int|
                0 <= c <= b && 0 <= k < program.blocks@[c].instrs@.len() implies instr_sound(
                ugraph_edges(graph),
                vars@,
                #[trigger] program.blocks@[c].instrs@[k],
            ) by {
                if c < b {
                    lemma_sound_mono(e0, ugraph_edges(graph), vars@, program.blocks@[c].instrs@[k]);
                }
            }
        }
        b = b + 1;
    }
    Ok(graph)
}

fn build_interference_block(
    graph: &mut UnGraph,
    vars: &Vec<u32>,
    block: &prev::Block,
    Ghost(program): Ghost<prev::Program>,
    Ghost(bl): Ghost<int>,
) -> (r: Result<(), CompileError>)
    requires
        graph_over(*old(graph), vars@),
        0 <= bl < program.blocks@.len(),
        *block == program.blocks@[bl],
        edges_witnessed(ugraph_edges(*old(graph)), vars@, program),
    ensures
        r is Ok ==> edges_witnessed(ugraph_edges(*final(graph)), vars@, program),
        (forall|k: int| 0 <= k < block.instrs@.len() ==> instr_covered(#[trigger] block.instrs@[k], vars@)) ==> r is Ok,
        r is Ok ==> graph_over(*final(graph), vars@),
        r is Ok ==> ugraph_edges(*old(graph)).subset_of(ugraph_edges(*final(graph))),
        r is Ok ==> forall|k: int| 0 <= k < block.instrs@.len() ==> instr_sound(
            ugraph_edges(*final(graph)),
            vars@,
            #[trigger] block.instrs@[k],
        ),
{
    let mut k: usize = 0;
    while k < block.instrs.len()
        invariant
            k <= block.instrs@.len(),
            graph_over(*graph, vars@),
            ugraph_edges(*old(graph)).subset_of(ugraph_edges(*graph)),
            forall|j: int| 0 <= j < k ==> instr_sound(ugraph_edges(*graph), vars@, #[trigger] block.instrs@[j]),
            edges_witnessed(ugraph_edges(*graph), vars@, program),
            0 <= bl < program.blocks@.len(),
            *block == program.blocks@[bl],
        decreases block.instrs.len() - k,
    {
        let ghost e0 = ugraph_edges(*graph);
        build_interference_instr(graph, vars, &block.instrs[k], Ghost(program), Ghost(bl), Ghost(k as int))?;
        proof {
            assert forall|j: int| 0 <= j <= k implies instr_sound(ugraph_edges(*graph), vars@, #[trigger] block.instrs@[j]) by {
                if j < k {
                    lemma_sound_mono(e0, ugraph_edges(*graph), vars@, block.instrs@[j]);
                }
            }
        }
        k = k + 1;
    }
    Ok(())
}

#[verifier::loop_isolation(false)]
fn build_interference_instr(
    graph: &mut UnGraph,
    vars: &Vec<u32>,
    ai: &AnnotatedInstruction,
    Ghost(program): Ghost<prev::Program>,
    Ghost(bl): Ghost<int>,
    Ghost(k): Ghost<int>,
) -> (r: Result<(), CompileError>)
    requires
        graph_over(*old(graph), vars@),
        0 <= bl < program.blocks@.len(),
        0 <= k < program.blocks@[bl].instrs@.len(),
        *ai == program.blocks@[bl].instrs@[k],
        edges_witnessed(ugraph_edges(*old(graph)), vars@, program),
    ensures
        r is Ok ==> edges_witnessed(ugraph_edges(*final(graph)), vars@, program),
        instr_covered(*ai, vars@) ==> r is Ok,
        r is Ok ==> graph_over(*final(graph), vars@),
        r is Ok ==> ugraph_edges(*old(graph)).subset_of(ugraph_edges(*final(graph))),
        r is Ok ==> instr_sound(ugraph_edges(*final(graph)), vars@, *ai),
{
    let live = &ai.live_after;
    if let Instruction::Operation { op: Op::Equals, source, destination } = &ai.instr {
        let mut i: usize = 0;
        while i < live.len()
            invariant
                i <= live@.len(),
                graph_over(*graph, vars@),
                ugraph_edges(*old(graph)).subset_of(ugraph_edges(*graph)),
                edges_witnessed(ugraph_edges(*graph), vars@, program),
                forall|j: int| 0 <= j < i && live@[j] != destination.id && live@[j] != source.id ==> joined(
                    ugraph_edges(*graph),
                    vars@,
                    destination.id,
                    #[trigger] live@[j],
                ),
            decreases live.len() - i,
        {
            let x = live[i];
            if x != destination.id && x != source.id {
                proof {
                    assert(writes(ai.instr).contains(destination.id));
                    assert(live@[i as int] == x);
                    assert(ai.live_after@.contains(x));
                }
                let ghost e0 = ugraph_edges(*graph);
                add_edge(graph, vars, destination.id, x)?;
                proof {
                    assert(calls_for(*ai, destination.id, x));
                    lemma_witness_step(e0, ugraph_edges(*graph), vars@, program, bl, k, destination.id, x);
                }
                proof {
                    assert forall|j: int| 0 <= j < i && live@[j] != destination.id && live@[j] != source.id implies joined(
                        ugraph_edges(*graph),
                        vars@,
                        destination.id,
                        #[trigger] live@[j],
                    ) by {
                        lemma_joined_mono(e0, ugraph_edges(*graph), vars@, destination.id, live@[j]);
                    }
                }
            }
            i = i + 1;
        }
    } else {
        let ws = write_set(&ai.instr);
        let mut w: usize = 0;
        while w < ws.len()
            invariant
                w <= ws@.len(),
                ws@.to_set() == writes(ai.instr),
                graph_over(*graph, vars@),
                ugraph_edges(*old(graph)).subset_of(ugraph_edges(*graph)),
                edges_witnessed(ugraph_edges(*graph), vars@, program),
                forall|p: int, j: int| 0 <= p < w && 0 <= j < live@.len() && live@[j] != ws@[p] ==> joined(
                    ugraph_edges(*graph),
                    vars@,
                    #[trigger] ws@[p],
                    #[trigger] live@[j],
                ),
            decreases ws.len() - w,
        {
            let d = ws[w];
            let ghost e1 = ugraph_edges(*graph);
            let mut i: usize = 0;
            while i < live.len()
                invariant
                    i <= live@.len(),
                    w < ws@.len(),
                    d == ws@[w as int],
                    graph_over(*graph, vars@),
                    ugraph_edges(*old(graph)).subset_of(ugraph_edges(*graph)),
                    edges_witnessed(ugraph_edges(*graph), vars@, program),
                edges_witnessed(ugraph_edges(*graph), vars@, program),
                    e1.subset_of(ugraph_edges(*graph)),
                    forall|j: int| 0 <= j < i && live@[j] != d ==> joined(
                        ugraph_edges(*graph),
                        vars@,
                        d,
                        #[trigger] live@[j],
                    ),
                decreases live.len() - i,
            {
                let x = live[i];
                if x != d {
                    proof {
                        assert(ws@.to_set().contains(d));
                        assert(writes(ai.instr).contains(d));
                        assert(live@[i as int] == x);
                        assert(ai.live_after@.contains(x));
                    }
                    let ghost e0 = ugraph_edges(*graph);
                    add_edge(graph, vars, d, x)?;
                    proof {
                        assert(calls_for(*ai, d, x));
                        lemma_witness_step(e0, ugraph_edges(*graph), vars@, program, bl, k, d, x);
                    }
                    proof {
                        assert forall|j: int| 0 <= j < i && live@[j] != d implies joined(
                            ugraph_edges(*graph),
                            vars@,
                            d,
                            #[trigger] live@[j],
                        ) by {
                            lemma_joined_mono(e0, ugraph_edges(*graph), vars@, d, live@[j]);
                        }
                    }
                }
                i = i + 1;
            }
            proof {
                assert forall|p: int, j: int| 0 <= p <= w && 0 <= j < live@.len() && live@[j] != ws@[p] implies joined(
                    ugraph_edges(*graph),
                    vars@,
                    #[trigger] ws@[p],
                    #[trigger] live@[j],
                ) by {
                    if p < w {
                        lemma_joined_mono(e1, ugraph_edges(*graph), vars@, ws@[p], live@[j]);
                    }
                }
            }
            w = w + 1;
        }
        proof {
            assert forall|a: u32, x: u32|
                #[trigger] writes(ai.instr).contains(a) && #[trigger] ai.live_after@.contains(x) && x != a
                    implies joined(ugraph_edges(*graph), vars@, a, x) by {
                assert(ws@.to_set().contains(a));
                let p = choose|p: int| 0 <= p < ws@.len() && ws@[p] == a;
                let j = choose|j: int| 0 <= j < live@.len() && live@[j] == x;
            }
        }
    }
    Ok(())
}

} // verus!
