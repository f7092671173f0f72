//! Live-variable analysis: which variables are live after each instruction.
use vstd::prelude::*;
use crate::assign_homes::{jmp_read_set, jmp_reads, read_set, reads, write_set, writes};
use crate::assign_homes::var_set::{difference, insert_all};
use crate::error::CompileError;
use crate::cfg::Edge;
use crate::select_instructions as prev;

verus! {

/// An instruction with the variables live right after it.
pub struct AnnotatedInstruction {
    pub instr: prev::Instruction,
    pub live_after: Vec<u32>,
}

/// A block whose instructions are annotated, with the variables live on entry.
pub struct Block {
    pub instrs: Vec<AnnotatedInstruction>,
    pub live_before: Vec<u32>,
}

/// The annotated blocks, by the index of the block they annotate.
pub struct Program {
    pub blocks: Vec<Block>,
}

/// The variables live before an instruction, given those live after it.
pub open spec fn transfer(instr: prev::Instruction, live_after: Set<u32>) -> Set<u32> {
    live_after.difference(writes(instr)).union(reads(instr))
}

/// The variables live before the instruction at position `k` of an annotated block.
pub open spec fn live_before_at(b: Block, k: int) -> Set<u32> {
    if k == 0 {
        b.live_before@.to_set()
    } else {
        b.instrs@[k - 1].live_after@.to_set()
    }
}

/// `out` annotates the instructions of `block`, given the variables `exit` live at its end.
pub open spec fn annotates(block: prev::Block, out: Block, exit: Set<u32>) -> bool {
    let n = block.instrs@.len();
    &&& out.instrs@.len() == n
    &&& forall|k: int| 0 <= k < n ==> (#[trigger] out.instrs@[k]).instr == block.instrs@[k]
    &&& forall|k: int| 0 <= k < n ==> (#[trigger] out.instrs@[k]).live_after@.no_duplicates()
    &&& out.live_before@.no_duplicates()
    &&& n == 0 ==> out.live_before@.to_set() == exit
    &&& n > 0 ==> out.instrs@[n - 1].live_after@.to_set() == exit
    &&& forall|k: int|
        0 <= k < n ==> #[trigger] live_before_at(out, k) == transfer(
            out.instrs@[k].instr,
            out.instrs@[k].live_after@.to_set(),
        )
}

/// For every instruction of an annotated block, the variables live before it are
/// those live after it, less those it writes, with those it reads.
pub proof fn lemma_write_read_consistency(block: prev::Block, out: Block, exit: Set<u32>, k: int)
    requires
        annotates(block, out, exit),
        0 <= k < out.instrs@.len(),
    ensures
        live_before_at(out, k) == out.instrs@[k].live_after@.to_set().difference(
            writes(out.instrs@[k].instr),
        ).union(reads(out.instrs@[k].instr)),
{
}

/// The variables live before an instruction, given those live after it.
pub fn uncover_live_before(instr: &prev::Instruction, live_after: &Vec<u32>) -> (r: Vec<u32>)
    requires
        live_after@.no_duplicates(),
    ensures
        r@.no_duplicates(),
        r@.to_set() == transfer(*instr, live_after@.to_set()),
{
    let mut r = difference(live_after, &write_set(instr));
    insert_all(&mut r, &read_set(instr));
    r
}

fn uncover_live_block(block: &prev::Block, live_after: Vec<u32>) -> (r: Block)
    requires
        live_after@.no_duplicates(),
    ensures
        annotates(*block, r, live_after@.to_set()),
{
    let ghost exit = live_after@.to_set();
    let n = block.instrs.len();
    let mut rev: Vec<AnnotatedInstruction> = Vec::new();
    let mut live = live_after;
    let mut i: usize = n;
    while i > 0
        invariant
            i <= n == block.instrs@.len(),
            rev@.len() == n - i,
            live@.no_duplicates(),
            i == n ==> live@.to_set() == exit,
            n > 0 && i < n ==> rev@[0].live_after@.to_set() == exit,
            i < n ==> live@.to_set() == transfer(rev@[rev@.len() - 1].instr, rev@[rev@.len() - 1].live_after@.to_set()),
            forall|j: int| 0 <= j < rev@.len() ==> (#[trigger] rev@[j]).instr == block.instrs@[n - 1 - j],
            forall|j: int| 0 <= j < rev@.len() ==> (#[trigger] rev@[j]).live_after@.no_duplicates(),
            forall|j: int|
                0 <= j < rev@.len() - 1 ==> #[trigger] rev@[j + 1].live_after@.to_set() == transfer(
                    rev@[j].instr,
                    rev@[j].live_after@.to_set(),
                ),
        decreases i,
    {
        i = i - 1;
        let instr = block.instrs[i].dup();
        let before = uncover_live_before(&instr, &live);
        let ghost prev_rev = rev@;
        rev.push(AnnotatedInstruction { instr, live_after: live });
        proof {
            assert forall|j: int| 0 <= j < rev@.len() - 1 implies #[trigger] rev@[j + 1].live_after@.to_set()
                == transfer(rev@[j].instr, rev@[j].live_after@.to_set()) by {
                assert(rev@[j] == prev_rev[j]);
                if j + 1 < prev_rev.len() {
                    assert(rev@[j + 1] == prev_rev[j + 1]);
                }
            }
        }
        live = before;
    }
    let mut instrs: Vec<AnnotatedInstruction> = Vec::new();
    let ghost all = rev@;
    while rev.len() > 0
        invariant
            rev@.len() + instrs@.len() == n,
            forall|j: int| 0 <= j < rev@.len() ==> #[trigger] rev@[j] == all[j],
            forall|k: int| 0 <= k < instrs@.len() ==> #[trigger] instrs@[k] == all[n - 1 - k],
        decreases rev.len(),
    {
        let a = rev.pop().unwrap();
        instrs.push(a);
    }
    let r = Block { instrs, live_before: live };
    proof {
        assert forall|k: int| 0 <= k < n implies #[trigger] live_before_at(r, k) == transfer(
            r.instrs@[k].instr,
            r.instrs@[k].live_after@.to_set(),
        ) by {
            if k > 0 {
                assert(r.instrs@[k - 1] == all[n - k]);
                assert(r.instrs@[k] == all[n - 1 - k]);
                assert(all[(n - 1 - k) + 1].live_after@.to_set() == transfer(
                    all[n - 1 - k].instr,
                    all[n - 1 - k].live_after@.to_set(),
                ));
            } else {
                assert(r.instrs@[0] == all[n - 1]);
            }
        }
        if n > 0 {
            assert(r.instrs@[n - 1] == all[0]);
        }
    }
    r
}

/// `order` lists every block `0..n` once, each before the blocks it jumps to.
pub open spec fn topological(order: Seq<usize>, n: nat, edges: Seq<(usize, usize)>) -> bool {
    &&& order.len() == n
    &&& order.no_duplicates()
    &&& forall|i: int| 0 <= i < order.len() ==> #[trigger] order[i] < n
    &&& forall|i: int, j: int|
        0 <= i < j < order.len() ==> !edges.contains((#[trigger] order[j], #[trigger] order[i]))
}

/// `p` follows the edges `pairs` from its first node to its last.
pub open spec fn pair_path(pairs: Seq<(usize, usize)>, p: Seq<usize>) -> bool {
    p.len() >= 1 && forall|i: int| 0 <= i < p.len() - 1 ==> #[trigger] pairs.contains((p[i], p[i + 1]))
}

/// No walk of one or more edges returns to where it started.
pub open spec fn pairs_acyclic(pairs: Seq<(usize, usize)>) -> bool {
    forall|p: Seq<usize>| #[trigger] pair_path(pairs, p) && p.len() >= 2 ==> p[0] != p.last()
}

/// The edges of a graph as pairs of block indices.
pub open spec fn edge_pairs(edges: Seq<crate::cfg::Edge<prev::Jmp>>) -> Seq<(usize, usize)> {
    Seq::new(edges.len(), |i: int| (edges[i].source, edges[i].target))
}

/// Every edge of the program joins two of its blocks.
pub open spec fn edges_in_range(program: &prev::Program) -> bool {
    forall|i: int|
        0 <= i < program.blocks.edges@.len() ==> (#[trigger] program.blocks.edges@[i]).source < program.blocks.nodes@.len()
            && program.blocks.edges@[i].target < program.blocks.nodes@.len()
}

/// Relies on petgraph::algo::toposort on a directed graph of `n` nodes with the given
/// edges: every node, each before its successors, or an error where there is a cycle.
/// Edges that all lead to a higher index make no cycle, so then there is an order; so
/// does any graph without a cycle.
#[verifier::external_body]
fn topological_order(n: usize, edges: &Vec<(usize, usize)>) -> (r: Option<Vec<usize>>)
    requires
        forall|i: int| 0 <= i < edges@.len() ==> (#[trigger] edges@[i]).0 < n && edges@[i].1 < n,
    ensures
        r is Some ==> topological(r->0@, n as nat, edges@),
        (forall|i: int| 0 <= i < edges@.len() ==> (#[trigger] edges@[i]).0 < edges@[i].1) ==> r is Some,
        pairs_acyclic(edges@) ==> r is Some,
{
    let mut g = petgraph::Graph::<(), (), petgraph::Directed, usize>::with_capacity(n, edges.len());
    for _ in 0..n {
        g.add_node(());
    }
    for &(a, b) in edges.iter() {
        g.add_edge(petgraph::graph::NodeIndex::new(a), petgraph::graph::NodeIndex::new(b), ());
    }
    match petgraph::algo::toposort(&g, None) {
        Ok(order) => Some(order.into_iter().map(|x| x.index()).collect()),
        Err(_) => None,
    }
}

/// The variables live at the end of an annotated block.
pub open spec fn exit_of(b: Block) -> Set<u32> {
    if b.instrs@.len() == 0 {
        b.live_before@.to_set()
    } else {
        b.instrs@[b.instrs@.len() - 1].live_after@.to_set()
    }
}

/// What edge `e` adds to the variables live at the end of block `b`: if it leaves `b`,
/// the variables live on entry to its target and those the jump reads.
pub open spec fn edge_live(edges: Seq<Edge<prev::Jmp>>, ann: Seq<Option<Block>>, b: int, e: int) -> Set<u32> {
    if edges[e].source == b {
        jmp_reads(edges[e].weight).union(
            if ann[edges[e].target as int] is Some {
                ann[edges[e].target as int]->0.live_before@.to_set()
            } else {
                Set::empty()
            },
        )
    } else {
        Set::empty()
    }
}

/// What the first `k` edges add to the variables live at the end of block `b`.
pub open spec fn live_out_upto(edges: Seq<Edge<prev::Jmp>>, ann: Seq<Option<Block>>, b: int, k: int) -> Set<u32>
    decreases k,
{
    if k <= 0 {
        Set::empty()
    } else {
        live_out_upto(edges, ann, b, k - 1).union(edge_live(edges, ann, b, k - 1))
    }
}

/// The variables live at the end of block `b`: those live on entry to each block it
/// jumps to, with those each of its jumps reads.
pub open spec fn live_out(edges: Seq<Edge<prev::Jmp>>, ann: Seq<Option<Block>>, b: int) -> Set<u32> {
    live_out_upto(edges, ann, b, edges.len() as int)
}

/// Every block that `b` jumps to is annotated.
pub open spec fn successors_done(edges: Seq<Edge<prev::Jmp>>, ann: Seq<Option<Block>>, b: int) -> bool {
    forall|e: int|
        0 <= e < edges.len() && #[trigger] edges[e].source == b ==> edges[e].target < ann.len()
            && ann[edges[e].target as int] is Some
}

/// Annotating a block that `b` does not jump to leaves the end of `b` as it was.
proof fn lemma_live_out_frame(edges: Seq<Edge<prev::Jmp>>, ann: Seq<Option<Block>>, ann2: Seq<Option<Block>>, b: int, k: int)
    requires
        0 <= k <= edges.len(),
        ann.len() == ann2.len(),
        forall|e: int|
            0 <= e < edges.len() && #[trigger] edges[e].source == b ==> edges[e].target < ann.len()
                && ann2[edges[e].target as int] == ann[edges[e].target as int],
    ensures
        live_out_upto(edges, ann2, b, k) == live_out_upto(edges, ann, b, k),
    decreases k,
{
    if k > 0 {
        lemma_live_out_frame(edges, ann, ann2, b, k - 1);
        assert(edge_live(edges, ann2, b, k - 1) == edge_live(edges, ann, b, k - 1));
    }
}

proof fn lemma_below_len(n: nat)
    requires
        n <= usize::MAX + 1,
    ensures
        Set::new(|x: usize| x < n).finite(),
        Set::new(|x: usize| x < n).len() == n,
    decreases n,
{
    if n == 0 {
        assert(Set::new(|x: usize| x < n) =~= Set::<usize>::empty());
    } else {
        lemma_below_len((n - 1) as nat);
        assert(Set::new(|x: usize| x < n) =~= Set::new(|x: usize| x < (n - 1) as nat).insert((n - 1) as usize));
    }
}

/// A list of `n` distinct indices below `n` holds every index below `n`.
proof fn lemma_every_index(order: Seq<usize>, n: nat, j: usize)
    requires
        order.len() == n,
        n <= usize::MAX,
        order.no_duplicates(),
        forall|i: int| 0 <= i < order.len() ==> #[trigger] order[i] < n,
        j < n,
    ensures
        order.contains(j),
{
    if !order.contains(j) {
        order.unique_seq_to_set();
        lemma_below_len(n);
        let all = Set::new(|x: usize| x < n);
        let rest = all.remove(j);
        assert forall|x: usize| order.to_set().contains(x) implies rest.contains(x) by {
            let i = choose|i: int| 0 <= i < order.len() && order[i] == x;
        }
        vstd::set_lib::lemma_len_subset(order.to_set(), rest);
    }
}

/// Every variable that an instruction or a jump of the program reads.
pub open spec fn read_somewhere(program: &prev::Program) -> Set<u32> {
    Set::new(
        |x: u32|
            (exists|b: int, k: int|
                0 <= b < program.blocks.nodes@.len() && 0 <= k < program.blocks.nodes@[b].instrs@.len()
                    && #[trigger] reads(program.blocks.nodes@[b].instrs@[k]).contains(x)) || (exists|e: int|
                0 <= e < program.blocks.edges@.len() && #[trigger] jmp_reads(program.blocks.edges@[e].weight).contains(x)),
    )
}

/// Every live set of an annotated block lies within `m`.
pub open spec fn live_within(out: Block, m: Set<u32>) -> bool {
    &&& out.live_before@.to_set().subset_of(m)
    &&& forall|k: int| 0 <= k < out.instrs@.len() ==> (#[trigger] out.instrs@[k]).live_after@.to_set().subset_of(m)
}

proof fn lemma_live_within_from(block: prev::Block, out: Block, exit: Set<u32>, m: Set<u32>, k: int)
    requires
        annotates(block, out, exit),
        exit.subset_of(m),
        forall|j: int| 0 <= j < block.instrs@.len() ==> reads(#[trigger] block.instrs@[j]).subset_of(m),
        0 <= k < out.instrs@.len(),
    ensures
        out.instrs@[k].live_after@.to_set().subset_of(m),
    decreases out.instrs@.len() - k,
{
    if k + 1 < out.instrs@.len() {
        lemma_live_within_from(block, out, exit, m, k + 1);
        assert(live_before_at(out, k + 1) == out.instrs@[k].live_after@.to_set());
        assert(out.instrs@[k + 1].instr == block.instrs@[k + 1]);
    }
}

proof fn lemma_live_within(block: prev::Block, out: Block, exit: Set<u32>, m: Set<u32>)
    requires
        annotates(block, out, exit),
        exit.subset_of(m),
        forall|j: int| 0 <= j < block.instrs@.len() ==> reads(#[trigger] block.instrs@[j]).subset_of(m),
    ensures
        live_within(out, m),
{
    assert forall|k: int| 0 <= k < out.instrs@.len() implies (#[trigger] out.instrs@[k]).live_after@.to_set().subset_of(m) by {
        lemma_live_within_from(block, out, exit, m, k);
    }
    if out.instrs@.len() > 0 {
        lemma_live_within_from(block, out, exit, m, 0);
        assert(live_before_at(out, 0) == out.live_before@.to_set());
        assert(out.instrs@[0].instr == block.instrs@[0]);
    }
}

proof fn lemma_live_out_within(edges: Seq<Edge<prev::Jmp>>, ann: Seq<Option<Block>>, b: int, k: int, m: Set<u32>)
    requires
        0 <= k <= edges.len(),
        forall|e: int| 0 <= e < edges.len() ==> jmp_reads(#[trigger] edges[e].weight).subset_of(m),
        forall|j: int| 0 <= j < ann.len() && (#[trigger] ann[j]) is Some ==> ann[j]->0.live_before@.to_set().subset_of(m),
        forall|e: int| 0 <= e < edges.len() && (#[trigger] edges[e]).source == b ==> edges[e].target < ann.len(),
    ensures
        live_out_upto(edges, ann, b, k).subset_of(m),
    decreases k,
{
    if k > 0 {
        lemma_live_out_within(edges, ann, b, k - 1, m);
        if edges[k - 1].source == b {
            assert(edges[k - 1].target < ann.len());
        }
    }
}

proof fn lemma_annotates_exit(block: prev::Block, out: Block, exit: Set<u32>)
    requires
        annotates(block, out, exit),
    ensures
        annotates(block, out, exit_of(out)),
{
}

/// Annotates every instruction of the program with the variables live after it.
pub fn uncover_live(program: &prev::Program) -> (r: Result<Program, CompileError>)
    ensures
        r is Ok ==> r->Ok_0.blocks@.len() == program.blocks.nodes@.len(),
        r is Ok ==> forall|b: int|
            0 <= b < r->Ok_0.blocks@.len() ==> annotates(
                program.blocks.nodes@[b],
                #[trigger] r->Ok_0.blocks@[b],
                exit_of(r->Ok_0.blocks@[b]),
            ),
        program.blocks.forward() ==> r is Ok,
        edges_in_range(program) && pairs_acyclic(edge_pairs(program.blocks.edges@)) ==> r is Ok,
        r is Ok ==> forall|b: int|
            0 <= b < r->Ok_0.blocks@.len() ==> live_within(#[trigger] r->Ok_0.blocks@[b], read_somewhere(program)),
        r is Ok ==> forall|b: int|
            0 <= b < r->Ok_0.blocks@.len() ==> exit_of(#[trigger] r->Ok_0.blocks@[b]) == live_out(
                program.blocks.edges@,
                r->Ok_0.blocks@.map_values(|x: Block| Some(x)),
                b,
            ),
{
    let n = program.blocks.nodes.len();
    let mut pairs: Vec<(usize, usize)> = Vec::new();
    let mut i: usize = 0;
    while i < program.blocks.edges.len()
        invariant
            i <= program.blocks.edges@.len(),
            n == program.blocks.nodes@.len(),
            pairs@.len() == i,
            forall|k: int| 0 <= k < i ==> (#[trigger] pairs@[k]).0 < n && pairs@[k].1 < n,
            forall|k: int|
                0 <= k < i ==> #[trigger] pairs@[k] == (program.blocks.edges@[k].source, program.blocks.edges@[k].target),
        decreases program.blocks.edges.len() - i,
    {
        let e = &program.blocks.edges[i];
        if e.source >= n || e.target >= n {
            proof {
                if program.blocks.forward() {
                    assert(program.blocks.edges@[i as int].source < program.blocks.edges@[i as int].target < n);
                }
                if edges_in_range(program) {
                    assert(program.blocks.edges@[i as int].source < n);
                }
            }
            return Err(CompileError::Internal);
        }
        pairs.push((e.source, e.target));
        i = i + 1;
    }
    proof {
        if program.blocks.forward() {
            assert forall|i: int| 0 <= i < pairs@.len() implies (#[trigger] pairs@[i]).0 < pairs@[i].1 by {
                assert(program.blocks.edges@[i].source < program.blocks.edges@[i].target);
            }
        }
    }
    proof {
        assert(pairs@ =~= edge_pairs(program.blocks.edges@));
    }
    let order = match topological_order(n, &pairs) {
        Some(o) => o,
        None => {
            return Err(CompileError::CyclicControlFlow);
        },
    };
    let mut annotated: Vec<Option<Block>> = Vec::new();
    let mut k: usize = 0;
    while k < n
        invariant
            k <= n,
            annotated@.len() == k,
            forall|j: int| 0 <= j < k ==> (#[trigger] annotated@[j]) is None,
        decreases n - k,
    {
        annotated.push(None);
        k = k + 1;
    }
    let mut pos: usize = n;
    while pos > 0
        invariant
            pos <= n,
            n == program.blocks.nodes@.len(),
            topological(order@, n as nat, pairs@),
            annotated@.len() == n,
            forall|j: int|
                0 <= j < n && (#[trigger] annotated@[j]) is Some ==> annotates(
                    program.blocks.nodes@[j],
                    annotated@[j]->0,
                    exit_of(annotated@[j]->0),
                ),
            forall|j: int|
                0 <= j < n && (#[trigger] annotated@[j]) is Some ==> successors_done(
                    program.blocks.edges@,
                    annotated@,
                    j,
                ) && exit_of(annotated@[j]->0) == live_out(program.blocks.edges@, annotated@, j),
            forall|q: int| 0 <= q < pos ==> (#[trigger] annotated@[order@[q] as int]) is None,
            pairs@.len() == program.blocks.edges@.len(),
            forall|k: int|
                0 <= k < pairs@.len() ==> #[trigger] pairs@[k] == (program.blocks.edges@[k].source, program.blocks.edges@[k].target),
            pairs@ == edge_pairs(program.blocks.edges@),
            (program.blocks.forward() || (edges_in_range(program) && pairs_acyclic(pairs@))) ==> forall|q: int|
                pos <= q < n ==> (#[trigger] annotated@[order@[q] as int]) is Some,
            forall|j: int|
                0 <= j < n && (#[trigger] annotated@[j]) is Some ==> live_within(annotated@[j]->0, read_somewhere(program)),
        decreases pos,
    {
        pos = pos - 1;
        let b = order[pos];
        let mut live_after: Vec<u32> = Vec::new();
        let mut e: usize = 0;
        assert(live_after@.to_set() =~= live_out_upto(program.blocks.edges@, annotated@, b as int, 0));
        while e < program.blocks.edges.len()
            invariant
                e <= program.blocks.edges@.len(),
                live_after@.no_duplicates(),
                annotated@.len() == n,
                b < n,
                pos < n,
                b == order@[pos as int],
                n == program.blocks.nodes@.len(),
                topological(order@, n as nat, pairs@),
                pairs@.len() == program.blocks.edges@.len(),
                forall|k: int|
                    0 <= k < pairs@.len() ==> #[trigger] pairs@[k] == (program.blocks.edges@[k].source, program.blocks.edges@[k].target),
                pairs@ == edge_pairs(program.blocks.edges@),
                (program.blocks.forward() || (edges_in_range(program) && pairs_acyclic(pairs@))) ==> forall|q: int|
                    pos < q < n ==> (#[trigger] annotated@[order@[q] as int]) is Some,
                live_after@.to_set() == live_out_upto(program.blocks.edges@, annotated@, b as int, e as int),
                forall|f: int|
                    0 <= f < e && #[trigger] program.blocks.edges@[f].source == b ==> program.blocks.edges@[f].target < n
                        && annotated@[program.blocks.edges@[f].target as int] is Some,
            decreases program.blocks.edges.len() - e,
        {
            let ghost before = live_after@.to_set();
            let edge = &program.blocks.edges[e];
            if edge.source == b {
                if edge.target >= n {
                    proof {
                        if program.blocks.forward() {
                            assert(program.blocks.edges@[e as int].target < n);
                        }
                        if edges_in_range(program) {
                            assert(program.blocks.edges@[e as int].target < n);
                        }
                    }
                    return Err(CompileError::Internal);
                }
                match &annotated[edge.target] {
                    Some(succ) => {
                        insert_all(&mut live_after, &succ.live_before);
                    },
                    None => {
                        proof {
                            if program.blocks.forward() || (edges_in_range(program) && pairs_acyclic(pairs@)) {
                                let t = edge.target;
                                if !program.blocks.forward() {
                                    if b == t {
                                        let cyc = seq![b, b];
                                        assert(pairs@[e as int] == (b, t));
                                        assert(pairs@.contains((cyc[0], cyc[1])));
                                        assert(pair_path(pairs@, cyc));
                                    }
                                }
                                lemma_every_index(order@, n as nat, t);
                                let q = choose|q: int| 0 <= q < order@.len() && order@[q] == t;
                                assert(pairs@[e as int] == (b, t));
                                assert(pairs@.contains((b, t)));
                                assert(b != t);
                                if q < pos {
                                    assert(!pairs@.contains((order@[pos as int], order@[q])));
                                }
                                assert(annotated@[order@[q] as int] is Some);
                            }
                        }
                        return Err(CompileError::Internal);
                    },
                }
                insert_all(&mut live_after, &jmp_read_set(&edge.weight));
                assert(live_after@.to_set() =~= before.union(edge_live(program.blocks.edges@, annotated@, b as int, e as int)));
            } else {
                assert(edge_live(program.blocks.edges@, annotated@, b as int, e as int) =~= Set::<u32>::empty());
                assert(live_after@.to_set() =~= before.union(edge_live(program.blocks.edges@, annotated@, b as int, e as int)));
            }
            e = e + 1;
        }
        let block = uncover_live_block(&program.blocks.nodes[b], live_after);
        let ghost nb = program.blocks.nodes@[b as int];
        proof {
            lemma_annotates_exit(nb, block, live_after@.to_set());
            let m = read_somewhere(program);
            let edges = program.blocks.edges@;
            assert forall|f: int| 0 <= f < edges.len() implies jmp_reads(#[trigger] edges[f].weight).subset_of(m) by {
                assert forall|x: u32| jmp_reads(edges[f].weight).contains(x) implies m.contains(x) by {}
            }
            lemma_live_out_within(edges, annotated@, b as int, edges.len() as int, m);
            assert forall|j: int| 0 <= j < nb.instrs@.len() implies reads(#[trigger] nb.instrs@[j]).subset_of(m) by {
                assert forall|x: u32| reads(nb.instrs@[j]).contains(x) implies m.contains(x) by {
                    assert(reads(program.blocks.nodes@[b as int].instrs@[j]).contains(x));
                }
            }
            lemma_live_within(nb, block, live_after@.to_set(), m);
        }
        let ghost ann0 = annotated@;
        proof {
            assert(ann0[b as int] is None);
        }
        annotated.set(b, Some(block));
        proof {
            let edges = program.blocks.edges@;
            lemma_live_out_frame(edges, ann0, annotated@, b as int, edges.len() as int);
            assert forall|j: int|
                0 <= j < n && (#[trigger] annotated@[j]) is Some implies successors_done(edges, annotated@, j)
                    && exit_of(annotated@[j]->0) == live_out(edges, annotated@, j) by {
                if j != b {
                    assert(annotated@[j] == ann0[j]);
                    assert(successors_done(edges, ann0, j));
                    lemma_live_out_frame(edges, ann0, annotated@, j, edges.len() as int);
                }
            }
            assert forall|q: int| 0 <= q < pos implies (#[trigger] annotated@[order@[q] as int]) is None by {
                assert(order@[q] != order@[pos as int]);
            }
            assert forall|j: int|
                0 <= j < n && (#[trigger] annotated@[j]) is Some implies live_within(annotated@[j]->0, read_somewhere(program)) by {
                if j != b {
                    assert(annotated@[j] == ann0[j]);
                }
            }
            if (program.blocks.forward() || (edges_in_range(program) && pairs_acyclic(pairs@))) {
                assert forall|q: int| pos <= q < n implies (#[trigger] annotated@[order@[q] as int]) is Some by {
                    if q != pos {
                        assert(ann0[order@[q] as int] is Some);
                    }
                }
            }
        }
    }
    proof {
        if (program.blocks.forward() || (edges_in_range(program) && pairs_acyclic(pairs@))) {
            assert forall|j: int| 0 <= j < n implies (#[trigger] annotated@[j]) is Some by {
                lemma_every_index(order@, n as nat, j as usize);
                let q = choose|q: int| 0 <= q < order@.len() && order@[q] == j as usize;
                assert(annotated@[order@[q] as int] is Some);
            }
        }
    }
    let mut blocks: Vec<Block> = Vec::new();
    let ghost ann = annotated@;
    let mut rest = crate::seqs::into_reversed(annotated);
    while rest.len() > 0
        invariant
            blocks@.len() + rest@.len() == n,
            ann.len() == n == program.blocks.nodes@.len(),
            forall|k: int| 0 <= k < rest@.len() ==> #[trigger] rest@[k] == ann[n - 1 - k],
            forall|j: int|
                0 <= j < n && (#[trigger] ann[j]) is Some ==> annotates(
                    program.blocks.nodes@[j],
                    ann[j]->0,
                    exit_of(ann[j]->0),
                ),
            forall|b: int|
                0 <= b < blocks@.len() ==> ann[b] == Some(#[trigger] blocks@[b]),
            (program.blocks.forward() || (edges_in_range(program) && pairs_acyclic(pairs@))) ==> forall|j: int| 0 <= j < n ==> (#[trigger] ann[j]) is Some,
            pairs@ == edge_pairs(program.blocks.edges@),
            forall|j: int|
                0 <= j < n && (#[trigger] ann[j]) is Some ==> live_within(ann[j]->0, read_somewhere(program)),
            forall|j: int|
                0 <= j < n && (#[trigger] ann[j]) is Some ==> exit_of(ann[j]->0) == live_out(
                    program.blocks.edges@,
                    ann,
                    j,
                ),
        decreases rest.len(),
    {
        let ghost k = blocks@.len() as int;
        match rest.pop().unwrap() {
            Some(b) => blocks.push(b),
            None => {
                proof {
                    assert(ann[k] is None);
                }
                return Err(CompileError::Internal);
            },
        }
    }
    proof {
        assert(blocks@.map_values(|x: Block| Some(x)) =~= ann);
        assert forall|b: int| 0 <= b < blocks@.len() implies live_within(#[trigger] blocks@[b], read_somewhere(program)) by {
            assert(ann[b] == Some(blocks@[b]));
        }
    }
    Ok(Program { blocks })
}

} // verus!
