//! Graph coloring by saturation (DSATUR), biased toward the colors of copies.
use vstd::prelude::*;
use keyed_priority_queue::KeyedPriorityQueue;
use crate::assign_homes::build_move::{MoveGraph, graph_over};
use crate::assign_homes::ugraph::{UnGraph, symmetric, ugraph_contains_edge, ugraph_edges, ugraph_neighbors, ugraph_nodes};
use crate::assign_homes::var_set::{contains, insert};
use crate::error::CompileError;

verus! {

#[verifier::external_type_specification]
#[verifier::external_body]
#[verifier::reject_recursive_types(K)]
#[verifier::reject_recursive_types(P)]
#[verifier::reject_recursive_types(S)]
pub struct ExKeyedPriorityQueue<K: std::hash::Hash + Eq, P: Ord, S: std::hash::BuildHasher>(
    KeyedPriorityQueue<K, P, S>,
);

/// A node's priority: its saturation, its move saturation, and a rank that puts lower
/// node indices first among equals.
pub type Priority = (usize, usize, usize);

pub type Queue = KeyedPriorityQueue<usize, Priority>;

/// The nodes in the queue, with their priorities.
pub uninterp spec fn queue_items(q: Queue) -> Map<usize, Priority>;

/// `a` comes after `b` in the lexicographic order of tuples.
pub open spec fn priority_gt(a: Priority, b: Priority) -> bool {
    a.0 > b.0 || (a.0 == b.0 && (a.1 > b.1 || (a.1 == b.1 && a.2 > b.2)))
}

/// A queue's contents when it holds nothing.
pub open spec fn no_items() -> Map<usize, Priority> {
    Map::empty()
}

/// Relies on KeyedPriorityQueue::new: an empty queue.
#[verifier::external_body]
fn queue_new() -> (r: Queue)
    ensures
        queue_items(r) == no_items(),
{
    KeyedPriorityQueue::new()
}

/// Relies on KeyedPriorityQueue::push: puts `key` in the queue with `priority`,
/// replacing the priority it had.
#[verifier::external_body]
fn queue_push(q: &mut Queue, key: usize, priority: Priority)
    ensures
        queue_items(*final(q)) == queue_items(*old(q)).insert(key, priority),
{
    q.push(key, priority);
}

/// Relies on KeyedPriorityQueue::pop: takes out an item of the greatest priority.
#[verifier::external_body]
fn queue_pop(q: &mut Queue) -> (r: Option<(usize, Priority)>)
    ensures
        r is None <==> queue_items(*old(q)).dom().len() == 0,
        r is None ==> queue_items(*final(q)) == queue_items(*old(q)),
        r is Some ==> {
            let (k, p) = r->0;
            &&& queue_items(*old(q)).contains_key(k)
            &&& queue_items(*old(q))[k] == p
            &&& forall|j: usize| #[trigger] queue_items(*old(q)).contains_key(j) ==> !priority_gt(queue_items(*old(q))[j], p)
            &&& queue_items(*final(q)) == queue_items(*old(q)).remove(k)
        },
{
    q.pop()
}

/// Relies on KeyedPriorityQueue::get_priority: the priority of `key`, if queued.
#[verifier::external_body]
fn queue_get_priority(q: &Queue, key: usize) -> (r: Option<Priority>)
    ensures
        r is Some <==> queue_items(*q).contains_key(key),
        r is Some ==> r->0 == queue_items(*q)[key],
{
    q.get_priority(&key).copied()
}

/// Relies on KeyedPriorityQueue::set_priority: changes the priority of a queued key,
/// and fails, changing nothing, for a key not in the queue.
#[verifier::external_body]
fn queue_set_priority(q: &mut Queue, key: usize, priority: Priority)
    ensures
        queue_items(*old(q)).contains_key(key) ==> queue_items(*final(q)) == queue_items(*old(q)).insert(key, priority),
        !queue_items(*old(q)).contains_key(key) ==> queue_items(*final(q)) == queue_items(*old(q)),
{
    let _ = q.set_priority(&key, priority);
}

/// The colors of the colored nodes that `x` is joined to in `edges`.
pub open spec fn colors_near(edges: Set<(usize, usize)>, colors: Seq<Option<u32>>, x: usize) -> Set<u32> {
    Set::new(|c: u32| exists|w: usize| w < colors.len() && #[trigger] edges.contains((x, w)) && colors[w as int] == Some(c))
}

/// Node `v`'s color is a copy partner's color, or no smaller color was free among its
/// neighbors.
pub open spec fn well_chosen(inter: Set<(usize, usize)>, moves: Set<(usize, usize)>, colors: Seq<Option<u32>>, v: int) -> bool {
    ||| exists|m: usize|
        m < colors.len() && m != v && #[trigger] moves.contains((v as usize, m)) && colors[m as int] == colors[v]
    ||| forall|c: u32| c < colors[v]->0 ==> #[trigger] taken_near(inter, colors, v, c)
}

/// Some neighbor of `v` has color `c`.
pub open spec fn taken_near(inter: Set<(usize, usize)>, colors: Seq<Option<u32>>, v: int, c: u32) -> bool {
    exists|w: usize| w < colors.len() && #[trigger] inter.contains((v as usize, w)) && colors[w as int] == Some(c)
}

/// Some neighbor of `v` has color `c`, in the finished coloring.
pub open spec fn taken_near_final(inter: Set<(usize, usize)>, colors: Seq<u32>, v: int, c: u32) -> bool {
    exists|w: usize| w < colors.len() && #[trigger] inter.contains((v as usize, w)) && colors[w as int] == c
}

/// The same, for the finished coloring.
pub open spec fn chosen(inter: Set<(usize, usize)>, moves: Set<(usize, usize)>, colors: Seq<u32>, v: int) -> bool {
    ||| exists|m: usize| m < colors.len() && m != v && #[trigger] moves.contains((v as usize, m)) && colors[m as int] == colors[v]
    ||| forall|c: u32| c < colors[v] ==> #[trigger] taken_near_final(inter, colors, v, c)
}

/// No two joined nodes share a color.
pub open spec fn proper(edges: Set<(usize, usize)>, colors: Seq<Option<u32>>) -> bool {
    forall|i: usize, j: usize|
        i < colors.len() && j < colors.len() && i != j && #[trigger] edges.contains((i, j)) && colors[i as int] is Some
            && colors[j as int] is Some ==> colors[i as int] != colors[j as int]
}

/// The colors of the colored neighbors of `index`.
fn find_conflicting_colors(graph: &UnGraph, colors: &Vec<Option<u32>>, index: usize) -> (r: Vec<u32>)
    requires
        index < ugraph_nodes(*graph).len(),
    ensures
        r@.no_duplicates(),
        r@.to_set() == colors_near(ugraph_edges(*graph), colors@, index),
{
    let adj = ugraph_neighbors(graph, index);
    let mut conflicts: Vec<u32> = Vec::new();
    let mut i: usize = 0;
    while i < adj.len()
        invariant
            i <= adj@.len(),
            conflicts@.no_duplicates(),
            forall|w: usize| #[trigger] adj@.contains(w) <==> ugraph_edges(*graph).contains((index, w)),
            conflicts@.to_set() == Set::new(|c: u32| exists|k: int| 0 <= k < i && adj@[k] < colors@.len() && colors@[adj@[k] as int] == Some(c)),
        decreases adj.len() - i,
    {
        let w = adj[i];
        let ghost before = conflicts@.to_set();
        if w < colors.len() {
            if let Some(c) = colors[w] {
                insert(&mut conflicts, c);
            }
        }
        proof {
            let goal = Set::new(|c: u32| exists|k: int| 0 <= k < i + 1 && adj@[k] < colors@.len() && colors@[adj@[k] as int] == Some(c));
            assert forall|c: u32| goal.contains(c) implies conflicts@.to_set().contains(c) by {
                let k = choose|k: int| 0 <= k < i + 1 && adj@[k] < colors@.len() && colors@[adj@[k] as int] == Some(c);
                if k < i {
                    assert(before.contains(c));
                }
            }
            assert forall|c: u32| conflicts@.to_set().contains(c) implies goal.contains(c) by {
                if before.contains(c) {
                    let k = choose|k: int| 0 <= k < i && adj@[k] < colors@.len() && colors@[adj@[k] as int] == Some(c);
                    assert(0 <= k < i + 1);
                } else {
                    assert(adj@[i as int] < colors@.len() && colors@[adj@[i as int] as int] == Some(c));
                }
            }
            assert(conflicts@.to_set() =~= goal);
        }
        i = i + 1;
    }
    proof {
        let target = colors_near(ugraph_edges(*graph), colors@, index);
        assert forall|c: u32| target.contains(c) implies conflicts@.to_set().contains(c) by {
            let w = choose|w: usize| w < colors@.len() && #[trigger] ugraph_edges(*graph).contains((index, w)) && colors@[w as int] == Some(c);
            assert(adj@.contains(w));
            let k = choose|k: int| 0 <= k < adj@.len() && adj@[k] == w;
        }
        assert forall|c: u32| conflicts@.to_set().contains(c) implies target.contains(c) by {
            let k = choose|k: int| 0 <= k < adj@.len() && adj@[k] < colors@.len() && colors@[adj@[k] as int] == Some(c);
            let w = adj@[k];
            assert(adj@.contains(w));
            assert(ugraph_edges(*graph).contains((index, w)));
        }
        assert(conflicts@.to_set() =~= target);
    }
    conflicts
}

/// The colors of the colored nodes that `index` is related to by a copy.
fn find_move_related_colors(moves: &MoveGraph, colors: &Vec<Option<u32>>, index: usize) -> (r: Vec<u32>)
    ensures
        r@.no_duplicates(),
        r@.to_set() == colors_near(ugraph_edges(moves.graph), colors@, index),
{
    let mut relatives: Vec<u32> = Vec::new();
    let mut m: usize = 0;
    while m < colors.len()
        invariant
            m <= colors@.len(),
            relatives@.no_duplicates(),
            relatives@.to_set() == Set::new(|c: u32| exists|w: usize| w < m && #[trigger] ugraph_edges(moves.graph).contains((index, w)) && colors@[w as int] == Some(c)),
        decreases colors.len() - m,
    {
        let ghost before = relatives@.to_set();
        if let Some(c) = colors[m] {
            if moves.move_related(index, m) {
                insert(&mut relatives, c);
            }
        }
        proof {
            let goal = Set::new(|c: u32| exists|w: usize| w < m + 1 && #[trigger] ugraph_edges(moves.graph).contains((index, w)) && colors@[w as int] == Some(c));
            assert forall|c: u32| goal.contains(c) implies relatives@.to_set().contains(c) by {
                let w = choose|w: usize| w < m + 1 && #[trigger] ugraph_edges(moves.graph).contains((index, w)) && colors@[w as int] == Some(c);
                if w < m {
                    assert(before.contains(c));
                }
            }
            assert forall|c: u32| relatives@.to_set().contains(c) implies goal.contains(c) by {
                if before.contains(c) {
                    let w = choose|w: usize| w < m && #[trigger] ugraph_edges(moves.graph).contains((index, w)) && colors@[w as int] == Some(c);
                } else {
                    assert(ugraph_edges(moves.graph).contains((index, m)));
                }
            }
            assert(relatives@.to_set() =~= goal);
        }
        m = m + 1;
    }
    assert(relatives@.to_set() =~= colors_near(ugraph_edges(moves.graph), colors@, index));
    relatives
}

/// The colors given to the first `m` nodes.
pub open spec fn used_colors(colors: Seq<Option<u32>>, m: int) -> Set<u32> {
    Set::new(|c: u32| exists|w: int| 0 <= w < m && colors[w] == Some(c))
}

/// How many of the first `m` nodes have a color.
pub open spec fn colored_count(colors: Seq<Option<u32>>, m: int) -> nat
    decreases m,
{
    if m <= 0 {
        0
    } else {
        colored_count(colors, m - 1) + if colors[m - 1] is Some { 1nat } else { 0nat }
    }
}

proof fn lemma_used_colors(colors: Seq<Option<u32>>, m: int)
    requires
        0 <= m <= colors.len(),
    ensures
        used_colors(colors, m).finite(),
        used_colors(colors, m).len() <= colored_count(colors, m),
    decreases m,
{
    if m == 0 {
        assert(used_colors(colors, m) =~= Set::<u32>::empty());
    } else {
        lemma_used_colors(colors, m - 1);
        match colors[m - 1] {
            Some(c) => {
                assert(used_colors(colors, m) =~= used_colors(colors, m - 1).insert(c));
            },
            None => {
                assert(used_colors(colors, m) =~= used_colors(colors, m - 1));
            },
        }
    }
}

proof fn lemma_colored_count(colors: Seq<Option<u32>>, m: int, x: int)
    requires
        0 <= x < m <= colors.len(),
        colors[x] is None,
    ensures
        colored_count(colors, m) <= m - 1,
    decreases m,
{
    if m - 1 == x {
        lemma_count_le(colors, m - 1);
    } else {
        lemma_colored_count(colors, m - 1, x);
    }
}

proof fn lemma_count_le(colors: Seq<Option<u32>>, m: int)
    requires
        0 <= m <= colors.len(),
    ensures
        colored_count(colors, m) <= m,
    decreases m,
{
    if m > 0 {
        lemma_count_le(colors, m - 1);
    }
}

/// The colors near an uncolored node are fewer than the nodes.
proof fn lemma_near_len(edges: Set<(usize, usize)>, colors: Seq<Option<u32>>, x: usize)
    requires
        x < colors.len(),
        colors[x as int] is None,
    ensures
        colors_near(edges, colors, x).finite(),
        colors_near(edges, colors, x).len() <= colors.len() - 1,
{
    lemma_used_colors(colors, colors.len() as int);
    lemma_colored_count(colors, colors.len() as int, x as int);
    assert forall|c: u32| colors_near(edges, colors, x).contains(c) implies used_colors(colors, colors.len() as int).contains(c) by {
        let w = choose|w: usize| w < colors.len() && #[trigger] edges.contains((x, w)) && colors[w as int] == Some(c);
        assert(0 <= w < colors.len() && colors[w as int] == Some(c));
    }
    vstd::set_lib::lemma_len_subset(colors_near(edges, colors, x), used_colors(colors, colors.len() as int));
}

proof fn lemma_well_chosen_step(
    inter: Set<(usize, usize)>,
    moves: Set<(usize, usize)>,
    before: Seq<Option<u32>>,
    after: Seq<Option<u32>>,
    index: usize,
    color: u32,
)
    requires
        index < before.len(),
        before[index as int] is None,
        after == before.update(index as int, Some(color)),
        least_choice(colors_near(inter, before, index), colors_near(moves, before, index), color),
        forall|v: int| 0 <= v < before.len() && before[v] is Some ==> #[trigger] well_chosen(inter, moves, before, v),
    ensures
        forall|v: int| 0 <= v < after.len() && after[v] is Some ==> #[trigger] well_chosen(inter, moves, after, v),
{
    assert forall|v: int| 0 <= v < after.len() && after[v] is Some implies #[trigger] well_chosen(inter, moves, after, v) by {
        if v == index {
            let cs = colors_near(inter, before, index);
            let ps = colors_near(moves, before, index);
            if exists|p: u32| ps.contains(p) && !cs.contains(p) {
                let m = choose|m: usize| m < before.len() && #[trigger] moves.contains((index, m)) && before[m as int] == Some(color);
                assert(after[m as int] == before[m as int]);
            } else {
                assert forall|c: u32| c < after[v]->0 implies #[trigger] taken_near(inter, after, v, c) by {
                    assert(cs.contains(c));
                    let w = choose|w: usize| w < before.len() && #[trigger] inter.contains((index, w)) && before[w as int] == Some(c);
                    assert(after[w as int] == before[w as int]);
                }
            }
        } else {
            assert(after[v] == before[v]);
            assert(well_chosen(inter, moves, before, v));
            if exists|m: usize| m < before.len() && m != v && #[trigger] moves.contains((v as usize, m)) && before[m as int] == before[v] {
                let m = choose|m: usize| m < before.len() && m != v && #[trigger] moves.contains((v as usize, m)) && before[m as int] == before[v];
                assert(m != index);
                assert(after[m as int] == before[m as int]);
            } else {
                assert forall|c: u32| c < after[v]->0 implies #[trigger] taken_near(inter, after, v, c) by {
                    assert(taken_near(inter, before, v, c));
                    let w = choose|w: usize| w < before.len() && #[trigger] inter.contains((v as usize, w)) && before[w as int] == Some(c);
                    assert(w != index);
                    assert(after[w as int] == before[w as int]);
                }
            }
        }
    }
}

/// A set holding every number below `c` has at least `c` elements.
proof fn lemma_below_in_set(s: Set<u32>, c: nat)
    requires
        s.finite(),
        c <= 0x1_0000_0000,
        forall|k: u32| k < c ==> s.contains(k),
    ensures
        c <= s.len(),
    decreases c,
{
    if c > 0 {
        let top = (c - 1) as u32;
        assert(s.contains(top));
        let t = s.remove(top);
        assert forall|k: u32| k < c - 1 implies t.contains(k) by {
            assert(s.contains(k));
            assert(k != top);
        }
        lemma_below_in_set(t, (c - 1) as nat);
    }
}

/// The color for node `index`: the least color of a copy-related node that no neighbor
/// has, or else the least color that no neighbor has.
fn find_least_color(graph: &UnGraph, moves: &MoveGraph, colors: &Vec<Option<u32>>, index: usize) -> (r: Option<u32>)
    requires
        index < ugraph_nodes(*graph).len(),
    ensures
        index < colors@.len() <= u32::MAX + 1 && colors@[index as int] is None ==> r is Some,
        r is Some && index < colors@.len() && colors@[index as int] is None && (forall|w: int|
            0 <= w < colors@.len() && (#[trigger] colors@[w]) is Some ==> colors@[w]->0 < colors@.len())
            ==> r->0 < colors@.len(),
        r is Some ==> !colors_near(ugraph_edges(*graph), colors@, index).contains(r->0),
        r is Some ==> least_choice(
            colors_near(ugraph_edges(*graph), colors@, index),
            colors_near(ugraph_edges(moves.graph), colors@, index),
            r->0,
        ),
{
    let conflicts = find_conflicting_colors(graph, colors, index);
    let preferred = find_move_related_colors(moves, colors, index);
    let ghost cs = conflicts@.to_set();
    let ghost ps = preferred@.to_set();
    let mut best: Option<u32> = None;
    let mut i: usize = 0;
    while i < preferred.len()
        invariant
            i <= preferred@.len(),
            best is Some ==> preferred@.contains(best->0) && !cs.contains(best->0),
            best is Some ==> forall|k: int| 0 <= k < i && !cs.contains(#[trigger] preferred@[k]) ==> best->0 <= preferred@[k],
            best is None ==> forall|k: int| 0 <= k < i ==> cs.contains(#[trigger] preferred@[k]),
            cs == conflicts@.to_set(),
        decreases preferred.len() - i,
    {
        let p = preferred[i];
        if !contains(&conflicts, p) {
            match best {
                Some(b) => {
                    if p < b {
                        best = Some(p);
                    }
                },
                None => {
                    best = Some(p);
                },
            }
        }
        i = i + 1;
    }
    match best {
        Some(b) => {
            proof {
                assert forall|p: u32| ps.contains(p) && !cs.contains(p) implies b <= p by {
                    let k = choose|k: int| 0 <= k < preferred@.len() && preferred@[k] == p;
                }
                assert(ps.contains(b));
                let w = choose|w: usize| w < colors@.len() && #[trigger] ugraph_edges(moves.graph).contains((index, w))
                    && colors@[w as int] == Some(b);
                assert(colors@[w as int] is Some);
            }
            Some(b)
        },
        None => {
            proof {
                assert forall|p: u32| ps.contains(p) implies cs.contains(p) by {
                    let k = choose|k: int| 0 <= k < preferred@.len() && preferred@[k] == p;
                }
            }
            let mut c: u32 = 0;
            while contains(&conflicts, c)
                invariant
                    conflicts@.no_duplicates(),
                    cs == conflicts@.to_set(),
                    forall|k: u32| k < c ==> cs.contains(k),
                    cs == colors_near(ugraph_edges(*graph), colors@, index),
                    index < ugraph_nodes(*graph).len(),
                decreases conflicts@.len() - c,
            {
                proof {
                    assert forall|k: u32| k < c + 1 implies cs.contains(k) by {}
                    conflicts@.unique_seq_to_set();
                    lemma_below_in_set(cs, (c + 1) as nat);
                    if index < colors@.len() && colors@[index as int] is None {
                        lemma_near_len(ugraph_edges(*graph), colors@, index);
                    }
                }
                if c == u32::MAX {
                    return None;
                }
                c = c + 1;
            }
            proof {
                if index < colors@.len() && colors@[index as int] is None {
                    lemma_near_len(ugraph_edges(*graph), colors@, index);
                    conflicts@.unique_seq_to_set();
                    lemma_below_in_set(cs, c as nat);
                }
            }
            Some(c)
        },
    }
}

/// `c` is the least of the preferred colors outside `conflicts`, or, where there is
/// none, the least color outside `conflicts`.
pub open spec fn least_choice(conflicts: Set<u32>, preferred: Set<u32>, c: u32) -> bool {
    if exists|p: u32| preferred.contains(p) && !conflicts.contains(p) {
        preferred.contains(c) && !conflicts.contains(c) && forall|p: u32|
            preferred.contains(p) && !conflicts.contains(p) ==> c <= p
    } else {
        forall|k: u32| k < c ==> conflicts.contains(k)
    }
}

/// Colors every node of the interference graph so that no two neighbors share a color,
/// taking the most saturated node first.
pub fn color_graph(graph: &UnGraph, moves: &MoveGraph) -> (r: Result<Vec<u32>, CompileError>)
    requires
        symmetric(ugraph_edges(*graph)),
    ensures
        ugraph_nodes(*graph).len() <= u32::MAX + 1 ==> r is Ok,
        r is Ok ==> r->Ok_0@.len() == ugraph_nodes(*graph).len(),
        r is Ok ==> forall|i: int| 0 <= i < r->Ok_0@.len() ==> #[trigger] r->Ok_0@[i] < r->Ok_0@.len(),
        r is Ok ==> forall|i: usize, j: usize|
            i < r->Ok_0@.len() && j < r->Ok_0@.len() && i != j && #[trigger] ugraph_edges(*graph).contains((i, j))
                ==> r->Ok_0@[i as int] != r->Ok_0@[j as int],
        r is Ok ==> forall|v: int|
            0 <= v < r->Ok_0@.len() ==> #[trigger] chosen(ugraph_edges(*graph), ugraph_edges(moves.graph), r->Ok_0@, v),
{
    let n = node_count(graph);
    let mut pqueue = queue_new();
    let mut colors: Vec<Option<u32>> = Vec::new();
    let mut i: usize = 0;
    while i < n
        invariant
            i <= n,
            colors@.len() == i,
            forall|k: int| 0 <= k < i ==> colors@[k] is None,
            queue_items(pqueue).dom().finite(),
            forall|k: usize| k < i ==> #[trigger] queue_items(pqueue).contains_key(k),
        decreases n - i,
    {
        queue_push(&mut pqueue, i, (0, 0, n - i));
        colors.push(None);
        i = i + 1;
    }
    loop
        invariant
            n == ugraph_nodes(*graph).len(),
            colors@.len() == n,
            symmetric(ugraph_edges(*graph)),
            queue_items(pqueue).dom().finite(),
            proper(ugraph_edges(*graph), colors@),
            forall|k: usize| k < n ==> colors@[k as int] is Some || #[trigger] queue_items(pqueue).contains_key(k),
            forall|w: int| 0 <= w < colors@.len() && (#[trigger] colors@[w]) is Some ==> colors@[w]->0 < colors@.len(),
            forall|v: int|
                0 <= v < colors@.len() && colors@[v] is Some ==> #[trigger] well_chosen(
                    ugraph_edges(*graph),
                    ugraph_edges(moves.graph),
                    colors@,
                    v,
                ),
        ensures
            forall|v: int|
                0 <= v < colors@.len() && colors@[v] is Some ==> #[trigger] well_chosen(
                    ugraph_edges(*graph),
                    ugraph_edges(moves.graph),
                    colors@,
                    v,
                ),
            colors@.len() == n,
            proper(ugraph_edges(*graph), colors@),
            forall|j: usize| j < n ==> (#[trigger] colors@[j as int]) is Some,
            forall|w: int| 0 <= w < colors@.len() && (#[trigger] colors@[w]) is Some ==> colors@[w]->0 < colors@.len(),
        decreases queue_items(pqueue).dom().len(),
    {
        let ghost q0 = queue_items(pqueue);
        let index = match queue_pop(&mut pqueue) {
            Some((index, _)) => index,
            None => {
                proof {
                    assert forall|k: usize| k < n implies colors@[k as int] is Some by {
                        if q0.contains_key(k) {
                            assert(q0.dom().contains(k));
                        }
                    }
                }
                break;
            },
        };
        if index < n && colors[index].is_none() {
            let color = match find_least_color(graph, moves, &colors, index) {
                Some(c) => c,
                None => {
                    return Err(CompileError::TooManyVariables);
                },
            };
            let ghost before = colors@;
            colors.set(index, Some(color));
            proof {
                assert forall|w: int| 0 <= w < colors@.len() && (#[trigger] colors@[w]) is Some implies colors@[w]->0
                    < colors@.len() by {
                    if w != index {
                        assert(colors@[w] == before[w]);
                    }
                }
            }
            proof {
                let e = ugraph_edges(*graph);
                assert forall|a: usize, b: usize|
                    a < colors@.len() && b < colors@.len() && a != b && #[trigger] e.contains((a, b)) && colors@[a as int] is Some
                        && colors@[b as int] is Some implies colors@[a as int] != colors@[b as int] by {
                    if a == index {
                        assert(before[b as int] == colors@[b as int]);
                        assert(colors_near(e, before, index).contains(colors@[b as int]->0));
                    } else if b == index {
                        assert(e.contains((b, a)));
                        assert(colors_near(e, before, index).contains(colors@[a as int]->0));
                    }
                }
            }
            proof {
                lemma_well_chosen_step(ugraph_edges(*graph), ugraph_edges(moves.graph), before, colors@, index, color);
            }
            update_saturation(&mut pqueue, graph, &colors, index);
            update_move_saturation(&mut pqueue, graph, moves, &colors, index, n);
        }
    }
    let mut result: Vec<u32> = Vec::new();
    let mut k: usize = 0;
    while k < n
        invariant
            k <= n == colors@.len(),
            proper(ugraph_edges(*graph), colors@),
            forall|j: usize| j < n ==> (#[trigger] colors@[j as int]) is Some,
            result@.len() == k,
            forall|j: int| 0 <= j < k ==> colors@[j] == Some(#[trigger] result@[j]),
        decreases n - k,
    {
        match colors[k] {
            Some(c) => result.push(c),
            None => {
                return Err(CompileError::Internal);
            },
        }
        k = k + 1;
    }
    proof {
        let e = ugraph_edges(*graph);
        assert forall|i: usize, j: usize|
            i < result@.len() && j < result@.len() && i != j && #[trigger] e.contains((i, j)) implies result@[i as int]
                != result@[j as int] by {
            assert(colors@[i as int] == Some(result@[i as int]));
            assert(colors@[j as int] == Some(result@[j as int]));
        }
        let mv = ugraph_edges(moves.graph);
        assert forall|v: int| 0 <= v < result@.len() implies #[trigger] chosen(e, mv, result@, v) by {
            assert(colors@[v] == Some(result@[v]));
            assert(well_chosen(e, mv, colors@, v));
            if exists|m: usize| m < colors@.len() && m != v && #[trigger] mv.contains((v as usize, m)) && colors@[m as int] == colors@[v] {
                let m = choose|m: usize| m < colors@.len() && m != v && #[trigger] mv.contains((v as usize, m)) && colors@[m as int] == colors@[v];
                assert(colors@[m as int] == Some(result@[m as int]));
            } else {
                assert forall|c: u32| c < result@[v] implies #[trigger] taken_near_final(e, result@, v, c) by {
                    assert(taken_near(e, colors@, v, c));
                    let w = choose|w: usize| w < colors@.len() && #[trigger] e.contains((v as usize, w)) && colors@[w as int] == Some(c);
                    assert(colors@[w as int] == Some(result@[w as int]));
                }
            }
        }
    }
    Ok(result)
}

/// Relies on petgraph's Graph::node_count: the number of nodes.
#[verifier::external_body]
fn node_count(g: &UnGraph) -> (r: usize)
    ensures
        r == ugraph_nodes(*g).len(),
{
    g.node_count()
}

/// The number of distinct colors among the neighbors of `index`.
fn saturation(graph: &UnGraph, colors: &Vec<Option<u32>>, index: usize) -> (r: usize)
    requires
        index < ugraph_nodes(*graph).len(),
    ensures
        r == colors_near(ugraph_edges(*graph), colors@, index).len(),
{
    let c = find_conflicting_colors(graph, colors, index);
    proof {
        c@.unique_seq_to_set();
    }
    c.len()
}

/// Raises the saturation of the uncolored neighbors of a node just colored.
fn update_saturation(pqueue: &mut Queue, graph: &UnGraph, colors: &Vec<Option<u32>>, index: usize)
    requires
        index < ugraph_nodes(*graph).len(),
    ensures
        queue_items(*final(pqueue)).dom() == queue_items(*old(pqueue)).dom(),
{
    let adj = ugraph_neighbors(graph, index);
    let mut i: usize = 0;
    while i < adj.len()
        invariant
            i <= adj@.len(),
            queue_items(*pqueue).dom() == queue_items(*old(pqueue)).dom(),
            forall|w: usize| #[trigger] adj@.contains(w) <==> ugraph_edges(*graph).contains((index, w)),
        decreases adj.len() - i,
    {
        let w = adj[i];
        if w < colors.len() && colors[w].is_none() && w < node_count(graph) {
            match queue_get_priority(pqueue, w) {
                Some((_, move_saturation, rank)) => {
                    let s = saturation(graph, colors, w);
                    queue_set_priority(pqueue, w, (s, move_saturation, rank));
                    assert(queue_items(*pqueue).dom() =~= queue_items(*old(pqueue)).dom());
                },
                None => {},
            }
        }
        i = i + 1;
    }
}

/// Raises the move saturation of the uncolored nodes related by a copy to a node just
/// colored, and not its neighbors.
fn update_move_saturation(pqueue: &mut Queue, graph: &UnGraph, moves: &MoveGraph, colors: &Vec<Option<u32>>, index: usize, n: usize)
    ensures
        queue_items(*final(pqueue)).dom() == queue_items(*old(pqueue)).dom(),
{
    let mut b: usize = 0;
    while b < n && b < colors.len()
        invariant
            queue_items(*pqueue).dom() == queue_items(*old(pqueue)).dom(),
        decreases n - b,
    {
        if colors[b].is_none() && moves.move_related(index, b) && !ugraph_contains_edge(graph, index, b) {
            match queue_get_priority(pqueue, b) {
                Some((s, m, rank)) => {
                    let m2 = if m < usize::MAX { m + 1 } else { m };
                    queue_set_priority(pqueue, b, (s, m2, rank));
                    assert(queue_items(*pqueue).dom() =~= queue_items(*old(pqueue)).dom());
                },
                None => {},
            }
        }
        b = b + 1;
    }
}

} // verus!
