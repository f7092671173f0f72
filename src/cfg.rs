//! Control-flow graphs: blocks addressed by index and labelled edges between them.
use vstd::prelude::*;

verus! {

/// An edge from block `source` to block `target`.
#[derive(Debug, Clone, PartialEq, Eq)]
pub struct Edge<E> {
    pub source: usize,
    pub target: usize,
    pub weight: E,
}

/// A directed graph: nodes addressed by their index, edges kept in insertion order.
#[derive(Debug)]
pub struct BlockGraph<N, E> {
    pub nodes: Vec<N>,
    pub edges: Vec<Edge<E>>,
}

impl<N, E> BlockGraph<N, E> {
    /// Every edge leads from a block to a later one: the graph has no cycle, and
    /// index order is a topological order.
    pub open spec fn forward(&self) -> bool {
        forall|i: int|
            0 <= i < self.edges@.len() ==> (#[trigger] self.edges@[i]).source < self.edges@[i].target
                < self.nodes@.len()
    }

    /// Block `b` has an outgoing edge.
    pub open spec fn has_out(&self, b: int) -> bool {
        exists|i: int| 0 <= i < self.edges@.len() && #[trigger] self.edges@[i].source == b
    }

    /// `self` holds the nodes and the edges of `older`, and perhaps more of each.
    pub open spec fn extends(&self, older: &Self) -> bool {
        &&& older.nodes@.len() <= self.nodes@.len()
        &&& older.edges@.len() <= self.edges@.len()
        &&& forall|i: int|
            0 <= i < older.edges@.len() ==> #[trigger] self.edges@[i] == older.edges@[i]
    }

    pub fn new() -> (r: Self)
        ensures
            r.nodes@.len() == 0,
            r.edges@.len() == 0,
    {
        BlockGraph { nodes: Vec::new(), edges: Vec::new() }
    }

    pub fn add_node(&mut self, n: N) -> (r: usize)
        ensures
            r == old(self).nodes@.len(),
            final(self).nodes@ == old(self).nodes@.push(n),
            final(self).edges@ == old(self).edges@,
    {
        self.nodes.push(n);
        self.nodes.len() - 1
    }

    pub fn add_edge(&mut self, source: usize, target: usize, weight: E)
        ensures
            final(self).nodes@ == old(self).nodes@,
            final(self).edges@ == old(self).edges@.push(Edge { source, target, weight }),
    {
        self.edges.push(Edge { source, target, weight });
    }
}

} // verus!
