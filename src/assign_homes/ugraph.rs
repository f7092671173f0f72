//! Undirected graphs over variables, kept in a petgraph `Graph`.
use vstd::prelude::*;

verus! {

#[verifier::external_type_specification]
#[verifier::external_body]
#[verifier::reject_recursive_types(N)]
#[verifier::reject_recursive_types(E)]
#[verifier::reject_recursive_types(Ty)]
#[verifier::reject_recursive_types(Ix)]
pub struct ExPetGraph<N, E, Ty, Ix>(petgraph::Graph<N, E, Ty, Ix>);

#[verifier::external_type_specification]
#[verifier::external_body]
pub struct ExUndirected(petgraph::Undirected);

/// An undirected graph whose nodes carry variable ids.
pub type UnGraph = petgraph::Graph<u32, (), petgraph::Undirected, usize>;

/// The weights of the nodes of an undirected graph, by node index.
pub uninterp spec fn ugraph_nodes(g: UnGraph) -> Seq<u32>;

/// The pairs of node indices joined by an edge, in both orders.
pub uninterp spec fn ugraph_edges(g: UnGraph) -> Set<(usize, usize)>;

/// An edge set read the same in both directions.
pub open spec fn symmetric(edges: Set<(usize, usize)>) -> bool {
    forall|a: usize, b: usize| #[trigger] edges.contains((a, b)) ==> edges.contains((b, a))
}

/// Relies on petgraph's Graph::with_capacity: a graph without nodes or edges.
#[verifier::external_body]
pub(crate) fn ugraph_new() -> (r: UnGraph)
    ensures
        ugraph_nodes(r) == Seq::<u32>::empty(),
        ugraph_edges(r) == Set::<(usize, usize)>::empty(),
{
    petgraph::Graph::with_capacity(0, 0)
}

/// Relies on petgraph's Graph::add_node: the new node gets the next index.
#[verifier::external_body]
pub(crate) fn ugraph_add_node(g: &mut UnGraph, weight: u32) -> (r: usize)
    ensures
        r == ugraph_nodes(*old(g)).len(),
        ugraph_nodes(*final(g)) == ugraph_nodes(*old(g)).push(weight),
        ugraph_edges(*final(g)) == ugraph_edges(*old(g)),
{
    g.add_node(weight).index()
}

/// Relies on petgraph's Graph::update_edge: joins `a` and `b` unless they are joined.
#[verifier::external_body]
pub(crate) fn ugraph_update_edge(g: &mut UnGraph, a: usize, b: usize)
    requires
        a < ugraph_nodes(*old(g)).len(),
        b < ugraph_nodes(*old(g)).len(),
    ensures
        ugraph_nodes(*final(g)) == ugraph_nodes(*old(g)),
        ugraph_edges(*final(g)) == ugraph_edges(*old(g)).insert((a, b)).insert((b, a)),
{
    g.update_edge(petgraph::graph::NodeIndex::new(a), petgraph::graph::NodeIndex::new(b), ());
}

/// Relies on petgraph's Graph::neighbors: in an undirected graph, every node joined
/// to `a`.
#[verifier::external_body]
pub(crate) fn ugraph_neighbors(g: &UnGraph, a: usize) -> (r: Vec<usize>)
    requires
        a < ugraph_nodes(*g).len(),
    ensures
        forall|x: usize| #[trigger] r@.contains(x) <==> ugraph_edges(*g).contains((a, x)),
{
    g.neighbors(petgraph::graph::NodeIndex::new(a)).map(|n| n.index()).collect()
}

/// Relies on petgraph's Graph::contains_edge: in an undirected graph, whether `a`
/// and `b` are joined.
#[verifier::external_body]
pub(crate) fn ugraph_contains_edge(g: &UnGraph, a: usize, b: usize) -> (r: bool)
    ensures
        r == ugraph_edges(*g).contains((a, b)),
{
    g.contains_edge(petgraph::graph::NodeIndex::new(a), petgraph::graph::NodeIndex::new(b))
}

} // verus!
