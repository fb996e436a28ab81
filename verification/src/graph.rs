//! Topological order of a directed graph given by its node count and its edges, computed
//! by petgraph.
use vstd::prelude::*;
use petgraph::graph::Graph;
use petgraph::Directed;

verus! {

/// `order` lists each node below `n` once, and each edge's source before its target.
pub open spec fn is_topo_order(n: nat, edges: Seq<(usize, usize)>, order: Seq<usize>) -> bool {
    &&& order.len() == n
    &&& forall|i: int| 0 <= i < n ==> (#[trigger] order[i]) < n
    &&& forall|i: int, j: int| 0 <= i < j < n ==> #[trigger] order[i] != #[trigger] order[j]
    &&& forall|e: int, i: int, j: int|
        0 <= e < edges.len() && 0 <= i < n && 0 <= j < n && #[trigger] order[i] == (#[trigger] edges[e]).0
            && #[trigger] order[j] == edges[e].1 ==> i < j
}

/// petgraph's marker of directed graphs.
#[verifier::external_type_specification]
#[verifier::external_body]
pub struct ExDirected(Directed);

/// petgraph's adjacency-list graph.
#[verifier::external_type_specification]
#[verifier::external_body]
#[verifier::reject_recursive_types(N)]
#[verifier::reject_recursive_types(E)]
#[verifier::reject_recursive_types(Ty)]
#[verifier::reject_recursive_types(Ix)]
pub struct ExGraph<N, E, Ty, Ix>(Graph<N, E, Ty, Ix>);

/// The number of nodes of a graph; they are numbered from zero in the order they were added.
pub uninterp spec fn graph_node_count(g: Graph<(), (), Directed, usize>) -> nat;

/// The edges of a graph, as (source, target) node numbers, in the order they were added.
pub uninterp spec fn graph_edges(g: Graph<(), (), Directed, usize>) -> Seq<(usize, usize)>;

/// What `petgraph::algo::toposort` gives for a graph of `node_count` nodes, numbered from
/// zero, with the edges added in the order of `edges`: the node numbers in order, or none
/// when the graph has a cycle.
pub uninterp spec fn petgraph_toposort(node_count: nat, edges: Seq<(usize, usize)>) -> Option<Seq<usize>>;

/// Calls `Graph::default` (through `Graph::with_capacity(0, 0)`): a graph without nodes or
/// edges.
#[verifier::external_body]
fn new_graph() -> (g: Graph<(), (), Directed, usize>)
    ensures
        graph_node_count(g) == 0,
        graph_edges(g) == Seq::<(usize, usize)>::empty(),
{
    Graph::default()
}

/// Calls `Graph::add_node`: one more node, the edges unchanged. With `usize` indices the
/// source checks no limit on the number of nodes.
#[verifier::external_body]
fn add_graph_node(g: &mut Graph<(), (), Directed, usize>)
    ensures
        graph_node_count(*final(g)) == graph_node_count(*old(g)) + 1,
        graph_edges(*final(g)) == graph_edges(*old(g)),
{
    g.add_node(());
}

/// Calls `Graph::add_edge`: the edge from node `a` to node `b` is added after the others.
/// The call panics when a node does not exist, and `requires` leaves that out; with `usize`
/// indices the source checks no limit on the number of edges.
#[verifier::external_body]
fn add_graph_edge(g: &mut Graph<(), (), Directed, usize>, a: usize, b: usize)
    requires
        a < graph_node_count(*old(g)),
        b < graph_node_count(*old(g)),
    ensures
        graph_node_count(*final(g)) == graph_node_count(*old(g)),
        graph_edges(*final(g)) == graph_edges(*old(g)).push((a, b)),
{
    g.add_edge(petgraph::graph::NodeIndex::new(a), petgraph::graph::NodeIndex::new(b), ());
}

/// Calls `petgraph::algo::toposort` and gives the node numbers of its order.
///
/// The contract claims what petgraph documents: on an acyclic graph the result lists the
/// nodes in topological order, each node before its successors; on a graph with a cycle
/// (a self loop included) it is an error. That the order lists every node once is what the
/// source shows (each node is pushed once, when its search finishes). Which of the
/// topological orders comes out is named, not stated.
#[verifier::external_body]
fn toposort_graph(g: &Graph<(), (), Directed, usize>) -> (r: Option<Vec<usize>>)
    ensures
        match r {
            Some(v) => petgraph_toposort(graph_node_count(*g), graph_edges(*g)) == Some(v@)
                && is_topo_order(graph_node_count(*g), graph_edges(*g), v@),
            None => petgraph_toposort(graph_node_count(*g), graph_edges(*g)) is None
                && forall|o: Seq<usize>| !is_topo_order(graph_node_count(*g), graph_edges(*g), o),
        },
{
    match petgraph::algo::toposort(g, None) {
        Ok(order) => Some(order.into_iter().map(|i| i.index()).collect()),
        Err(_) => None,
    }
}

/// A topological order of the graph with `node_count` nodes and the given edges, computed
/// by petgraph on a graph built with those nodes and edges; none when the graph has a cycle.
pub(crate) fn toposort_nodes(node_count: usize, edges: &Vec<(usize, usize)>) -> (r: Option<Vec<usize>>)
    requires
        forall|i: int| 0 <= i < edges@.len() ==> (#[trigger] edges@[i]).0 < node_count && edges@[i].1 < node_count,
    ensures
        match r {
            Some(v) => petgraph_toposort(node_count as nat, edges@) == Some(v@)
                && is_topo_order(node_count as nat, edges@, v@),
            None => petgraph_toposort(node_count as nat, edges@) is None
                && forall|o: Seq<usize>| !is_topo_order(node_count as nat, edges@, o),
        },
{
    let mut g = new_graph();
    let mut i: usize = 0;
    while i < node_count
        invariant
            i <= node_count,
            graph_node_count(g) == i,
            graph_edges(g) == Seq::<(usize, usize)>::empty(),
        decreases node_count - i,
    {
        add_graph_node(&mut g);
        i = i + 1;
    }
    let mut j: usize = 0;
    while j < edges.len()
        invariant
            j <= edges@.len(),
            graph_node_count(g) == node_count,
            graph_edges(g) == edges@.subrange(0, j as int),
            forall|k: int| 0 <= k < edges@.len() ==> (#[trigger] edges@[k]).0 < node_count && edges@[k].1 < node_count,
        decreases edges@.len() - j,
    {
        let (a, b) = edges[j];
        add_graph_edge(&mut g, a, b);
        assert(edges@.subrange(0, j + 1) =~= edges@.subrange(0, j as int).push((a, b)));
        j = j + 1;
    }
    assert(edges@.subrange(0, edges@.len() as int) =~= edges@);
    toposort_graph(&g)
}

} // verus!
