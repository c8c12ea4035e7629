//! The directed graph that stores modules and connections, and what it
//! means for modules to reach one another.
//!
//! The graph is petgraph's `DiGraph`. Its contents are described by two
//! names: the node weights in index order and the edges (source index,
//! target index, weight) in index order. Each petgraph call that the
//! library makes goes through one function here, whose contract says what
//! the call does to those contents.
use vstd::prelude::*;
use crate::graph::{ModuleNode, TopicEdge};
use petgraph::graph::{DiGraph, NodeIndex};

verus! {

#[verifier::external_type_specification]
#[verifier::external_body]
#[verifier::reject_recursive_types(N)]
#[verifier::reject_recursive_types(E)]
#[verifier::reject_recursive_types(Ty)]
#[verifier::reject_recursive_types(Ix)]
pub struct ExGraph<N, E, Ty, Ix>(petgraph::graph::Graph<N, E, Ty, Ix>);

#[verifier::external_type_specification]
#[verifier::external_body]
pub struct ExDirected(petgraph::Directed);

/// The node weights of a flow graph, in index order.
pub uninterp spec fn flow_nodes(g: DiGraph<ModuleNode, TopicEdge>) -> Seq<ModuleNode>;

/// The edges of a flow graph in index order: source index, target index
/// and weight.
pub uninterp spec fn flow_edges(g: DiGraph<ModuleNode, TopicEdge>) -> Seq<(usize, usize, TopicEdge)>;

/// Largest number of nodes, and of edges, that a graph indexed by `u32`
/// can hold: index `u32::MAX` is reserved.
pub open spec fn index_limit() -> nat {
    4294967295
}

/// Calls `DiGraph::new`: a graph with no nodes and no edges.
#[verifier::external_body]
pub(crate) fn graph_new() -> (g: DiGraph<ModuleNode, TopicEdge>)
    ensures
        flow_nodes(g) == Seq::<ModuleNode>::empty(),
        flow_edges(g) == Seq::<(usize, usize, TopicEdge)>::empty(),
{
    DiGraph::new()
}

/// Calls `Graph::node_count`: the number of nodes.
#[verifier::external_body]
pub(crate) fn graph_node_count(g: &DiGraph<ModuleNode, TopicEdge>) -> (r: usize)
    ensures
        r == flow_nodes(*g).len(),
{
    g.node_count()
}

/// Calls `Graph::edge_count`: the number of edges.
#[verifier::external_body]
pub(crate) fn graph_edge_count(g: &DiGraph<ModuleNode, TopicEdge>) -> (r: usize)
    ensures
        r == flow_edges(*g).len(),
{
    g.edge_count()
}

/// Calls `Graph::add_node`: appends a node with weight `w` and returns its
/// index. The graph must have room for another `u32` index, else the call
/// panics.
#[verifier::external_body]
pub(crate) fn graph_add_node(g: &mut DiGraph<ModuleNode, TopicEdge>, w: ModuleNode) -> (r: usize)
    requires
        flow_nodes(*old(g)).len() < index_limit(),
    ensures
        r == flow_nodes(*old(g)).len(),
        flow_nodes(*final(g)) == flow_nodes(*old(g)).push(w),
        flow_edges(*final(g)) == flow_edges(*old(g)),
{
    g.add_node(w).index()
}

/// Calls `Graph::add_edge`: appends an edge from node `a` to node `b` with
/// weight `w` and returns its index. Both nodes must exist and the graph
/// must have room for another `u32` edge index, else the call panics.
#[verifier::external_body]
pub(crate) fn graph_add_edge(g: &mut DiGraph<ModuleNode, TopicEdge>, a: usize, b: usize, w: TopicEdge) -> (r: usize)
    requires
        a < flow_nodes(*old(g)).len(),
        b < flow_nodes(*old(g)).len(),
        flow_edges(*old(g)).len() < index_limit(),
    ensures
        r == flow_edges(*old(g)).len(),
        flow_nodes(*final(g)) == flow_nodes(*old(g)),
        flow_edges(*final(g)) == flow_edges(*old(g)).push((a, b, w)),
{
    g.add_edge(NodeIndex::new(a), NodeIndex::new(b), w).index()
}

/// Indexes the graph by node (`Index<NodeIndex>`): the weight of node `i`.
#[verifier::external_body]
pub(crate) fn graph_node(g: &DiGraph<ModuleNode, TopicEdge>, i: usize) -> (r: &ModuleNode)
    requires
        i < flow_nodes(*g).len(),
    ensures
        *r == flow_nodes(*g)[i as int],
{
    &g[NodeIndex::new(i)]
}

/// Calls `Graph::raw_edges` and reads entry `e`: the source index, target
/// index and weight of edge `e`.
#[verifier::external_body]
pub(crate) fn graph_edge(g: &DiGraph<ModuleNode, TopicEdge>, e: usize) -> (r: (usize, usize, &TopicEdge))
    requires
        e < flow_edges(*g).len(),
    ensures
        r.0 == flow_edges(*g)[e as int].0,
        r.1 == flow_edges(*g)[e as int].1,
        *r.2 == flow_edges(*g)[e as int].2,
{
    let edge = &g.raw_edges()[e];
    (edge.source().index(), edge.target().index(), &edge.weight)
}

/// Some edge leads from `u` to `v`.
pub open spec fn has_edge<E>(edges: Seq<(usize, usize, E)>, u: int, v: int) -> bool {
    exists|e: int| 0 <= e < edges.len() && #[trigger] edges[e].0 == u && edges[e].1 == v
}

/// `p` is a walk along edges: consecutive positions are joined by an edge.
pub open spec fn is_walk<E>(edges: Seq<(usize, usize, E)>, p: Seq<int>) -> bool {
    &&& p.len() >= 1
    &&& forall|k: int| 0 <= k < p.len() - 1 ==> #[trigger] has_edge(edges, p[k], p[k + 1])
}

/// Node `b` can be reached from node `a` by following edges (every node
/// reaches itself).
pub open spec fn reaches<E>(edges: Seq<(usize, usize, E)>, a: int, b: int) -> bool {
    exists|p: Seq<int>| #[trigger] is_walk(edges, p) && p[0] == a && p.last() == b
}

/// Nodes `a` and `b` reach each other: they lie in one strongly connected
/// component.
pub open spec fn strongly_connected<E>(edges: Seq<(usize, usize, E)>, a: int, b: int) -> bool {
    reaches(edges, a, b) && reaches(edges, b, a)
}

/// Node `a` lies on a cycle through another node: some other node of the
/// graph and `a` reach each other.
pub open spec fn on_cycle<E>(n: nat, edges: Seq<(usize, usize, E)>, a: int) -> bool {
    exists|b: int| 0 <= b < n && b != a && #[trigger] strongly_connected(edges, a, b)
}

/// `comps` lists the strongly connected components of the graph with nodes
/// `0..n` and the given edges: every node occurs in exactly one component,
/// no component is empty, and two nodes share a component exactly when they
/// reach each other.
pub open spec fn is_scc_decomposition<E>(n: nat, edges: Seq<(usize, usize, E)>, comps: Seq<Seq<usize>>) -> bool {
    &&& forall|k: int| 0 <= k < comps.len() ==> #[trigger] comps[k].len() > 0
    &&& forall|k: int, m: int|
        0 <= k < comps.len() && 0 <= m < comps[k].len() ==> #[trigger] comps[k][m] < n
    &&& forall|i: int| 0 <= i < n ==> #[trigger] node_listed(comps, i)
    &&& forall|k1: int, m1: int, k2: int, m2: int|
        0 <= k1 < comps.len() && 0 <= m1 < comps[k1].len() && 0 <= k2 < comps.len() && 0 <= m2
            < comps[k2].len() && #[trigger] comps[k1][m1] == #[trigger] comps[k2][m2] ==> k1 == k2
            && m1 == m2
    &&& forall|k1: int, m1: int, k2: int, m2: int|
        0 <= k1 < comps.len() && 0 <= m1 < comps[k1].len() && 0 <= k2 < comps.len() && 0 <= m2
            < comps[k2].len() ==> (k1 == k2 <==> strongly_connected(
            edges,
            #[trigger] comps[k1][m1] as int,
            #[trigger] comps[k2][m2] as int,
        ))
}

/// Node `i` occurs in some component.
pub open spec fn node_listed(comps: Seq<Seq<usize>>, i: int) -> bool {
    exists|k: int, m: int| 0 <= k < comps.len() && 0 <= m < comps[k].len() && #[trigger] comps[k][m] == i
}

/// The lists held by a vector of vectors.
pub open spec fn nested_view(v: Seq<Vec<usize>>) -> Seq<Seq<usize>> {
    v.map_values(|c: Vec<usize>| c@)
}

/// Calls `petgraph::algo::tarjan_scc`, which returns the strongly connected
/// components of the graph, each as a list of node indices. The contract
/// says that the result is such a decomposition; it leaves open the order
/// of the components and of the nodes within each one.
#[verifier::external_body]
pub(crate) fn graph_sccs(g: &DiGraph<ModuleNode, TopicEdge>) -> (r: Vec<Vec<usize>>)
    ensures
        is_scc_decomposition(flow_nodes(*g).len(), flow_edges(*g), nested_view(r@)),
{
    petgraph::algo::tarjan_scc(g).into_iter().map(|c| c.into_iter().map(|x| x.index()).collect()).collect()
}

} // verus!
