//! The directed graph that the topology checks are run on, and what it means
//! for such a graph to be symmetric and connected.
//!
//! The graph itself is petgraph's `DiGraphMap<u8, u8>`. Verus sees it as an
//! opaque value; its contents are spoken of through [`graph_nodes`] and
//! [`graph_edges`], and every call into petgraph goes through one of the
//! small functions of this file, whose contracts are taken on trust.

use petgraph::graphmap::DiGraphMap;
use petgraph::graphmap::GraphMap;
use petgraph::Directed;
use petgraph::Direction;
use std::hash::BuildHasher;
use vstd::prelude::*;
use vstd::set_lib::*;

verus! {

/// Every edge has its reverse.
pub open spec fn symmetric(edges: Set<(u8, u8)>) -> bool {
    forall|a: u8, b: u8| #[trigger] edges.contains((a, b)) ==> edges.contains((b, a))
}

/// The edges into `n` come from the nodes that its own edges lead to.
pub open spec fn symmetric_at(edges: Set<(u8, u8)>, n: u8) -> bool {
    forall|a: u8| edges.contains((a, n)) <==> edges.contains((n, a))
}

/// The nodes that some edge leads to.
pub open spec fn targets(edges: Set<(u8, u8)>) -> Set<u8> {
    Set::new(|b: u8| exists|a: u8| edges.contains((a, b)))
}

/// An edge joins `a` and `b`, in one direction or the other.
pub open spec fn linked(edges: Set<(u8, u8)>, a: u8, b: u8) -> bool {
    edges.contains((a, b)) || edges.contains((b, a))
}

/// `path` is a non-empty sequence of nodes in which each one is linked to the
/// next.
pub open spec fn is_walk(nodes: Set<u8>, edges: Set<(u8, u8)>, path: Seq<u8>) -> bool {
    &&& path.len() > 0
    &&& forall|i: int| 0 <= i < path.len() ==> nodes.contains(#[trigger] path[i])
    &&& forall|i: int| 0 <= i < path.len() - 1 ==> linked(edges, #[trigger] path[i], path[i + 1])
}

/// Some walk leads from `a` to `b`, edges taken in either direction.
pub open spec fn joined(nodes: Set<u8>, edges: Set<(u8, u8)>, a: u8, b: u8) -> bool {
    exists|path: Seq<u8>| #[trigger]
        is_walk(nodes, edges, path) && path.first() == a && path.last() == b
}

/// Every node can be reached from every other one.
pub open spec fn connected(nodes: Set<u8>, edges: Set<(u8, u8)>) -> bool {
    forall|a: u8, b: u8|
        nodes.contains(a) && nodes.contains(b) ==> #[trigger] joined(nodes, edges, a, b)
}

/// The nodes that can be reached from `a`.
pub open spec fn component(nodes: Set<u8>, edges: Set<(u8, u8)>, a: u8) -> Set<u8> {
    Set::new(|b: u8| joined(nodes, edges, a, b))
}

/// The number of weakly connected components: of distinct sets of mutually
/// reachable nodes.
pub open spec fn component_count(nodes: Set<u8>, edges: Set<(u8, u8)>) -> nat {
    nodes.map(|a: u8| component(nodes, edges, a)).len()
}

/// A set of node ids is finite.
pub proof fn lemma_node_set_finite(nodes: Set<u8>)
    ensures
        nodes.finite(),
{
    broadcast use full_set_properties;

    assert(Set::<u8>::full().finite());
    lemma_set_subset_finite(Set::<u8>::full(), nodes);
}

/// A node is joined to itself.
pub proof fn lemma_joined_reflexive(nodes: Set<u8>, edges: Set<(u8, u8)>, a: u8)
    requires
        nodes.contains(a),
    ensures
        joined(nodes, edges, a, a),
{
    let path = seq![a];
    assert(is_walk(nodes, edges, path));
}

/// What is reached by a walk is a node.
pub proof fn lemma_joined_are_nodes(nodes: Set<u8>, edges: Set<(u8, u8)>, a: u8, b: u8)
    requires
        joined(nodes, edges, a, b),
    ensures
        nodes.contains(a),
        nodes.contains(b),
{
    let path = choose|path: Seq<u8>| #[trigger]
        is_walk(nodes, edges, path) && path.first() == a && path.last() == b;
    assert(nodes.contains(path[0]));
    assert(nodes.contains(path[path.len() - 1]));
}

/// A graph is connected exactly when it has at most one component.
pub proof fn lemma_connected_iff_one_component(nodes: Set<u8>, edges: Set<(u8, u8)>)
    ensures
        connected(nodes, edges) <==> component_count(nodes, edges) <= 1,
{
    let f = |a: u8| component(nodes, edges, a);
    let comps = nodes.map(f);
    lemma_node_set_finite(nodes);
    nodes.lemma_map_finite(f);
    if comps.len() <= 1 {
        assert forall|a: u8, b: u8| nodes.contains(a) && nodes.contains(b) implies joined(
            nodes,
            edges,
            a,
            b,
        ) by {
            assert(comps.contains(f(a)));
            assert(comps.contains(f(b)));
            if f(a) != f(b) {
                let two = Set::<Set<u8>>::empty().insert(f(a)).insert(f(b));
                assert(two.len() == 2);
                assert(two.subset_of(comps));
                lemma_len_subset(two, comps);
            }
            lemma_joined_reflexive(nodes, edges, b);
            assert(f(b).contains(b));
        }
    }
    if connected(nodes, edges) {
        if exists|a: u8| nodes.contains(a) {
            let a0 = choose|a: u8| nodes.contains(a);
            assert forall|a: u8| nodes.contains(a) implies f(a) == f(a0) by {
                assert forall|x: u8| #[trigger]
                    component(nodes, edges, a).contains(x) <==> component(
                        nodes,
                        edges,
                        a0,
                    ).contains(x) by {
                    if joined(nodes, edges, a, x) {
                        lemma_joined_are_nodes(nodes, edges, a, x);
                    }
                    if joined(nodes, edges, a0, x) {
                        lemma_joined_are_nodes(nodes, edges, a0, x);
                    }
                }
                assert(f(a) =~= f(a0));
            }
            assert(comps =~= Set::<Set<u8>>::empty().insert(f(a0)));
        } else {
            assert(comps =~= Set::<Set<u8>>::empty());
        }
    }
}

#[verifier::external_type_specification]
#[verifier::external_body]
#[verifier::reject_recursive_types(N)]
#[verifier::reject_recursive_types(E)]
#[verifier::reject_recursive_types(Ty)]
#[verifier::reject_recursive_types(S)]
pub struct ExGraphMap<N, E, Ty, S: BuildHasher>(GraphMap<N, E, Ty, S>);

#[verifier::external_type_specification]
#[verifier::external_body]
pub struct ExDirected(Directed);

/// The set of nodes that a graph holds.
pub uninterp spec fn graph_nodes(g: DiGraphMap<u8, u8>) -> Set<u8>;

/// The set of directed edges `(source, target)` that a graph holds, whatever
/// their weights.
pub uninterp spec fn graph_edges(g: DiGraphMap<u8, u8>) -> Set<(u8, u8)>;

/// `DiGraphMap::new`: a graph without nodes and edges.
#[verifier::external_body]
pub(crate) fn new_graph() -> (g: DiGraphMap<u8, u8>)
    ensures
        graph_nodes(g) == Set::<u8>::empty(),
        graph_edges(g) == Set::<(u8, u8)>::empty(),
{
    DiGraphMap::new()
}

/// `GraphMap::add_node`: `n` becomes a node of the graph if it was none; the
/// edges stay as they are.
#[verifier::external_body]
pub(crate) fn add_node(g: &mut DiGraphMap<u8, u8>, n: u8)
    ensures
        graph_nodes(*final(g)) == graph_nodes(*old(g)).insert(n),
        graph_edges(*final(g)) == graph_edges(*old(g)),
{
    g.add_node(n);
}

/// `GraphMap::add_edge`: the edge from `a` to `b` joins the graph, and so do
/// its two ends where they were not nodes of it yet. An edge that was there
/// already only has its weight replaced.
#[verifier::external_body]
pub(crate) fn add_edge(g: &mut DiGraphMap<u8, u8>, a: u8, b: u8, weight: u8)
    ensures
        graph_nodes(*final(g)) == graph_nodes(*old(g)).insert(a).insert(b),
        graph_edges(*final(g)) == graph_edges(*old(g)).insert((a, b)),
{
    g.add_edge(a, b, weight);
}

/// `GraphMap::nodes`: every node of the graph, once each. Both ends of every
/// edge are among them.
#[verifier::external_body]
pub(crate) fn node_list(g: &DiGraphMap<u8, u8>) -> (r: Vec<u8>)
    ensures
        r@.no_duplicates(),
        forall|n: u8| r@.contains(n) <==> graph_nodes(*g).contains(n),
        forall|a: u8, b: u8| #[trigger]
            graph_edges(*g).contains((a, b)) ==> r@.contains(a) && r@.contains(b),
{
    g.nodes().collect()
}

/// `GraphMap::edges_directed` with `Incoming`: the sources of the edges that
/// lead into `node`, once each, in no stated order.
#[verifier::external_body]
pub(crate) fn sources_into(g: &DiGraphMap<u8, u8>, node: u8) -> (r: Vec<u8>)
    ensures
        r@.no_duplicates(),
        forall|a: u8| r@.contains(a) <==> graph_edges(*g).contains((a, node)),
{
    g.edges_directed(node, Direction::Incoming).map(|(a, _, _)| a).collect()
}

/// `GraphMap::edges_directed` with `Outgoing`: the targets of the edges that
/// leave `node`, once each, in no stated order.
#[verifier::external_body]
pub(crate) fn targets_from(g: &DiGraphMap<u8, u8>, node: u8) -> (r: Vec<u8>)
    ensures
        r@.no_duplicates(),
        forall|b: u8| r@.contains(b) <==> graph_edges(*g).contains((node, b)),
{
    g.edges_directed(node, Direction::Outgoing).map(|(_, b, _)| b).collect()
}

/// `petgraph::algo::connected_components`: the number of weakly connected
/// components of the graph.
#[verifier::external_body]
pub(crate) fn connected_components(g: &DiGraphMap<u8, u8>) -> (r: usize)
    ensures
        r == component_count(graph_nodes(*g), graph_edges(*g)),
{
    petgraph::algo::connected_components(g)
}

} // verus!
