//! The graph store: a `petgraph` directed graph whose node and edge weights are text.
//!
//! Nothing in this file is proved. Each function states what the `petgraph` function that it
//! calls does to the nodes and edges of the store.

use crate::cycles::is_component_partition;
use crate::render::edge_attributes;
use crate::render::edge_style;
use crate::render::node_attributes;
use crate::render::node_style;
use petgraph::algo::tarjan_scc;
use petgraph::dot::Config;
use petgraph::dot::Dot;
use petgraph::graph::DiGraph;
use petgraph::graph::EdgeIndex;
use petgraph::visit::EdgeRef;
use std::collections::HashSet;
use vstd::prelude::*;

verus! {

/// `petgraph::graph::Graph`: the verifier sees nothing inside it.
#[verifier::external_type_specification]
#[verifier::external_body]
#[verifier::reject_recursive_types(N)]
#[verifier::reject_recursive_types(E)]
#[verifier::reject_recursive_types(Ty)]
#[verifier::reject_recursive_types(Ix)]
pub struct ExGraph<N, E, Ty, Ix>(petgraph::graph::Graph<N, E, Ty, Ix>);

/// `petgraph::Directed`: the marker of a graph whose edges have a direction.
#[verifier::external_type_specification]
#[verifier::external_body]
pub struct ExDirected(petgraph::Directed);

/// A directed graph with text weights. Its indices are `usize`, so that the store never
/// refuses a node or an edge for want of an index.
pub type Store = DiGraph<String, String, usize>;

/// The node weights of a store, by node index.
pub uninterp spec fn store_nodes(g: Store) -> Seq<Seq<char>>;

/// The edges of a store, by edge index: source node, target node and weight.
pub uninterp spec fn store_edges(g: Store) -> Seq<(int, int, Seq<char>)>;

/// The two ends of each edge of a store, by edge index.
pub open spec fn store_links(g: Store) -> Seq<(int, int)> {
    Seq::new(store_edges(g).len(), |k: int| (store_edges(g)[k].0, store_edges(g)[k].1))
}

/// The text that `Dot` writes, with `Display`, for a directed graph with these node weights
/// and these edges, without edge labels, where the two attribute getters return
/// `node_attributes[i]` for node `i` and `edge_attributes[k]` for edge `k`.
pub uninterp spec fn dot_text(
    nodes: Seq<Seq<char>>,
    edges: Seq<(int, int)>,
    node_attributes: Seq<Seq<char>>,
    edge_attributes: Seq<Seq<char>>,
) -> Seq<char>;

/// `Graph::with_capacity`: a graph without nodes and without edges.
#[verifier::external_body]
pub(crate) fn store_new() -> (g: Store)
    ensures
        store_nodes(g) == Seq::<Seq<char>>::empty(),
        store_edges(g) == Seq::<(int, int, Seq<char>)>::empty(),
{
    Store::with_capacity(0, 0)
}

/// `Graph::add_node`: the new node comes last, its index is returned, and no edge changes.
#[verifier::external_body]
pub(crate) fn store_add_node(g: &mut Store, weight: String) -> (index: usize)
    ensures
        index == store_nodes(*old(g)).len(),
        store_nodes(*final(g)) == store_nodes(*old(g)).push(weight@),
        store_edges(*final(g)) == store_edges(*old(g)),
{
    g.add_node(weight).index()
}

/// `Graph::add_edge`, which panics on a node index that the graph does not have: the new
/// edge comes last, its index is returned, and no node changes.
#[verifier::external_body]
pub(crate) fn store_add_edge(g: &mut Store, source: usize, target: usize, weight: String) -> (index: usize)
    requires
        source < store_nodes(*old(g)).len(),
        target < store_nodes(*old(g)).len(),
    ensures
        index == store_edges(*old(g)).len(),
        store_edges(*final(g)) == store_edges(*old(g)).push((source as int, target as int, weight@)),
        store_nodes(*final(g)) == store_nodes(*old(g)),
{
    g.add_edge(source.into(), target.into(), weight).index()
}

/// `Graph::node_count`.
#[verifier::external_body]
pub(crate) fn store_node_count(g: &Store) -> (n: usize)
    ensures
        n == store_nodes(*g).len(),
{
    g.node_count()
}

/// `Graph::edge_count`.
#[verifier::external_body]
pub(crate) fn store_edge_count(g: &Store) -> (n: usize)
    ensures
        n == store_edges(*g).len(),
{
    g.edge_count()
}

/// `Graph::edge_endpoints`: the source and the target of the edge with index `edge`, if the
/// graph has that edge.
#[verifier::external_body]
pub(crate) fn store_endpoints(g: &Store, edge: usize) -> (ends: Option<(usize, usize)>)
    ensures
        ends == if edge < store_edges(*g).len() {
            Some((store_edges(*g)[edge as int].0 as usize, store_edges(*g)[edge as int].1 as usize))
        } else {
            None
        },
{
    g.edge_endpoints(EdgeIndex::new(edge)).map(|(a, b)| (a.index(), b.index()))
}

/// `Graph::edge_weight`: the weight of the edge with index `edge`, if the graph has that
/// edge.
#[verifier::external_body]
pub(crate) fn store_edge_weight(g: &Store, edge: usize) -> (weight: Option<String>)
    ensures
        match weight {
            Some(text) => edge < store_edges(*g).len() && text@ == store_edges(*g)[edge as int].2,
            None => edge >= store_edges(*g).len(),
        },
{
    g.edge_weight(EdgeIndex::new(edge)).cloned()
}

/// `petgraph::algo::tarjan_scc`: the strongly connected components of the graph. Every node
/// is in one component, once, and two nodes are in the same component exactly if each
/// reaches the other. The function recurses along the edges, as deep as the longest path
/// that it follows.
#[verifier::external_body]
pub(crate) fn store_components(g: &Store) -> (parts: Vec<Vec<usize>>)
    ensures
        is_component_partition(store_nodes(*g).len(), store_links(*g), parts.deep_view()),
{
    tarjan_scc(g).into_iter().map(|part| part.into_iter().map(|node| node.index()).collect()).collect()
}

/// `Dot::with_attr_getters` with `Config::EdgeNoLabel`, written with `Display`: the text of
/// the graph, where a node's attributes are those of `node_attributes` and an edge's those
/// of `edge_attributes`, each for the set `members`.
#[verifier::external_body]
pub(crate) fn store_dot(g: &Store, members: &HashSet<usize>) -> (text: String)
    ensures
        text@ == dot_text(
            store_nodes(*g),
            store_links(*g),
            Seq::new(store_nodes(*g).len(), |i: int| node_style(members@, i)),
            Seq::new(
                store_links(*g).len(),
                |k: int| edge_style(members@, store_links(*g)[k].0, store_links(*g)[k].1),
            ),
        ),
{
    format!(
        "{}",
        Dot::with_attr_getters(
            g,
            &[Config::EdgeNoLabel],
            &|_, edge| edge_attributes(members, edge.source().index(), edge.target().index()),
            &|_, (node, _)| node_attributes(members, node.index()),
        )
    )
}

} // verus!
