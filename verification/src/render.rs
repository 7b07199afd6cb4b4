//! Rendering: the graph as text in the DOT language, with the nodes on a cycle in red.

use crate::graph::GraphView;
use crate::graph::TaskGraph;
use crate::cycles::detect_cycles;
use crate::cycles::cyclic_set;
use crate::store::dot_text;
use std::collections::HashSet;
use vstd::prelude::*;

verus! {

broadcast use vstd::std_specs::hash::group_hash_axioms;

/// The attribute that marks a node or an edge as part of a cycle.
pub open spec fn flagged() -> Seq<char> {
    "color=\"red\""@
}

/// The attributes of the node `node`: flagged if and only if it is in `members`.
pub open spec fn node_style(members: Set<usize>, node: int) -> Seq<char> {
    if 0 <= node <= usize::MAX && members.contains(node as usize) {
        flagged()
    } else {
        Seq::empty()
    }
}

/// The attributes of an edge: flagged if and only if both of its ends are in `members`.
pub open spec fn edge_style(members: Set<usize>, dependency: int, dependent: int) -> Seq<char> {
    if 0 <= dependency <= usize::MAX && members.contains(dependency as usize) && 0 <= dependent
        <= usize::MAX && members.contains(dependent as usize) {
        flagged()
    } else {
        Seq::empty()
    }
}

/// The text of a graph in which the nodes of `members`, and the edges between two of them,
/// are flagged.
pub open spec fn rendering(graph: GraphView, members: Set<usize>) -> Seq<char> {
    dot_text(
        graph.nodes,
        graph.edges,
        Seq::new(graph.nodes.len(), |i: int| node_style(members, i)),
        Seq::new(
            graph.edges.len(),
            |k: int| edge_style(members, graph.edges[k].0, graph.edges[k].1),
        ),
    )
}

/// The attributes of the node `node`: flagged if and only if it is in `members`.
pub fn node_attributes(members: &HashSet<usize>, node: usize) -> (attributes: String)
    ensures
        attributes@ == node_style(members@, node as int),
{
    if members.contains(&node) {
        "color=\"red\"".to_owned()
    } else {
        String::new()
    }
}

/// The attributes of an edge: flagged if and only if both of its ends are in `members`.
pub fn edge_attributes(members: &HashSet<usize>, dependency: usize, dependent: usize) -> (attributes: String)
    ensures
        attributes@ == edge_style(members@, dependency as int, dependent as int),
{
    if members.contains(&dependency) && members.contains(&dependent) {
        "color=\"red\"".to_owned()
    } else {
        String::new()
    }
}

/// The graph as text, with the nodes of `members`, and the edges between two of them,
/// flagged. Nodes and edges come in the order of their indices.
pub fn render(graph: &TaskGraph, members: &HashSet<usize>) -> (text: String)
    ensures
        text@ == rendering(graph@, members@),
{
    graph.dot(members)
}

/// The graph as text, with the nodes on a cycle, and the edges between two of them, flagged.
pub fn graph_to_dot(graph: &TaskGraph) -> (text: String)
    requires
        graph.wf(),
    ensures
        text@ == rendering(graph@, cyclic_set(graph@)),
{
    let members = detect_cycles(graph);
    render(graph, &members)
}

/// Rendering is a function of the graph and the set: two renderings of the same graph with
/// the same set are the same text.
pub proof fn lemma_render_deterministic(graph: GraphView, members: Set<usize>, first: Seq<char>, second: Seq<char>)
    requires
        first == rendering(graph, members),
        second == rendering(graph, members),
    ensures
        first == second,
{
}

} // verus!
