use std::collections::HashSet;
use taskdep::detect_cycles;
use taskdep::edge_attributes;
use taskdep::graph_to_dot;
use taskdep::node_attributes;
use taskdep::render;
use taskdep::TaskGraph;

fn graph(names: &[&str], edges: &[(usize, usize)]) -> TaskGraph {
    let mut graph = TaskGraph::new();
    for name in names {
        graph.register(name.to_string());
    }
    for (dependency, dependent) in edges {
        graph.add_edge(*dependency, *dependent);
    }
    graph
}

fn set(nodes: &[usize]) -> HashSet<usize> {
    nodes.iter().copied().collect()
}

#[test]
fn empty_graph_is_an_empty_digraph() {
    assert_eq!(graph_to_dot(&TaskGraph::new()), "digraph {\n}\n");
}

#[test]
fn nodes_come_before_edges_in_index_order() {
    let chain = graph(&["a", "b", "c"], &[(2, 1), (1, 0)]);
    assert_eq!(
        graph_to_dot(&chain),
        "digraph {\n    0 [ label = \"a\" ]\n    1 [ label = \"b\" ]\n    2 [ label = \"c\" ]\n    2 -> 1 [ ]\n    1 -> 0 [ ]\n}\n"
    );
}

#[test]
fn cycle_is_red() {
    let ring = graph(&["a", "b", "c", "d"], &[(0, 1), (1, 2), (2, 0), (2, 3)]);
    assert_eq!(
        graph_to_dot(&ring),
        "digraph {\n    0 [ label = \"a\" color=\"red\"]\n    1 [ label = \"b\" color=\"red\"]\n    2 [ label = \"c\" color=\"red\"]\n    3 [ label = \"d\" ]\n    0 -> 1 [ color=\"red\"]\n    1 -> 2 [ color=\"red\"]\n    2 -> 0 [ color=\"red\"]\n    2 -> 3 [ ]\n}\n"
    );
}

#[test]
fn edge_between_two_cycles_is_red_too() {
    let two = graph(&["a", "b", "c", "d"], &[(0, 1), (1, 0), (1, 2), (2, 3), (3, 2)]);
    assert_eq!(
        graph_to_dot(&two),
        "digraph {\n    0 [ label = \"a\" color=\"red\"]\n    1 [ label = \"b\" color=\"red\"]\n    2 [ label = \"c\" color=\"red\"]\n    3 [ label = \"d\" color=\"red\"]\n    0 -> 1 [ color=\"red\"]\n    1 -> 0 [ color=\"red\"]\n    1 -> 2 [ color=\"red\"]\n    2 -> 3 [ color=\"red\"]\n    3 -> 2 [ color=\"red\"]\n}\n"
    );
}

#[test]
fn parallel_edges_are_each_written() {
    let doubled = graph(&["a", "b"], &[(0, 1), (0, 1)]);
    assert_eq!(
        graph_to_dot(&doubled),
        "digraph {\n    0 [ label = \"a\" ]\n    1 [ label = \"b\" ]\n    0 -> 1 [ ]\n    0 -> 1 [ ]\n}\n"
    );
}

#[test]
fn render_flags_the_given_set() {
    let chain = graph(&["a", "b", "c"], &[(0, 1), (1, 2)]);
    assert_eq!(
        render(&chain, &set(&[1, 2, 9])),
        "digraph {\n    0 [ label = \"a\" ]\n    1 [ label = \"b\" color=\"red\"]\n    2 [ label = \"c\" color=\"red\"]\n    0 -> 1 [ ]\n    1 -> 2 [ color=\"red\"]\n}\n"
    );
    assert_eq!(render(&chain, &set(&[])), graph_to_dot(&chain));
}

#[test]
fn rendering_twice_gives_the_same_text() {
    let ring = graph(&["a", "b", "c", "d"], &[(0, 1), (1, 2), (2, 0), (2, 3)]);
    let members = detect_cycles(&ring);
    assert_eq!(render(&ring, &members), render(&ring, &members));
    assert_eq!(graph_to_dot(&ring), graph_to_dot(&ring));
    assert_eq!(graph_to_dot(&ring), render(&ring, &members));
}

#[test]
fn labels_are_escaped() {
    let odd = graph(&["say \"hi\"", "back\\slash", "two\nlines", "ns:task"], &[]);
    assert_eq!(
        graph_to_dot(&odd),
        "digraph {\n    0 [ label = \"say \\\"hi\\\"\" ]\n    1 [ label = \"back\\\\slash\" ]\n    2 [ label = \"two\\llines\" ]\n    3 [ label = \"ns:task\" ]\n}\n"
    );
}

#[test]
fn node_is_flagged_if_it_is_a_member() {
    assert_eq!(node_attributes(&set(&[1, 3]), 1), "color=\"red\"");
    assert_eq!(node_attributes(&set(&[1, 3]), 2), "");
    assert_eq!(node_attributes(&set(&[]), 0), "");
}

#[test]
fn edge_is_flagged_if_both_ends_are_members() {
    assert_eq!(edge_attributes(&set(&[1, 3]), 1, 3), "color=\"red\"");
    assert_eq!(edge_attributes(&set(&[1, 3]), 3, 3), "color=\"red\"");
    assert_eq!(edge_attributes(&set(&[1, 3]), 1, 2), "");
    assert_eq!(edge_attributes(&set(&[1, 3]), 0, 3), "");
    assert_eq!(edge_attributes(&set(&[1, 3]), 0, 2), "");
}
