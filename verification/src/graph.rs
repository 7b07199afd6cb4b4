//! The dependency graph: named nodes, and edges from a dependency to the task that needs it.

use crate::name::edge_label;
use crate::name::label;
use crate::cycles::is_component_partition;
use crate::render::rendering;
use crate::store::store_add_edge;
use crate::store::store_components;
use crate::store::store_dot;
use crate::store::store_add_node;
use crate::store::store_edge_count;
use crate::store::store_edge_weight;
use crate::store::store_edges;
use crate::store::store_endpoints;
use crate::store::store_links;
use crate::store::store_new;
use crate::store::store_node_count;
use crate::store::store_nodes;
use crate::store::Store;
use std::collections::HashSet;
use vstd::prelude::*;

verus! {

/// The mathematical value of a [`TaskGraph`]: the node names by index and the edges in the
/// order in which they were added, each as (dependency, dependent).
pub struct GraphView {
    pub nodes: Seq<Seq<char>>,
    pub edges: Seq<(int, int)>,
}

impl GraphView {
    /// The graph without nodes.
    pub open spec fn empty() -> GraphView {
        GraphView { nodes: Seq::empty(), edges: Seq::empty() }
    }

    /// No name stands for two nodes, and every edge joins two nodes of the graph.
    pub open spec fn valid(self) -> bool {
        &&& self.nodes.no_duplicates()
        &&& forall|k: int|
            0 <= k < self.edges.len() ==> 0 <= (#[trigger] self.edges[k]).0 < self.nodes.len() && 0
                <= self.edges[k].1 < self.nodes.len()
    }

    /// The index of the node named `name`.
    pub open spec fn index_of(self, name: Seq<char>) -> int {
        self.nodes.index_of(name)
    }

    /// The graph once `name` stands for a node: a name that is new comes last.
    pub open spec fn register(self, name: Seq<char>) -> GraphView {
        if self.nodes.contains(name) {
            self
        } else {
            GraphView { nodes: self.nodes.push(name), edges: self.edges }
        }
    }

    /// The graph with one more edge, which comes last.
    pub open spec fn connect(self, dependency: int, dependent: int) -> GraphView {
        GraphView { nodes: self.nodes, edges: self.edges.push((dependency, dependent)) }
    }
}

/// A dependency graph. No two nodes share a name.
pub struct TaskGraph {
    /// The name of each node, by index. A name is looked up by going through them in order.
    names: Vec<String>,
    store: Store,
}

impl View for TaskGraph {
    type V = GraphView;

    closed spec fn view(&self) -> GraphView {
        GraphView {
            nodes: store_nodes(self.store),
            edges: store_links(self.store),
        }
    }
}

impl TaskGraph {
    /// The invariant of the type: the names are those of the store's nodes, the graph is
    /// valid, and every edge is labelled with the names of its two ends.
    pub closed spec fn wf(&self) -> bool {
        &&& self.names.deep_view() == store_nodes(self.store)
        &&& self@.valid()
        &&& forall|k: int|
            0 <= k < store_edges(self.store).len() ==> (#[trigger] store_edges(self.store)[k]).2
                == edge_label(
                store_nodes(self.store)[store_edges(self.store)[k].0],
                store_nodes(self.store)[store_edges(self.store)[k].1],
            )
    }

    /// A well-formed graph is valid.
    pub proof fn lemma_valid(&self)
        requires
            self.wf(),
        ensures
            self@.valid(),
    {
    }

    /// The graph without nodes.
    pub fn new() -> (graph: TaskGraph)
        ensures
            graph.wf(),
            graph@ == GraphView::empty(),
    {
        let graph = TaskGraph { names: Vec::new(), store: store_new() };
        assert(graph.names.deep_view() =~= store_nodes(graph.store));
        assert(graph@.edges =~= Seq::empty());
        graph
    }

    /// The number of nodes.
    pub fn node_count(&self) -> (n: usize)
        ensures
            n == self@.nodes.len(),
    {
        store_node_count(&self.store)
    }

    /// The number of edges.
    pub fn edge_count(&self) -> (n: usize)
        ensures
            n == self@.edges.len(),
    {
        store_edge_count(&self.store)
    }

    /// The name of the node with index `node`.
    pub fn node_name(&self, node: usize) -> (name: &String)
        requires
            self.wf(),
            node < self@.nodes.len(),
        ensures
            name@ == self@.nodes[node as int],
    {
        assert(self.names.deep_view()[node as int] == self.names[node as int]@);
        &self.names[node]
    }

    /// The two ends of the edge with index `edge`: the dependency and the task that needs
    /// it.
    pub fn endpoints(&self, edge: usize) -> (ends: Option<(usize, usize)>)
        requires
            self.wf(),
        ensures
            match ends {
                Some((dependency, dependent)) => edge < self@.edges.len() && self@.edges[edge as int]
                    == (dependency as int, dependent as int),
                None => edge >= self@.edges.len(),
            },
    {
        let ends = store_endpoints(&self.store, edge);
        proof {
            if edge < self@.edges.len() {
                let e = self@.edges[edge as int];
                assert(0 <= e.0 < self@.nodes.len() && 0 <= e.1 < self@.nodes.len());
                assert(self@.nodes.len() == self.names.len());
            }
        }
        ends
    }

    /// The label of the edge with index `edge`: the names of its two ends with `-` between
    /// them.
    pub fn edge_label(&self, edge: usize) -> (text: Option<String>)
        requires
            self.wf(),
        ensures
            match text {
                Some(text) => edge < self@.edges.len() && text@ == edge_label(
                    self@.nodes[self@.edges[edge as int].0],
                    self@.nodes[self@.edges[edge as int].1],
                ),
                None => edge >= self@.edges.len(),
            },
    {
        store_edge_weight(&self.store, edge)
    }

    /// The index of the node named `name`, if there is one.
    pub fn find(&self, name: &String) -> (found: Option<usize>)
        requires
            self.wf(),
        ensures
            match found {
                Some(node) => node < self@.nodes.len() && self@.nodes[node as int] == name@
                    && node == self@.index_of(name@),
                None => !self@.nodes.contains(name@),
            },
    {
        let mut i: usize = 0;
        while i < self.names.len()
            invariant
                self.wf(),
                i <= self.names.len(),
                forall|j: int| 0 <= j < i ==> self@.nodes[j] != name@,
            decreases self.names.len() - i,
        {
            assert(self.names.deep_view()[i as int] == self.names[i as int]@);
            if self.names[i] == *name {
                assert(self@.nodes.contains(name@));
                return Some(i);
            }
            i += 1;
        }
        assert(self.names.len() == self@.nodes.len());
        None
    }

    /// Makes `name` stand for a node, and returns the node's index. A name that the graph
    /// has keeps its node; a new name gets the next index.
    pub fn register(&mut self, name: String) -> (node: usize)
        requires
            old(self).wf(),
        ensures
            final(self).wf(),
            final(self)@ == old(self)@.register(name@),
            node < final(self)@.nodes.len(),
            final(self)@.nodes[node as int] == name@,
            node == final(self)@.index_of(name@),
    {
        match self.find(&name) {
            Some(node) => node,
            None => {
                let ghost before = *self;
                self.names.push(name.clone());
                let node = store_add_node(&mut self.store, name);
                proof {
                    assert(self.names.deep_view() =~= store_nodes(self.store));
                    assert(self@.edges =~= before@.edges);
                    assert(self@.nodes[node as int] == name@);
                    assert forall|k: int| 0 <= k < store_edges(self.store).len() implies (
                    #[trigger] store_edges(self.store)[k]).2 == edge_label(
                        store_nodes(self.store)[store_edges(self.store)[k].0],
                        store_nodes(self.store)[store_edges(self.store)[k].1],
                    ) by {
                        assert(before@.edges[k] == (
                            store_edges(self.store)[k].0,
                            store_edges(self.store)[k].1,
                        ));
                    }
                }
                node
            },
        }
    }

    /// Adds an edge from the node `dependency` to the node `dependent`, labelled with
    /// their names, and returns the edge's index. An edge that the graph has is added
    /// once more.
    pub fn add_edge(&mut self, dependency: usize, dependent: usize) -> (edge: usize)
        requires
            old(self).wf(),
            dependency < old(self)@.nodes.len(),
            dependent < old(self)@.nodes.len(),
        ensures
            final(self).wf(),
            final(self)@ == old(self)@.connect(dependency as int, dependent as int),
            edge == old(self)@.edges.len(),
    {
        let ghost before = *self;
        assert(self.names.deep_view()[dependency as int] == self.names[dependency as int]@);
        assert(self.names.deep_view()[dependent as int] == self.names[dependent as int]@);
        let text = label(self.names[dependency].as_str(), self.names[dependent].as_str());
        let edge = store_add_edge(&mut self.store, dependency, dependent, text);
        proof {
            assert(self@.edges =~= before@.edges.push((dependency as int, dependent as int)));
        }
        edge
    }

    /// The strongly connected components of the graph.
    pub(crate) fn components(&self) -> (parts: Vec<Vec<usize>>)
        ensures
            is_component_partition(self@.nodes.len(), self@.edges, parts.deep_view()),
    {
        store_components(&self.store)
    }

    /// The graph as text in the DOT language, with the nodes of `members`, and the edges
    /// between two of them, flagged.
    pub(crate) fn dot(&self, members: &HashSet<usize>) -> (text: String)
        ensures
            text@ == rendering(self@, members@),
    {
        store_dot(&self.store, members)
    }
}

} // verus!
