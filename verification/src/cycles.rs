//! Cycle detection: the nodes that share a strongly connected component with another node.

use crate::graph::GraphView;
use crate::graph::TaskGraph;
use std::collections::HashSet;
use vstd::prelude::*;

verus! {

broadcast use vstd::std_specs::hash::group_hash_axioms;

/// `walk` is a walk along `edges`: a node, or nodes each joined to the next by an edge.
pub open spec fn is_walk(edges: Seq<(int, int)>, walk: Seq<int>) -> bool {
    &&& walk.len() >= 1
    &&& forall|i: int| 0 <= i < walk.len() - 1 ==> edges.contains((#[trigger] walk[i], walk[i + 1]))
}

/// A walk along `edges` leads from `from` to `to`. Every node reaches itself.
pub open spec fn reaches(edges: Seq<(int, int)>, from: int, to: int) -> bool {
    exists|walk: Seq<int>| #[trigger] is_walk(edges, walk) && walk.first() == from && walk.last() == to
}

/// Each of the two nodes reaches the other.
pub open spec fn connected(edges: Seq<(int, int)>, a: int, b: int) -> bool {
    reaches(edges, a, b) && reaches(edges, b, a)
}

/// The node `node` is the member `k` of the part `c`.
pub open spec fn member_at(parts: Seq<Seq<usize>>, c: int, k: int, node: int) -> bool {
    0 <= c < parts.len() && 0 <= k < parts[c].len() && parts[c][k] == node
}

/// The node `node` is a member of a part.
pub open spec fn is_member(parts: Seq<Seq<usize>>, node: int) -> bool {
    exists|c: int, k: int| #[trigger] member_at(parts, c, k, node)
}

/// `parts` are the strongly connected components of the graph with the nodes `0..nodes` and
/// the edges `edges`: every member is a node, every node is a member once, and two nodes are
/// in the same part exactly if each reaches the other.
pub open spec fn is_component_partition(nodes: nat, edges: Seq<(int, int)>, parts: Seq<Seq<usize>>) -> bool {
    &&& forall|c: int, k: int, v: int| #[trigger] member_at(parts, c, k, v) ==> 0 <= v < nodes
    &&& forall|v: int| 0 <= v < nodes ==> #[trigger] is_member(parts, v)
    &&& forall|c1: int, k1: int, c2: int, k2: int, v: int|
        #[trigger] member_at(parts, c1, k1, v) && #[trigger] member_at(parts, c2, k2, v) ==> c1 == c2 && k1
            == k2
    &&& forall|c1: int, k1: int, v1: int, c2: int, k2: int, v2: int|
        #[trigger] member_at(parts, c1, k1, v1) && #[trigger] member_at(parts, c2, k2, v2) ==> (c1 == c2
            <==> connected(edges, v1, v2))
}

/// The node is on a cycle: it and another node reach each other.
pub open spec fn cyclic(edges: Seq<(int, int)>, node: int) -> bool {
    exists|other: int| other != node && #[trigger] connected(edges, node, other)
}

/// The nodes of a graph that are on a cycle.
pub open spec fn cyclic_set(graph: GraphView) -> Set<usize> {
    Set::new(|node: usize| cyclic(graph.edges, node as int))
}

/// The node is a member of a part that has another member.
pub open spec fn in_shared_part(parts: Seq<Seq<usize>>, node: int) -> bool {
    exists|c: int, k: int| #[trigger] member_at(parts, c, k, node) && parts[c].len() > 1
}

/// The members of the parts that have more than one member.
pub open spec fn shared_members(parts: Seq<Seq<usize>>) -> Set<usize> {
    Set::new(|node: usize| in_shared_part(parts, node as int))
}

/// A walk between two different nodes ends with an edge, so both are ends of an edge.
pub proof fn lemma_reached_is_end(edges: Seq<(int, int)>, from: int, to: int)
    requires
        reaches(edges, from, to),
        from != to,
    ensures
        exists|k: int| 0 <= k < edges.len() && (#[trigger] edges[k]).0 == from,
        exists|k: int| 0 <= k < edges.len() && (#[trigger] edges[k]).1 == to,
{
    let walk = choose|walk: Seq<int>| #[trigger]
        is_walk(edges, walk) && walk.first() == from && walk.last() == to;
    assert(walk.len() >= 2);
    let first = (walk[0], walk[1]);
    assert(edges.contains(first));
    let a = choose|k: int| 0 <= k < edges.len() && edges[k] == first;
    assert(edges[a].0 == from);
    let n = walk.len() - 2;
    let last = (walk[n], walk[n + 1]);
    assert(edges.contains(last));
    let b = choose|k: int| 0 <= k < edges.len() && edges[k] == last;
    assert(edges[b].1 == to);
}

/// A member of a part with another member is on a cycle.
proof fn lemma_shared_is_cyclic(nodes: nat, edges: Seq<(int, int)>, parts: Seq<Seq<usize>>, v: int)
    requires
        is_component_partition(nodes, edges, parts),
        in_shared_part(parts, v),
    ensures
        cyclic(edges, v),
{
    let (c, k) = choose|c: int, k: int| #[trigger] member_at(parts, c, k, v) && parts[c].len() > 1;
    let j = if k == 0 {
        1int
    } else {
        0int
    };
    let w = parts[c][j] as int;
    assert(member_at(parts, c, j, w));
    if w == v {
        assert(member_at(parts, c, j, v));
    }
    assert(connected(edges, v, w));
}

/// A node on a cycle is a member of a part with another member.
proof fn lemma_cyclic_is_shared(graph: GraphView, parts: Seq<Seq<usize>>, v: int)
    requires
        graph.valid(),
        is_component_partition(graph.nodes.len(), graph.edges, parts),
        cyclic(graph.edges, v),
    ensures
        in_shared_part(parts, v),
{
    let edges = graph.edges;
    let w = choose|other: int| other != v && #[trigger] connected(edges, v, other);
    lemma_reached_is_end(edges, v, w);
    let a = choose|k: int| 0 <= k < edges.len() && (#[trigger] edges[k]).0 == v;
    let b = choose|k: int| 0 <= k < edges.len() && (#[trigger] edges[k]).1 == w;
    assert(0 <= v < graph.nodes.len());
    assert(0 <= w < graph.nodes.len());
    assert(is_member(parts, v) && is_member(parts, w));
    let (c1, k1) = choose|c: int, k: int| #[trigger] member_at(parts, c, k, v);
    let (c2, k2) = choose|c: int, k: int| #[trigger] member_at(parts, c, k, w);
    assert(member_at(parts, c1, k1, v) && member_at(parts, c2, k2, w));
    assert(c1 == c2);
    assert(k1 != k2);
    assert(member_at(parts, c1, k1, v) && parts[c1].len() > 1);
}

/// In the strongly connected components of a valid graph, the members of the parts with
/// more than one member are the nodes on a cycle.
pub proof fn lemma_shared_members_are_cyclic(graph: GraphView, parts: Seq<Seq<usize>>)
    requires
        graph.valid(),
        is_component_partition(graph.nodes.len(), graph.edges, parts),
    ensures
        shared_members(parts) == cyclic_set(graph),
{
    assert forall|node: usize| in_shared_part(parts, node as int) == cyclic(graph.edges, node as int) by {
        if in_shared_part(parts, node as int) {
            lemma_shared_is_cyclic(graph.nodes.len(), graph.edges, parts, node as int);
        }
        if cyclic(graph.edges, node as int) {
            lemma_cyclic_is_shared(graph, parts, node as int);
        }
    }
    assert(shared_members(parts) =~= cyclic_set(graph));
}

/// The members of the parts that have more than one member.
pub fn cyclic_nodes(parts: &Vec<Vec<usize>>) -> (members: HashSet<usize>)
    ensures
        members@ == shared_members(parts.deep_view()),
{
    let mut members: HashSet<usize> = HashSet::new();
    let ghost all = parts.deep_view();
    let mut c: usize = 0;
    while c < parts.len()
        invariant
            c <= parts.len(),
            all == parts.deep_view(),
            forall|node: usize|
                members@.contains(node) <==> exists|d: int, k: int| #[trigger]
                    member_at(all, d, k, node as int) && all[d].len() > 1 && d < c,
        decreases parts.len() - c,
    {
        let part = &parts[c];
        assert(all[c as int] == part.deep_view());
        if part.len() > 1 {
            let mut k: usize = 0;
            while k < part.len()
                invariant
                    k <= part.len(),
                    c < parts.len(),
                    all == parts.deep_view(),
                    all[c as int] == part.deep_view(),
                    part.len() > 1,
                    forall|node: usize|
                        members@.contains(node) <==> (exists|d: int, j: int| #[trigger]
                            member_at(all, d, j, node as int) && all[d].len() > 1 && d < c) || (exists|
                            j: int,
                        | #[trigger] member_at(all, c as int, j, node as int) && j < k),
                decreases part.len() - k,
            {
                let node = part[k];
                assert(part.deep_view()[k as int] == node);
                assert(member_at(all, c as int, k as int, node as int));
                members.insert(node);
                k += 1;
            }
            assert forall|node: usize|
                members@.contains(node) <==> exists|d: int, j: int| #[trigger]
                    member_at(all, d, j, node as int) && all[d].len() > 1 && d < c + 1 by {
                if exists|d: int, j: int| #[trigger]
                    member_at(all, d, j, node as int) && all[d].len() > 1 && d < c + 1 {
                    let (d, j) = choose|d: int, j: int| #[trigger]
                        member_at(all, d, j, node as int) && all[d].len() > 1 && d < c + 1;
                    if d == c {
                        assert(member_at(all, c as int, j, node as int) && j < k);
                    } else {
                        assert(member_at(all, d, j, node as int) && all[d].len() > 1 && d < c);
                    }
                }
                if members@.contains(node) {
                    if exists|j: int| #[trigger] member_at(all, c as int, j, node as int) && j < k {
                        let j = choose|j: int| #[trigger]
                            member_at(all, c as int, j, node as int) && j < k;
                        assert(member_at(all, c as int, j, node as int) && all[c as int].len() > 1);
                    } else {
                        let (d, j) = choose|d: int, j: int| #[trigger]
                            member_at(all, d, j, node as int) && all[d].len() > 1 && d < c;
                        assert(member_at(all, d, j, node as int) && all[d].len() > 1 && d < c + 1);
                    }
                }
            }
        } else {
            assert forall|node: usize|
                members@.contains(node) <==> exists|d: int, j: int| #[trigger]
                    member_at(all, d, j, node as int) && all[d].len() > 1 && d < c + 1 by {
                if exists|d: int, j: int| #[trigger]
                    member_at(all, d, j, node as int) && all[d].len() > 1 && d < c + 1 {
                    let (d, j) = choose|d: int, j: int| #[trigger]
                        member_at(all, d, j, node as int) && all[d].len() > 1 && d < c + 1;
                    assert(member_at(all, d, j, node as int) && all[d].len() > 1 && d < c);
                }
                if members@.contains(node) {
                    let (d, j) = choose|d: int, j: int| #[trigger]
                        member_at(all, d, j, node as int) && all[d].len() > 1 && d < c;
                    assert(member_at(all, d, j, node as int) && all[d].len() > 1 && d < c + 1);
                }
            }
        }
        c += 1;
    }
    assert(members@ =~= shared_members(all)) by {
        assert forall|node: usize| members@.contains(node) <==> in_shared_part(all, node as int) by {
            if in_shared_part(all, node as int) {
                let (d, j) = choose|d: int, j: int| #[trigger]
                    member_at(all, d, j, node as int) && all[d].len() > 1;
                assert(member_at(all, d, j, node as int) && all[d].len() > 1 && d < c);
            }
            if members@.contains(node) {
                let (d, j) = choose|d: int, j: int| #[trigger]
                    member_at(all, d, j, node as int) && all[d].len() > 1 && d < c;
                assert(member_at(all, d, j, node as int) && all[d].len() > 1);
            }
        }
    }
    members
}

/// The nodes of the graph that are on a cycle: those that share a strongly connected
/// component with another node. A node with an edge to itself alone is on none.
pub fn detect_cycles(graph: &TaskGraph) -> (members: HashSet<usize>)
    requires
        graph.wf(),
    ensures
        members@ == cyclic_set(graph@),
{
    let parts = graph.components();
    proof {
        graph.lemma_valid();
        lemma_shared_members_are_cyclic(graph@, parts.deep_view());
    }
    cyclic_nodes(&parts)
}

} // verus!
