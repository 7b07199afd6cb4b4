//! Node names: a task's local name qualified by the namespaces it was reached through.

use vstd::prelude::*;

verus! {

/// `parts` joined with `:` between neighbours.
pub open spec fn joined(parts: Seq<Seq<char>>) -> Seq<char>
    decreases parts.len(),
{
    if parts.len() == 0 {
        Seq::empty()
    } else if parts.len() == 1 {
        parts[0]
    } else {
        joined(parts.drop_last()) + seq![':'] + parts.last()
    }
}

/// The name of the node that stands for `name` below the namespaces of `prefix`.
pub open spec fn qualified(prefix: Seq<Seq<char>>, name: Seq<char>) -> Seq<char> {
    joined(prefix.push(name))
}

/// The label of the edge from `dependency` to `task`.
pub open spec fn edge_label(dependency: Seq<char>, task: Seq<char>) -> Seq<char> {
    dependency + seq!['-'] + task
}

/// What one more part adds to a joined name.
pub proof fn lemma_joined_push(parts: Seq<Seq<char>>, last: Seq<char>)
    ensures
        joined(parts.push(last)) == if parts.len() == 0 {
            last
        } else {
            joined(parts) + seq![':'] + last
        },
{
    assert(parts.push(last).drop_last() =~= parts);
}

/// A name written with its namespace in front is the name that the namespace gives: below
/// `prefix`, the local name `task` of namespace `namespace` and the literal
/// `namespace:task` qualify to the same node name.
pub proof fn lemma_namespace_literal(prefix: Seq<Seq<char>>, namespace: Seq<char>, task: Seq<char>)
    ensures
        qualified(prefix.push(namespace), task) == qualified(prefix, namespace + seq![':'] + task),
{
    lemma_joined_push(prefix.push(namespace), task);
    lemma_joined_push(prefix, namespace);
    lemma_joined_push(prefix, namespace + seq![':'] + task);
    if prefix.len() > 0 {
        let head = joined(prefix) + seq![':'];
        assert((head + namespace) + seq![':'] + task =~= head + (namespace + seq![':'] + task));
    }
}

/// The name of the node that stands for `name` below the namespaces of `prefix`.
pub fn qualify(prefix: &Vec<String>, name: &str) -> (full: String)
    ensures
        full@ == qualified(prefix.deep_view(), name@),
{
    let mut full = String::new();
    let mut i: usize = 0;
    while i < prefix.len()
        invariant
            i <= prefix.len(),
            full@ == if i == 0 {
                Seq::<char>::empty()
            } else {
                joined(prefix.deep_view().take(i as int)) + seq![':']
            },
        decreases prefix.len() - i,
    {
        proof {
            reveal_strlit(":");
            let parts = prefix.deep_view();
            assert(parts.take(i as int + 1) =~= parts.take(i as int).push(parts[i as int]));
            assert(parts[i as int] == prefix[i as int]@);
            lemma_joined_push(parts.take(i as int), parts[i as int]);
        }
        full.append(prefix[i].as_str());
        full.append(":");
        i += 1;
    }
    proof {
        let parts = prefix.deep_view();
        assert(parts.take(i as int) =~= parts);
        lemma_joined_push(parts, name@);
    }
    full.append(name);
    full
}

/// The label of the edge from `dependency` to `task`.
pub fn label(dependency: &str, task: &str) -> (text: String)
    ensures
        text@ == edge_label(dependency@, task@),
{
    proof {
        reveal_strlit("-");
    }
    let mut text = String::new();
    text.append(dependency);
    text.append("-");
    text.append(task);
    text
}

} // verus!
