//! Building: from a task document, and the documents that it includes, to the graph.

use crate::document::get;
use crate::document::lemma_mapping_model;
use crate::document::mapping_view;
use crate::document::sequence_view;
use crate::document::tree_view;
use crate::document::Taskfile;
use crate::document::Tree;
use crate::error::BuildError;
use crate::error::Failure;
use crate::error::SchemaError;
use crate::graph::GraphView;
use crate::graph::TaskGraph;
use crate::name::qualified;
use crate::name::qualify;
use crate::reading::chain;
use crate::reading::dependency_readings;
use crate::reading::descriptor_reading;
use crate::reading::include_readings;
use crate::reading::includes_reading;
use crate::reading::lemma_chain_next;
use crate::reading::lemma_chain_push;
use crate::reading::named_dependency;
use crate::reading::named_target;
use crate::reading::task_reading;
use crate::reading::task_readings;
use crate::reading::taskfile_reading;
use crate::reading::tasks_reading;
use crate::reading::Declaration;
use crate::reading::Reading;
use vstd::prelude::*;

verus! {

/// The failure that a result stands for.
pub open spec fn failure_of(result: Result<(), BuildError>) -> Option<Failure> {
    match result {
        Ok(_) => None,
        Err(error) => Some(error@),
    }
}

/// What the reading `n` adds to the graph of a chain that has not failed before it.
proof fn lemma_read_on(start: GraphView, readings: Seq<Reading>, n: int)
    requires
        0 <= n < readings.len(),
        chain(readings.take(n)).failure is None,
    ensures
        chain(readings.take(n + 1)).failure == readings[n].failure,
        start.apply(chain(readings.take(n + 1)).declarations) == start.apply(
            chain(readings.take(n)).declarations,
        ).apply(readings[n].declarations),
        readings[n].failure is Some ==> chain(readings) == chain(readings.take(n + 1)),
{
    lemma_chain_next(readings, n);
    assert(readings.take(n + 1) =~= readings.take(n).push(readings[n]));
    lemma_chain_push(readings.take(n), readings[n]);
    start.lemma_apply_concat(chain(readings.take(n)).declarations, readings[n].declarations);
}

/// The name that an entry of `deps` gives: the entry itself if it is text, the text under
/// `task` if it is a mapping. Anything else is an error.
pub fn dependency_name(entry: &Tree) -> (name: Result<&String, SchemaError>)
    ensures
        named_dependency(entry@) == match name {
            Ok(text) => Ok::<Seq<char>, SchemaError>(text@),
            Err(error) => Err(error),
        },
{
    match entry {
        Tree::String(text) => Ok(text),
        Tree::Mapping(entries) => {
            proof {
                lemma_mapping_model(*entries);
            }
            match get(entries, "task") {
                Some(value) => match value.as_str() {
                    Some(text) => Ok(text),
                    None => Err(SchemaError::DepNameNotFound),
                },
                None => Err(SchemaError::DepNameNotFound),
            }
        },
        _ => Err(SchemaError::DepWrongType),
    }
}

/// The namespace and the path that an entry of `includes` gives. The namespace is the key,
/// which has to be text. The path is the value itself if it is text, the text under
/// `taskfile` if it is a mapping. Anything else is an error.
pub fn include_target<'a>(key: &'a Tree, descriptor: &'a Tree) -> (target: Result<(&'a String, &'a String), SchemaError>)
    ensures
        named_target(key@, descriptor@) == match target {
            Ok((namespace, path)) => Ok::<(Seq<char>, Seq<char>), SchemaError>((namespace@, path@)),
            Err(error) => Err(error),
        },
{
    let namespace = match key.as_str() {
        Some(text) => text,
        None => {
            return Err(SchemaError::NamespaceNotString);
        },
    };
    match descriptor {
        Tree::String(path) => Ok((namespace, path)),
        Tree::Mapping(entries) => {
            proof {
                lemma_mapping_model(*entries);
            }
            match get(entries, "taskfile") {
                Some(value) => match value.as_str() {
                    Some(path) => Ok((namespace, path)),
                    None => Err(SchemaError::TaskfileNotFound),
                },
                None => Err(SchemaError::TaskfileNotFound),
            }
        },
        _ => Err(SchemaError::IncludeWrongType),
    }
}

/// The namespaces of `prefix` and below them `namespace`.
fn extend(prefix: &Vec<String>, namespace: &String) -> (longer: Vec<String>)
    ensures
        longer.deep_view() == prefix.deep_view().push(namespace@),
{
    let mut longer: Vec<String> = Vec::new();
    let mut i: usize = 0;
    while i < prefix.len()
        invariant
            i <= prefix.len(),
            longer.len() == i,
            longer.deep_view() == prefix.deep_view().take(i as int),
        decreases prefix.len() - i,
    {
        let ghost before = longer;
        let part = prefix[i].clone();
        longer.push(part);
        proof {
            assert forall|j: int| 0 <= j < longer.len() implies longer.deep_view()[j]
                == prefix.deep_view().take(i as int + 1)[j] by {
                if j < i {
                    assert(longer[j] == before[j]);
                    assert(before.deep_view()[j] == before[j]@);
                }
            }
            assert(longer.deep_view() =~= prefix.deep_view().take(i as int + 1));
        }
        i += 1;
    }
    let ghost before = longer;
    assert(prefix.deep_view().take(i as int) =~= prefix.deep_view());
    longer.push(namespace.clone());
    proof {
        assert forall|j: int| 0 <= j < longer.len() implies longer.deep_view()[j]
            == prefix.deep_view().push(namespace@)[j] by {
            if j < i {
                assert(longer[j] == before[j]);
                assert(before.deep_view()[j] == before[j]@);
            }
        }
        assert(longer.deep_view() =~= prefix.deep_view().push(namespace@));
    }
    longer
}

/// The first failure among the entries of the `deps` of a task, if there is one. The
/// failure is that of reading the entries below any namespaces and for any task.
fn dependencies_failure(deps: &Vec<Tree>, Ghost(prefix): Ghost<Seq<Seq<char>>>, Ghost(task): Ghost<Seq<char>>) -> (result:
    Result<(), BuildError>)
    ensures
        failure_of(result) == chain(dependency_readings(prefix, task, sequence_view(deps@))).failure,
{
    let ghost readings = dependency_readings(prefix, task, sequence_view(deps@));
    let mut i: usize = 0;
    assert(readings.take(0) =~= Seq::<Reading>::empty());
    while i < deps.len()
        invariant
            i <= deps.len(),
            readings == dependency_readings(prefix, task, sequence_view(deps@)),
            chain(readings.take(i as int)).failure is None,
        decreases deps.len() - i,
    {
        proof {
            lemma_chain_next(readings, i as int);
        }
        match dependency_name(&deps[i]) {
            Err(error) => {
                return Err(BuildError::Schema(error));
            },
            Ok(_) => {},
        }
        i += 1;
    }
    assert(readings.take(i as int) =~= readings);
    Ok(())
}

/// The first failure in one entry of `tasks`, if there is one.
fn task_failure(key: &Tree, descriptor: &Tree, Ghost(prefix): Ghost<Seq<Seq<char>>>) -> (result: Result<
    (),
    BuildError,
>)
    ensures
        failure_of(result) == task_reading(prefix, key@, descriptor@).failure,
{
    let name = match key.as_str() {
        Some(text) => text,
        None => {
            return Err(BuildError::Schema(SchemaError::TaskNameNotString));
        },
    };
    let entries = match descriptor.as_mapping() {
        Some(entries) => entries,
        None => {
            return Err(BuildError::Schema(SchemaError::TaskNotMapping));
        },
    };
    match get(entries, "deps") {
        None => Ok(()),
        Some(deps) => match deps.as_sequence() {
            None => Err(BuildError::Schema(SchemaError::DepsNotList)),
            Some(items) => dependencies_failure(items, Ghost(prefix), Ghost(qualified(prefix, name@))),
        },
    }
}

/// The first failure in the `tasks` of a document, if there is one.
fn tasks_failure(tasks: &Option<Tree>, Ghost(prefix): Ghost<Seq<Seq<char>>>) -> (result: Result<(), BuildError>)
    ensures
        failure_of(result) == tasks_reading(prefix, tree_view(*tasks)).failure,
{
    let value = match tasks {
        Some(value) => value,
        None => {
            return Err(BuildError::Schema(SchemaError::TasksNotFound));
        },
    };
    let entries = match value.as_mapping() {
        Some(entries) => entries,
        None => {
            return Err(BuildError::Schema(SchemaError::TasksNotMapping));
        },
    };
    let ghost readings = task_readings(prefix, mapping_view(entries@));
    let mut i: usize = 0;
    assert(readings.take(0) =~= Seq::<Reading>::empty());
    while i < entries.len()
        invariant
            i <= entries.len(),
            tasks == Some(*value),
            value@.entries() == Some(mapping_view(entries@)),
            readings == task_readings(prefix, mapping_view(entries@)),
            chain(readings.take(i as int)).failure is None,
        decreases entries.len() - i,
    {
        proof {
            lemma_chain_next(readings, i as int);
        }
        match task_failure(&entries[i].0, &entries[i].1, Ghost(prefix)) {
            Err(error) => {
                return Err(error);
            },
            Ok(()) => {},
        }
        i += 1;
    }
    assert(readings.take(i as int) =~= readings);
    Ok(())
}

/// The first failure in a document and the documents that it includes, if there is one:
/// that of reading the document below the namespaces of `prefix`.
fn taskfile_failure(taskfile: &Taskfile, Ghost(prefix): Ghost<Seq<Seq<char>>>) -> (result: Result<(), BuildError>)
    ensures
        failure_of(result) == taskfile_reading(prefix, taskfile@).failure,
    decreases taskfile,
{
    match &taskfile.includes {
        None => {},
        Some(value) => {
            let entries = match value.as_mapping() {
                Some(entries) => entries,
                None => {
                    return Err(BuildError::Schema(SchemaError::IncludesNotMapping));
                },
            };
            let ghost readings = include_readings(prefix, taskfile@, mapping_view(entries@));
            let mut i: usize = 0;
            assert(readings.take(0) =~= Seq::<Reading>::empty());
            while i < entries.len()
                invariant
                    i <= entries.len(),
                    taskfile.includes == Some(*value),
                    value@.entries() == Some(mapping_view(entries@)),
                    readings == include_readings(prefix, taskfile@, mapping_view(entries@)),
                    chain(readings.take(i as int)).failure is None,
                decreases taskfile, entries.len() - i,
            {
                proof {
                    lemma_chain_next(readings, i as int);
                }
                match include_target(&entries[i].0, &entries[i].1) {
                    Err(error) => {
                        return Err(BuildError::Schema(error));
                    },
                    Ok((namespace, path)) => {
                        if i < taskfile.included.len() {
                            match taskfile_failure(&taskfile.included[i], Ghost(prefix.push(namespace@))) {
                                Err(error) => {
                                    return Err(error);
                                },
                                Ok(()) => {},
                            }
                        } else {
                            return Err(BuildError::InputNotFound(path.clone()));
                        }
                    },
                }
                i += 1;
            }
            assert(readings.take(i as int) =~= readings);
        },
    }
    tasks_failure(&taskfile.tasks, Ghost(prefix))
}

/// Adds what the entries of the `deps` of a task declare. The task is the node `node`.
fn add_dependencies(graph: &mut TaskGraph, prefix: &Vec<String>, node: usize, deps: &Vec<Tree>)
    requires
        old(graph).wf(),
        node < old(graph)@.nodes.len(),
        chain(
            dependency_readings(prefix.deep_view(), old(graph)@.nodes[node as int], sequence_view(deps@)),
        ).failure is None,
    ensures
        final(graph).wf(),
        final(graph)@ == old(graph)@.apply(
            chain(
                dependency_readings(
                    prefix.deep_view(),
                    old(graph)@.nodes[node as int],
                    sequence_view(deps@),
                ),
            ).declarations,
        ),
{
    let ghost start = graph@;
    let ghost task = graph@.nodes[node as int];
    let ghost readings = dependency_readings(prefix.deep_view(), task, sequence_view(deps@));
    let mut i: usize = 0;
    assert(readings.take(0) =~= Seq::<Reading>::empty());
    while i < deps.len()
        invariant
            i <= deps.len(),
            graph.wf(),
            node < graph@.nodes.len(),
            graph@.nodes[node as int] == task,
            readings == dependency_readings(prefix.deep_view(), task, sequence_view(deps@)),
            chain(readings).failure is None,
            graph@ == start.apply(chain(readings.take(i as int)).declarations),
            chain(readings.take(i as int)).failure is None,
        decreases deps.len() - i,
    {
        proof {
            lemma_read_on(start, readings, i as int);
            graph.lemma_valid();
        }
        let name = match dependency_name(&deps[i]) {
            Ok(name) => name,
            Err(_) => vstd::pervasive::unreached(),
        };
        let ghost before = graph@;
        let full = qualify(prefix, name.as_str());
        let ghost declaration = Declaration::Dependency { dependency: full@, task };
        let dependency = graph.register(full);
        proof {
            graph.lemma_valid();
            before.lemma_apply_one(declaration);
            assert(before.nodes.contains(task));
            assert(graph@.nodes[node as int] == task);
            assert(graph@.nodes.contains(task));
            assert(graph@.index_of(task) == node);
        }
        graph.add_edge(dependency, node);
        i += 1;
    }
    assert(readings.take(i as int) =~= readings);
}

/// Adds what one entry of `tasks` declares.
fn add_task(graph: &mut TaskGraph, prefix: &Vec<String>, key: &Tree, descriptor: &Tree)
    requires
        old(graph).wf(),
        task_reading(prefix.deep_view(), key@, descriptor@).failure is None,
    ensures
        final(graph).wf(),
        final(graph)@ == old(graph)@.apply(task_reading(prefix.deep_view(), key@, descriptor@).declarations),
{
    let ghost start = graph@;
    let name = match key.as_str() {
        Some(text) => text,
        None => vstd::pervasive::unreached(),
    };
    let full = qualify(prefix, name.as_str());
    let ghost task = full@;
    let ghost head = Reading::one(Declaration::Task(task));
    let ghost rest = descriptor_reading(prefix.deep_view(), task, descriptor@);
    let node = graph.register(full);
    proof {
        start.lemma_apply_one(Declaration::Task(task));
        start.lemma_apply_concat(head.declarations, rest.declarations);
    }
    let entries = match descriptor.as_mapping() {
        Some(entries) => entries,
        None => vstd::pervasive::unreached(),
    };
    match get(entries, "deps") {
        None => {
            assert(head.declarations + rest.declarations =~= head.declarations);
        },
        Some(deps) => {
            let items = match deps.as_sequence() {
                Some(items) => items,
                None => vstd::pervasive::unreached(),
            };
            add_dependencies(graph, prefix, node, items);
        },
    }
}

/// Adds what the `tasks` of a document declare.
fn add_tasks(graph: &mut TaskGraph, prefix: &Vec<String>, tasks: &Option<Tree>)
    requires
        old(graph).wf(),
        tasks_reading(prefix.deep_view(), tree_view(*tasks)).failure is None,
    ensures
        final(graph).wf(),
        final(graph)@ == old(graph)@.apply(
            tasks_reading(prefix.deep_view(), tree_view(*tasks)).declarations,
        ),
{
    let ghost start = graph@;
    let value = match tasks {
        Some(value) => value,
        None => vstd::pervasive::unreached(),
    };
    let entries = match value.as_mapping() {
        Some(entries) => entries,
        None => vstd::pervasive::unreached(),
    };
    let ghost readings = task_readings(prefix.deep_view(), mapping_view(entries@));
    let mut i: usize = 0;
    assert(readings.take(0) =~= Seq::<Reading>::empty());
    while i < entries.len()
        invariant
            i <= entries.len(),
            graph.wf(),
            readings == task_readings(prefix.deep_view(), mapping_view(entries@)),
            chain(readings).failure is None,
            graph@ == start.apply(chain(readings.take(i as int)).declarations),
            chain(readings.take(i as int)).failure is None,
        decreases entries.len() - i,
    {
        proof {
            lemma_read_on(start, readings, i as int);
        }
        add_task(graph, prefix, &entries[i].0, &entries[i].1);
        i += 1;
    }
    assert(readings.take(i as int) =~= readings);
}

/// Adds what a document that reads without failure declares below the namespaces of
/// `prefix`: first what the documents of its `includes` declare, each below its own
/// namespace, then what its `tasks` declare.
fn add_taskfile(graph: &mut TaskGraph, prefix: &Vec<String>, taskfile: &Taskfile)
    requires
        old(graph).wf(),
        taskfile_reading(prefix.deep_view(), taskfile@).failure is None,
    ensures
        final(graph).wf(),
        final(graph)@ == old(graph)@.apply(taskfile_reading(prefix.deep_view(), taskfile@).declarations),
    decreases taskfile,
{
    let ghost start = graph@;
    let ghost first = includes_reading(prefix.deep_view(), taskfile@);
    let ghost second = tasks_reading(prefix.deep_view(), taskfile@.tasks);
    match &taskfile.includes {
        None => {},
        Some(value) => {
            let entries = match value.as_mapping() {
                Some(entries) => entries,
                None => vstd::pervasive::unreached(),
            };
            let ghost readings = include_readings(prefix.deep_view(), taskfile@, mapping_view(entries@));
            let mut i: usize = 0;
            assert(readings.take(0) =~= Seq::<Reading>::empty());
            while i < entries.len()
                invariant
                    i <= entries.len(),
                    graph.wf(),
                    readings == include_readings(prefix.deep_view(), taskfile@, mapping_view(entries@)),
                    chain(readings).failure is None,
                    graph@ == start.apply(chain(readings.take(i as int)).declarations),
                    chain(readings.take(i as int)).failure is None,
                decreases taskfile, entries.len() - i,
            {
                proof {
                    lemma_read_on(start, readings, i as int);
                }
                let namespace = match include_target(&entries[i].0, &entries[i].1) {
                    Ok((namespace, _)) => namespace,
                    Err(_) => vstd::pervasive::unreached(),
                };
                if i < taskfile.included.len() {
                    let longer = extend(prefix, namespace);
                    add_taskfile(graph, &longer, &taskfile.included[i]);
                } else {
                    vstd::pervasive::unreached()
                }
                i += 1;
            }
            assert(readings.take(i as int) =~= readings);
        },
    }
    proof {
        start.lemma_apply_concat(first.declarations, second.declarations);
    }
    add_tasks(graph, prefix, &taskfile.tasks);
}

/// Adds to `graph` what `taskfile` declares below the namespaces of `prefix`: first what
/// the documents of its `includes` declare, each below its own namespace, then what its
/// `tasks` declare. The documents are read through before anything is added: where reading
/// fails, the first failure is returned and the graph stays as it was.
pub fn build_graph(taskfile: &Taskfile, prefix: &Vec<String>, graph: &mut TaskGraph) -> (result: Result<
    (),
    BuildError,
>)
    requires
        old(graph).wf(),
    ensures
        final(graph).wf(),
        failure_of(result) == taskfile_reading(prefix.deep_view(), taskfile@).failure,
        result is Ok ==> final(graph)@ == old(graph)@.apply(
            taskfile_reading(prefix.deep_view(), taskfile@).declarations,
        ),
        result is Err ==> final(graph)@ == old(graph)@,
{
    match taskfile_failure(taskfile, Ghost(prefix.deep_view())) {
        Err(error) => Err(error),
        Ok(()) => {
            add_taskfile(graph, prefix, taskfile);
            Ok(())
        },
    }
}

} // verus!
