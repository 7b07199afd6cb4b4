//! Loading: which included document a task document still lacks, and where one goes.
//!
//! A caller that can open files asks [`wanted`] for the next path, parses what is there and
//! hands it to [`attach`], until nothing is wanted. The documents are asked for in the order
//! in which [`build_graph`](crate::builder::build_graph) reads them.

use crate::builder::include_target;
use crate::document::mapping_view;
use crate::document::Taskfile;
use crate::document::TaskfileView;
use crate::document::TreeView;
use crate::error::Failure;
use crate::error::SchemaError;
use crate::reading::chain;
use crate::reading::include_readings;
use crate::reading::lemma_chain_push;
use crate::reading::lemma_chain_stops;
use crate::reading::lemma_tasks_at_hand;
use crate::reading::named_target;
use crate::reading::taskfile_reading;
use crate::reading::Reading;
use vstd::prelude::*;

verus! {

/// The path of the first document that is wanted from the entry `i` of `includes` on.
pub open spec fn wanted_from(taskfile: TaskfileView, entries: Seq<(TreeView, TreeView)>, i: int) -> Result<
    Option<Seq<char>>,
    SchemaError,
>
    decreases taskfile, 0nat, entries.len() - i,
{
    if i < 0 || i >= entries.len() {
        Ok(None)
    } else {
        match named_target(entries[i].0, entries[i].1) {
            Err(error) => Err(error),
            Ok((_, path)) => if i < taskfile.included.len() {
                match wanted_document(taskfile.included[i]) {
                    Ok(None) => wanted_from(taskfile, entries, i + 1),
                    found => found,
                }
            } else {
                Ok(Some(path))
            },
        }
    }
}

/// The path of the first document that is wanted: that of the first entry of `includes`,
/// in this document or in one that it includes, which has no document yet. Entries are
/// taken in order, and the entries of an included document before the next entry of the
/// document that includes it. An entry that breaks the schema ends the search with its
/// error.
pub open spec fn wanted_document(taskfile: TaskfileView) -> Result<Option<Seq<char>>, SchemaError>
    decreases taskfile, 1nat, 0nat,
{
    match taskfile.includes {
        None => Ok(None),
        Some(value) => match value.entries() {
            None => Err(SchemaError::IncludesNotMapping),
            Some(entries) => wanted_from(taskfile, entries, 0),
        },
    }
}

/// The document with `document` in the place of the first that is wanted from the entry
/// `i` of `includes` on.
pub open spec fn attached_from(
    taskfile: TaskfileView,
    entries: Seq<(TreeView, TreeView)>,
    i: int,
    document: TaskfileView,
) -> TaskfileView
    decreases taskfile, 0nat, entries.len() - i,
{
    if i < 0 || i >= entries.len() {
        taskfile
    } else {
        match named_target(entries[i].0, entries[i].1) {
            Err(_) => taskfile,
            Ok(_) => if i < taskfile.included.len() {
                match wanted_document(taskfile.included[i]) {
                    Ok(None) => attached_from(taskfile, entries, i + 1, document),
                    Ok(Some(_)) => TaskfileView {
                        includes: taskfile.includes,
                        tasks: taskfile.tasks,
                        included: taskfile.included.update(i, attached(taskfile.included[i], document)),
                    },
                    Err(_) => taskfile,
                }
            } else {
                TaskfileView {
                    includes: taskfile.includes,
                    tasks: taskfile.tasks,
                    included: taskfile.included.push(document),
                }
            },
        }
    }
}

/// The document with `document` in the place of the first that is wanted. Where none is
/// wanted, the document as it is.
pub open spec fn attached(taskfile: TaskfileView, document: TaskfileView) -> TaskfileView
    decreases taskfile, 1nat, 0nat,
{
    match taskfile.includes {
        None => taskfile,
        Some(value) => match value.entries() {
            None => taskfile,
            Some(entries) => attached_from(taskfile, entries, 0, document),
        },
    }
}

/// The view of a path that may be wanted.
pub open spec fn path_view(path: Result<Option<String>, SchemaError>) -> Result<Option<Seq<char>>, SchemaError> {
    match path {
        Ok(Some(text)) => Ok(Some(text@)),
        Ok(None) => Ok(None),
        Err(error) => Err(error),
    }
}

/// The views of the included documents of a document.
proof fn lemma_included_model(taskfile: Taskfile)
    ensures
        taskfile@.included.len() == taskfile.included.len(),
        forall|i: int| 0 <= i < taskfile.included.len() ==> taskfile@.included[i] == (#[trigger] taskfile.included[i])@,
{
}

/// The path of the first included document that is wanted, if any: see
/// [`wanted_document`].
pub fn wanted(taskfile: &Taskfile) -> (path: Result<Option<String>, SchemaError>)
    ensures
        path_view(path) == wanted_document(taskfile@),
    decreases taskfile,
{
    let value = match &taskfile.includes {
        Some(value) => value,
        None => {
            return Ok(None);
        },
    };
    let entries = match value.as_mapping() {
        Some(entries) => entries,
        None => {
            return Err(SchemaError::IncludesNotMapping);
        },
    };
    proof {
        lemma_included_model(*taskfile);
    }
    let mut i: usize = 0;
    while i < entries.len()
        invariant
            i <= entries.len(),
            taskfile.includes == Some(*value),
            value@.entries() == Some(mapping_view(entries@)),
            wanted_document(taskfile@) == wanted_from(taskfile@, mapping_view(entries@), i as int),
        decreases entries.len() - i,
    {
        proof {
            lemma_included_model(*taskfile);
        }
        match include_target(&entries[i].0, &entries[i].1) {
            Err(error) => {
                return Err(error);
            },
            Ok((_, path)) => {
                if i < taskfile.included.len() {
                    match wanted(&taskfile.included[i]) {
                        Ok(None) => {},
                        found => {
                            return found;
                        },
                    }
                } else {
                    return Ok(Some(path.clone()));
                }
            },
        }
        i += 1;
    }
    Ok(None)
}

/// Puts `document` in the place of the first included document that is wanted: see
/// [`attached`].
pub fn attach(taskfile: &mut Taskfile, document: Taskfile)
    ensures
        final(taskfile)@ == attached(old(taskfile)@, document@),
    decreases *old(taskfile),
{
    let ghost before = *taskfile;
    proof {
        lemma_included_model(before);
    }
    let mut i: usize = 0;
    let mut place: Option<usize> = None;
    match &taskfile.includes {
        None => {},
        Some(value) => match value.as_mapping() {
            None => {},
            Some(entries) => {
                while i < entries.len()
                    invariant_except_break
                        place is None,
                        attached(before@, document@) == attached_from(
                            before@,
                            mapping_view(entries@),
                            i as int,
                            document@,
                        ),
                    invariant
                        i <= entries.len(),
                        i <= before.included.len(),
                        *taskfile == before,
                        taskfile.includes == Some(*value),
                        value@.entries() == Some(mapping_view(entries@)),
                    ensures
                        *taskfile == before,
                        match place {
                            None => attached(before@, document@) == before@,
                            Some(at) => at <= before.included.len() && (at < before.included.len()
                                ==> wanted_document(before.included[at as int]@) matches Ok(Some(_)))
                                && attached(before@, document@) == TaskfileView {
                                includes: before@.includes,
                                tasks: before@.tasks,
                                included: if at < before.included.len() {
                                    before@.included.update(
                                        at as int,
                                        attached(before.included[at as int]@, document@),
                                    )
                                } else {
                                    before@.included.push(document@)
                                },
                            },
                        },
                    decreases entries.len() - i,
                {
                    proof {
                        lemma_included_model(before);
                    }
                    match include_target(&entries[i].0, &entries[i].1) {
                        Err(_) => {
                            break ;
                        },
                        Ok(_) => {
                            if i < taskfile.included.len() {
                                match wanted(&taskfile.included[i]) {
                                    Ok(None) => {},
                                    Ok(Some(_)) => {
                                        place = Some(i);
                                        break ;
                                    },
                                    Err(_) => {
                                        break ;
                                    },
                                }
                            } else {
                                place = Some(i);
                                break ;
                            }
                        },
                    }
                    i += 1;
                }
            },
        },
    }
    match place {
        None => {},
        Some(at) => {
            if at < taskfile.included.len() {
                let mut inner = taskfile.included.remove(at);
                attach(&mut inner, document);
                taskfile.included.insert(at, inner);
                proof {
                    lemma_included_model(*taskfile);
                    assert(taskfile@.included =~= before@.included.update(
                        at as int,
                        attached(before.included[at as int]@, document@),
                    ));
                }
            } else {
                taskfile.included.push(document);
                proof {
                    lemma_included_model(*taskfile);
                    assert(taskfile@.included =~= before@.included.push(document@));
                }
            }
        },
    }
}

/// What reading the entries of `includes` from the entry `i` on has to do with what is
/// wanted from there on, where reading has not failed before that entry.
proof fn lemma_wanted_from(prefix: Seq<Seq<char>>, taskfile: TaskfileView, entries: Seq<(TreeView, TreeView)>, i: int)
    requires
        0 <= i <= entries.len(),
        chain(include_readings(prefix, taskfile, entries).take(i)).failure is None,
    ensures
        match chain(include_readings(prefix, taskfile, entries)).failure {
            None => wanted_from(taskfile, entries, i) == Ok::<Option<Seq<char>>, SchemaError>(None),
            Some(Failure::InputNotFound(path)) => wanted_from(taskfile, entries, i) == Ok::<
                Option<Seq<char>>,
                SchemaError,
            >(Some(path)),
            Some(Failure::Schema(_)) => true,
        },
    decreases taskfile, 0nat, entries.len() - i,
{
    let readings = include_readings(prefix, taskfile, entries);
    if i == entries.len() {
        assert(readings.take(i) =~= readings);
    } else {
        assert(readings.take(i + 1) =~= readings.take(i).push(readings[i]));
        lemma_chain_push(readings.take(i), readings[i]);
        if readings[i].failure is Some {
            lemma_chain_stops(readings, i + 1);
        }
        match named_target(entries[i].0, entries[i].1) {
            Err(_) => {},
            Ok((namespace, _)) => {
                if i < taskfile.included.len() {
                    lemma_missing_is_wanted(prefix.push(namespace), taskfile.included[i]);
                    if readings[i].failure is None {
                        lemma_wanted_from(prefix, taskfile, entries, i + 1);
                    }
                }
            },
        }
    }
}

/// Reading fails for want of a document only at the document that is wanted first, and
/// reading that does not fail wants none. So a caller that supplies what is wanted, one
/// document after the other, supplies what reading needs.
pub proof fn lemma_missing_is_wanted(prefix: Seq<Seq<char>>, taskfile: TaskfileView)
    ensures
        match taskfile_reading(prefix, taskfile).failure {
            None => wanted_document(taskfile) == Ok::<Option<Seq<char>>, SchemaError>(None),
            Some(Failure::InputNotFound(path)) => wanted_document(taskfile) == Ok::<
                Option<Seq<char>>,
                SchemaError,
            >(Some(path)),
            Some(Failure::Schema(_)) => true,
        },
    decreases taskfile, 1nat, 0nat,
{
    lemma_tasks_at_hand(prefix, taskfile.tasks);
    if let Some(value) = taskfile.includes {
        if let Some(entries) = value.entries() {
            assert(include_readings(prefix, taskfile, entries).take(0) =~= Seq::<Reading>::empty());
            lemma_wanted_from(prefix, taskfile, entries, 0);
        }
    }
}

} // verus!
