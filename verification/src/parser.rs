//! Parsing: from the text of a task document to its tree.

use crate::document::lemma_mapping_model;
use crate::document::lemma_sequence_model;
use crate::document::mapping_view;
use crate::document::sequence_view;
use crate::document::Taskfile;
use crate::document::TaskfileView;
use crate::document::Tree;
use crate::document::TreeView;
use crate::yaml::top_model;
use crate::yaml::yaml_message;
use crate::yaml::yaml_model;
use crate::yaml::yaml_parse;
use crate::yaml::yaml_parsed;
use crate::yaml::yaml_shape;
use crate::yaml::Shape;
use vstd::prelude::*;

verus! {

/// A text that is no document: the parser's message.
#[derive(Debug, PartialEq, Eq)]
pub struct ParseError {
    pub message: String,
}

/// The value of the first entry from `start` on with the key `key`.
pub open spec fn entry_from(entries: Seq<(Seq<char>, TreeView)>, key: Seq<char>, start: int) -> Option<TreeView>
    decreases entries.len() - start,
{
    if start < 0 || start >= entries.len() {
        None
    } else if entries[start].0 == key {
        Some(entries[start].1)
    } else {
        entry_from(entries, key, start + 1)
    }
}

/// The document that a parsed map stands for: what it holds under `includes` and under
/// `tasks`, and no included document yet.
pub open spec fn document_of(entries: Seq<(Seq<char>, TreeView)>) -> TaskfileView {
    TaskfileView {
        includes: entry_from(entries, "includes"@, 0),
        tasks: entry_from(entries, "tasks"@, 0),
        included: Seq::empty(),
    }
}

/// The tree of a parsed value.
fn convert(value: &serde_yaml::Value) -> (converted: Tree)
    ensures
        converted@ == yaml_model(*value),
    decreases yaml_model(*value),
{
    match yaml_shape(value) {
        Shape::Scalar => Tree::Scalar,
        Shape::String(text) => Tree::String(text.clone()),
        Shape::Sequence(items) => {
            let ghost model = yaml_model(*value)->Sequence_0;
            let mut converted: Vec<Tree> = Vec::new();
            let mut i: usize = 0;
            while i < items.len()
                invariant
                    i <= items.len(),
                    yaml_model(*value) == TreeView::Sequence(model),
                    model.len() == items.len(),
                    forall|j: int| 0 <= j < items.len() ==> model[j] == yaml_model(#[trigger] items[j]),
                    converted.len() == i,
                    forall|j: int| 0 <= j < i ==> (#[trigger] converted[j])@ == model[j],
                decreases items.len() - i,
            {
                assert(model[i as int] == yaml_model(items[i as int]));
                assert(yaml_model(*value)->Sequence_0[i as int] == yaml_model(items[i as int]));
                let item = convert(&items[i]);
                converted.push(item);
                i += 1;
            }
            proof {
                lemma_sequence_model(converted);
                assert(sequence_view(converted@) =~= model);
            }
            Tree::Sequence(converted)
        },
        Shape::Mapping(entries) => {
            let ghost model = yaml_model(*value)->Mapping_0;
            let mut converted: Vec<(Tree, Tree)> = Vec::new();
            let mut i: usize = 0;
            while i < entries.len()
                invariant
                    i <= entries.len(),
                    yaml_model(*value) == TreeView::Mapping(model),
                    model.len() == entries.len(),
                    forall|j: int|
                        0 <= j < entries.len() ==> model[j] == (
                            yaml_model(*(#[trigger] entries[j]).0),
                            yaml_model(*entries[j].1),
                        ),
                    converted.len() == i,
                    forall|j: int|
                        0 <= j < i ==> ((#[trigger] converted[j]).0@, converted[j].1@) == model[j],
                decreases entries.len() - i,
            {
                assert(yaml_model(*value)->Mapping_0[i as int].0 == yaml_model(*entries[i as int].0));
                assert(yaml_model(*value)->Mapping_0[i as int].1 == yaml_model(*entries[i as int].1));
                let key = convert(entries[i].0);
                let item = convert(entries[i].1);
                converted.push((key, item));
                i += 1;
            }
            proof {
                lemma_mapping_model(converted);
                assert(mapping_view(converted@) =~= model);
            }
            Tree::Mapping(converted)
        },
        Shape::Tagged(inner) => {
            assert(*yaml_model(*value)->Tagged_0 == yaml_model(*inner));
            Tree::Tagged(Box::new(convert(inner)))
        },
    }
}

/// The document that `text` stands for, without the documents that it includes. A text is
/// a document if the parser reads it as a map with text keys.
pub fn parse_document(text: &str) -> (parsed: Result<Taskfile, ParseError>)
    ensures
        match parsed {
            Ok(taskfile) => yaml_parsed(text@) matches Some(entries) && taskfile@ == document_of(entries),
            Err(_) => yaml_parsed(text@) is None,
        },
{
    let entries = match yaml_parse(text) {
        Ok(entries) => entries,
        Err(error) => {
            return Err(ParseError { message: yaml_message(&error) });
        },
    };
    let includes = find(&entries, "includes");
    let tasks = find(&entries, "tasks");
    let taskfile = Taskfile { includes, tasks, included: Vec::new() };
    assert(taskfile@.included =~= Seq::empty());
    Ok(taskfile)
}

/// The tree of the first entry with the key `key`.
fn find(entries: &Vec<(String, serde_yaml::Value)>, key: &str) -> (found: Option<Tree>)
    ensures
        entry_from(top_model(entries@), key@, 0) == match found {
            Some(value) => Some(value@),
            None => None,
        },
{
    let wanted = key.to_owned();
    let mut i: usize = 0;
    while i < entries.len()
        invariant
            i <= entries.len(),
            wanted@ == key@,
            entry_from(top_model(entries@), key@, 0) == entry_from(top_model(entries@), key@, i as int),
        decreases entries.len() - i,
    {
        if entries[i].0 == wanted {
            return Some(convert(&entries[i].1));
        }
        i += 1;
    }
    None
}

} // verus!
