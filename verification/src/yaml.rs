//! YAML: what `serde_yaml` makes of a text, and the shape of the values that it hands over.
//!
//! Nothing in this file is proved. Each function states what the `serde_yaml` item that it
//! calls or reads gives.

use crate::document::TreeView;
use std::collections::BTreeMap;
use vstd::prelude::*;

verus! {

/// `serde_yaml::Value`: the verifier sees nothing inside it.
#[verifier::external_type_specification]
#[verifier::external_body]
pub struct ExYamlValue(serde_yaml::Value);

/// `serde_yaml::Error`: the verifier sees nothing inside it.
#[verifier::external_type_specification]
#[verifier::external_body]
pub struct ExYamlError(serde_yaml::Error);

/// The tree that a `serde_yaml` value holds.
pub uninterp spec fn yaml_model(value: serde_yaml::Value) -> TreeView;

/// What `serde_yaml::from_str` makes of a text that is read as a map from text keys to
/// values: the entries of the map in the order of their keys, or nothing where it fails.
pub uninterp spec fn yaml_parsed(text: Seq<char>) -> Option<Seq<(Seq<char>, TreeView)>>;

/// A `serde_yaml` value, one level deep.
pub enum Shape<'a> {
    /// Null, a boolean or a number.
    Scalar,
    String(&'a String),
    Sequence(&'a Vec<serde_yaml::Value>),
    /// The entries of a mapping, in its own order.
    Mapping(Vec<(&'a serde_yaml::Value, &'a serde_yaml::Value)>),
    /// The value below a tag.
    Tagged(&'a serde_yaml::Value),
}

impl<'a> Shape<'a> {
    /// The tree of a value with this shape.
    pub open spec fn model(self) -> TreeView {
        match self {
            Shape::Scalar => TreeView::Scalar,
            Shape::String(text) => TreeView::String(text@),
            Shape::Sequence(items) => TreeView::Sequence(
                Seq::new(items.len() as nat, |i: int| yaml_model(items[i])),
            ),
            Shape::Mapping(entries) => TreeView::Mapping(
                Seq::new(
                    entries.len() as nat,
                    |i: int| (yaml_model(*entries[i].0), yaml_model(*entries[i].1)),
                ),
            ),
            Shape::Tagged(inner) => TreeView::Tagged(Box::new(yaml_model(*inner))),
        }
    }
}

/// The entries of a parsed map.
pub open spec fn top_model(entries: Seq<(String, serde_yaml::Value)>) -> Seq<(Seq<char>, TreeView)> {
    Seq::new(entries.len(), |i: int| (entries[i].0@, yaml_model(entries[i].1)))
}

/// `serde_yaml::from_str` for a map from text keys to values: the entries of the map that
/// the text stands for, in the order of their keys, or the parser's error.
#[verifier::external_body]
pub(crate) fn yaml_parse(text: &str) -> (parsed: Result<Vec<(String, serde_yaml::Value)>, serde_yaml::Error>)
    ensures
        yaml_parsed(text@) == match parsed {
            Ok(entries) => Some(top_model(entries@)),
            Err(_) => None,
        },
{
    let top: BTreeMap<String, serde_yaml::Value> = serde_yaml::from_str(text)?;
    Ok(top.into_iter().collect())
}

/// The `Display` text of a `serde_yaml` error.
#[verifier::external_body]
pub(crate) fn yaml_message(error: &serde_yaml::Error) -> (message: String) {
    error.to_string()
}

/// The variant of a `serde_yaml::Value` and what it holds.
#[verifier::external_body]
pub(crate) fn yaml_shape<'a>(value: &'a serde_yaml::Value) -> (shape: Shape<'a>)
    ensures
        shape.model() == yaml_model(*value),
{
    match value {
        serde_yaml::Value::String(text) => Shape::String(text),
        serde_yaml::Value::Sequence(items) => Shape::Sequence(items),
        serde_yaml::Value::Mapping(entries) => Shape::Mapping(entries.iter().collect()),
        serde_yaml::Value::Tagged(tagged) => Shape::Tagged(&tagged.value),
        _ => Shape::Scalar,
    }
}

} // verus!
