//! The document model: the tree that a parser hands over, and what the schema reads in it.

use vstd::prelude::*;

verus! {

/// A node of a parsed document.
#[derive(Debug, PartialEq, Eq)]
pub enum Tree {
    /// A scalar that is not text: null, a boolean or a number.
    Scalar,
    /// A text scalar.
    String(String),
    /// A sequence of nodes.
    Sequence(Vec<Tree>),
    /// A mapping, as its entries in document order.
    Mapping(Vec<(Tree, Tree)>),
    /// A node that carries a tag.
    Tagged(Box<Tree>),
}

/// The mathematical value of a [`Tree`].
pub enum TreeView {
    Scalar,
    String(Seq<char>),
    Sequence(Seq<TreeView>),
    Mapping(Seq<(TreeView, TreeView)>),
    Tagged(Box<TreeView>),
}

impl Tree {
    /// The mathematical value of this node.
    pub open spec fn model(self) -> TreeView
        decreases self,
    {
        match self {
            Tree::Scalar => TreeView::Scalar,
            Tree::String(s) => TreeView::String(s@),
            Tree::Sequence(items) => TreeView::Sequence(
                Seq::new(
                    items.len() as nat,
                    |i: int|
                        if 0 <= i < items.len() {
                            items[i].model()
                        } else {
                            TreeView::Scalar
                        },
                ),
            ),
            Tree::Mapping(entries) => TreeView::Mapping(
                Seq::new(
                    entries.len() as nat,
                    |i: int|
                        if 0 <= i < entries.len() {
                            (entries[i].0.model(), entries[i].1.model())
                        } else {
                            (TreeView::Scalar, TreeView::Scalar)
                        },
                ),
            ),
            Tree::Tagged(inner) => TreeView::Tagged(Box::new(inner.model())),
        }
    }
}

impl View for Tree {
    type V = TreeView;

    open spec fn view(&self) -> TreeView {
        self.model()
    }
}

impl TreeView {
    /// The node below all tags.
    pub open spec fn untagged(self) -> TreeView
        decreases self,
    {
        match self {
            TreeView::Tagged(inner) => inner.untagged(),
            _ => self,
        }
    }

    /// The text of a text scalar, tagged or not.
    pub open spec fn text(self) -> Option<Seq<char>> {
        match self.untagged() {
            TreeView::String(s) => Some(s),
            _ => None,
        }
    }

    /// The items of a sequence, tagged or not.
    pub open spec fn items(self) -> Option<Seq<TreeView>> {
        match self.untagged() {
            TreeView::Sequence(items) => Some(items),
            _ => None,
        }
    }

    /// The entries of a mapping, tagged or not.
    pub open spec fn entries(self) -> Option<Seq<(TreeView, TreeView)>> {
        match self.untagged() {
            TreeView::Mapping(entries) => Some(entries),
            _ => None,
        }
    }
}

/// The value of the first entry from `start` on whose key is the text `key`, without a tag.
pub open spec fn lookup_from(entries: Seq<(TreeView, TreeView)>, key: Seq<char>, start: int) -> Option<TreeView>
    decreases entries.len() - start,
{
    if start < 0 || start >= entries.len() {
        None
    } else if entries[start].0 == TreeView::String(key) {
        Some(entries[start].1)
    } else {
        lookup_from(entries, key, start + 1)
    }
}

/// The value that a mapping holds under the text `key`.
pub open spec fn lookup(entries: Seq<(TreeView, TreeView)>, key: Seq<char>) -> Option<TreeView> {
    lookup_from(entries, key, 0)
}

impl Tree {
    /// The node below all tags.
    pub fn untag(&self) -> (inner: &Tree)
        ensures
            inner@ == self@.untagged(),
            !(inner is Tagged),
        decreases self,
    {
        match self {
            Tree::Tagged(inner) => inner.untag(),
            _ => self,
        }
    }

    /// The text of a text scalar, tagged or not.
    pub fn as_str(&self) -> (text: Option<&String>)
        ensures
            self@.text() == match text { Some(s) => Some(s@), None => None },
    {
        match self.untag() {
            Tree::String(s) => Some(s),
            _ => None,
        }
    }

    /// The items of a sequence, tagged or not.
    pub fn as_sequence(&self) -> (items: Option<&Vec<Tree>>)
        ensures
            self@.items() == match items { Some(v) => Some(sequence_view(v@)), None => None },
    {
        match self.untag() {
            Tree::Sequence(items) => Some(items),
            _ => None,
        }
    }

    /// The entries of a mapping, tagged or not.
    pub fn as_mapping(&self) -> (entries: Option<&Vec<(Tree, Tree)>>)
        ensures
            self@.entries() == match entries { Some(v) => Some(mapping_view(v@)), None => None },
    {
        match self.untag() {
            Tree::Mapping(entries) => Some(entries),
            _ => None,
        }
    }
}

/// The values of the items of a sequence.
pub open spec fn sequence_view(items: Seq<Tree>) -> Seq<TreeView> {
    Seq::new(items.len(), |i: int| items[i]@)
}

/// The values of the entries of a mapping.
pub open spec fn mapping_view(entries: Seq<(Tree, Tree)>) -> Seq<(TreeView, TreeView)> {
    Seq::new(entries.len(), |i: int| (entries[i].0@, entries[i].1@))
}

/// The value that a mapping holds under the text `key`: that of the first entry with that key.
pub fn get<'a>(entries: &'a Vec<(Tree, Tree)>, key: &str) -> (found: Option<&'a Tree>)
    ensures
        lookup(mapping_view(entries@), key@) == match found { Some(v) => Some(v@), None => None },
{
    let wanted = key.to_owned();
    let mut i: usize = 0;
    while i < entries.len()
        invariant
            i <= entries.len(),
            wanted@ == key@,
            lookup(mapping_view(entries@), key@) == lookup_from(mapping_view(entries@), key@, i as int),
        decreases entries.len() - i,
    {
        match &entries[i].0 {
            Tree::String(s) => {
                if *s == wanted {
                    return Some(&entries[i].1);
                }
            },
            _ => {},
        }
        i += 1;
    }
    None
}

/// A task document with the documents that it includes.
#[derive(Debug, PartialEq, Eq)]
pub struct Taskfile {
    /// What the document holds under `includes`, if anything.
    pub includes: Option<Tree>,
    /// What the document holds under `tasks`, if anything.
    pub tasks: Option<Tree>,
    /// The documents that the entries of `includes` name, in the order of the entries. An
    /// entry beyond the end has no document: its file could not be opened.
    pub included: Vec<Taskfile>,
}

/// The value of a node that may be there.
pub open spec fn tree_view(tree: Option<Tree>) -> Option<TreeView> {
    match tree {
        Some(value) => Some(value@),
        None => None,
    }
}

/// The mathematical value of a [`Taskfile`].
pub struct TaskfileView {
    pub includes: Option<TreeView>,
    pub tasks: Option<TreeView>,
    pub included: Seq<TaskfileView>,
}

impl Taskfile {
    /// The mathematical value of this document.
    pub open spec fn model(self) -> TaskfileView
        decreases self,
    {
        TaskfileView {
            includes: tree_view(self.includes),
            tasks: tree_view(self.tasks),
            included: Seq::new(
                self.included.len() as nat,
                |i: int|
                    if 0 <= i < self.included.len() {
                        self.included[i].model()
                    } else {
                        TaskfileView { includes: None, tasks: None, included: Seq::empty() }
                    },
            ),
        }
    }
}

impl View for Taskfile {
    type V = TaskfileView;

    open spec fn view(&self) -> TaskfileView {
        self.model()
    }
}

/// The value of a sequence node is the sequence of the values of its items.
pub proof fn lemma_sequence_model(items: Vec<Tree>)
    ensures
        Tree::Sequence(items)@ == TreeView::Sequence(sequence_view(items@)),
{
    assert(Tree::Sequence(items)@->Sequence_0 =~= sequence_view(items@));
}

/// The value of a mapping node is the sequence of the values of its entries.
pub proof fn lemma_mapping_model(entries: Vec<(Tree, Tree)>)
    ensures
        Tree::Mapping(entries)@ == TreeView::Mapping(mapping_view(entries@)),
{
    assert(Tree::Mapping(entries)@->Mapping_0 =~= mapping_view(entries@));
}

} // verus!
