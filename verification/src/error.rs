//! What can go wrong while a graph is built.

use vstd::prelude::*;

verus! {

/// A rule of the document schema that a document breaks.
#[derive(Clone, Copy, Debug, PartialEq, Eq, Structural)]
pub enum SchemaError {
    /// `includes` is present and is not a mapping.
    IncludesNotMapping,
    /// A key of `includes` is not text.
    NamespaceNotString,
    /// An entry of `includes` is a mapping without a text under `taskfile`.
    TaskfileNotFound,
    /// An entry of `includes` is neither text nor a mapping.
    IncludeWrongType,
    /// The document has no `tasks`.
    TasksNotFound,
    /// `tasks` is not a mapping.
    TasksNotMapping,
    /// A key of `tasks` is not text.
    TaskNameNotString,
    /// The descriptor of a task is not a mapping.
    TaskNotMapping,
    /// The `deps` of a task are not a sequence.
    DepsNotList,
    /// A dependency is a mapping without a text under `task`.
    DepNameNotFound,
    /// A dependency is neither text nor a mapping.
    DepWrongType,
}

impl SchemaError {
    /// The message that describes this error.
    pub open spec fn text(self) -> Seq<char> {
        match self {
            SchemaError::IncludesNotMapping => "includes is not a mapping"@,
            SchemaError::NamespaceNotString => "namespace is not a string"@,
            SchemaError::TaskfileNotFound => "couldn't find taskfile name to include"@,
            SchemaError::IncludeWrongType => "incorrect type for an include"@,
            SchemaError::TasksNotFound => "tasks not found"@,
            SchemaError::TasksNotMapping => "tasks is not a mapping"@,
            SchemaError::TaskNameNotString => "task name is not a string"@,
            SchemaError::TaskNotMapping => "task is not a mapping"@,
            SchemaError::DepsNotList => "deps is not a list"@,
            SchemaError::DepNameNotFound => "couldn't find name of task"@,
            SchemaError::DepWrongType => "incorrect type for a dependency"@,
        }
    }

    /// The message that describes this error.
    pub fn message(&self) -> (message: String)
        ensures
            message@ == self.text(),
    {
        let text = match self {
            SchemaError::IncludesNotMapping => "includes is not a mapping",
            SchemaError::NamespaceNotString => "namespace is not a string",
            SchemaError::TaskfileNotFound => "couldn't find taskfile name to include",
            SchemaError::IncludeWrongType => "incorrect type for an include",
            SchemaError::TasksNotFound => "tasks not found",
            SchemaError::TasksNotMapping => "tasks is not a mapping",
            SchemaError::TaskNameNotString => "task name is not a string",
            SchemaError::TaskNotMapping => "task is not a mapping",
            SchemaError::DepsNotList => "deps is not a list",
            SchemaError::DepNameNotFound => "couldn't find name of task",
            SchemaError::DepWrongType => "incorrect type for a dependency",
        };
        text.to_owned()
    }
}

/// Why no graph was built.
#[derive(Clone, Debug, PartialEq, Eq)]
pub enum BuildError {
    /// The document behind an entry of `includes` is not at hand; the field is its path.
    InputNotFound(String),
    /// A document breaks the schema.
    Schema(SchemaError),
}

/// The mathematical value of a [`BuildError`].
pub enum Failure {
    InputNotFound(Seq<char>),
    Schema(SchemaError),
}

impl View for BuildError {
    type V = Failure;

    open spec fn view(&self) -> Failure {
        match self {
            BuildError::InputNotFound(path) => Failure::InputNotFound(path@),
            BuildError::Schema(error) => Failure::Schema(*error),
        }
    }
}

impl BuildError {
    /// The message that describes this error.
    pub open spec fn text(self) -> Seq<char> {
        match self {
            BuildError::InputNotFound(path) => path@,
            BuildError::Schema(error) => error.text(),
        }
    }

    /// The message that describes this error: the path of the missing document, or the
    /// rule that a document breaks.
    pub fn message(&self) -> (message: String)
        ensures
            message@ == self.text(),
    {
        match self {
            BuildError::InputNotFound(path) => path.clone(),
            BuildError::Schema(error) => error.message(),
        }
    }
}

} // verus!
