//! Reading: what a task document, and the documents that it includes, declare.
//!
//! A document is read as a sequence of declarations, in document order and with the
//! included documents first, up to the first failure. Where there is none, the graph is
//! what the declarations make of the graph before.

use crate::document::lookup;
use crate::document::TaskfileView;
use crate::document::TreeView;
use crate::error::Failure;
use crate::error::SchemaError;
use crate::graph::GraphView;
use crate::name::qualified;
use vstd::prelude::*;

verus! {


/// What a document says of the graph.
pub enum Declaration {
    /// There is a task with this node name.
    Task(Seq<char>),
    /// The task with the node name `task` needs the one with the node name `dependency`.
    Dependency { dependency: Seq<char>, task: Seq<char> },
}

/// What was read of a document: its declarations in order, up to the first failure if
/// there is one.
pub struct Reading {
    pub declarations: Seq<Declaration>,
    pub failure: Option<Failure>,
}

impl Reading {
    /// Nothing was declared and nothing failed.
    pub open spec fn empty() -> Reading {
        Reading { declarations: Seq::empty(), failure: None }
    }

    /// One declaration.
    pub open spec fn one(declaration: Declaration) -> Reading {
        Reading { declarations: seq![declaration], failure: None }
    }

    /// A failure before any declaration.
    pub open spec fn failed(failure: Failure) -> Reading {
        Reading { declarations: Seq::empty(), failure: Some(failure) }
    }

    /// A broken rule of the schema before any declaration.
    pub open spec fn broken(error: SchemaError) -> Reading {
        Reading::failed(Failure::Schema(error))
    }

    /// This reading and then `next`, which is not read if this one failed.
    pub open spec fn followed_by(self, next: Reading) -> Reading {
        if self.failure is Some {
            self
        } else {
            Reading { declarations: self.declarations + next.declarations, failure: next.failure }
        }
    }
}

/// The readings one after the other, up to the first that failed.
pub open spec fn chain(readings: Seq<Reading>) -> Reading
    decreases readings.len(),
{
    if readings.len() == 0 {
        Reading::empty()
    } else {
        chain(readings.drop_last()).followed_by(readings.last())
    }
}

impl GraphView {
    /// The graph after one declaration. A task is registered. For a dependency both names
    /// are registered, the task first, and an edge from the dependency to the task is
    /// added.
    pub open spec fn declare(self, declaration: Declaration) -> GraphView {
        match declaration {
            Declaration::Task(name) => self.register(name),
            Declaration::Dependency { dependency, task } => {
                let graph = self.register(task).register(dependency);
                graph.connect(graph.index_of(dependency), graph.index_of(task))
            },
        }
    }

    /// The graph after the declarations, in order.
    pub open spec fn apply(self, declarations: Seq<Declaration>) -> GraphView
        decreases declarations.len(),
    {
        if declarations.len() == 0 {
            self
        } else {
            self.apply(declarations.drop_last()).declare(declarations.last())
        }
    }
}

/// The name that an entry of `deps` gives: the entry itself if it is text, the text under
/// `task` if it is a mapping.
pub open spec fn named_dependency(entry: TreeView) -> Result<Seq<char>, SchemaError> {
    match entry {
        TreeView::String(name) => Ok(name),
        TreeView::Mapping(entries) => match lookup(entries, "task"@) {
            Some(value) => match value.text() {
                Some(name) => Ok(name),
                None => Err(SchemaError::DepNameNotFound),
            },
            None => Err(SchemaError::DepNameNotFound),
        },
        _ => Err(SchemaError::DepWrongType),
    }
}

/// The namespace and the path that an entry of `includes` gives. The namespace is the key.
/// The path is the value itself if it is text, the text under `taskfile` if it is a mapping.
pub open spec fn named_target(key: TreeView, descriptor: TreeView) -> Result<(Seq<char>, Seq<char>), SchemaError> {
    match key.text() {
        None => Err(SchemaError::NamespaceNotString),
        Some(namespace) => match descriptor {
            TreeView::String(path) => Ok((namespace, path)),
            TreeView::Mapping(entries) => match lookup(entries, "taskfile"@) {
                Some(value) => match value.text() {
                    Some(path) => Ok((namespace, path)),
                    None => Err(SchemaError::TaskfileNotFound),
                },
                None => Err(SchemaError::TaskfileNotFound),
            },
            _ => Err(SchemaError::IncludeWrongType),
        },
    }
}

/// What one entry of the `deps` of the task `task` declares. Its name is qualified by
/// `prefix`, as the task's own name is.
pub open spec fn dependency_reading(prefix: Seq<Seq<char>>, task: Seq<char>, entry: TreeView) -> Reading {
    match named_dependency(entry) {
        Ok(name) => Reading::one(Declaration::Dependency { dependency: qualified(prefix, name), task }),
        Err(error) => Reading::broken(error),
    }
}

/// What each entry of the `deps` of the task `task` declares.
pub open spec fn dependency_readings(prefix: Seq<Seq<char>>, task: Seq<char>, entries: Seq<TreeView>) -> Seq<Reading> {
    Seq::new(entries.len(), |i: int| dependency_reading(prefix, task, entries[i]))
}

/// What the descriptor of the task `task` declares: nothing without `deps`, else what its
/// entries declare.
pub open spec fn descriptor_reading(prefix: Seq<Seq<char>>, task: Seq<char>, descriptor: TreeView) -> Reading {
    match descriptor.entries() {
        None => Reading::broken(SchemaError::TaskNotMapping),
        Some(entries) => match lookup(entries, "deps"@) {
            None => Reading::empty(),
            Some(deps) => match deps.items() {
                None => Reading::broken(SchemaError::DepsNotList),
                Some(items) => chain(dependency_readings(prefix, task, items)),
            },
        },
    }
}

/// What one entry of `tasks` declares: the task, then what its descriptor declares.
pub open spec fn task_reading(prefix: Seq<Seq<char>>, key: TreeView, descriptor: TreeView) -> Reading {
    match key.text() {
        None => Reading::broken(SchemaError::TaskNameNotString),
        Some(name) => Reading::one(Declaration::Task(qualified(prefix, name))).followed_by(
            descriptor_reading(prefix, qualified(prefix, name), descriptor),
        ),
    }
}

/// What each entry of `tasks` declares.
pub open spec fn task_readings(prefix: Seq<Seq<char>>, entries: Seq<(TreeView, TreeView)>) -> Seq<Reading> {
    Seq::new(entries.len(), |i: int| task_reading(prefix, entries[i].0, entries[i].1))
}

/// What the `tasks` of a document declare.
pub open spec fn tasks_reading(prefix: Seq<Seq<char>>, tasks: Option<TreeView>) -> Reading {
    match tasks {
        None => Reading::broken(SchemaError::TasksNotFound),
        Some(value) => match value.entries() {
            None => Reading::broken(SchemaError::TasksNotMapping),
            Some(entries) => chain(task_readings(prefix, entries)),
        },
    }
}

/// What the entry `i` of `includes` declares: what the document that it names declares
/// below the entry's namespace.
pub open spec fn include_reading(
    prefix: Seq<Seq<char>>,
    taskfile: TaskfileView,
    entries: Seq<(TreeView, TreeView)>,
    i: int,
) -> Reading
    decreases taskfile, 0nat,
{
    match named_target(entries[i].0, entries[i].1) {
        Err(error) => Reading::broken(error),
        Ok((namespace, path)) => if 0 <= i < taskfile.included.len() {
            taskfile_reading(prefix.push(namespace), taskfile.included[i])
        } else {
            Reading::failed(Failure::InputNotFound(path))
        },
    }
}

/// What each entry of `includes` declares.
pub open spec fn include_readings(
    prefix: Seq<Seq<char>>,
    taskfile: TaskfileView,
    entries: Seq<(TreeView, TreeView)>,
) -> Seq<Reading>
    decreases taskfile, 1nat,
{
    Seq::new(entries.len(), |i: int| include_reading(prefix, taskfile, entries, i))
}

/// What the `includes` of a document declare: nothing if there are none.
pub open spec fn includes_reading(prefix: Seq<Seq<char>>, taskfile: TaskfileView) -> Reading
    decreases taskfile, 2nat,
{
    match taskfile.includes {
        None => Reading::empty(),
        Some(value) => match value.entries() {
            None => Reading::broken(SchemaError::IncludesNotMapping),
            Some(entries) => chain(include_readings(prefix, taskfile, entries)),
        },
    }
}

/// What a document declares below the namespaces of `prefix`: what its `includes` declare,
/// then what its `tasks` declare.
pub open spec fn taskfile_reading(prefix: Seq<Seq<char>>, taskfile: TaskfileView) -> Reading
    decreases taskfile, 3nat,
{
    includes_reading(prefix, taskfile).followed_by(tasks_reading(prefix, taskfile.tasks))
}

/// A chain with one more reading is the chain followed by that reading.
pub proof fn lemma_chain_push(readings: Seq<Reading>, next: Reading)
    ensures
        chain(readings.push(next)) == chain(readings).followed_by(next),
{
    assert(readings.push(next).drop_last() =~= readings);
}

/// A chain that failed within its first `n` readings is the chain of those.
pub proof fn lemma_chain_stops(readings: Seq<Reading>, n: int)
    requires
        0 <= n <= readings.len(),
        chain(readings.take(n)).failure is Some,
    ensures
        chain(readings) == chain(readings.take(n)),
    decreases readings.len() - n,
{
    if n < readings.len() {
        assert(readings.take(n + 1) =~= readings.take(n).push(readings[n]));
        lemma_chain_push(readings.take(n), readings[n]);
        lemma_chain_stops(readings, n + 1);
    } else {
        assert(readings.take(n) =~= readings);
    }
}

/// The reading `n` decides whether a chain that has not failed before it fails there, and
/// a chain that fails there ends there.
pub proof fn lemma_chain_next(readings: Seq<Reading>, n: int)
    requires
        0 <= n < readings.len(),
        chain(readings.take(n)).failure is None,
    ensures
        chain(readings.take(n + 1)).failure == readings[n].failure,
        readings[n].failure is Some ==> chain(readings) == chain(readings.take(n + 1)),
{
    assert(readings.take(n + 1) =~= readings.take(n).push(readings[n]));
    lemma_chain_push(readings.take(n), readings[n]);
    if readings[n].failure is Some {
        lemma_chain_stops(readings, n + 1);
    }
}

impl GraphView {
    /// Declarations may be applied in two runs.
    pub proof fn lemma_apply_concat(self, first: Seq<Declaration>, second: Seq<Declaration>)
        ensures
            self.apply(first + second) == self.apply(first).apply(second),
        decreases second.len(),
    {
        if second.len() == 0 {
            assert(first + second =~= first);
        } else {
            assert((first + second).drop_last() =~= first + second.drop_last());
            self.lemma_apply_concat(first, second.drop_last());
        }
    }

    /// Applying one declaration is declaring it.
    pub proof fn lemma_apply_one(self, declaration: Declaration)
        ensures
            self.apply(seq![declaration]) == self.declare(declaration),
    {
        reveal_with_fuel(GraphView::apply, 2);
        assert(seq![declaration].drop_last() =~= Seq::<Declaration>::empty());
    }
}

/// The declaration speaks of the node name `name`.
pub open spec fn mentions(declaration: Declaration, name: Seq<char>) -> bool {
    match declaration {
        Declaration::Task(task) => name == task,
        Declaration::Dependency { dependency, task } => name == dependency || name == task,
    }
}

/// The node names that the declarations speak of.
pub open spec fn declared_names(declarations: Seq<Declaration>) -> Set<Seq<char>> {
    Set::new(
        |name: Seq<char>|
            exists|i: int| 0 <= i < declarations.len() && mentions(#[trigger] declarations[i], name),
    )
}

/// How many of the declarations are dependencies, each counted as often as it occurs.
pub open spec fn dependency_count(declarations: Seq<Declaration>) -> nat
    decreases declarations.len(),
{
    if declarations.len() == 0 {
        0
    } else {
        dependency_count(declarations.drop_last()) + if declarations.last() is Dependency {
            1nat
        } else {
            0nat
        }
    }
}

impl GraphView {
    /// Registering keeps a graph valid and its edges, and adds the name to its node names.
    pub proof fn lemma_register(self, name: Seq<char>)
        requires
            self.valid(),
        ensures
            self.register(name).valid(),
            self.register(name).edges == self.edges,
            self.register(name).nodes.to_set() == self.nodes.to_set().insert(name),
            0 <= self.register(name).index_of(name) < self.register(name).nodes.len(),
            self.register(name).nodes[self.register(name).index_of(name)] == name,
    {
        let after = self.register(name);
        if self.nodes.contains(name) {
            assert(after.nodes.to_set() =~= self.nodes.to_set().insert(name));
        } else {
            assert(after.nodes[self.nodes.len() as int] == name);
            assert forall|a: Seq<char>| after.nodes.to_set().contains(a) == self.nodes.to_set().insert(
                name,
            ).contains(a) by {
                if self.nodes.contains(a) {
                    let i = self.nodes.index_of(a);
                    assert(after.nodes[i] == a);
                }
            }
            assert(after.nodes.to_set() =~= self.nodes.to_set().insert(name));
        }
        assert(after.nodes.contains(name));
    }

    /// One declaration keeps a graph valid, adds the names that it speaks of to the node
    /// names, and adds one edge if it is a dependency.
    pub proof fn lemma_declare(self, declaration: Declaration)
        requires
            self.valid(),
        ensures
            self.declare(declaration).valid(),
            self.declare(declaration).nodes.to_set() == self.nodes.to_set().union(
                declared_names(seq![declaration]),
            ),
            self.declare(declaration).edges.len() == self.edges.len() + if declaration is Dependency {
                1nat
            } else {
                0nat
            },
    {
        let one = seq![declaration];
        assert(one[0] == declaration);
        match declaration {
            Declaration::Task(task) => {
                self.lemma_register(task);
                assert(declared_names(one) =~= Set::empty().insert(task)) by {
                    assert(mentions(one[0], task));
                }
                assert(self.declare(declaration).nodes.to_set() =~= self.nodes.to_set().union(
                    declared_names(one),
                ));
            },
            Declaration::Dependency { dependency, task } => {
                self.lemma_register(task);
                let first = self.register(task);
                first.lemma_register(dependency);
                let second = first.register(dependency);
                assert(second.nodes.contains(task)) by {
                    assert(second.nodes.to_set().contains(task));
                }
                assert(0 <= second.index_of(task) < second.nodes.len());
                assert(declared_names(one) =~= Set::empty().insert(task).insert(dependency)) by {
                    assert(mentions(one[0], task));
                    assert(mentions(one[0], dependency));
                }
                assert(self.declare(declaration).nodes.to_set() =~= self.nodes.to_set().union(
                    declared_names(one),
                ));
            },
        }
    }

    /// Declarations keep a graph valid. The node names after them are those before and
    /// those that they speak of, and there is one more edge for each dependency.
    pub proof fn lemma_apply_counts(self, declarations: Seq<Declaration>)
        requires
            self.valid(),
        ensures
            self.apply(declarations).valid(),
            self.apply(declarations).nodes.to_set() == self.nodes.to_set().union(
                declared_names(declarations),
            ),
            self.apply(declarations).edges.len() == self.edges.len() + dependency_count(declarations),
        decreases declarations.len(),
    {
        if declarations.len() == 0 {
            assert(self.nodes.to_set().union(declared_names(declarations)) =~= self.nodes.to_set());
        } else {
            let front = declarations.drop_last();
            let last = declarations.last();
            self.lemma_apply_counts(front);
            self.apply(front).lemma_declare(last);
            assert forall|name: Seq<char>| declared_names(declarations).contains(name) == (declared_names(
                front,
            ).contains(name) || declared_names(seq![last]).contains(name)) by {
                if declared_names(front).contains(name) {
                    let i = choose|i: int| 0 <= i < front.len() && mentions(#[trigger] front[i], name);
                    assert(mentions(declarations[i], name));
                }
                if declared_names(seq![last]).contains(name) {
                    let i = choose|i: int| 0 <= i < 1 && mentions(#[trigger] seq![last][i], name);
                    assert(mentions(declarations[declarations.len() - 1], name));
                }
                if declared_names(declarations).contains(name) {
                    let i = choose|i: int|
                        0 <= i < declarations.len() && mentions(#[trigger] declarations[i], name);
                    if i < front.len() {
                        assert(mentions(front[i], name));
                    } else {
                        assert(mentions(seq![last][0], name));
                    }
                }
            }
            assert(self.apply(declarations).nodes.to_set() =~= self.nodes.to_set().union(
                declared_names(declarations),
            ));
        }
    }
}

/// A graph built from nothing has one node for each name that the declarations speak of,
/// whether a task defines it or a dependency only refers to it, and one edge for each
/// dependency, a repeated one counted each time.
pub proof fn lemma_built_counts(declarations: Seq<Declaration>)
    ensures
        GraphView::empty().apply(declarations).valid(),
        declared_names(declarations).finite(),
        GraphView::empty().apply(declarations).nodes.len() == declared_names(declarations).len(),
        GraphView::empty().apply(declarations).edges.len() == dependency_count(declarations),
{
    let built = GraphView::empty().apply(declarations);
    GraphView::empty().lemma_apply_counts(declarations);
    assert(GraphView::empty().nodes.to_set() =~= Set::<Seq<char>>::empty());
    assert(built.nodes.to_set() =~= declared_names(declarations));
    built.nodes.unique_seq_to_set();
    vstd::seq_lib::seq_to_set_is_finite(built.nodes);
}

/// The graph of a well-formed document, built from nothing, has as many nodes as there are
/// different names among the tasks and dependencies of the document and of the documents
/// that it includes, and as many edges as they have entries of `deps`.
pub proof fn lemma_well_formed_counts(prefix: Seq<Seq<char>>, taskfile: TaskfileView)
    requires
        taskfile_reading(prefix, taskfile).failure is None,
    ensures
        declared_names(taskfile_reading(prefix, taskfile).declarations).finite(),
        GraphView::empty().apply(taskfile_reading(prefix, taskfile).declarations).nodes.len()
            == declared_names(taskfile_reading(prefix, taskfile).declarations).len(),
        GraphView::empty().apply(taskfile_reading(prefix, taskfile).declarations).edges.len()
            == dependency_count(taskfile_reading(prefix, taskfile).declarations),
{
    lemma_built_counts(taskfile_reading(prefix, taskfile).declarations);
}

/// The reading did not fail for want of a document.
pub open spec fn at_hand(reading: Reading) -> bool {
    !(reading.failure matches Some(Failure::InputNotFound(_)))
}

/// A chain fails if one of its readings does.
pub proof fn lemma_chain_fails(readings: Seq<Reading>, i: int)
    requires
        0 <= i < readings.len(),
        readings[i].failure is Some,
    ensures
        chain(readings).failure is Some,
{
    if chain(readings.take(i)).failure is Some {
        lemma_chain_stops(readings, i);
    } else {
        assert(readings.take(i + 1) =~= readings.take(i).push(readings[i]));
        lemma_chain_push(readings.take(i), readings[i]);
        lemma_chain_stops(readings, i + 1);
    }
}

/// A chain does not fail for want of a document if none of its readings does.
pub proof fn lemma_chain_at_hand(readings: Seq<Reading>)
    requires
        forall|i: int| 0 <= i < readings.len() ==> at_hand(#[trigger] readings[i]),
    ensures
        at_hand(chain(readings)),
    decreases readings.len(),
{
    if readings.len() > 0 {
        let front = readings.drop_last();
        assert forall|i: int| 0 <= i < front.len() implies at_hand(#[trigger] front[i]) by {
            assert(front[i] == readings[i]);
        }
        lemma_chain_at_hand(front);
        assert(at_hand(readings[readings.len() - 1]));
    }
}

/// What the descriptor of a task declares never fails for want of a document.
pub proof fn lemma_descriptor_at_hand(prefix: Seq<Seq<char>>, task: Seq<char>, descriptor: TreeView)
    ensures
        at_hand(descriptor_reading(prefix, task, descriptor)),
{
    if let Some(entries) = descriptor.entries() {
        if let Some(deps) = lookup(entries, "deps"@) {
            if let Some(items) = deps.items() {
                lemma_chain_at_hand(dependency_readings(prefix, task, items));
            }
        }
    }
}

/// What the `tasks` of a document declare never fails for want of a document.
pub proof fn lemma_tasks_at_hand(prefix: Seq<Seq<char>>, tasks: Option<TreeView>)
    ensures
        at_hand(tasks_reading(prefix, tasks)),
{
    if let Some(value) = tasks {
        if let Some(entries) = value.entries() {
            let readings = task_readings(prefix, entries);
            assert forall|i: int| 0 <= i < readings.len() implies at_hand(#[trigger] readings[i]) by {
                if let Some(name) = entries[i].0.text() {
                    lemma_descriptor_at_hand(prefix, qualified(prefix, name), entries[i].1);
                }
            }
            lemma_chain_at_hand(readings);
        }
    }
}

/// A document without `tasks` is refused. Unless a document that it includes is missing,
/// it is refused for breaking the schema; where its `includes` are in order, for having no
/// `tasks`.
pub proof fn lemma_tasks_required(prefix: Seq<Seq<char>>, taskfile: TaskfileView)
    requires
        taskfile.tasks is None,
    ensures
        taskfile_reading(prefix, taskfile).failure is Some,
        at_hand(includes_reading(prefix, taskfile)) ==> taskfile_reading(prefix, taskfile).failure matches Some(
            Failure::Schema(_),
        ),
        includes_reading(prefix, taskfile).failure is None ==> taskfile_reading(prefix, taskfile).failure
            == Some(Failure::Schema(SchemaError::TasksNotFound)),
{
}

/// An entry of `deps` gives a name exactly if it is text, or a mapping with a text under
/// `task`.
pub proof fn lemma_dependency_shape(entry: TreeView)
    ensures
        named_dependency(entry) is Ok <==> (entry is String || (entry matches TreeView::Mapping(entries)
            && lookup(entries, "task"@) matches Some(value) && value.text() is Some)),
{
}

/// The entry `j` of the `deps` of the entry `t` of `tasks` gives no name.
pub open spec fn malformed_dependency(tasks: TreeView, t: int, j: int) -> bool {
    &&& tasks.entries() matches Some(entries)
    &&& 0 <= t < entries.len()
    &&& entries[t].1.entries() matches Some(descriptor)
    &&& lookup(descriptor, "deps"@) matches Some(deps)
    &&& deps.items() matches Some(items)
    &&& 0 <= j < items.len()
    &&& named_dependency(items[j]) is Err
}

/// A document with an entry of `deps` that gives no name is refused: unless a document that
/// it includes is missing, for breaking the schema.
pub proof fn lemma_malformed_dependency(prefix: Seq<Seq<char>>, taskfile: TaskfileView, t: int, j: int)
    requires
        taskfile.tasks matches Some(tasks) && malformed_dependency(tasks, t, j),
    ensures
        taskfile_reading(prefix, taskfile).failure is Some,
        at_hand(includes_reading(prefix, taskfile)) ==> taskfile_reading(prefix, taskfile).failure matches Some(
            Failure::Schema(_),
        ),
{
    let tasks = taskfile.tasks->Some_0;
    let entries = tasks.entries()->Some_0;
    let readings = task_readings(prefix, entries);
    assert(readings[t].failure is Some) by {
        if let Some(name) = entries[t].0.text() {
            let task = qualified(prefix, name);
            let descriptor = entries[t].1.entries()->Some_0;
            let items = lookup(descriptor, "deps"@)->Some_0.items()->Some_0;
            let inner = dependency_readings(prefix, task, items);
            assert(inner[j].failure is Some);
            lemma_chain_fails(inner, j);
        }
    }
    lemma_chain_fails(readings, t);
    lemma_tasks_at_hand(prefix, taskfile.tasks);
}

} // verus!
