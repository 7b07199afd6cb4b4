use taskdep::build_graph;
use taskdep::detect_cycles;
use taskdep::graph_to_dot;
use taskdep::parse_document;
use taskdep::BuildError;
use taskdep::SchemaError;
use taskdep::TaskGraph;
use taskdep::Taskfile;

fn document(text: &str, included: Vec<Taskfile>) -> Taskfile {
    let mut taskfile = parse_document(text).unwrap();
    taskfile.included = included;
    taskfile
}

fn build(text: &str, included: Vec<Taskfile>) -> (TaskGraph, Result<(), BuildError>) {
    let mut graph = TaskGraph::new();
    let result = build_graph(&document(text, included), &Vec::new(), &mut graph);
    (graph, result)
}

fn names(graph: &TaskGraph) -> Vec<String> {
    (0..graph.node_count()).map(|node| graph.node_name(node).clone()).collect()
}

fn edges(graph: &TaskGraph) -> Vec<(String, String)> {
    (0..graph.edge_count())
        .map(|edge| {
            let (dependency, dependent) = graph.endpoints(edge).unwrap();
            (graph.node_name(dependency).clone(), graph.node_name(dependent).clone())
        })
        .collect()
}

fn pair(dependency: &str, dependent: &str) -> (String, String) {
    (dependency.to_string(), dependent.to_string())
}

const PLAIN: &str = "foo: 1
tasks:
  foo:
    desc: desc
    deps:
      - bar
      - baz
  bar:
    deps:
      - task: spam
        params: params
  baz:
    deps:
      - spam
  spam:
    desc: spam
  eggs:
    desc: no deps
";

const INC1: &str = "tasks:
  task1_inc1:
    deps:
        - task2_inc1
  task2_inc1:
    descr: descr
";

const INC2: &str = "tasks:
  task1_inc2:
    foo: 1
";

const ROOT: &str = "foo: 1
includes:
  inc1: /tmp/inc1.yaml
  inc2:
    taskfile: /tmp/inc2.yaml
tasks:
  foo:
    deps:
      - bar
      - baz
      - inc1:task1_inc1
      - inc2:task1_inc2
";

#[test]
fn test_build_graph() {
    let yaml = document(PLAIN, Vec::new());
    let mut g = TaskGraph::new();
    build_graph(&yaml, &vec!["foo".to_string()], &mut g).unwrap();
    assert_eq!(g.node_count(), 5);
    assert_eq!(g.edge_count(), 4);
}

#[test]
fn test_build_graph_with_includes() {
    let inc1 = document(INC1, Vec::new());
    let inc2 = document(INC2, Vec::new());
    let yaml = document(ROOT, vec![inc1, inc2]);
    let mut g = TaskGraph::new();
    build_graph(&yaml, &Vec::new(), &mut g).unwrap();
    let text = graph_to_dot(&g);
    assert!(text.starts_with("digraph {\n"));
    assert_eq!(g.node_count(), 6);
    assert_eq!(g.edge_count(), 5);
}

#[test]
fn prefix_qualifies_every_name() {
    let yaml = document(PLAIN, Vec::new());
    let mut g = TaskGraph::new();
    build_graph(&yaml, &vec!["foo".to_string()], &mut g).unwrap();
    assert_eq!(names(&g), vec!["foo:foo", "foo:bar", "foo:baz", "foo:spam", "foo:eggs"]);
    assert_eq!(edges(&g)[2], pair("foo:spam", "foo:bar"));
}

#[test]
fn plain_document_end_to_end() {
    let (graph, result) = build(
        "tasks: {foo: {deps: [bar, baz]}, bar: {deps: [{task: spam}]}, baz: {deps: [spam]}, spam: {}, eggs: {}}",
        Vec::new(),
    );
    assert_eq!(result, Ok(()));
    assert_eq!(names(&graph), vec!["foo", "bar", "baz", "spam", "eggs"]);
    assert_eq!(
        edges(&graph),
        vec![pair("bar", "foo"), pair("baz", "foo"), pair("spam", "bar"), pair("spam", "baz")]
    );
    assert!(detect_cycles(&graph).is_empty());
    assert_eq!(
        graph_to_dot(&graph),
        "digraph {\n    0 [ label = \"foo\" ]\n    1 [ label = \"bar\" ]\n    2 [ label = \"baz\" ]\n    3 [ label = \"spam\" ]\n    4 [ label = \"eggs\" ]\n    1 -> 0 [ ]\n    2 -> 0 [ ]\n    3 -> 1 [ ]\n    3 -> 2 [ ]\n}\n"
    );
}

#[test]
fn included_document_end_to_end() {
    let (graph, result) = build(ROOT, vec![document(INC1, Vec::new()), document(INC2, Vec::new())]);
    assert_eq!(result, Ok(()));
    assert_eq!(
        names(&graph),
        vec!["inc1:task1_inc1", "inc1:task2_inc1", "inc2:task1_inc2", "foo", "bar", "baz"]
    );
    assert_eq!(
        edges(&graph),
        vec![
            pair("inc1:task2_inc1", "inc1:task1_inc1"),
            pair("bar", "foo"),
            pair("baz", "foo"),
            pair("inc1:task1_inc1", "foo"),
            pair("inc2:task1_inc2", "foo"),
        ]
    );
}

#[test]
fn literal_namespace_names_the_included_node() {
    let (graph, _) = build(ROOT, vec![document(INC1, Vec::new()), document(INC2, Vec::new())]);
    let included = graph.find(&"inc1:task1_inc1".to_string()).unwrap();
    assert_eq!(included, 0);
    assert_eq!(graph.endpoints(3), Some((included, graph.find(&"foo".to_string()).unwrap())));
}

#[test]
fn nested_includes_join_their_namespaces() {
    let leaf = document("tasks: {c: {deps: [d]}}", Vec::new());
    let middle = document("includes: {inner: inner.yaml}\ntasks: {b: {deps: ['inner:c']}}", vec![leaf]);
    let (graph, result) = build("includes: {outer: outer.yaml}\ntasks: {a: {deps: ['outer:b']}}", vec![middle]);
    assert_eq!(result, Ok(()));
    assert_eq!(names(&graph), vec!["outer:inner:c", "outer:inner:d", "outer:b", "a"]);
    assert_eq!(
        edges(&graph),
        vec![pair("outer:inner:d", "outer:inner:c"), pair("outer:inner:c", "outer:b"), pair("outer:b", "a")]
    );
}

#[test]
fn dependency_of_an_included_task_stays_in_its_namespace() {
    let (graph, _) = build("includes: {ns: x.yaml}\ntasks: {t: {}}", vec![document("tasks: {a: {deps: [t]}}", Vec::new())]);
    assert_eq!(names(&graph), vec!["ns:a", "ns:t", "t"]);
}

#[test]
fn repeated_dependency_gives_parallel_edges() {
    let (graph, result) = build("tasks: {a: {deps: [b, b, {task: b}]}}", Vec::new());
    assert_eq!(result, Ok(()));
    assert_eq!(graph.node_count(), 2);
    assert_eq!(edges(&graph), vec![pair("b", "a"), pair("b", "a"), pair("b", "a")]);
}

#[test]
fn dangling_dependency_becomes_a_node() {
    let (graph, result) = build("tasks: {a: {deps: [nowhere]}}", Vec::new());
    assert_eq!(result, Ok(()));
    assert_eq!(names(&graph), vec!["a", "nowhere"]);
    assert_eq!(graph.edge_count(), 1);
}

#[test]
fn counts_are_distinct_names_and_declarations() {
    let (graph, result) = build("tasks: {a: {deps: [b, c, b]}, b: {deps: [c, a]}, d: {}}", Vec::new());
    assert_eq!(result, Ok(()));
    assert_eq!(graph.node_count(), 4);
    assert_eq!(graph.edge_count(), 5);
}

#[test]
fn task_depending_on_itself_is_one_node() {
    let (graph, result) = build("tasks: {a: {deps: [a]}}", Vec::new());
    assert_eq!(result, Ok(()));
    assert_eq!(names(&graph), vec!["a"]);
    assert_eq!(graph.endpoints(0), Some((0, 0)));
    assert!(detect_cycles(&graph).is_empty());
}

#[test]
fn empty_tasks_give_an_empty_graph() {
    let (graph, result) = build("tasks: {}", Vec::new());
    assert_eq!(result, Ok(()));
    assert_eq!(graph.node_count(), 0);
    assert_eq!(graph.edge_count(), 0);
}

#[test]
fn build_adds_to_the_graph_it_is_given() {
    let mut graph = TaskGraph::new();
    build_graph(&document("tasks: {a: {deps: [b]}}", Vec::new()), &Vec::new(), &mut graph).unwrap();
    build_graph(&document("tasks: {b: {deps: [c]}}", Vec::new()), &Vec::new(), &mut graph).unwrap();
    assert_eq!(names(&graph), vec!["a", "b", "c"]);
    assert_eq!(edges(&graph), vec![pair("b", "a"), pair("c", "b")]);
}

#[test]
fn unknown_keys_are_ignored() {
    let (graph, result) = build("version: 3\ntasks: {a: {cmds: [x], deps: [b], other: {deps: [q]}}}", Vec::new());
    assert_eq!(result, Ok(()));
    assert_eq!(names(&graph), vec!["a", "b"]);
}

#[test]
fn missing_tasks_is_an_error() {
    let (graph, result) = build("foo: 1", Vec::new());
    assert_eq!(result, Err(BuildError::Schema(SchemaError::TasksNotFound)));
    assert_eq!(graph.node_count(), 0);
}

#[test]
fn missing_tasks_in_an_included_document_is_an_error() {
    let (_, result) = build("includes: {ns: x.yaml}\ntasks: {a: {}}", vec![document("other: 1", Vec::new())]);
    assert_eq!(result, Err(BuildError::Schema(SchemaError::TasksNotFound)));
}

#[test]
fn tasks_must_be_a_mapping() {
    let (_, result) = build("tasks: [a, b]", Vec::new());
    assert_eq!(result, Err(BuildError::Schema(SchemaError::TasksNotMapping)));
}

#[test]
fn task_name_must_be_text() {
    let (_, result) = build("tasks: {1: {}}", Vec::new());
    assert_eq!(result, Err(BuildError::Schema(SchemaError::TaskNameNotString)));
}

#[test]
fn task_must_be_a_mapping() {
    let (graph, result) = build("tasks: {a: {}, b: text}", Vec::new());
    assert_eq!(result, Err(BuildError::Schema(SchemaError::TaskNotMapping)));
    assert_eq!(graph.node_count(), 0);
}

#[test]
fn deps_must_be_a_sequence() {
    let (_, result) = build("tasks: {a: {deps: b}}", Vec::new());
    assert_eq!(result, Err(BuildError::Schema(SchemaError::DepsNotList)));
}

#[test]
fn dependency_of_another_type_is_an_error() {
    let (graph, result) = build("tasks: {a: {deps: [b, 5, c]}}", Vec::new());
    assert_eq!(result, Err(BuildError::Schema(SchemaError::DepWrongType)));
    assert_eq!(graph.node_count(), 0);
    assert_eq!(graph.edge_count(), 0);
    let (_, result) = build("tasks: {a: {deps: [[b]]}}", Vec::new());
    assert_eq!(result, Err(BuildError::Schema(SchemaError::DepWrongType)));
    let (_, result) = build("tasks: {a: {deps: [~]}}", Vec::new());
    assert_eq!(result, Err(BuildError::Schema(SchemaError::DepWrongType)));
}

#[test]
fn dependency_mapping_needs_a_task() {
    let (_, result) = build("tasks: {a: {deps: [{name: b}]}}", Vec::new());
    assert_eq!(result, Err(BuildError::Schema(SchemaError::DepNameNotFound)));
    let (_, result) = build("tasks: {a: {deps: [{task: 7}]}}", Vec::new());
    assert_eq!(result, Err(BuildError::Schema(SchemaError::DepNameNotFound)));
}

#[test]
fn includes_must_be_a_mapping() {
    let (_, result) = build("includes: [a]\ntasks: {}", Vec::new());
    assert_eq!(result, Err(BuildError::Schema(SchemaError::IncludesNotMapping)));
}

#[test]
fn namespace_must_be_text() {
    let (_, result) = build("includes: {1: x.yaml}\ntasks: {}", Vec::new());
    assert_eq!(result, Err(BuildError::Schema(SchemaError::NamespaceNotString)));
}

#[test]
fn include_mapping_needs_a_taskfile() {
    let (_, result) = build("includes: {ns: {dir: x}}\ntasks: {}", Vec::new());
    assert_eq!(result, Err(BuildError::Schema(SchemaError::TaskfileNotFound)));
}

#[test]
fn include_of_another_type_is_an_error() {
    let (_, result) = build("includes: {ns: 3}\ntasks: {}", Vec::new());
    assert_eq!(result, Err(BuildError::Schema(SchemaError::IncludeWrongType)));
}

#[test]
fn included_document_that_is_missing_is_an_error() {
    let (graph, result) = build(
        "includes: {one: one.yaml, two: {taskfile: two.yaml}}\ntasks: {a: {}}",
        vec![document("tasks: {x: {}}", Vec::new())],
    );
    assert_eq!(result, Err(BuildError::InputNotFound("two.yaml".to_string())));
    assert_eq!(graph.node_count(), 0);
}

#[test]
fn missing_document_comes_before_missing_tasks() {
    let (_, result) = build("includes: {one: one.yaml}", Vec::new());
    assert_eq!(result, Err(BuildError::InputNotFound("one.yaml".to_string())));
}

#[test]
fn includes_are_read_before_tasks() {
    let (graph, result) = build("tasks: {a: {}}\nincludes: {ns: 3}", Vec::new());
    assert_eq!(result, Err(BuildError::Schema(SchemaError::IncludeWrongType)));
    assert_eq!(graph.node_count(), 0);
}

#[test]
fn tagged_dependency_is_not_text() {
    let (_, result) = build("tasks: {a: {deps: [!x b]}}", Vec::new());
    assert_eq!(result, Err(BuildError::Schema(SchemaError::DepWrongType)));
}

#[test]
fn tagged_collections_are_read_through_the_tag() {
    let (graph, result) = build("tasks: !t {a: !t {deps: !t [b, {task: !t c}]}}", Vec::new());
    assert_eq!(result, Ok(()));
    assert_eq!(names(&graph), vec!["a", "b", "c"]);
}

#[test]
fn failed_build_hands_back_no_partial_graph() {
    let (graph, result) = build("tasks: {a: {deps: [b]}, c: {deps: [1]}}", Vec::new());
    assert_eq!(result, Err(BuildError::Schema(SchemaError::DepWrongType)));
    assert_eq!(graph.node_count(), 0);
    assert_eq!(graph.edge_count(), 0);
    assert_eq!(graph.find(&"a".to_string()), None);
}

#[test]
fn failed_build_leaves_the_graph_as_it_was() {
    let mut graph = TaskGraph::new();
    build_graph(&document("tasks: {a: {deps: [b]}}", Vec::new()), &Vec::new(), &mut graph).unwrap();
    let late = document("tasks: {c: {deps: [a, d]}, e: {deps: f}}", Vec::new());
    assert_eq!(
        build_graph(&late, &Vec::new(), &mut graph),
        Err(BuildError::Schema(SchemaError::DepsNotList))
    );
    assert_eq!(names(&graph), vec!["a", "b"]);
    assert_eq!(edges(&graph), vec![pair("b", "a")]);
    let inner = document("includes: {ns: x.yaml}\ntasks: {}", vec![document("tasks: {x: {}, y: 3}", Vec::new())]);
    assert_eq!(
        build_graph(&inner, &Vec::new(), &mut graph),
        Err(BuildError::Schema(SchemaError::TaskNotMapping))
    );
    assert_eq!(names(&graph), vec!["a", "b"]);
    assert_eq!(graph.edge_count(), 1);
}
