use taskdep::attach;
use taskdep::build_graph;
use taskdep::parse_document;
use taskdep::wanted;
use taskdep::BuildError;
use taskdep::SchemaError;
use taskdep::TaskGraph;
use taskdep::Taskfile;

fn document(text: &str) -> Taskfile {
    parse_document(text).unwrap()
}

fn files(path: &str) -> Option<&'static str> {
    match path {
        "a.yaml" => Some("includes: {x: x.yaml, y: {taskfile: y.yaml}}\ntasks: {a1: {deps: ['x:x1']}}"),
        "b.yaml" => Some("tasks: {b1: {deps: [b2]}}"),
        "x.yaml" => Some("tasks: {x1: {}}"),
        "y.yaml" => Some("includes: {}\ntasks: {y1: {deps: [y1]}}"),
        "bad.yaml" => Some("includes: {n: 1, m: b.yaml}\ntasks: {}"),
        _ => None,
    }
}

fn load(root: &str) -> (Taskfile, Vec<String>) {
    let mut taskfile = document(root);
    let mut asked = Vec::new();
    while let Ok(Some(path)) = wanted(&taskfile) {
        asked.push(path.clone());
        match files(&path) {
            Some(text) => attach(&mut taskfile, document(text)),
            None => break,
        }
    }
    (taskfile, asked)
}

fn names(graph: &TaskGraph) -> Vec<String> {
    (0..graph.node_count()).map(|node| graph.node_name(node).clone()).collect()
}

#[test]
fn nothing_is_wanted_without_includes() {
    assert_eq!(wanted(&document("tasks: {a: {}}")), Ok(None));
    assert_eq!(wanted(&document("includes: {}\ntasks: {a: {}}")), Ok(None));
    assert_eq!(wanted(&document("other: 1")), Ok(None));
}

#[test]
fn first_entry_is_wanted_first() {
    assert_eq!(wanted(&document("includes: {a: a.yaml, b: b.yaml}")), Ok(Some("a.yaml".to_string())));
    assert_eq!(wanted(&document("includes: {a: {taskfile: dir/a.yaml}}")), Ok(Some("dir/a.yaml".to_string())));
}

#[test]
fn entries_of_an_included_document_come_before_the_next_entry() {
    let mut taskfile = document("includes: {a: a.yaml, b: b.yaml}\ntasks: {}");
    attach(&mut taskfile, document(files("a.yaml").unwrap()));
    assert_eq!(wanted(&taskfile), Ok(Some("x.yaml".to_string())));
    attach(&mut taskfile, document(files("x.yaml").unwrap()));
    assert_eq!(wanted(&taskfile), Ok(Some("y.yaml".to_string())));
    attach(&mut taskfile, document(files("y.yaml").unwrap()));
    assert_eq!(wanted(&taskfile), Ok(Some("b.yaml".to_string())));
    attach(&mut taskfile, document(files("b.yaml").unwrap()));
    assert_eq!(wanted(&taskfile), Ok(None));
    assert_eq!(taskfile.included.len(), 2);
    assert_eq!(taskfile.included[0].included.len(), 2);
    assert_eq!(taskfile.included[0].included[1], document(files("y.yaml").unwrap()));
    assert_eq!(taskfile.included[1], document(files("b.yaml").unwrap()));
}

#[test]
fn attach_leaves_a_complete_document_alone() {
    let mut taskfile = document("tasks: {a: {}}");
    attach(&mut taskfile, document("tasks: {b: {}}"));
    assert_eq!(taskfile, document("tasks: {a: {}}"));
    let mut broken = document("includes: [a.yaml]");
    attach(&mut broken, document("tasks: {b: {}}"));
    assert_eq!(broken, document("includes: [a.yaml]"));
}

#[test]
fn broken_entry_ends_the_search() {
    assert_eq!(wanted(&document("includes: [a.yaml]")), Err(SchemaError::IncludesNotMapping));
    assert_eq!(wanted(&document("includes: {1: a.yaml}")), Err(SchemaError::NamespaceNotString));
    assert_eq!(wanted(&document("includes: {a: {dir: d}}")), Err(SchemaError::TaskfileNotFound));
    assert_eq!(wanted(&document("includes: {a: [a.yaml]}")), Err(SchemaError::IncludeWrongType));
    let (taskfile, asked) = load("includes: {x: x.yaml, bad: bad.yaml, b: b.yaml}\ntasks: {}");
    assert_eq!(asked, vec!["x.yaml", "bad.yaml"]);
    assert_eq!(wanted(&taskfile), Err(SchemaError::IncludeWrongType));
    let mut graph = TaskGraph::new();
    assert_eq!(
        build_graph(&taskfile, &Vec::new(), &mut graph),
        Err(BuildError::Schema(SchemaError::IncludeWrongType))
    );
}

#[test]
fn loaded_documents_build() {
    let (taskfile, asked) = load("includes: {a: a.yaml, b: b.yaml}\ntasks: {top: {deps: ['a:a1', 'b:b1', 'a:y:y1']}}");
    assert_eq!(asked, vec!["a.yaml", "x.yaml", "y.yaml", "b.yaml"]);
    let mut graph = TaskGraph::new();
    assert_eq!(build_graph(&taskfile, &Vec::new(), &mut graph), Ok(()));
    assert_eq!(names(&graph), vec!["a:x:x1", "a:y:y1", "a:a1", "b:b1", "b:b2", "top"]);
    assert_eq!(graph.edge_count(), 6);
}

#[test]
fn missing_document_is_the_one_that_build_asks_for() {
    let (taskfile, asked) = load("includes: {x: x.yaml, gone: gone.yaml, b: b.yaml}\ntasks: {}");
    assert_eq!(asked, vec!["x.yaml", "gone.yaml"]);
    assert_eq!(wanted(&taskfile), Ok(Some("gone.yaml".to_string())));
    let mut graph = TaskGraph::new();
    assert_eq!(
        build_graph(&taskfile, &Vec::new(), &mut graph),
        Err(BuildError::InputNotFound("gone.yaml".to_string()))
    );
    assert_eq!(graph.node_count(), 0);
}
