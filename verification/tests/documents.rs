use taskdep::dependency_name;
use taskdep::get;
use taskdep::include_target;
use taskdep::parse_document;
use taskdep::BuildError;
use taskdep::SchemaError;
use taskdep::Tree;

fn text(value: &str) -> Tree {
    Tree::String(value.to_string())
}

fn tagged(value: Tree) -> Tree {
    Tree::Tagged(Box::new(value))
}

fn mapping(entries: &[(&str, Tree)]) -> Tree {
    let mut collected = Vec::new();
    for (key, value) in entries {
        collected.push((text(key), copy(value)));
    }
    Tree::Mapping(collected)
}

fn copy(value: &Tree) -> Tree {
    match value {
        Tree::Scalar => Tree::Scalar,
        Tree::String(value) => Tree::String(value.clone()),
        Tree::Sequence(items) => Tree::Sequence(items.iter().map(copy).collect()),
        Tree::Mapping(entries) => Tree::Mapping(entries.iter().map(|(key, value)| (copy(key), copy(value))).collect()),
        Tree::Tagged(inner) => tagged(copy(inner)),
    }
}

#[test]
fn accessors_tell_the_variants_apart() {
    assert_eq!(text("a").as_str(), Some(&"a".to_string()));
    assert_eq!(Tree::Scalar.as_str(), None);
    assert_eq!(Tree::Sequence(vec![text("a")]).as_str(), None);
    assert_eq!(Tree::Sequence(vec![text("a")]).as_sequence(), Some(&vec![text("a")]));
    assert_eq!(text("a").as_sequence(), None);
    assert_eq!(mapping(&[("a", Tree::Scalar)]).as_mapping(), Some(&vec![(text("a"), Tree::Scalar)]));
    assert_eq!(mapping(&[("a", Tree::Scalar)]).as_sequence(), None);
    assert_eq!(Tree::Scalar.as_mapping(), None);
}

#[test]
fn accessors_look_through_tags() {
    assert_eq!(tagged(tagged(text("a"))).as_str(), Some(&"a".to_string()));
    assert_eq!(tagged(Tree::Sequence(Vec::new())).as_sequence(), Some(&Vec::new()));
    assert_eq!(tagged(Tree::Mapping(Vec::new())).as_mapping(), Some(&Vec::new()));
    assert_eq!(tagged(Tree::Scalar).as_str(), None);
    assert_eq!(tagged(tagged(text("a"))).untag(), &text("a"));
    assert_eq!(text("a").untag(), &text("a"));
}

#[test]
fn get_finds_the_first_entry_with_a_text_key() {
    let entries = vec![
        (Tree::Scalar, text("scalar")),
        (tagged(text("key")), text("tagged")),
        (text("key"), text("first")),
        (text("key"), text("second")),
        (text("other"), text("third")),
    ];
    assert_eq!(get(&entries, "key"), Some(&text("first")));
    assert_eq!(get(&entries, "other"), Some(&text("third")));
    assert_eq!(get(&entries, "ke"), None);
    assert_eq!(get(&Vec::new(), "key"), None);
}

#[test]
fn dependency_is_text_or_names_a_task() {
    assert_eq!(dependency_name(&text("bar")), Ok(&"bar".to_string()));
    assert_eq!(dependency_name(&mapping(&[("params", text("p")), ("task", text("spam"))])), Ok(&"spam".to_string()));
    assert_eq!(dependency_name(&mapping(&[("task", tagged(text("spam")))])), Ok(&"spam".to_string()));
    assert_eq!(dependency_name(&mapping(&[("task", Tree::Scalar)])), Err(SchemaError::DepNameNotFound));
    assert_eq!(dependency_name(&mapping(&[])), Err(SchemaError::DepNameNotFound));
    assert_eq!(dependency_name(&Tree::Scalar), Err(SchemaError::DepWrongType));
    assert_eq!(dependency_name(&Tree::Sequence(vec![text("bar")])), Err(SchemaError::DepWrongType));
    assert_eq!(dependency_name(&tagged(text("bar"))), Err(SchemaError::DepWrongType));
    assert_eq!(dependency_name(&tagged(mapping(&[("task", text("spam"))]))), Err(SchemaError::DepWrongType));
}

#[test]
fn include_is_a_path_or_names_a_taskfile() {
    assert_eq!(include_target(&text("ns"), &text("a.yaml")), Ok((&"ns".to_string(), &"a.yaml".to_string())));
    assert_eq!(
        include_target(&tagged(text("ns")), &mapping(&[("dir", text("d")), ("taskfile", text("b.yaml"))])),
        Ok((&"ns".to_string(), &"b.yaml".to_string()))
    );
    assert_eq!(include_target(&Tree::Scalar, &text("a.yaml")), Err(SchemaError::NamespaceNotString));
    assert_eq!(include_target(&Tree::Scalar, &Tree::Scalar), Err(SchemaError::NamespaceNotString));
    assert_eq!(include_target(&text("ns"), &mapping(&[("dir", text("d"))])), Err(SchemaError::TaskfileNotFound));
    assert_eq!(include_target(&text("ns"), &mapping(&[("taskfile", Tree::Scalar)])), Err(SchemaError::TaskfileNotFound));
    assert_eq!(include_target(&text("ns"), &Tree::Scalar), Err(SchemaError::IncludeWrongType));
    assert_eq!(include_target(&text("ns"), &Tree::Sequence(Vec::new())), Err(SchemaError::IncludeWrongType));
    assert_eq!(include_target(&text("ns"), &tagged(text("a.yaml"))), Err(SchemaError::IncludeWrongType));
}

#[test]
fn parse_keeps_includes_and_tasks() {
    let taskfile = parse_document("version: 3\ntasks:\n  a:\n    deps: [b, {task: c}, 4, ~, true]\nincludes:\n  ns: x.yaml\n").unwrap();
    assert_eq!(taskfile.includes, Some(mapping(&[("ns", text("x.yaml"))])));
    assert_eq!(
        taskfile.tasks,
        Some(mapping(&[(
            "a",
            mapping(&[(
                "deps",
                Tree::Sequence(vec![text("b"), mapping(&[("task", text("c"))]), Tree::Scalar, Tree::Scalar, Tree::Scalar])
            )])
        )]))
    );
    assert!(taskfile.included.is_empty());
}

#[test]
fn parse_keeps_the_order_of_a_mapping() {
    let taskfile = parse_document("tasks: {z: {}, a: {}, m: {}}").unwrap();
    let tasks = taskfile.tasks.unwrap();
    let keys: Vec<&String> = tasks.as_mapping().unwrap().iter().map(|(key, _)| key.as_str().unwrap()).collect();
    assert_eq!(keys, vec!["z", "a", "m"]);
}

#[test]
fn parse_keeps_tags_and_other_keys() {
    let taskfile = parse_document("tasks: !x {1: a, !y b: !z c}").unwrap();
    assert_eq!(
        taskfile.tasks,
        Some(tagged(Tree::Mapping(vec![(Tree::Scalar, text("a")), (tagged(text("b")), tagged(text("c")))])))
    );
    assert_eq!(taskfile.includes, None);
}

#[test]
fn parse_without_the_two_keys() {
    let taskfile = parse_document("foo: 1").unwrap();
    assert_eq!(taskfile.includes, None);
    assert_eq!(taskfile.tasks, None);
    assert_eq!(parse_document("{}").unwrap().tasks, None);
}

#[test]
fn parse_refuses_what_is_no_map() {
    assert!(parse_document("- a\n- b\n").is_err());
    assert!(parse_document("just text").is_err());
    assert!(parse_document("tasks: [unclosed").is_err());
    assert!(parse_document("a: 1\n b: 2\n  - c").is_err());
}

#[test]
fn parse_error_carries_the_message_of_the_parser() {
    let error = parse_document("- a").unwrap_err();
    assert!(error.message.contains("expected a map"));
}

#[test]
fn schema_errors_have_their_messages() {
    assert_eq!(SchemaError::IncludesNotMapping.message(), "includes is not a mapping");
    assert_eq!(SchemaError::NamespaceNotString.message(), "namespace is not a string");
    assert_eq!(SchemaError::TaskfileNotFound.message(), "couldn't find taskfile name to include");
    assert_eq!(SchemaError::IncludeWrongType.message(), "incorrect type for an include");
    assert_eq!(SchemaError::TasksNotFound.message(), "tasks not found");
    assert_eq!(SchemaError::TasksNotMapping.message(), "tasks is not a mapping");
    assert_eq!(SchemaError::TaskNameNotString.message(), "task name is not a string");
    assert_eq!(SchemaError::TaskNotMapping.message(), "task is not a mapping");
    assert_eq!(SchemaError::DepsNotList.message(), "deps is not a list");
    assert_eq!(SchemaError::DepNameNotFound.message(), "couldn't find name of task");
    assert_eq!(SchemaError::DepWrongType.message(), "incorrect type for a dependency");
}

#[test]
fn build_errors_have_their_messages() {
    assert_eq!(BuildError::Schema(SchemaError::TasksNotFound).message(), "tasks not found");
    assert_eq!(BuildError::InputNotFound("inc/one.yaml".to_string()).message(), "inc/one.yaml");
}
