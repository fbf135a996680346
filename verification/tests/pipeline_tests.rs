use yaml_process::errors::ProcessError;
use yaml_process::inclusion::{including, SourceFile, SourceTable};
use yaml_process::process;
use yaml_process::value::{value_eq, Value};

fn text(s: &str) -> Value {
    Value::Text(s.to_string())
}

fn mapping(pairs: Vec<(&str, Value)>) -> Value {
    let mut entries: Vec<(Value, Value)> = Vec::new();
    for (k, v) in pairs {
        entries.push((text(k), v));
    }
    Value::Mapping(entries)
}

fn file(dir: &str, doc: Value) -> SourceFile {
    SourceFile { dir: dir.to_string(), doc }
}

#[test]
fn plain_tree_is_unchanged() {
    let doc = mapping(vec![
        ("title", text("api")),
        ("count", Value::Int(3)),
        (
            "parts",
            Value::Sequence(vec![text("a"), mapping(vec![("deep", Value::Bool(true))])]),
        ),
    ]);
    let sources = SourceTable::new();
    match process(&doc, "/docs", &sources) {
        Ok(out) => assert!(value_eq(&out, &doc)),
        Err(_) => panic!("a plain tree must process cleanly"),
    }
}

#[test]
fn merge_override() {
    let a = mapping(vec![("x", Value::Int(1)), ("y", Value::Int(2))]);
    let b = mapping(vec![("y", Value::Int(3)), ("z", Value::Int(4))]);
    let mut sources = SourceTable::new();
    sources.add(
        "/docs/parts/*.yaml".to_string(),
        vec![file("/docs/parts", a), file("/docs/parts", b)],
    );
    let root = mapping(vec![("$include", text("parts/*.yaml"))]);
    let expected = mapping(vec![
        ("x", Value::Int(1)),
        ("y", Value::Int(3)),
        ("z", Value::Int(4)),
    ]);
    match process(&root, "/docs", &sources) {
        Ok(out) => assert!(value_eq(&out, &expected)),
        Err(_) => panic!("the include must resolve"),
    }
}

fn holds_include_key(v: &Value) -> bool {
    match v {
        Value::Sequence(items) => items.iter().any(holds_include_key),
        Value::Mapping(entries) => entries.iter().any(|(k, val)| {
            value_eq(k, &Value::Text("$include".to_string())) || holds_include_key(val)
        }),
        _ => false,
    }
}

#[test]
fn recursive_inclusion() {
    let inner = mapping(vec![("n", Value::Int(1))]);
    let middle = mapping(vec![("$include", text("b.yaml"))]);
    let mut sources = SourceTable::new();
    sources.add("/d/a.yaml".to_string(), vec![file("/d", middle)]);
    sources.add("/d/b.yaml".to_string(), vec![file("/d", inner)]);
    let root = mapping(vec![("$include", text("a.yaml"))]);
    match process(&root, "/d", &sources) {
        Ok(out) => {
            assert!(value_eq(&out, &mapping(vec![("n", Value::Int(1))])));
            assert!(!holds_include_key(&out));
        },
        Err(_) => panic!("nested includes must resolve"),
    }
}

#[test]
fn missing_pattern_aborts_run() {
    let root = mapping(vec![
        ("kept", Value::Int(1)),
        ("bad", mapping(vec![("$include", text("missing/*.yaml"))])),
    ]);
    let sources = SourceTable::new();
    match process(&root, "/docs", &sources) {
        Err(ProcessError::UnresolvedInclude(pattern)) => {
            assert_eq!(pattern, "/docs/missing/*.yaml");
        },
        _ => panic!("a pattern with no loaded content must abort the whole run"),
    }
}

#[test]
fn cyclic_include_fails() {
    let selfref = mapping(vec![("$include", text("a.yaml"))]);
    let mut sources = SourceTable::new();
    sources.add("/d/a.yaml".to_string(), vec![file("/d", selfref)]);
    let root = mapping(vec![("$include", text("a.yaml"))]);
    match process(&root, "/d", &sources) {
        Err(ProcessError::CyclicInclude(pattern)) => assert_eq!(pattern, "/d/a.yaml"),
        _ => panic!("a cyclic include must fail"),
    }
}

#[test]
fn malformed_include_value_fails() {
    let root = mapping(vec![("$include", Value::Int(5))]);
    let sources = SourceTable::new();
    match process(&root, "/docs", &sources) {
        Err(ProcessError::MalformedInclude) => {},
        _ => panic!("a non-text include pattern must fail"),
    }
}

#[test]
fn directive_replaces_whole_mapping() {
    // A mapping holding the reserved key is wholly a directive: its other
    // entries do not survive.
    let a = mapping(vec![("x", Value::Int(1))]);
    let mut sources = SourceTable::new();
    sources.add("/d/a.yaml".to_string(), vec![file("/d", a)]);
    let root = mapping(vec![("other", Value::Int(9)), ("$include", text("a.yaml"))]);
    match including(&root, "/d", &sources, 1) {
        Ok(out) => assert!(value_eq(&out, &mapping(vec![("x", Value::Int(1))]))),
        Err(_) => panic!("the include must resolve"),
    }
}

#[test]
fn absolute_pattern_ignores_base() {
    let a = mapping(vec![("x", Value::Int(1))]);
    let mut sources = SourceTable::new();
    sources.add("/abs/a.yaml".to_string(), vec![file("/abs", a)]);
    let root = mapping(vec![("$include", text("/abs/a.yaml"))]);
    match including(&root, "/elsewhere", &sources, 1) {
        Ok(out) => assert!(value_eq(&out, &mapping(vec![("x", Value::Int(1))]))),
        Err(_) => panic!("the absolute include must resolve"),
    }
}

#[test]
fn empty_expansion_gives_empty_mapping() {
    let mut sources = SourceTable::new();
    sources.add("/d/none/*.yaml".to_string(), Vec::new());
    let root = mapping(vec![("$include", text("none/*.yaml"))]);
    match including(&root, "/d", &sources, 1) {
        Ok(out) => assert!(value_eq(&out, &Value::Mapping(Vec::new()))),
        Err(_) => panic!("an empty expansion must resolve to an empty mapping"),
    }
}

#[test]
fn included_template_is_visible_everywhere() {
    // A definition arriving through an include is usable by an invocation
    // in the root document: resolution runs before extraction.
    let lib = mapping(vec![(
        "Widget<GENERIC>",
        mapping(vec![("kind", text("T"))]),
    )]);
    let mut sources = SourceTable::new();
    sources.add("/d/lib.yaml".to_string(), vec![file("/d", lib)]);
    let root = mapping(vec![
        ("defs", mapping(vec![("$include", text("lib.yaml"))])),
        (
            "w",
            mapping(vec![(
                "$generic",
                mapping(vec![("target", text("Widget")), ("T", text("number"))]),
            )]),
        ),
    ]);
    match process(&root, "/d", &sources) {
        Ok(out) => {
            let expected = mapping(vec![
                ("defs", mapping(vec![])),
                ("w", mapping(vec![("kind", text("number"))])),
            ]);
            assert!(value_eq(&out, &expected));
        },
        Err(_) => panic!("the run must succeed"),
    }
}
