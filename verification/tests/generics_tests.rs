use yaml_process::errors::ProcessError;
use yaml_process::generics::{
    apply_generic, find_generics, int_to_string, process_generics, replace_generic,
    yaml_to_string,
};
use yaml_process::value::{value_eq, Value};

fn text(s: &str) -> Value {
    Value::Text(s.to_string())
}

fn mapping(pairs: Vec<(&str, Value)>) -> Value {
    let mut entries: Vec<(Value, Value)> = Vec::new();
    for (k, v) in pairs {
        entries.push((text(k), v));
    }
    Value::Mapping(entries)
}

#[test]
fn generic_round_trip() {
    let doc = mapping(vec![
        ("Widget<GENERIC>", mapping(vec![("kind", text("T"))])),
        (
            "w",
            mapping(vec![(
                "$generic",
                mapping(vec![("target", text("Widget")), ("T", text("string"))]),
            )]),
        ),
    ]);
    match apply_generic(&doc) {
        Ok(out) => {
            let expected = mapping(vec![("w", mapping(vec![("kind", text("string"))]))]);
            assert!(value_eq(&out, &expected));
        },
        Err(_) => panic!("the invocation must instantiate"),
    }
}

#[test]
fn unknown_target_fails_closed() {
    let doc = mapping(vec![
        ("ok", text("kept")),
        (
            "w",
            mapping(vec![("$generic", mapping(vec![("target", text("Missing"))]))]),
        ),
    ]);
    match apply_generic(&doc) {
        Err(ProcessError::UnknownTemplate(target)) => assert_eq!(target, "Missing"),
        _ => panic!("an unknown target must abort the whole document"),
    }
}

#[test]
fn unbound_placeholder_is_kept() {
    let doc = mapping(vec![
        (
            "Box<GENERIC>",
            mapping(vec![("note", text("X")), ("kind", text("T"))]),
        ),
        (
            "b",
            mapping(vec![(
                "$generic",
                mapping(vec![("target", text("Box")), ("T", text("int"))]),
            )]),
        ),
    ]);
    match apply_generic(&doc) {
        Ok(out) => {
            let expected = mapping(vec![(
                "b",
                mapping(vec![("note", text("X")), ("kind", text("int"))]),
            )]);
            assert!(value_eq(&out, &expected));
        },
        Err(_) => panic!("the invocation must instantiate"),
    }
}

#[test]
fn find_generics_collects_nested_definitions() {
    let doc = mapping(vec![
        ("A<GENERIC>", text("a")),
        (
            "deep",
            Value::Sequence(vec![mapping(vec![("B<GENERIC>", Value::Int(2))])]),
        ),
        ("plain", text("x")),
    ]);
    let table = find_generics(&doc);
    assert_eq!(table.len(), 2);
    assert_eq!(table[0].0, "A");
    assert!(value_eq(&table[0].1, &text("a")));
    assert_eq!(table[1].0, "B");
    assert!(value_eq(&table[1].1, &Value::Int(2)));
}

#[test]
fn definition_keys_are_stripped_from_output() {
    let doc = mapping(vec![("A<GENERIC>", text("a")), ("keep", Value::Int(1))]);
    match apply_generic(&doc) {
        Ok(out) => assert!(value_eq(&out, &mapping(vec![("keep", Value::Int(1))]))),
        Err(_) => panic!("a document without invocations must instantiate"),
    }
}

#[test]
fn substitution_sites_are_entry_values_only() {
    // A bound name inside a sequence element, or standing as a key, is not
    // a substitution site.
    let body = mapping(vec![
        ("items", Value::Sequence(vec![text("T")])),
        ("T", text("T")),
    ]);
    let types = vec![("T".to_string(), Value::Int(7))];
    let out = replace_generic(&body, &types);
    let expected = mapping(vec![
        ("items", Value::Sequence(vec![text("T")])),
        ("T", Value::Int(7)),
    ]);
    assert!(value_eq(&out, &expected));
}

#[test]
fn bound_value_is_inserted_as_is() {
    let body = mapping(vec![("kind", text("T"))]);
    let bound = mapping(vec![("nested", text("T"))]);
    let types = vec![("T".to_string(), bound.clone())];
    let out = replace_generic(&body, &types);
    // No further substitution happens inside the bound value.
    assert!(value_eq(&out, &mapping(vec![("kind", bound)])));
}

#[test]
fn generic_value_must_be_mapping() {
    let doc = mapping(vec![("$generic", text("Widget"))]);
    match process_generics(&doc, &Vec::new()) {
        Err(ProcessError::MalformedGeneric) => {},
        _ => panic!("a non-mapping $generic value must fail"),
    }
}

#[test]
fn generic_without_target_fails() {
    let doc = mapping(vec![("$generic", mapping(vec![("T", text("int"))]))]);
    match process_generics(&doc, &Vec::new()) {
        Err(ProcessError::MalformedGeneric) => {},
        _ => panic!("an invocation without a target must fail"),
    }
}

#[test]
fn generic_target_must_be_text() {
    let doc = mapping(vec![("$generic", mapping(vec![("target", Value::Int(3))]))]);
    match process_generics(&doc, &Vec::new()) {
        Err(ProcessError::MalformedGeneric) => {},
        _ => panic!("a non-text target must fail"),
    }
}

#[test]
fn yaml_to_string_renders_each_kind() {
    assert_eq!(yaml_to_string(&Value::Null), "Null");
    assert_eq!(yaml_to_string(&Value::Bool(true)), "true");
    assert_eq!(yaml_to_string(&Value::Bool(false)), "false");
    assert_eq!(yaml_to_string(&Value::Int(-42)), "-42");
    assert_eq!(yaml_to_string(&Value::Real("3.25".to_string())), "3.25");
    assert_eq!(yaml_to_string(&text("hi")), "hi");
    assert_eq!(yaml_to_string(&Value::Sequence(Vec::new())), "Array");
    assert_eq!(yaml_to_string(&Value::Mapping(Vec::new())), "Object");
}

#[test]
fn int_to_string_exact_values() {
    assert_eq!(int_to_string(0), "0");
    assert_eq!(int_to_string(7), "7");
    assert_eq!(int_to_string(-1), "-1");
    assert_eq!(int_to_string(12345), "12345");
    assert_eq!(int_to_string(i64::MAX), "9223372036854775807");
    assert_eq!(int_to_string(i64::MIN), "-9223372036854775808");
}

#[test]
fn numeric_binding_key_is_usable() {
    // A non-text binding key is read as its rendered string.
    let doc = mapping(vec![
        ("N<GENERIC>", mapping(vec![("v", text("5"))])),
        (
            "n",
            {
                let inner = Value::Mapping(vec![
                    (text("target"), text("N")),
                    (Value::Int(5), text("five")),
                ]);
                Value::Mapping(vec![(text("$generic"), inner)])
            },
        ),
    ]);
    match apply_generic(&doc) {
        Ok(out) => {
            let expected = mapping(vec![("n", mapping(vec![("v", text("five"))]))]);
            assert!(value_eq(&out, &expected));
        },
        Err(_) => panic!("the invocation must instantiate"),
    }
}
