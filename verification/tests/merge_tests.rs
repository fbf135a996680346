use yaml_process::merge::concat_hash;
use yaml_process::value::{mapping_get, mapping_insert, value_eq, Value};

fn text(s: &str) -> Value {
    Value::Text(s.to_string())
}

fn mapping(pairs: Vec<(&str, Value)>) -> Value {
    let mut entries: Vec<(Value, Value)> = Vec::new();
    for (k, v) in pairs {
        entries.push((text(k), v));
    }
    Value::Mapping(entries)
}

#[test]
fn concat_hash_test() {
    let mut hash1: Vec<(Value, Value)> = vec![
        (text("key1"), text("value1")),
        (text("key2"), text("value2")),
    ];

    let hash2 = mapping(vec![("key3", text("value3")), ("key2", text("new value"))]);

    concat_hash(&mut hash1, &hash2);

    // The duplicate key keeps its first-occurrence position and takes the
    // later source's value; the fresh key is appended.
    let expected = vec![
        (text("key1"), text("value1")),
        (text("key2"), text("new value")),
        (text("key3"), text("value3")),
    ];
    assert!(value_eq(&Value::Mapping(hash1), &Value::Mapping(expected)));
}

#[test]
fn concat_flattens_sequences_and_ignores_scalars() {
    let mut acc: Vec<(Value, Value)> = Vec::new();
    let source = Value::Sequence(vec![
        mapping(vec![("a", Value::Int(1))]),
        Value::Sequence(vec![mapping(vec![("b", Value::Int(2))])]),
        Value::Int(7),
        Value::Null,
    ]);
    concat_hash(&mut acc, &source);
    let expected = mapping(vec![("a", Value::Int(1)), ("b", Value::Int(2))]);
    assert!(value_eq(&Value::Mapping(acc), &expected));
}

#[test]
fn mapping_insert_overwrites_in_place() {
    let mut entries: Vec<(Value, Value)> = vec![
        (text("x"), Value::Int(1)),
        (text("y"), Value::Int(2)),
    ];
    mapping_insert(&mut entries, text("x"), Value::Int(9));
    mapping_insert(&mut entries, text("z"), Value::Int(3));
    let expected = mapping(vec![
        ("x", Value::Int(9)),
        ("y", Value::Int(2)),
        ("z", Value::Int(3)),
    ]);
    assert!(value_eq(&Value::Mapping(entries.clone()), &expected));
    match mapping_get(&entries, &text("x")) {
        Some(v) => assert!(value_eq(v, &Value::Int(9))),
        None => panic!("key x must be present"),
    }
    assert!(mapping_get(&entries, &text("w")).is_none());
}
