use yaml_process::errors::{ProcessError, YamlProcessError};
use yaml_process::generics::str_eq;
use yaml_process::logger::Logger;
use yaml_process::paths::get_include_path;
use yaml_process::value::{value_eq, Value};

fn text(s: &str) -> Value {
    Value::Text(s.to_string())
}

#[test]
fn include_path_joining() {
    assert_eq!(get_include_path("/docs", "parts/*.yaml"), "/docs/parts/*.yaml");
    assert_eq!(get_include_path("/docs/", "parts/*.yaml"), "/docs/parts/*.yaml");
    assert_eq!(get_include_path("/docs", "/abs/x.yaml"), "/abs/x.yaml");
    assert_eq!(get_include_path("", "x.yaml"), "x.yaml");
}

#[test]
fn logger_emits_by_level() {
    let quiet = Logger { verbose: false };
    let loud = Logger { verbose: true };
    assert_eq!(quiet.print(true, "hidden"), None);
    assert_eq!(quiet.print(false, "shown"), Some("shown".to_string()));
    assert_eq!(loud.print(true, "shown"), Some("shown".to_string()));
    assert_eq!(quiet.println(true, "hidden"), None);
    assert_eq!(loud.println(true, "line"), Some("line\n".to_string()));
    assert_eq!(quiet.println(false, "line"), Some("line\n".to_string()));
}

#[test]
fn error_messages_name_the_failure() {
    let unresolved = ProcessError::UnresolvedInclude("/d/p/*.yaml".to_string());
    assert_eq!(
        YamlProcessError::from_process_error(&unresolved).message,
        "no loaded content for include pattern '/d/p/*.yaml'"
    );
    let cyclic = ProcessError::CyclicInclude("/d/a.yaml".to_string());
    assert_eq!(
        YamlProcessError::from_process_error(&cyclic).message,
        "includes nest without end at pattern '/d/a.yaml'"
    );
    assert_eq!(
        YamlProcessError::from_process_error(&ProcessError::MalformedInclude).message,
        "an $include value must be a string pattern"
    );
    assert_eq!(
        YamlProcessError::from_process_error(&ProcessError::MalformedGeneric).message,
        "a $generic value must be a mapping with a string target"
    );
    let unknown = ProcessError::UnknownTemplate("Widget".to_string());
    assert_eq!(
        YamlProcessError::from_process_error(&unknown).message,
        "there is no generic found for Widget"
    );
}

#[test]
fn structural_equality() {
    let a = Value::Sequence(vec![text("x"), Value::Int(1)]);
    let b = Value::Sequence(vec![text("x"), Value::Int(1)]);
    let c = Value::Sequence(vec![text("x"), Value::Int(2)]);
    assert!(value_eq(&a, &b));
    assert!(!value_eq(&a, &c));
    assert!(!value_eq(&a, &text("x")));
    assert!(!value_eq(&Value::Real("1.0".to_string()), &text("1.0")));
    let m1 = Value::Mapping(vec![(text("k"), Value::Null)]);
    let m2 = Value::Mapping(vec![(text("k"), Value::Null)]);
    let m3 = Value::Mapping(vec![(text("j"), Value::Null)]);
    assert!(value_eq(&m1, &m2));
    assert!(!value_eq(&m1, &m3));
    assert!(value_eq(&a.clone(), &a));
}

#[test]
fn str_eq_compares_characters() {
    assert!(str_eq("", ""));
    assert!(str_eq("abc", "abc"));
    assert!(!str_eq("abc", "abd"));
    assert!(!str_eq("abc", "ab"));
    assert!(str_eq("naïve", "naïve"));
}
