use toml2bash::export::{export_one, process_exports, ExportSpec};
use toml2bash::resolve::{get_path, Error};
use toml2bash::value::Value;

fn s(text: &str) -> Value {
    Value::Str(text.to_string())
}

fn table(entries: Vec<(&str, Value)>) -> Value {
    Value::Table(entries.into_iter().map(|(k, v)| (k.to_string(), v)).collect())
}

fn path(segs: &[&str]) -> Vec<String> {
    segs.iter().map(|p| p.to_string()).collect()
}

#[test]
fn export_spec_parses_name_and_path() {
    let spec = ExportSpec::from_str("X=a.b.c").unwrap();
    assert_eq!(spec.as_var, "X");
    assert_eq!(spec.path, vec!["a", "b", "c"]);
}

#[test]
fn export_spec_splits_on_first_equals() {
    let spec = ExportSpec::from_str("X=a=b").unwrap();
    assert_eq!(spec.as_var, "X");
    assert_eq!(spec.path, vec!["a=b"]);
}

#[test]
fn export_spec_without_equals_is_invalid() {
    let r = ExportSpec::from_str("badspec");
    assert!(matches!(r, Err(Error::ExportSpecError)));
}

#[test]
fn export_spec_error_message() {
    let e = ExportSpec::from_str("badspec").unwrap_err();
    assert_eq!(e.message(), "Invalid export specification");
}

#[test]
fn empty_path_resolves_to_root() {
    let root = table(vec![("a", Value::Integer(1))]);
    let v = get_path(&root, &path(&[])).unwrap();
    assert!(matches!(v, Value::Table(_)));
}

#[test]
fn nested_lookup_succeeds() {
    let root = table(vec![("a", table(vec![("b", s("deep"))]))]);
    let v = get_path(&root, &path(&["a", "b"])).unwrap();
    assert!(matches!(v, Value::Str(t) if t == "deep"));
}

#[test]
fn missing_key_reports_full_dotted_path() {
    let root = table(Vec::new());
    let e = get_path(&root, &path(&["missing", "path"])).unwrap_err();
    match e {
        Error::NoSuchKey { key } => assert_eq!(key, "missing.path"),
        _ => panic!("expected a key-not-found error"),
    }
}

#[test]
fn non_table_intermediate_reports_full_dotted_path() {
    let root = table(vec![("a", s("leaf"))]);
    let e = get_path(&root, &path(&["a", "b", "c"])).unwrap_err();
    match e {
        Error::NoSuchKey { key } => assert_eq!(key, "a.b.c"),
        _ => panic!("expected a key-not-found error"),
    }
}

#[test]
fn array_is_not_indexable_by_key() {
    let root = table(vec![("arr", Value::Array(vec![Value::Integer(1)]))]);
    let e = get_path(&root, &path(&["arr", "0"])).unwrap_err();
    match e {
        Error::NoSuchKey { key } => assert_eq!(key, "arr.0"),
        _ => panic!("expected a key-not-found error"),
    }
}

#[test]
fn no_such_key_message_contains_path() {
    let root = table(Vec::new());
    let e = export_one(&root, "Z=missing.path").unwrap_err();
    assert_eq!(e.message(), "No such key: missing.path");
}

#[test]
fn export_with_bad_spec_yields_no_output() {
    let root = table(vec![("a", Value::Integer(1))]);
    let r = export_one(&root, "badspec");
    assert!(matches!(r, Err(Error::ExportSpecError)));
}

#[test]
fn export_with_empty_path_fails_unless_empty_key_exists() {
    let root = table(vec![("a", Value::Integer(1))]);
    let e = export_one(&root, "X=").unwrap_err();
    match e {
        Error::NoSuchKey { key } => assert_eq!(key, ""),
        _ => panic!("expected a key-not-found error"),
    }
}

#[test]
fn export_scalar() {
    let root = table(vec![("name", s("a b"))]);
    let out = export_one(&root, "X=name").unwrap();
    assert_eq!(out, "declare X='a b'\n");
}

#[test]
fn export_nested_value() {
    let root = table(vec![("t", table(vec![("n", Value::Integer(5))]))]);
    let out = export_one(&root, "N=t.n").unwrap();
    assert_eq!(out, "declare -i N=5\n");
}

#[test]
fn exports_concatenate_in_request_order() {
    let root = table(vec![("a", Value::Integer(1)), ("b", s("x"))]);
    let specs = vec!["B=b".to_string(), "A=a".to_string()];
    let (out, err) = process_exports(&root, &specs);
    assert!(err.is_none());
    assert_eq!(out, "declare B=x\ndeclare -i A=1\n");
}

#[test]
fn first_failure_keeps_earlier_output_and_stops() {
    let root = table(vec![("a", Value::Integer(1)), ("b", s("x"))]);
    let specs = vec!["A=a".to_string(), "Z=missing".to_string(), "B=b".to_string()];
    let (out, err) = process_exports(&root, &specs);
    assert_eq!(out, "declare -i A=1\n");
    match err {
        Some(Error::NoSuchKey { key }) => assert_eq!(key, "missing"),
        _ => panic!("expected a key-not-found error"),
    }
}
