//! Exports run against documents parsed by the real TOML parser, converted
//! into the library's value tree the same way the surrounding program does.

use toml2bash::export::export_one;
use toml2bash::resolve::Error;
use toml2bash::value::Value;

fn conv(v: &toml::Value) -> Value {
    match v {
        toml::Value::String(s) => Value::Str(s.clone()),
        toml::Value::Integer(i) => Value::Integer(*i),
        toml::Value::Float(f) => Value::Float(format!("{}", f)),
        toml::Value::Boolean(b) => Value::Boolean(*b),
        toml::Value::Datetime(d) => Value::Datetime(d.to_string()),
        toml::Value::Array(a) => Value::Array(a.iter().map(conv).collect()),
        toml::Value::Table(t) => {
            Value::Table(t.iter().map(|(k, v)| (k.clone(), conv(v))).collect())
        }
    }
}

fn parse(input: &str) -> Value {
    let t: toml::Table = input.parse().unwrap();
    conv(&toml::Value::Table(t))
}

#[test]
fn scalar_with_space_round_trips() {
    let root = parse("name = \"a b\"");
    let out = export_one(&root, "X=name").unwrap();
    assert_eq!(out, "declare X='a b'\n");
}

#[test]
fn table_export() {
    let root = parse("[t]\nk1=1\nk2=\"x\"");
    let out = export_one(&root, "Y=t").unwrap();
    assert_eq!(out, "declare -A Y=([k1]=1 [k2]=x)\n");
}

#[test]
fn array_with_nested_table_element() {
    let root = parse("arr = [1, 2, {x=1}]");
    let out = export_one(&root, "A=arr").unwrap();
    assert_eq!(out, "declare -a A=(1 2)\n");
}

#[test]
fn missing_key_fails() {
    let root = parse("");
    let e = export_one(&root, "Z=missing.path").unwrap_err();
    match e {
        Error::NoSuchKey { key } => assert_eq!(key, "missing.path"),
        _ => panic!("expected a key-not-found error"),
    }
}

#[test]
fn datetime_and_float_values() {
    let root = parse("when = 1979-05-27T07:32:00Z\nratio = 0.25");
    let out = export_one(&root, "W=when").unwrap();
    assert_eq!(out, "declare W=1979-05-27T07:32:00Z\n");
    let out = export_one(&root, "R=ratio").unwrap();
    assert_eq!(out, "declare R=0.25\n");
}

#[test]
fn deep_path_through_tables() {
    let root = parse("[a.b]\nc = \"it's here\"");
    let out = export_one(&root, "V=a.b.c").unwrap();
    assert_eq!(out, "declare V='it'\\''s here'\n");
}
