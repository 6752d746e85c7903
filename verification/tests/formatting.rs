use toml2bash::format::format_bash;
use toml2bash::value::Value;

fn s(text: &str) -> Value {
    Value::Str(text.to_string())
}

fn table(entries: Vec<(&str, Value)>) -> Value {
    Value::Table(entries.into_iter().map(|(k, v)| (k.to_string(), v)).collect())
}

#[test]
fn scalar_string_plain() {
    let out = format_bash("X", &s("word"));
    assert_eq!(out, "declare X=word\n");
}

#[test]
fn scalar_string_with_space() {
    let out = format_bash("X", &s("a b"));
    assert_eq!(out, "declare X='a b'\n");
}

#[test]
fn scalar_string_with_single_quote() {
    let out = format_bash("X", &s("don't"));
    assert_eq!(out, "declare X='don'\\''t'\n");
}

#[test]
fn scalar_string_with_bang() {
    let out = format_bash("X", &s("hi!"));
    assert_eq!(out, "declare X='hi'\\!''\n");
}

#[test]
fn scalar_string_with_dollar_and_backtick() {
    let out = format_bash("X", &s("$(v) `w`"));
    assert_eq!(out, "declare X='$(v) `w`'\n");
}

#[test]
fn scalar_string_with_newline_and_glob() {
    let out = format_bash("X", &s("a\nb*"));
    assert_eq!(out, "declare X='a\nb*'\n");
}

#[test]
fn scalar_empty_string() {
    let out = format_bash("X", &s(""));
    assert_eq!(out, "declare X=''\n");
}

#[test]
fn scalar_integer_uses_declare_i() {
    let out = format_bash("N", &Value::Integer(42));
    assert_eq!(out, "declare -i N=42\n");
}

#[test]
fn scalar_integer_zero() {
    let out = format_bash("N", &Value::Integer(0));
    assert_eq!(out, "declare -i N=0\n");
}

#[test]
fn scalar_integer_negative() {
    let out = format_bash("N", &Value::Integer(-7));
    assert_eq!(out, "declare -i N=-7\n");
}

#[test]
fn scalar_integer_extremes() {
    let out = format_bash("N", &Value::Integer(i64::MIN));
    assert_eq!(out, "declare -i N=-9223372036854775808\n");
    let out = format_bash("N", &Value::Integer(i64::MAX));
    assert_eq!(out, "declare -i N=9223372036854775807\n");
}

#[test]
fn scalar_booleans() {
    assert_eq!(format_bash("B", &Value::Boolean(true)), "declare B=true\n");
    assert_eq!(format_bash("B", &Value::Boolean(false)), "declare B=false\n");
}

#[test]
fn scalar_float_text_is_written_verbatim() {
    let out = format_bash("F", &Value::Float(format!("{}", 1.5f64)));
    assert_eq!(out, "declare F=1.5\n");
}

#[test]
fn scalar_datetime_text_is_written_verbatim() {
    let out = format_bash("D", &Value::Datetime("1979-05-27T07:32:00Z".to_string()));
    assert_eq!(out, "declare D=1979-05-27T07:32:00Z\n");
}

#[test]
fn empty_array() {
    let out = format_bash("NAME", &Value::Array(Vec::new()));
    assert_eq!(out, "declare -a NAME=()\n");
}

#[test]
fn empty_table() {
    let out = format_bash("NAME", &table(Vec::new()));
    assert_eq!(out, "declare -A NAME=()\n");
}

#[test]
fn array_of_atoms() {
    let arr = Value::Array(vec![Value::Integer(1), s("a b"), Value::Boolean(true)]);
    let out = format_bash("A", &arr);
    assert_eq!(out, "declare -a A=(1 'a b' true)\n");
}

#[test]
fn array_drops_nested_values_keeps_order() {
    let nested_table = table(vec![("x", Value::Integer(1))]);
    let nested_array = Value::Array(vec![Value::Integer(9)]);
    let arr = Value::Array(vec![
        nested_array,
        Value::Integer(1),
        nested_table,
        Value::Integer(2),
        s("end"),
    ]);
    let out = format_bash("A", &arr);
    assert_eq!(out, "declare -a A=(1 2 end)\n");
}

#[test]
fn array_of_only_nested_values_is_empty() {
    let arr = Value::Array(vec![Value::Array(Vec::new()), table(Vec::new())]);
    let out = format_bash("A", &arr);
    assert_eq!(out, "declare -a A=()\n");
}

#[test]
fn table_of_atoms() {
    let t = table(vec![("k1", Value::Integer(1)), ("k2", s("x"))]);
    let out = format_bash("Y", &t);
    assert_eq!(out, "declare -A Y=([k1]=1 [k2]=x)\n");
}

#[test]
fn table_drops_nested_values_keeps_order() {
    let t = table(vec![
        ("a", Value::Integer(1)),
        ("sub", table(vec![("x", Value::Integer(2))])),
        ("b", s("two words")),
        ("list", Value::Array(vec![Value::Integer(3)])),
    ]);
    let out = format_bash("T", &t);
    assert_eq!(out, "declare -A T=([a]=1 [b]='two words')\n");
}

#[test]
fn table_of_only_nested_values_is_empty() {
    let t = table(vec![
        ("sub", table(vec![("x", Value::Integer(1))])),
        ("list", Value::Array(Vec::new())),
    ]);
    let out = format_bash("T", &t);
    assert_eq!(out, "declare -A T=()\n");
}

#[test]
fn table_key_is_escaped() {
    let t = table(vec![("odd key", Value::Integer(1))]);
    let out = format_bash("T", &t);
    assert_eq!(out, "declare -A T=(['odd key']=1)\n");
}
