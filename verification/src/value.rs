//! The configuration value tree: a tagged union over the shapes a TOML
//! document can take. Floats and datetimes are carried as the text they
//! render to, so the formatter's output is a pure function of this tree.

use vstd::prelude::*;

verus! {

/// A configuration value. Tables keep their entries in stored order as a
/// sequence of key/value pairs.
#[derive(Debug)]
pub enum Value {
    /// A text value.
    Str(String),
    /// An integer value.
    Integer(i64),
    /// A floating-point value, held as its decimal rendering.
    Float(String),
    /// A boolean value.
    Boolean(bool),
    /// A date-time value, held as its canonical textual form.
    Datetime(String),
    /// An ordered sequence of values.
    Array(Vec<Value>),
    /// A mapping from textual keys to values, in stored order.
    Table(Vec<(String, Value)>),
}

/// An atomic value is one that renders to a single shell word: anything but
/// an array or a table.
pub open spec fn is_atomic_spec(v: Value) -> bool {
    match v {
        Value::Array(_) => false,
        Value::Table(_) => false,
        _ => true,
    }
}

/// Whether `v` is atomic, i.e. neither an array nor a table.
pub fn is_atomic(v: &Value) -> (r: bool)
    ensures
        r == is_atomic_spec(*v),
{
    match v {
        Value::Array(_) => false,
        Value::Table(_) => false,
        _ => true,
    }
}

} // verus!
