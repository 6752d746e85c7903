//! The path resolver: walks the configuration tree along a dotted key path.
//!
//! Each segment is looked up in the current value treated as a table; arrays
//! are not indexable this way. Resolution is all-or-nothing: the first
//! segment that is absent, or met on a non-table value, fails the whole path,
//! and the error carries the entire originally requested dotted path.

use vstd::prelude::*;
use vstd::string::StringExecFns;
use crate::value::Value;

verus! {

/// The errors the library reports.
#[derive(Debug)]
pub enum Error {
    /// An export specification without an `=` separator.
    ExportSpecError,
    /// A dotted path that could not be resolved; `key` is the full path as
    /// requested.
    NoSuchKey { key: String },
}

/// The one-line message for an error.
pub open spec fn error_message_spec(e: Error) -> Seq<char> {
    match e {
        Error::ExportSpecError => "Invalid export specification"@,
        Error::NoSuchKey { key } => "No such key: "@ + key@,
    }
}

impl Error {
    /// Renders the error as its one-line message.
    pub fn message(&self) -> (r: String)
        ensures
            r@ == error_message_spec(*self),
    {
        match self {
            Error::ExportSpecError => String::from_str("Invalid export specification"),
            Error::NoSuchKey { key } => {
                let mut s = String::from_str("No such key: ");
                s.append(key.as_str());
                s
            },
        }
    }
}

/// The value under `key` among `entries`: the first entry with that key, if
/// any.
pub open spec fn table_lookup(entries: Seq<(String, Value)>, key: Seq<char>) -> Option<Value>
    decreases entries.len(),
{
    if entries.len() == 0 {
        None
    } else if entries[0].0@ == key {
        Some(entries[0].1)
    } else {
        table_lookup(entries.skip(1), key)
    }
}

/// One lookup step: `key` in `v` treated as a table. Anything that is not a
/// table has no keys.
pub open spec fn value_get(v: Value, key: Seq<char>) -> Option<Value> {
    match v {
        Value::Table(tbl) => table_lookup(tbl@, key),
        _ => None,
    }
}

/// The value `path` denotes under `v`: successive table lookups, one per
/// segment; `None` as soon as one fails.
pub open spec fn resolve_spec(v: Value, path: Seq<Seq<char>>) -> Option<Value>
    decreases path.len(),
{
    if path.len() == 0 {
        Some(v)
    } else {
        match value_get(v, path[0]) {
            Some(v2) => resolve_spec(v2, path.skip(1)),
            None => None,
        }
    }
}

/// A path with segments left cannot resolve through a non-table value:
/// scalars and arrays have no keys, so resolution fails there — and
/// [`get_path`] then reports the whole requested dotted path.
pub proof fn lemma_resolve_non_table(v: Value, path: Seq<Seq<char>>)
    requires
        path.len() > 0,
        !(v matches Value::Table(_)),
    ensures
        resolve_spec(v, path) is None,
{
}

/// The views of a sequence of strings.
pub open spec fn views(ss: Seq<String>) -> Seq<Seq<char>> {
    ss.map_values(|s: String| s@)
}

/// The segments joined back with `.` between them.
pub open spec fn dotted_path(segs: Seq<Seq<char>>) -> Seq<char>
    decreases segs.len(),
{
    if segs.len() == 0 {
        Seq::empty()
    } else if segs.len() == 1 {
        segs[0]
    } else {
        dotted_path(segs.drop_last()) + seq!['.'] + segs.last()
    }
}

/// Joins `path` with `.` between the segments.
fn join_dotted(path: &Vec<String>) -> (r: String)
    ensures
        r@ == dotted_path(views(path@)),
{
    let mut out = String::new();
    let mut i: usize = 0;
    while i < path.len()
        invariant
            i <= path.len(),
            out@ == dotted_path(views(path@.take(i as int))),
        decreases path.len() - i,
    {
        let ghost pre = views(path@.take(i as int));
        let ghost post = views(path@.take(i + 1 as int));
        proof {
            assert(post.drop_last() =~= pre);
            assert(post.last() == path@[i as int]@);
        }
        if i > 0 {
            out.append(".");
            proof {
                reveal_strlit(".");
                assert("."@ =~= seq!['.']);
            }
        }
        out.append(path[i].as_str());
        i += 1;
    }
    proof {
        assert(path@.take(path@.len() as int) =~= path@);
    }
    out
}

/// Looks up `key` among the entries of a table.
fn entries_get<'a>(entries: &'a Vec<(String, Value)>, key: &String) -> (r: Option<&'a Value>)
    ensures
        match r {
            Some(v) => table_lookup(entries@, key@) == Some(*v),
            None => table_lookup(entries@, key@) is None,
        },
{
    let mut i: usize = 0;
    proof {
        assert(entries@.skip(0) =~= entries@);
    }
    while i < entries.len()
        invariant
            i <= entries.len(),
            table_lookup(entries@, key@) == table_lookup(entries@.skip(i as int), key@),
        decreases entries.len() - i,
    {
        let ghost rest = entries@.skip(i as int);
        proof {
            assert(rest[0] == entries@[i as int]);
            assert(rest.skip(1) =~= entries@.skip(i + 1 as int));
        }
        let entry = &entries[i];
        if entry.0 == *key {
            return Some(&entry.1);
        }
        i += 1;
    }
    proof {
        assert(entries@.skip(entries@.len() as int) =~= Seq::<(String, Value)>::empty());
    }
    None
}

/// Resolves `path` under `obj`: the value the dotted path denotes, or a
/// key-not-found error carrying the whole path joined back with dots.
pub fn get_path<'a>(obj: &'a Value, path: &Vec<String>) -> (r: Result<&'a Value, Error>)
    ensures
        match r {
            Ok(v) => resolve_spec(*obj, views(path@)) == Some(*v),
            Err(e) => resolve_spec(*obj, views(path@)) is None && (e matches Error::NoSuchKey {
                key,
            } && key@ == dotted_path(views(path@))),
        },
{
    let mut cur: &Value = obj;
    let mut i: usize = 0;
    proof {
        assert(views(path@).skip(0) =~= views(path@));
    }
    while i < path.len()
        invariant
            i <= path.len(),
            resolve_spec(*obj, views(path@)) == resolve_spec(*cur, views(path@).skip(i as int)),
        decreases path.len() - i,
    {
        let ghost rest = views(path@).skip(i as int);
        proof {
            assert(rest[0] == path@[i as int]@);
            assert(rest.skip(1) =~= views(path@).skip(i + 1 as int));
        }
        let step = match cur {
            Value::Table(entries) => entries_get(entries, &path[i]),
            _ => None,
        };
        match step {
            Some(v) => {
                cur = v;
            },
            None => {
                return Err(Error::NoSuchKey { key: join_dotted(path) });
            },
        }
        i += 1;
    }
    proof {
        assert(views(path@).skip(path@.len() as int) =~= Seq::<Seq<char>>::empty());
    }
    Ok(cur)
}

} // verus!
