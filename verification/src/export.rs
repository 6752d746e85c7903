//! Export specifications: `NAME=dotted.key.path`, split on the first `=`,
//! the path split on every `.`; and the processing of one export against a
//! configuration tree.

use vstd::prelude::*;
use vstd::string::StrSliceExecFns;
use crate::format::{fmt_bash, format_bash};
use crate::resolve::{dotted_path, get_path, resolve_spec, views, Error};
use crate::value::Value;

verus! {

/// The position of the first occurrence of `c` in `s`, if any.
pub open spec fn find_char(s: Seq<char>, c: char) -> Option<int>
    decreases s.len(),
{
    if s.len() == 0 {
        None
    } else if s[0] == c {
        Some(0)
    } else {
        match find_char(s.skip(1), c) {
            Some(i) => Some(i + 1),
            None => None,
        }
    }
}

/// `s` split on every occurrence of `c`: always one more segment than there
/// are occurrences, so the empty string splits to one empty segment.
pub open spec fn split_on(s: Seq<char>, c: char) -> Seq<Seq<char>>
    decreases s.len(),
{
    if s.len() == 0 {
        seq![Seq::empty()]
    } else if s[0] == c {
        seq![Seq::<char>::empty()] + split_on(s.skip(1), c)
    } else {
        let rest = split_on(s.skip(1), c);
        seq![seq![s[0]] + rest[0]] + rest.skip(1)
    }
}

/// Splitting yields at least one segment.
proof fn lemma_split_nonempty(s: Seq<char>, c: char)
    ensures
        split_on(s, c).len() >= 1,
    decreases s.len(),
{
    if s.len() != 0 && s[0] != c {
        lemma_split_nonempty(s.skip(1), c);
    }
}

/// A string without the separator splits to itself as the one segment.
proof fn lemma_split_single(s: Seq<char>, c: char)
    requires
        forall|k: int| 0 <= k < s.len() ==> s[k] != c,
    ensures
        split_on(s, c) == seq![s],
    decreases s.len(),
{
    if s.len() == 0 {
        assert(split_on(s, c) =~~= seq![s]);
    } else {
        lemma_split_single(s.skip(1), c);
        let rest = split_on(s.skip(1), c);
        assert(rest[0] == s.skip(1));
        assert(seq![s[0]] + s.skip(1) =~= s);
        assert(rest.skip(1) =~= Seq::<Seq<char>>::empty());
        assert(split_on(s, c) =~~= seq![s]);
    }
}

/// Splitting a string that starts with a separator-free prefix `a`, then the
/// separator, then `b`, yields `a` and then the segments of `b`.
proof fn lemma_split_step(a: Seq<char>, b: Seq<char>, c: char)
    requires
        forall|k: int| 0 <= k < a.len() ==> a[k] != c,
    ensures
        split_on(a + seq![c] + b, c) == seq![a] + split_on(b, c),
    decreases a.len(),
{
    let whole = a + seq![c] + b;
    if a.len() == 0 {
        assert(whole[0] == c);
        assert(whole.skip(1) =~= b);
        assert(split_on(whole, c) =~~= seq![a] + split_on(b, c));
    } else {
        assert(whole[0] == a[0]);
        assert(whole.skip(1) =~= a.skip(1) + seq![c] + b);
        lemma_split_step(a.skip(1), b, c);
        let rest = split_on(whole.skip(1), c);
        assert(rest == seq![a.skip(1)] + split_on(b, c));
        assert(rest[0] == a.skip(1));
        assert(seq![whole[0]] + rest[0] =~= a);
        assert(rest.skip(1) =~= split_on(b, c));
        assert(split_on(whole, c) =~~= seq![a] + split_on(b, c));
    }
}

/// Joining a leading segment onto further segments puts one separator after
/// it.
proof fn lemma_dotted_cons(a: Seq<char>, ss: Seq<Seq<char>>)
    requires
        ss.len() >= 1,
    ensures
        dotted_path(seq![a] + ss) == a + seq!['.'] + dotted_path(ss),
    decreases ss.len(),
{
    let whole = seq![a] + ss;
    if ss.len() == 1 {
        assert(whole.len() == 2);
        assert(whole.drop_last() =~~= seq![a]);
        assert(whole.last() == ss[0]);
        assert(dotted_path(seq![a]) == a);
        assert(dotted_path(ss) == ss[0]);
    } else {
        assert(whole.drop_last() =~~= seq![a] + ss.drop_last());
        lemma_dotted_cons(a, ss.drop_last());
        assert(whole.last() == ss.last());
        assert(a + seq!['.'] + dotted_path(ss.drop_last()) + seq!['.'] + ss.last() =~= a
            + seq!['.'] + (dotted_path(ss.drop_last()) + seq!['.'] + ss.last()));
    }
}

/// Joining the segments of `p` back with dots yields `p`: the dotted path in
/// a key-not-found error is exactly the path text that was requested.
pub proof fn lemma_join_split(p: Seq<char>)
    ensures
        dotted_path(split_on(p, '.')) == p,
    decreases p.len(),
{
    if p.len() == 0 {
        assert(dotted_path(seq![Seq::<char>::empty()]) =~= p);
    } else if p[0] == '.' {
        lemma_join_split(p.skip(1));
        lemma_split_nonempty(p.skip(1), '.');
        lemma_dotted_cons(Seq::empty(), split_on(p.skip(1), '.'));
        assert(Seq::<char>::empty() + seq!['.'] + p.skip(1) =~= p);
    } else {
        lemma_join_split(p.skip(1));
        let rest = split_on(p.skip(1), '.');
        lemma_split_nonempty(p.skip(1), '.');
        if rest.len() == 1 {
            assert(dotted_path(rest) == rest[0]);
            assert(split_on(p, '.') =~~= seq![seq![p[0]] + rest[0]]);
            assert(dotted_path(split_on(p, '.')) == seq![p[0]] + rest[0]);
            assert(seq![p[0]] + p.skip(1) =~= p);
        } else {
            assert(rest =~~= seq![rest[0]] + rest.skip(1));
            lemma_dotted_cons(rest[0], rest.skip(1));
            assert(dotted_path(rest) == rest[0] + seq!['.'] + dotted_path(rest.skip(1)));
            assert(split_on(p, '.') =~~= seq![seq![p[0]] + rest[0]] + rest.skip(1));
            lemma_dotted_cons(seq![p[0]] + rest[0], rest.skip(1));
            assert(dotted_path(split_on(p, '.')) == (seq![p[0]] + rest[0]) + seq!['.']
                + dotted_path(rest.skip(1)));
            assert((seq![p[0]] + rest[0]) + seq!['.'] + dotted_path(rest.skip(1)) =~= seq![p[0]] + (
            rest[0] + seq!['.'] + dotted_path(rest.skip(1))));
            assert(seq![p[0]] + p.skip(1) =~= p);
        }
    }
}

/// An export specification: the target variable name and the key path.
#[derive(Debug)]
pub struct ExportSpec {
    /// The shell variable the value is bound to.
    pub as_var: String,
    /// The dotted key path, one segment per element.
    pub path: Vec<String>,
}

/// Finds the first `=` in `s`.
fn find_eq(s: &str) -> (r: Option<usize>)
    ensures
        match r {
            Some(j) => find_char(s@, '=') == Some(j as int) && j < s@.len() && s@[j as int] == '=',
            None => find_char(s@, '=') is None,
        },
{
    let n = s.unicode_len();
    let mut i: usize = 0;
    while i < n
        invariant
            i <= n == s@.len(),
            forall|k: int| 0 <= k < i ==> s@[k] != '=',
        decreases n - i,
    {
        if s.get_char(i) == '=' {
            proof {
                lemma_find_char_at(s@, '=', i as int);
            }
            return Some(i);
        }
        i += 1;
    }
    proof {
        lemma_find_char_none(s@, '=');
    }
    None
}

/// Where `c` first occurs at `j`, the search finds `j`.
proof fn lemma_find_char_at(s: Seq<char>, c: char, j: int)
    requires
        0 <= j < s.len(),
        s[j] == c,
        forall|k: int| 0 <= k < j ==> s[k] != c,
    ensures
        find_char(s, c) == Some(j),
    decreases j,
{
    if j > 0 {
        assert(s.skip(1)[j - 1] == c);
        lemma_find_char_at(s.skip(1), c, j - 1);
    }
}

/// Where `c` does not occur, the search finds nothing.
proof fn lemma_find_char_none(s: Seq<char>, c: char)
    requires
        forall|k: int| 0 <= k < s.len() ==> s[k] != c,
    ensures
        find_char(s, c) is None,
    decreases s.len(),
{
    if s.len() > 0 {
        lemma_find_char_none(s.skip(1), c);
    }
}

/// Splits `s` on every `.`.
fn split_dots(s: &str) -> (r: Vec<String>)
    ensures
        views(r@) == split_on(s@, '.'),
{
    let n = s.unicode_len();
    let mut segs: Vec<String> = Vec::new();
    let mut start: usize = 0;
    let mut i: usize = 0;
    proof {
        assert(s@.skip(0) =~= s@);
        assert(views(segs@) + split_on(s@, '.') =~~= split_on(s@, '.'));
    }
    while i < n
        invariant
            start <= i <= n == s@.len(),
            forall|k: int| start <= k < i ==> s@[k] != '.',
            split_on(s@, '.') == views(segs@) + split_on(s@.skip(start as int), '.'),
        decreases n - i,
    {
        if s.get_char(i) == '.' {
            let seg = s.substring_char(start, i).to_owned();
            proof {
                assert(s@.skip(start as int) =~= s@.subrange(start as int, i as int) + seq!['.']
                    + s@.skip(i + 1 as int));
                lemma_split_step(s@.subrange(start as int, i as int), s@.skip(i + 1 as int), '.');
                assert(views(segs@.push(seg)) =~~= views(segs@) + seq![seg@]);
                assert(views(segs@) + (seq![seg@] + split_on(s@.skip(i + 1 as int), '.')) =~~= (
                views(segs@) + seq![seg@]) + split_on(s@.skip(i + 1 as int), '.'));
            }
            segs.push(seg);
            start = i + 1;
        }
        i += 1;
    }
    let last = s.substring_char(start, n).to_owned();
    proof {
        assert(s@.skip(start as int) =~= s@.subrange(start as int, n as int));
        lemma_split_single(s@.skip(start as int), '.');
        assert(views(segs@.push(last)) =~~= views(segs@) + seq![last@]);
        assert(views(segs@) + seq![s@.skip(start as int)] =~~= views(segs@) + split_on(
            s@.skip(start as int),
            '.',
        ));
    }
    segs.push(last);
    segs
}

impl ExportSpec {
    /// Parses `NAME=dotted.path`: the text before the first `=` names the
    /// variable, the text after it is the key path, split on dots. Without
    /// an `=` the specification is invalid.
    pub fn from_str(s: &str) -> (r: Result<ExportSpec, Error>)
        ensures
            match r {
                Ok(spec) => (match find_char(s@, '=') {
                    Some(j) => spec.as_var@ == s@.take(j) && views(spec.path@) == split_on(
                        s@.skip(j + 1),
                        '.',
                    ),
                    None => false,
                }),
                Err(e) => find_char(s@, '=') is None && (e matches Error::ExportSpecError),
            },
    {
        let n = s.unicode_len();
        match find_eq(s) {
            None => Err(Error::ExportSpecError),
            Some(j) => {
                let as_var = s.substring_char(0, j).to_owned();
                let path_part = s.substring_char(j + 1, n);
                let path = split_dots(path_part);
                proof {
                    assert(s@.subrange(0, j as int) =~= s@.take(j as int));
                    assert(s@.subrange(j + 1 as int, n as int) =~= s@.skip(j + 1 as int));
                }
                Ok(ExportSpec { as_var, path })
            },
        }
    }
}

/// What a successful export returns: the specification has an `=`, the path
/// after it resolves, and the output is the resolved value formatted under
/// the name before it.
pub open spec fn export_ok_spec(root: Value, s: Seq<char>, out: Seq<char>) -> bool {
    match find_char(s, '=') {
        Some(j) => match resolve_spec(root, split_on(s.skip(j + 1), '.')) {
            Some(v) => out == fmt_bash(s.take(j), v),
            None => false,
        },
        None => false,
    }
}

/// When each error comes: an invalid specification has no `=`; a
/// key-not-found error means the path after the `=` does not resolve, and
/// carries exactly that path text.
pub open spec fn export_err_spec(root: Value, s: Seq<char>, e: Error) -> bool {
    match e {
        Error::ExportSpecError => find_char(s, '=') is None,
        Error::NoSuchKey { key } => match find_char(s, '=') {
            Some(j) => resolve_spec(root, split_on(s.skip(j + 1), '.')) is None && key@ == s.skip(
                j + 1,
            ),
            None => false,
        },
    }
}

/// Whether the export specification `s` succeeds against `root`: it has an
/// `=`, and the path after it resolves.
pub open spec fn export_ok(root: Value, s: Seq<char>) -> bool {
    match find_char(s, '=') {
        Some(j) => resolve_spec(root, split_on(s.skip(j + 1), '.')) is Some,
        None => false,
    }
}

/// The statement a successful export emits: the resolved value formatted
/// under the name before the `=`. Meaningful where [`export_ok`] holds.
pub open spec fn export_text(root: Value, s: Seq<char>) -> Seq<char> {
    let j = find_char(s, '=') -> Some_0;
    let v = resolve_spec(root, split_on(s.skip(j + 1), '.')) -> Some_0;
    fmt_bash(s.take(j), v)
}

/// The statements of the exports `specs` emit against `root`, concatenated
/// in request order. Meaningful where every one succeeds.
pub open spec fn exports_text(root: Value, specs: Seq<Seq<char>>) -> Seq<char>
    decreases specs.len(),
{
    if specs.len() == 0 {
        Seq::empty()
    } else {
        exports_text(root, specs.drop_last()) + export_text(root, specs.last())
    }
}

/// Processes one export specification against the tree `root`: parses it,
/// resolves the path, and formats the value as a `declare` statement.
pub fn export_one(root: &Value, spec_str: &str) -> (r: Result<String, Error>)
    ensures
        match r {
            Ok(out) => export_ok_spec(*root, spec_str@, out@),
            Err(e) => export_err_spec(*root, spec_str@, e),
        },
{
    match ExportSpec::from_str(spec_str) {
        Err(e) => Err(e),
        Ok(spec) => match get_path(root, &spec.path) {
            Err(e) => {
                proof {
                    let j = find_char(spec_str@, '=') -> Some_0;
                    lemma_join_split(spec_str@.skip(j + 1));
                }
                Err(e)
            },
            Ok(v) => Ok(format_bash(spec.as_var.as_str(), v)),
        },
    }
}

/// Processes the exports in request order and concatenates their statements.
/// The statements of the specifications before the first failing one are
/// kept beside the failure — the caller may already have written them out —
/// and nothing after the failure is processed.
pub fn process_exports(root: &Value, specs: &Vec<String>) -> (r: (String, Option<Error>))
    ensures
        match r.1 {
            None => (forall|i: int|
                0 <= i < specs@.len() ==> export_ok(*root, (#[trigger] specs@[i])@)) && r.0@
                == exports_text(*root, views(specs@)),
            Some(e) => exists|k: int|
                0 <= k < specs@.len() && !export_ok(*root, (#[trigger] specs@[k])@) && (forall|
                    i: int,
                |
                    0 <= i < k ==> export_ok(*root, specs@[i]@)) && export_err_spec(
                    *root,
                    specs@[k]@,
                    e,
                ) && r.0@ == exports_text(*root, views(specs@).take(k)),
        },
{
    let mut out = String::new();
    let mut i: usize = 0;
    proof {
        assert(views(specs@).take(0) =~~= Seq::<Seq<char>>::empty());
    }
    while i < specs.len()
        invariant
            i <= specs@.len(),
            forall|j: int| 0 <= j < i ==> export_ok(*root, (#[trigger] specs@[j])@),
            out@ == exports_text(*root, views(specs@).take(i as int)),
        decreases specs@.len() - i,
    {
        let ghost pre = views(specs@).take(i as int);
        let ghost post = views(specs@).take(i + 1 as int);
        proof {
            assert(post.drop_last() =~~= pre);
            assert(post.last() == specs@[i as int]@);
        }
        match export_one(root, specs[i].as_str()) {
            Ok(text) => {
                out.append(text.as_str());
            },
            Err(e) => {
                proof {
                    assert(!export_ok(*root, specs@[i as int]@));
                    assert(views(specs@).take(i as int) =~~= pre);
                }
                return (out, Some(e));
            },
        }
        i += 1;
    }
    proof {
        assert(views(specs@).take(specs@.len() as int) =~~= views(specs@));
    }
    (out, None)
}

} // verus!
