//! The shell formatter: renders a value bound to a variable name as one bash
//! `declare` statement.
//!
//! Arrays become `declare -a name=(..)`, tables `declare -A name=(..)`;
//! in both, entries that are themselves arrays or tables are deliberately
//! dropped — the output keeps exactly the atomic entries, in stored order.
//! Top-level integers become `declare -i name=<n>`, every other atomic value
//! `declare name=<word>`. Every statement ends in one newline, scalars
//! included, so that consecutive exports stand on their own lines.

use vstd::prelude::*;
use vstd::string::StringExecFns;
use crate::atom::{atom_text, atom_to_string, int_text, int_to_string};
use crate::escape::{sh_escaped, sh_escape_str};
use crate::value::{is_atomic, is_atomic_spec, Value};

verus! {

/// Whether some element of `elems` is atomic.
pub open spec fn has_atomic(elems: Seq<Value>) -> bool {
    exists|i: int| 0 <= i < elems.len() && is_atomic_spec(#[trigger] elems[i])
}

/// The element list of a formatted array: the atomic elements' words in
/// stored order, separated by single spaces; non-atomic elements are dropped.
pub open spec fn array_body(elems: Seq<Value>) -> Seq<char>
    decreases elems.len(),
{
    if elems.len() == 0 {
        Seq::empty()
    } else {
        let front = array_body(elems.drop_last());
        let last = elems.last();
        if !is_atomic_spec(last) {
            front
        } else if has_atomic(elems.drop_last()) {
            front + seq![' '] + atom_text(last)
        } else {
            front + atom_text(last)
        }
    }
}

/// One formatted table entry: `[<escaped key>]=<word>`.
pub open spec fn entry_text(e: (String, Value)) -> Seq<char> {
    seq!['['] + sh_escaped(e.0@) + seq![']', '='] + atom_text(e.1)
}

/// Whether some entry of `entries` has an atomic value.
pub open spec fn has_atomic_entry(entries: Seq<(String, Value)>) -> bool {
    exists|i: int| 0 <= i < entries.len() && is_atomic_spec((#[trigger] entries[i]).1)
}

/// The entry list of a formatted table: the entries with atomic values, in
/// stored order, separated by single spaces; the rest are dropped.
pub open spec fn table_body(entries: Seq<(String, Value)>) -> Seq<char>
    decreases entries.len(),
{
    if entries.len() == 0 {
        Seq::empty()
    } else {
        let front = table_body(entries.drop_last());
        let last = entries.last();
        if !is_atomic_spec(last.1) {
            front
        } else if has_atomic_entry(entries.drop_last()) {
            front + seq![' '] + entry_text(last)
        } else {
            front + entry_text(last)
        }
    }
}

/// The complete `declare` statement for `v` bound to `name`.
pub open spec fn fmt_bash(name: Seq<char>, v: Value) -> Seq<char> {
    match v {
        Value::Array(arr) => "declare -a "@ + name + "=("@ + array_body(arr@) + ")\n"@,
        Value::Table(tbl) => "declare -A "@ + name + "=("@ + table_body(tbl@) + ")\n"@,
        Value::Integer(i) => "declare -i "@ + name + "="@ + int_text(i as int) + "\n"@,
        _ => "declare "@ + name + "="@ + atom_text(v) + "\n"@,
    }
}

/// The atomic elements of `elems`, in stored order.
pub open spec fn atoms_of(elems: Seq<Value>) -> Seq<Value> {
    elems.filter(|v: Value| is_atomic_spec(v))
}

/// The entries of `entries` whose values are atomic, in stored order.
pub open spec fn atomic_entries_of(entries: Seq<(String, Value)>) -> Seq<(String, Value)> {
    entries.filter(|e: (String, Value)| is_atomic_spec(e.1))
}

/// The texts of `ts` joined with one space between them.
pub open spec fn space_joined(ts: Seq<Seq<char>>) -> Seq<char>
    decreases ts.len(),
{
    if ts.len() == 0 {
        Seq::empty()
    } else if ts.len() == 1 {
        ts[0]
    } else {
        space_joined(ts.drop_last()) + seq![' '] + ts.last()
    }
}

/// A sequence has an atomic element exactly when filtering for them keeps
/// something.
proof fn lemma_has_atomic_filter(elems: Seq<Value>)
    ensures
        has_atomic(elems) <==> atoms_of(elems).len() != 0,
    decreases elems.len(),
{
    reveal(Seq::filter);
    if elems.len() > 0 {
        lemma_has_atomic_filter(elems.drop_last());
        if has_atomic(elems.drop_last()) || is_atomic_spec(elems.last()) {
            assert(has_atomic(elems)) by {
                if is_atomic_spec(elems.last()) {
                    assert(is_atomic_spec(elems[elems.len() - 1]));
                } else {
                    let i = choose|i: int|
                        0 <= i < elems.drop_last().len() && is_atomic_spec(
                            #[trigger] elems.drop_last()[i],
                        );
                    assert(is_atomic_spec(elems[i]));
                }
            }
        } else {
            assert(forall|i: int|
                0 <= i < elems.len() - 1 && is_atomic_spec(#[trigger] elems[i])
                    ==> is_atomic_spec(elems.drop_last()[i]));
        }
    }
}

/// The element list of a formatted array holds exactly the atomic elements'
/// words, in stored order, joined with single spaces: non-atomic elements
/// leave no trace.
pub proof fn lemma_array_body_atoms(elems: Seq<Value>)
    ensures
        array_body(elems) == space_joined(atoms_of(elems).map_values(|v: Value| atom_text(v))),
    decreases elems.len(),
{
    reveal(Seq::filter);
    let texts = atoms_of(elems).map_values(|v: Value| atom_text(v));
    if elems.len() == 0 {
        assert(texts =~~= Seq::<Seq<char>>::empty());
    } else {
        let front = elems.drop_last();
        let last = elems.last();
        lemma_array_body_atoms(front);
        lemma_has_atomic_filter(front);
        let fr_texts = atoms_of(front).map_values(|v: Value| atom_text(v));
        if !is_atomic_spec(last) {
            assert(atoms_of(elems) == atoms_of(front));
        } else {
            assert(atoms_of(elems) == atoms_of(front).push(last));
            assert(texts =~~= fr_texts.push(atom_text(last)));
            if has_atomic(front) {
                assert(texts.len() >= 2);
                assert(texts.drop_last() =~~= fr_texts);
                assert(texts.last() == atom_text(last));
            } else {
                assert(texts.len() == 1);
                assert(texts[0] == atom_text(last));
                assert(array_body(front) + atom_text(last) =~= atom_text(last));
            }
        }
    }
}

/// A sequence of entries has an atomic-valued entry exactly when filtering
/// for them keeps something.
proof fn lemma_has_atomic_entry_filter(entries: Seq<(String, Value)>)
    ensures
        has_atomic_entry(entries) <==> atomic_entries_of(entries).len() != 0,
    decreases entries.len(),
{
    reveal(Seq::filter);
    if entries.len() > 0 {
        lemma_has_atomic_entry_filter(entries.drop_last());
        if has_atomic_entry(entries.drop_last()) || is_atomic_spec(entries.last().1) {
            assert(has_atomic_entry(entries)) by {
                if is_atomic_spec(entries.last().1) {
                    assert(is_atomic_spec(entries[entries.len() - 1].1));
                } else {
                    let i = choose|i: int|
                        0 <= i < entries.drop_last().len() && is_atomic_spec(
                            (#[trigger] entries.drop_last()[i]).1,
                        );
                    assert(is_atomic_spec(entries[i].1));
                }
            }
        } else {
            assert(forall|i: int|
                0 <= i < entries.len() - 1 && is_atomic_spec((#[trigger] entries[i]).1)
                    ==> is_atomic_spec(entries.drop_last()[i].1));
        }
    }
}

/// The entry list of a formatted table holds exactly the atomic-valued
/// entries, in stored order, joined with single spaces: entries whose value
/// is an array or a table leave no trace.
pub proof fn lemma_table_body_entries(entries: Seq<(String, Value)>)
    ensures
        table_body(entries) == space_joined(
            atomic_entries_of(entries).map_values(|e: (String, Value)| entry_text(e)),
        ),
    decreases entries.len(),
{
    reveal(Seq::filter);
    let texts = atomic_entries_of(entries).map_values(|e: (String, Value)| entry_text(e));
    if entries.len() == 0 {
        assert(texts =~~= Seq::<Seq<char>>::empty());
    } else {
        let front = entries.drop_last();
        let last = entries.last();
        lemma_table_body_entries(front);
        lemma_has_atomic_entry_filter(front);
        let fr_texts = atomic_entries_of(front).map_values(|e: (String, Value)| entry_text(e));
        if !is_atomic_spec(last.1) {
            assert(atomic_entries_of(entries) == atomic_entries_of(front));
        } else {
            assert(atomic_entries_of(entries) == atomic_entries_of(front).push(last));
            assert(texts =~~= fr_texts.push(entry_text(last)));
            if has_atomic_entry(front) {
                assert(texts.len() >= 2);
                assert(texts.drop_last() =~~= fr_texts);
                assert(texts.last() == entry_text(last));
            } else {
                assert(texts.len() == 1);
                assert(texts[0] == entry_text(last));
                assert(table_body(front) + entry_text(last) =~= entry_text(last));
            }
        }
    }
}

/// An array with no elements, or none atomic, formats to an empty list:
/// `declare -a name=()`.
pub proof fn lemma_empty_array_form(name: Seq<char>, arr: Vec<Value>)
    requires
        !has_atomic(arr@),
    ensures
        fmt_bash(name, Value::Array(arr)) == "declare -a "@ + name + "=()\n"@,
{
    lemma_array_body_atoms(arr@);
    lemma_has_atomic_filter(arr@);
    assert(atoms_of(arr@).map_values(|v: Value| atom_text(v)) =~~= Seq::<Seq<char>>::empty());
    reveal_strlit("=(");
    reveal_strlit(")\n");
    reveal_strlit("=()\n");
    assert("declare -a "@ + name + "=("@ + array_body(arr@) + ")\n"@ =~= "declare -a "@ + name
        + "=()\n"@);
}

/// A table with no entries, or none atomic, formats to an empty list:
/// `declare -A name=()`.
pub proof fn lemma_empty_table_form(name: Seq<char>, tbl: Vec<(String, Value)>)
    requires
        !has_atomic_entry(tbl@),
    ensures
        fmt_bash(name, Value::Table(tbl)) == "declare -A "@ + name + "=()\n"@,
{
    lemma_table_body_entries(tbl@);
    lemma_has_atomic_entry_filter(tbl@);
    assert(atomic_entries_of(tbl@).map_values(|e: (String, Value)| entry_text(e))
        =~~= Seq::<Seq<char>>::empty());
    reveal_strlit("=(");
    reveal_strlit(")\n");
    reveal_strlit("=()\n");
    assert("declare -A "@ + name + "=("@ + table_body(tbl@) + ")\n"@ =~= "declare -A "@ + name
        + "=()\n"@);
}

/// Renders one table entry as `[<escaped key>]=<word>`.
fn entry_to_string(key: &String, v: &Value) -> (r: String)
    requires
        is_atomic_spec(*v),
    ensures
        r@ == entry_text((*key, *v)),
{
    let mut s = String::from_str("[");
    let ek = sh_escape_str(key.as_str());
    s.append(ek.as_str());
    s.append("]=");
    let w = atom_to_string(v);
    s.append(w.as_str());
    proof {
        reveal_strlit("[");
        reveal_strlit("]=");
        assert(s@ =~= entry_text((*key, *v)));
    }
    s
}

/// Renders the bash `declare` statement that binds `value` to `name`.
pub fn format_bash(name: &str, value: &Value) -> (out: String)
    ensures
        out@ == fmt_bash(name@, *value),
{
    match value {
        Value::Array(arr) => {
            let mut out = String::from_str("declare -a ");
            out.append(name);
            out.append("=(");
            let header = Ghost(out@);
            let mut had_one = false;
            let mut i: usize = 0;
            while i < arr.len()
                invariant
                    i <= arr.len(),
                    out@ == header@ + array_body(arr@.take(i as int)),
                    had_one == has_atomic(arr@.take(i as int)),
                decreases arr.len() - i,
            {
                let ghost pre = arr@.take(i as int);
                let ghost post = arr@.take(i + 1 as int);
                proof {
                    assert(post.drop_last() =~= pre);
                    assert(post.last() == arr@[i as int]);
                }
                let elem = &arr[i];
                if is_atomic(elem) {
                    if had_one {
                        out.append(" ");
                        proof {
                            reveal_strlit(" ");
                            assert(" "@ =~= seq![' ']);
                        }
                    } else {
                        had_one = true;
                    }
                    let w = atom_to_string(elem);
                    out.append(w.as_str());
                }
                proof {
                    if is_atomic_spec(arr@[i as int]) {
                        assert(has_atomic(post));
                    } else {
                        assert(forall|k: int|
                            0 <= k < post.len() && is_atomic_spec(#[trigger] post[k]) ==> (0 <= k
                                < pre.len() && is_atomic_spec(pre[k])));
                        assert(has_atomic(post) == has_atomic(pre));
                    }
                }
                i += 1;
            }
            proof {
                assert(arr@.take(arr@.len() as int) =~= arr@);
            }
            out.append(")\n");
            out
        },
        Value::Table(tbl) => {
            let mut out = String::from_str("declare -A ");
            out.append(name);
            out.append("=(");
            let header = Ghost(out@);
            let mut had_one = false;
            let mut i: usize = 0;
            while i < tbl.len()
                invariant
                    i <= tbl.len(),
                    out@ == header@ + table_body(tbl@.take(i as int)),
                    had_one == has_atomic_entry(tbl@.take(i as int)),
                decreases tbl.len() - i,
            {
                let ghost pre = tbl@.take(i as int);
                let ghost post = tbl@.take(i + 1 as int);
                proof {
                    assert(post.drop_last() =~= pre);
                    assert(post.last() == tbl@[i as int]);
                }
                let entry = &tbl[i];
                if is_atomic(&entry.1) {
                    if had_one {
                        out.append(" ");
                        proof {
                            reveal_strlit(" ");
                            assert(" "@ =~= seq![' ']);
                        }
                    } else {
                        had_one = true;
                    }
                    let w = entry_to_string(&entry.0, &entry.1);
                    out.append(w.as_str());
                }
                proof {
                    if is_atomic_spec(tbl@[i as int].1) {
                        assert(has_atomic_entry(post));
                    } else {
                        assert(forall|k: int|
                            0 <= k < post.len() && is_atomic_spec((#[trigger] post[k]).1) ==> (0
                                <= k < pre.len() && is_atomic_spec(pre[k].1)));
                        assert(has_atomic_entry(post) == has_atomic_entry(pre));
                    }
                }
                i += 1;
            }
            proof {
                assert(tbl@.take(tbl@.len() as int) =~= tbl@);
            }
            out.append(")\n");
            out
        },
        Value::Integer(i) => {
            let mut out = String::from_str("declare -i ");
            out.append(name);
            out.append("=");
            let w = int_to_string(*i);
            out.append(w.as_str());
            out.append("\n");
            out
        },
        _ => {
            let mut out = String::from_str("declare ");
            out.append(name);
            out.append("=");
            let w = atom_to_string(value);
            out.append(w.as_str());
            out.append("\n");
            out
        },
    }
}

} // verus!
