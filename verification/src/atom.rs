//! Textual rendering of atomic values: the single shell word an atomic value
//! becomes. Strings are shell-escaped; integers and booleans render to their
//! literal text, which contains no shell metacharacters; floats and datetimes
//! carry their text with them.

use vstd::prelude::*;
use vstd::string::StringExecFns;
use crate::escape::{sh_escaped, sh_escape_str};
use crate::value::Value;

verus! {

/// The decimal digit character for `n`.
pub open spec fn dec_digit(n: int) -> char {
    if n == 0 {
        '0'
    } else if n == 1 {
        '1'
    } else if n == 2 {
        '2'
    } else if n == 3 {
        '3'
    } else if n == 4 {
        '4'
    } else if n == 5 {
        '5'
    } else if n == 6 {
        '6'
    } else if n == 7 {
        '7'
    } else if n == 8 {
        '8'
    } else {
        '9'
    }
}

/// The base-10 rendering of a nonnegative integer, most significant digit
/// first, with no leading zeros (except for zero itself).
pub open spec fn dec_text(n: nat) -> Seq<char>
    decreases n,
{
    if n < 10 {
        seq![dec_digit(n as int)]
    } else {
        dec_text(n / 10) + seq![dec_digit((n % 10) as int)]
    }
}

/// The base-10 rendering of an integer: a leading `-` for negative values.
pub open spec fn int_text(i: int) -> Seq<char> {
    if i < 0 {
        seq!['-'] + dec_text((-i) as nat)
    } else {
        dec_text(i as nat)
    }
}

/// Relies on `String::push`: appends one character to the string.
#[verifier::external_body]
fn push_char(s: &mut String, c: char)
    ensures
        final(s)@ == old(s)@ + seq![c],
{
    s.push(c);
}

/// The digit character for a value below ten.
fn digit_char(d: u64) -> (c: char)
    requires
        d < 10,
    ensures
        c == dec_digit(d as int),
{
    match d {
        0 => '0',
        1 => '1',
        2 => '2',
        3 => '3',
        4 => '4',
        5 => '5',
        6 => '6',
        7 => '7',
        8 => '8',
        _ => '9',
    }
}

/// Renders a nonnegative value in base 10.
fn u64_to_dec(n: u64) -> (r: String)
    ensures
        r@ == dec_text(n as nat),
    decreases n,
{
    let d = digit_char(n % 10);
    if n < 10 {
        let mut s = String::new();
        push_char(&mut s, d);
        proof {
            assert(s@ =~= dec_text(n as nat));
        }
        s
    } else {
        let mut s = u64_to_dec(n / 10);
        push_char(&mut s, d);
        proof {
            assert(s@ =~= dec_text(n as nat));
        }
        s
    }
}

/// Renders an integer in base 10, matching [`int_text`].
pub fn int_to_string(i: i64) -> (r: String)
    ensures
        r@ == int_text(i as int),
{
    if i >= 0 {
        u64_to_dec(i as u64)
    } else {
        let mag: u64 = if i == i64::MIN {
            9223372036854775808u64
        } else {
            (-i) as u64
        };
        assert(mag as int == -(i as int));
        let mut s = String::new();
        push_char(&mut s, '-');
        let digits = u64_to_dec(mag);
        s.append(digits.as_str());
        proof {
            assert(s@ =~= int_text(i as int));
        }
        s
    }
}

/// The text an atomic value renders to: the escaped string, the integer or
/// boolean literal, or the carried float / datetime text. Arrays and tables
/// are not atomic and render to nothing here.
pub open spec fn atom_text(v: Value) -> Seq<char> {
    match v {
        Value::Str(s) => sh_escaped(s@),
        Value::Integer(i) => int_text(i as int),
        Value::Boolean(b) => if b {
            "true"@
        } else {
            "false"@
        },
        Value::Float(t) => t@,
        Value::Datetime(t) => t@,
        Value::Array(_) => Seq::empty(),
        Value::Table(_) => Seq::empty(),
    }
}

/// Renders an atomic value to its shell word.
pub fn atom_to_string(v: &Value) -> (r: String)
    requires
        crate::value::is_atomic_spec(*v),
    ensures
        r@ == atom_text(*v),
{
    match v {
        Value::Str(s) => sh_escape_str(s.as_str()),
        Value::Integer(i) => int_to_string(*i),
        Value::Boolean(b) => if *b {
            String::from_str("true")
        } else {
            String::from_str("false")
        },
        Value::Float(t) => t.clone(),
        Value::Datetime(t) => t.clone(),
        Value::Array(_) => vstd::pervasive::unreached(),
        Value::Table(_) => vstd::pervasive::unreached(),
    }
}

} // verus!
