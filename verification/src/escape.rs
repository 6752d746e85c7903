//! Shell-quote escaping of arbitrary text, and a model of how a POSIX shell
//! evaluates the escaped word back to the original text.
//!
//! The escaping itself is done by `shell_escape`; [`sh_escaped`] states
//! exactly what that crate produces, and [`lemma_escape_round_trip`] proves
//! that evaluating the escaped word under the shell's quoting rules yields
//! the original string, for every string.

use vstd::prelude::*;

verus! {

/// Characters that need no quoting in a shell word: ASCII letters, digits,
/// and `- _ = / , . +`.
pub open spec fn is_safe_char(c: char) -> bool {
    ('a' <= c && c <= 'z') || ('A' <= c && c <= 'Z') || ('0' <= c && c <= '9') || c == '-'
        || c == '_' || c == '=' || c == '/' || c == ',' || c == '.' || c == '+'
}

/// Whether every character of `s` is safe to leave unquoted.
pub open spec fn all_safe(s: Seq<char>) -> bool {
    forall|i: int| 0 <= i < s.len() ==> is_safe_char(#[trigger] s[i])
}

/// How one character is written inside a single-quoted run: `'` and `!` close
/// the quote, appear backslash-escaped, and reopen it; everything else stands
/// as itself.
pub open spec fn quoted_char(c: char) -> Seq<char> {
    if c == '\'' || c == '!' {
        seq!['\'', '\\', c, '\'']
    } else {
        seq![c]
    }
}

/// The body of the single-quoted form of `s`: each character in turn, written
/// as [`quoted_char`] says.
pub open spec fn quote_body(s: Seq<char>) -> Seq<char>
    decreases s.len(),
{
    if s.len() == 0 {
        Seq::empty()
    } else {
        quoted_char(s[0]) + quote_body(s.skip(1))
    }
}

/// The escaped form of `s`: `s` itself when it is nonempty and made of safe
/// characters only, else the single-quoted form.
pub open spec fn sh_escaped(s: Seq<char>) -> Seq<char> {
    if s.len() > 0 && all_safe(s) {
        s
    } else {
        seq!['\''] + quote_body(s) + seq!['\'']
    }
}

/// Relies on `shell_escape::unix::escape`: it returns its argument unchanged
/// when the argument is nonempty and contains only characters of the safe set
/// (ASCII alphanumerics and `- _ = / , . +`), and otherwise wraps it in single
/// quotes, writing each `'` or `!` as `'\'` / `'\!'` (close the quote, escape
/// the character, reopen).
#[verifier::external_body]
pub fn sh_escape_str(s: &str) -> (r: String)
    ensures
        r@ == sh_escaped(s@),
{
    shell_escape::unix::escape(std::borrow::Cow::Borrowed(s)).into_owned()
}

/// How a POSIX shell evaluates one word built from literal characters,
/// single-quoted runs and backslash escapes: the text the word expands to.
/// `in_quote` says whether evaluation starts inside a single-quoted run.
pub open spec fn shell_word_eval(s: Seq<char>, in_quote: bool) -> Seq<char>
    decreases s.len(),
{
    if s.len() == 0 {
        Seq::empty()
    } else if in_quote {
        if s[0] == '\'' {
            shell_word_eval(s.skip(1), false)
        } else {
            seq![s[0]] + shell_word_eval(s.skip(1), true)
        }
    } else if s[0] == '\'' {
        shell_word_eval(s.skip(1), true)
    } else if s[0] == '\\' && s.len() >= 2 {
        seq![s[1]] + shell_word_eval(s.skip(2), false)
    } else {
        seq![s[0]] + shell_word_eval(s.skip(1), false)
    }
}

/// A word of safe characters evaluates to itself: no safe character is a
/// quote or a backslash.
proof fn lemma_safe_eval(s: Seq<char>)
    requires
        all_safe(s),
    ensures
        shell_word_eval(s, false) == s,
    decreases s.len(),
{
    if s.len() > 0 {
        assert(is_safe_char(s[0]));
        lemma_safe_eval(s.skip(1));
        assert(seq![s[0]] + s.skip(1) =~= s);
    }
}

/// Evaluating the quoted body of `s` followed by the closing quote, starting
/// inside the quoted run, yields `s`.
proof fn lemma_quote_eval(s: Seq<char>)
    ensures
        shell_word_eval(quote_body(s) + seq!['\''], true) == s,
    decreases s.len(),
{
    if s.len() == 0 {
        assert(quote_body(s) + seq!['\''] =~= seq!['\'']);
        assert(shell_word_eval(seq!['\''], true) == shell_word_eval(
            seq!['\''].skip(1),
            false,
        ));
        assert(seq!['\''].skip(1) =~= Seq::<char>::empty());
        assert(shell_word_eval(quote_body(s) + seq!['\''], true) =~= s);
    } else {
        let c = s[0];
        let rest = s.skip(1);
        lemma_quote_eval(rest);
        let tail = quote_body(rest) + seq!['\''];
        let whole = quote_body(s) + seq!['\''];
        if c == '\'' || c == '!' {
            assert(whole =~= seq!['\'', '\\', c, '\''] + tail);
            let w1 = whole.skip(1);
            assert(w1 =~= seq!['\\', c, '\''] + tail);
            assert(shell_word_eval(whole, true) == shell_word_eval(w1, false));
            assert(w1[0] == '\\' && w1.len() >= 2);
            let w2 = w1.skip(2);
            assert(w2 =~= seq!['\''] + tail);
            assert(shell_word_eval(w1, false) == seq![c] + shell_word_eval(w2, false));
            assert(w2.skip(1) =~= tail);
            assert(shell_word_eval(w2, false) == shell_word_eval(tail, true));
            assert(seq![c] + rest =~= s);
        } else {
            assert(whole =~= seq![c] + tail);
            assert(whole.skip(1) =~= tail);
            assert(shell_word_eval(whole, true) == seq![c] + shell_word_eval(tail, true));
            assert(seq![c] + rest =~= s);
        }
    }
}

/// The escaped form of any string, evaluated under the shell's quoting rules,
/// yields back exactly that string.
pub proof fn lemma_escape_round_trip(s: Seq<char>)
    ensures
        shell_word_eval(sh_escaped(s), false) == s,
{
    if s.len() > 0 && all_safe(s) {
        lemma_safe_eval(s);
    } else {
        let whole = seq!['\''] + quote_body(s) + seq!['\''];
        assert(sh_escaped(s) == whole);
        assert(whole[0] == '\'');
        assert(whole.skip(1) =~= quote_body(s) + seq!['\'']);
        lemma_quote_eval(s);
    }
}

} // verus!
