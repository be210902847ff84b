//! JavaScript string literals as the Warp 4 compiler writes them.
use vstd::prelude::*;
use crate::warp4::{opt_text, OptText};
use crate::text::chars_of;

verus! {

broadcast use {crate::text::lemma_concat_assoc, crate::text::lemma_concat_empty};

/// The JavaScript string-literal form of one character: backslash, quote, line feed,
/// carriage return and the two Unicode line separators escaped.
pub open spec fn js4_char(c: char) -> Seq<char> {
    if c == '\\' {
        seq!['\\', '\\']
    } else if c == '"' {
        seq!['\\', '"']
    } else if c == '\n' {
        seq!['\\', 'n']
    } else if c == '\r' {
        seq!['\\', 'r']
    } else if c == '\u{2028}' {
        "\\u2028"@
    } else if c == '\u{2029}' {
        "\\u2029"@
    } else {
        seq![c]
    }
}

/// `s` as a double-quoted JavaScript string literal.
pub open spec fn js4_quoted(s: Seq<char>) -> Seq<char> {
    seq!['"'] + crate::text::flat_map(s, |c: char| js4_char(c)) + seq!['"']
}

pub(crate) fn push_js4_char(out: &mut String, c: char)
    ensures
        final(out)@ == old(out)@ + js4_char(c),
{
    if c == '\\' {
        out.push('\\');
        out.push('\\');
    } else if c == '"' {
        out.push('\\');
        out.push('"');
    } else if c == '\n' {
        out.push('\\');
        out.push('n');
    } else if c == '\r' {
        out.push('\\');
        out.push('r');
    } else if c == '\u{2028}' {
        out.append("\\u2028");
    } else if c == '\u{2029}' {
        out.append("\\u2029");
    } else {
        out.push(c);
    }
    assert(final(out)@ =~= old(out)@ + js4_char(c)) by {
        assert(out@ =~= old(out)@ + js4_char(c));
    }
}

/// Appends `js4_quoted(s)` to `out`.
pub(crate) fn push_js4(out: &mut String, s: &str)
    ensures
        final(out)@ == old(out)@ + js4_quoted(s@),
{
    let v = chars_of(s);
    out.push('"');
    let mut i: usize = 0;
    assert(v@.take(0) =~= Seq::<char>::empty());
    while i < v.len()
        invariant
            i <= v@.len(),
            v@ == s@,
            out@ == old(out)@ + seq!['"'] + crate::text::flat_map(
                v@.take(i as int),
                |c: char| js4_char(c),
            ),
        decreases v@.len() - i,
    {
        proof {
            crate::text::lemma_flat_map_push(v@, |c: char| js4_char(c), i as int);
        }
        push_js4_char(out, v[i]);
        i += 1;
    }
    assert(v@.take(v@.len() as int) =~= v@);
    out.push('"');
}

/// `value` as a double-quoted JavaScript string literal.
pub fn js_string(value: &str) -> (r: String)
    ensures
        r@ == js4_quoted(value@),
{
    let mut out = String::new();
    push_js4(&mut out, value);
    out
}

/// An optional text as JavaScript: a string literal or `null`.
pub open spec fn opt_js(o: OptText) -> Seq<char> {
    match o {
        OptText::Present(s) => js4_quoted(s),
        OptText::Absent => "null"@,
    }
}

} // verus!
