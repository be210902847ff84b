//! Properties that hold across the library: what escaping leaves out, what a key-value list
//! reads back, how the script commands treat names that are already set, and how the operation
//! tables keep their entries.
use vstd::prelude::*;
use crate::text::flat_map;

verus! {

/// A character that no `f(c)` holds, for the characters `c` of `s`, is not in `flat_map(s, f)`.
proof fn lemma_flat_map_avoids(s: Seq<char>, f: spec_fn(char) -> Seq<char>, x: char)
    requires
        forall|i: int| 0 <= i < s.len() ==> !f(#[trigger] s[i]).contains(x),
    ensures
        !flat_map(s, f).contains(x),
    decreases s.len(),
{
    if s.len() > 0 {
        let d = s.drop_last();
        assert forall|i: int| 0 <= i < d.len() implies !f(#[trigger] d[i]).contains(x) by {
            assert(d[i] == s[i]);
        }
        lemma_flat_map_avoids(d, f, x);
        let a = flat_map(d, f);
        let b = f(s.last());
        assert(!f(s[s.len() - 1]).contains(x));
        assert forall|i: int| 0 <= i < (a + b).len() implies (a + b)[i] != x by {
            if i < a.len() {
                assert((a + b)[i] == a[i]);
            } else {
                assert((a + b)[i] == b[i - a.len()]);
            }
        }
    }
}

/// `flat_map` with a function that keeps every character of `s` is `s`.
proof fn lemma_flat_map_identity(s: Seq<char>, f: spec_fn(char) -> Seq<char>)
    requires
        forall|i: int| 0 <= i < s.len() ==> f(#[trigger] s[i]) == seq![s[i]],
    ensures
        flat_map(s, f) == s,
    decreases s.len(),
{
    if s.len() > 0 {
        let d = s.drop_last();
        assert forall|i: int| 0 <= i < d.len() implies f(#[trigger] d[i]) == seq![d[i]] by {
            assert(d[i] == s[i]);
        }
        lemma_flat_map_identity(d, f);
        assert(f(s[s.len() - 1]) == seq![s[s.len() - 1]]);
        assert(d + seq![s.last()] =~= s);
    }
}

// ---------------------------------------------------------------------------------------
// Escaping
// ---------------------------------------------------------------------------------------

/// A sequence none of whose characters is `x` does not contain `x`.
proof fn lemma_none_is(t: Seq<char>, x: char)
    requires
        forall|i: int| 0 <= i < t.len() ==> #[trigger] t[i] != x,
    ensures
        !t.contains(x),
{
}

proof fn lemma_html_char_avoids(c: char, x: char)
    requires
        x == '<' || x == '>' || x == '"',
    ensures
        !crate::emit::html_char(c).contains(x),
{
    reveal_strlit("&amp;");
    reveal_strlit("&lt;");
    reveal_strlit("&gt;");
    reveal_strlit("&quot;");
    let t = crate::emit::html_char(c);
    if c == '&' || c == '<' || c == '>' || c == '"' {
        assert forall|i: int| 0 <= i < t.len() implies #[trigger] t[i] != x by {}
        lemma_none_is(t, x);
    } else {
        assert forall|i: int| 0 <= i < t.len() implies #[trigger] t[i] != x by {}
        lemma_none_is(t, x);
    }
}

/// Text escaped for HTML (`escape_html`) holds no `<`, `>` or `"`: whatever the text, it cannot
/// open a tag or end an attribute value.
pub proof fn law_escape_html_leaves_no_markup(s: Seq<char>)
    ensures
        !crate::emit::escaped(s).contains('<'),
        !crate::emit::escaped(s).contains('>'),
        !crate::emit::escaped(s).contains('"'),
{
    assert forall|i: int| 0 <= i < s.len() implies !crate::emit::html_char(#[trigger] s[i]).contains(
        '<',
    ) by {
        lemma_html_char_avoids(s[i], '<');
    }
    assert forall|i: int| 0 <= i < s.len() implies !crate::emit::html_char(#[trigger] s[i]).contains(
        '>',
    ) by {
        lemma_html_char_avoids(s[i], '>');
    }
    assert forall|i: int| 0 <= i < s.len() implies !crate::emit::html_char(#[trigger] s[i]).contains(
        '"',
    ) by {
        lemma_html_char_avoids(s[i], '"');
    }
    lemma_flat_map_avoids(s, |c: char| crate::emit::html_char(c), '<');
    lemma_flat_map_avoids(s, |c: char| crate::emit::html_char(c), '>');
    lemma_flat_map_avoids(s, |c: char| crate::emit::html_char(c), '"');
}

/// Escaping for HTML changes only `&`, `<`, `>` and `"`: text without them comes out as it
/// went in.
pub proof fn law_escape_html_keeps_plain_text(s: Seq<char>)
    requires
        !s.contains('&'),
        !s.contains('<'),
        !s.contains('>'),
        !s.contains('"'),
    ensures
        crate::emit::escaped(s) == s,
{
    let f = |c: char| crate::emit::html_char(c);
    assert forall|i: int| 0 <= i < s.len() implies f(#[trigger] s[i]) == seq![s[i]] by {}
    lemma_flat_map_identity(s, f);
}

// ---------------------------------------------------------------------------------------
// Escaping in the layout and example pages
// ---------------------------------------------------------------------------------------

proof fn lemma_text_char_avoids(c: char, x: char)
    requires
        x == '<' || x == '>',
    ensures
        !crate::ui4::text_char(c).contains(x),
        !crate::page4::text_char(c).contains(x),
{
    reveal_strlit("&amp;");
    reveal_strlit("&lt;");
    reveal_strlit("&gt;");
    let t = crate::ui4::text_char(c);
    assert forall|i: int| 0 <= i < t.len() implies #[trigger] t[i] != x by {}
    lemma_none_is(t, x);
    let u = crate::page4::text_char(c);
    assert forall|i: int| 0 <= i < u.len() implies #[trigger] u[i] != x by {}
    lemma_none_is(u, x);
}

proof fn lemma_quote_char_avoids(c: char, x: char)
    requires
        c != x,
        x == '<' || x == '>' || x == '"',
    ensures
        !crate::ui4::quote_char(c).contains(x),
{
    reveal_strlit("&quot;");
    let t = crate::ui4::quote_char(c);
    assert forall|i: int| 0 <= i < t.len() implies #[trigger] t[i] != x by {}
    lemma_none_is(t, x);
}

/// Text escaped by the layout renderer and by the example page (`esc_text`) holds no `<` or
/// `>`.
pub proof fn law_esc_text_leaves_no_tags(s: Seq<char>)
    ensures
        !crate::ui4::text_escaped(s).contains('<'),
        !crate::ui4::text_escaped(s).contains('>'),
        !crate::page4::text_escaped(s).contains('<'),
        !crate::page4::text_escaped(s).contains('>'),
{
    assert forall|i: int| 0 <= i < s.len() implies !crate::ui4::text_char(#[trigger] s[i]).contains(
        '<',
    ) && !crate::ui4::text_char(s[i]).contains('>') && !crate::page4::text_char(s[i]).contains('<')
        && !crate::page4::text_char(s[i]).contains('>') by {
        lemma_text_char_avoids(s[i], '<');
        lemma_text_char_avoids(s[i], '>');
    }
    lemma_flat_map_avoids(s, |c: char| crate::ui4::text_char(c), '<');
    lemma_flat_map_avoids(s, |c: char| crate::ui4::text_char(c), '>');
    lemma_flat_map_avoids(s, |c: char| crate::page4::text_char(c), '<');
    lemma_flat_map_avoids(s, |c: char| crate::page4::text_char(c), '>');
}

/// An attribute value escaped by the layout renderer (`esc_attr`) holds no `<`, `>` or `"`.
pub proof fn law_esc_attr_leaves_no_markup(s: Seq<char>)
    ensures
        !crate::ui4::attr_escaped(s).contains('<'),
        !crate::ui4::attr_escaped(s).contains('>'),
        !crate::ui4::attr_escaped(s).contains('"'),
{
    law_esc_text_leaves_no_tags(s);
    let t = crate::ui4::text_escaped(s);
    assert forall|i: int| 0 <= i < t.len() implies !crate::ui4::quote_char(#[trigger] t[i]).contains(
        '<',
    ) && !crate::ui4::quote_char(t[i]).contains('>') && !crate::ui4::quote_char(t[i]).contains('"') by {
        assert(t.contains(t[i]));
        lemma_quote_char_avoids(t[i], '<');
        lemma_quote_char_avoids(t[i], '>');
        reveal_strlit("&quot;");
        let q = crate::ui4::quote_char(t[i]);
        assert forall|j: int| 0 <= j < q.len() implies #[trigger] q[j] != '"' by {}
        lemma_none_is(q, '"');
    }
    lemma_flat_map_avoids(t, |c: char| crate::ui4::quote_char(c), '<');
    lemma_flat_map_avoids(t, |c: char| crate::ui4::quote_char(c), '>');
    lemma_flat_map_avoids(t, |c: char| crate::ui4::quote_char(c), '"');
}

// ---------------------------------------------------------------------------------------
// JavaScript string literals
// ---------------------------------------------------------------------------------------

/// A JavaScript string literal (`js_string`) is quoted at both ends and never breaks a line:
/// it holds no line feed and no carriage return.
pub proof fn law_js_string_stays_on_one_line(s: Seq<char>)
    ensures
        crate::emit::js_quoted(s)[0] == '"',
        crate::emit::js_quoted(s).last() == '"',
        !crate::emit::js_quoted(s).contains('\n'),
        !crate::emit::js_quoted(s).contains('\r'),
{
    let f = |c: char| crate::emit::js_char(c);
    assert forall|i: int| 0 <= i < s.len() implies !crate::emit::js_char(#[trigger] s[i]).contains(
        '\n',
    ) && !crate::emit::js_char(s[i]).contains('\r') by {
        let t = crate::emit::js_char(s[i]);
        assert forall|j: int| 0 <= j < t.len() implies #[trigger] t[j] != '\n' && t[j] != '\r' by {
            if crate::emit::control(s[i]) && s[i] != '\n' && s[i] != '\r' && s[i] != '\t' {
                let n = s[i] as nat;
                assert(j < 2 || t[j] == crate::emit::hex4(n)[j - 2]);
            }
        }
        lemma_none_is(t, '\n');
        lemma_none_is(t, '\r');
    }
    lemma_flat_map_avoids(s, f, '\n');
    lemma_flat_map_avoids(s, f, '\r');
    let m = flat_map(s, f);
    let q = seq!['"'] + m + seq!['"'];
    assert(crate::emit::js_quoted(s) == q);
    assert forall|i: int| 0 <= i < q.len() implies #[trigger] q[i] != '\n' && q[i] != '\r' by {
        if 0 < i < q.len() - 1 {
            assert(q[i] == m[i - 1]);
        }
    }
    lemma_none_is(q, '\n');
    lemma_none_is(q, '\r');
}

/// The example compiler's string literals (`js4::js_string`) are quoted at both ends and hold
/// no line feed, carriage return, line separator or paragraph separator.
pub proof fn law_js4_string_stays_on_one_line(s: Seq<char>)
    ensures
        crate::js4::js4_quoted(s)[0] == '"',
        crate::js4::js4_quoted(s).last() == '"',
        !crate::js4::js4_quoted(s).contains('\n'),
        !crate::js4::js4_quoted(s).contains('\r'),
        !crate::js4::js4_quoted(s).contains('\u{2028}'),
        !crate::js4::js4_quoted(s).contains('\u{2029}'),
{
    reveal_strlit("\\u2028");
    reveal_strlit("\\u2029");
    let f = |c: char| crate::js4::js4_char(c);
    assert forall|i: int| 0 <= i < s.len() implies !crate::js4::js4_char(#[trigger] s[i]).contains(
        '\n',
    ) && !crate::js4::js4_char(s[i]).contains('\r') && !crate::js4::js4_char(s[i]).contains(
        '\u{2028}',
    ) && !crate::js4::js4_char(s[i]).contains('\u{2029}') by {
        let t = crate::js4::js4_char(s[i]);
        assert forall|j: int| 0 <= j < t.len() implies #[trigger] t[j] != '\n' && t[j] != '\r'
            && t[j] != '\u{2028}' && t[j] != '\u{2029}' by {}
        lemma_none_is(t, '\n');
        lemma_none_is(t, '\r');
        lemma_none_is(t, '\u{2028}');
        lemma_none_is(t, '\u{2029}');
    }
    lemma_flat_map_avoids(s, f, '\n');
    lemma_flat_map_avoids(s, f, '\r');
    lemma_flat_map_avoids(s, f, '\u{2028}');
    lemma_flat_map_avoids(s, f, '\u{2029}');
    let m = flat_map(s, f);
    let q = seq!['"'] + m + seq!['"'];
    assert(crate::js4::js4_quoted(s) == q);
    assert forall|i: int| 0 <= i < q.len() implies #[trigger] q[i] != '\n' && q[i] != '\r' && q[i]
        != '\u{2028}' && q[i] != '\u{2029}' by {
        if 0 < i < q.len() - 1 {
            assert(q[i] == m[i - 1]);
        }
    }
    lemma_none_is(q, '\n');
    lemma_none_is(q, '\r');
    lemma_none_is(q, '\u{2028}');
    lemma_none_is(q, '\u{2029}');
}

// ---------------------------------------------------------------------------------------
// Variables and constants of a script run
// ---------------------------------------------------------------------------------------

/// Reading a name back after `put`: the name reads the value just written, and every other
/// name reads what it read before.
pub proof fn law_put_then_lookup<V>(s: Seq<(Seq<char>, V)>, k: Seq<char>, v: V, other: Seq<char>)
    ensures
        crate::interp4::lookup(crate::interp4::put(s, k, v), k) == Some(v),
        other != k ==> crate::interp4::lookup(crate::interp4::put(s, k, v), other)
            == crate::interp4::lookup(s, other),
{
    let t = crate::interp4::put(s, k, v);
    crate::interp4::lemma_key_pos(s, k);
    crate::interp4::lemma_key_pos(s, other);
    crate::interp4::lemma_key_pos(t, k);
    crate::interp4::lemma_key_pos(t, other);
    match crate::interp4::key_pos(s, k) {
        Some(i) => {
            assert(t == s.update(i, (k, v)));
            assert(t.len() == s.len());
            assert forall|j: int| 0 <= j < t.len() && j != i implies #[trigger] t[j] == s[j] by {}
            match crate::interp4::key_pos(t, k) {
                Some(p) => {
                    if p != i {
                        assert(t[i].0 == k);
                    }
                },
                None => {
                    assert(t[i].0 == k);
                },
            }
            if other != k {
                match crate::interp4::key_pos(s, other) {
                    Some(q) => {
                        assert(t[q] == s[q]);
                        match crate::interp4::key_pos(t, other) {
                            Some(p) => {
                                if p < q {
                                    assert(t[p] == s[p]);
                                } else if p > q {
                                    assert(t[q].0 == other);
                                }
                            },
                            None => {
                                assert(t[q].0 == other);
                            },
                        }
                    },
                    None => {
                        match crate::interp4::key_pos(t, other) {
                            Some(p) => {
                                assert(t[p] == s[p]);
                            },
                            None => {},
                        }
                    },
                }
            }
        },
        None => {
            assert(t == s.push((k, v)));
            assert forall|j: int| 0 <= j < s.len() implies #[trigger] t[j] == s[j] by {}
            match crate::interp4::key_pos(t, k) {
                Some(p) => {
                    if p < s.len() {
                        assert(t[p] == s[p]);
                    }
                },
                None => {
                    assert(t[s.len() as int].0 == k);
                },
            }
            if other != k {
                match crate::interp4::key_pos(s, other) {
                    Some(q) => {
                        assert(t[q] == s[q]);
                        match crate::interp4::key_pos(t, other) {
                            Some(p) => {
                                if p < q {
                                    assert(t[p] == s[p]);
                                } else if p > q {
                                    assert(t[q].0 == other);
                                }
                            },
                            None => {
                                assert(t[q].0 == other);
                            },
                        }
                    },
                    None => {
                        match crate::interp4::key_pos(t, other) {
                            Some(p) => {
                                if p < s.len() {
                                    assert(t[p] == s[p]);
                                } else {
                                    assert(t[p].0 == k);
                                }
                            },
                            None => {},
                        }
                    },
                }
            }
        },
    }
}

/// `var.set` never overwrites: a variable that has a value keeps it, and a new one gets the
/// value given.
pub proof fn law_var_set_keeps_existing_values(
    a: crate::interp4::AnswersModel,
    fuel0: nat,
    st: crate::interp4::StateModel,
    stmt: Seq<char>,
    depth: usize,
    rest: Seq<char>,
    name: Seq<char>,
    value: Seq<char>,
    other: Seq<char>,
)
    requires
        crate::script4::command_rest(stmt, "var.set"@) == Some(rest),
        crate::script4::name_value(rest, "var.set"@) == Ok::<(Seq<char>, Seq<char>), Seq<char>>((name, value)),
    ensures
        ({
            let (st2, r) = crate::interp4::exec_command_s(a, fuel0, st, stmt, depth);
            &&& r == Ok::<crate::interp4::Signal, crate::interp4::StopModel>(crate::interp4::Signal::Normal)
            &&& st2.consts == st.consts
            &&& st2.effects == st.effects
            &&& (crate::interp4::lookup(st.vars, name) is Some ==> st2.vars == st.vars)
            &&& (crate::interp4::lookup(st.vars, name) is None ==> crate::interp4::lookup(st2.vars, name)
                == Some(value))
            &&& (other != name ==> crate::interp4::lookup(st2.vars, other) == crate::interp4::lookup(
                st.vars,
                other,
            ))
        }),
{
    law_put_then_lookup(st.vars, name, value, other);
}

/// `var.edit` never creates a variable: one without a value stays without, and one with a
/// value gets the value given.
pub proof fn law_var_edit_changes_only_existing(
    a: crate::interp4::AnswersModel,
    fuel0: nat,
    st: crate::interp4::StateModel,
    stmt: Seq<char>,
    depth: usize,
    rest: Seq<char>,
    name: Seq<char>,
    value: Seq<char>,
    other: Seq<char>,
)
    requires
        crate::script4::command_rest(stmt, "var.set"@) is None,
        crate::script4::command_rest(stmt, "var.edit"@) == Some(rest),
        crate::script4::name_value(rest, "var.edit"@) == Ok::<(Seq<char>, Seq<char>), Seq<char>>((name, value)),
    ensures
        ({
            let (st2, r) = crate::interp4::exec_command_s(a, fuel0, st, stmt, depth);
            &&& r == Ok::<crate::interp4::Signal, crate::interp4::StopModel>(crate::interp4::Signal::Normal)
            &&& st2.consts == st.consts
            &&& st2.effects == st.effects
            &&& (crate::interp4::lookup(st.vars, name) is None ==> st2.vars == st.vars)
            &&& (crate::interp4::lookup(st.vars, name) is Some ==> crate::interp4::lookup(st2.vars, name)
                == Some(value))
            &&& (other != name ==> crate::interp4::lookup(st2.vars, other) == crate::interp4::lookup(
                st.vars,
                other,
            ))
        }),
{
    law_put_then_lookup(st.vars, name, value, other);
}

/// `const.set` never changes a constant once it has a value; a new one gets the value given.
pub proof fn law_const_set_is_write_once(
    a: crate::interp4::AnswersModel,
    fuel0: nat,
    st: crate::interp4::StateModel,
    stmt: Seq<char>,
    depth: usize,
    rest: Seq<char>,
    name: Seq<char>,
    value: Seq<char>,
    other: Seq<char>,
)
    requires
        crate::script4::command_rest(stmt, "var.set"@) is None,
        crate::script4::command_rest(stmt, "var.edit"@) is None,
        crate::script4::command_rest(stmt, "const.set"@) == Some(rest),
        crate::script4::name_value(rest, "const.set"@) == Ok::<(Seq<char>, Seq<char>), Seq<char>>((name, value)),
    ensures
        ({
            let (st2, r) = crate::interp4::exec_command_s(a, fuel0, st, stmt, depth);
            &&& r == Ok::<crate::interp4::Signal, crate::interp4::StopModel>(crate::interp4::Signal::Normal)
            &&& st2.vars == st.vars
            &&& st2.effects == st.effects
            &&& (crate::interp4::lookup(st.consts, name) is Some ==> st2.consts == st.consts)
            &&& (crate::interp4::lookup(st.consts, name) is None ==> crate::interp4::lookup(
                st2.consts,
                name,
            ) == Some(value))
            &&& (other != name ==> crate::interp4::lookup(st2.consts, other) == crate::interp4::lookup(
                st.consts,
                other,
            ))
        }),
{
    law_put_then_lookup(st.consts, name, value, other);
}

// ---------------------------------------------------------------------------------------
// Expansion
// ---------------------------------------------------------------------------------------

proof fn lemma_no_substitution_starts(s: Seq<char>, i: int)
    requires
        !s.contains('['),
    ensures
        crate::interp4::kind_at(s, i) == 0,
{
    reveal_strlit("var[");
    reveal_strlit("const[");
    reveal_strlit("calc[");
    if crate::text::starts_at(s, i, "var["@) {
        assert(s.subrange(i, i + 4)[3] == s[i + 3]);
    }
    if crate::text::starts_at(s, i, "const["@) {
        assert(s.subrange(i, i + 6)[5] == s[i + 5]);
    }
    if crate::text::starts_at(s, i, "calc["@) {
        assert(s.subrange(i, i + 5)[4] == s[i + 4]);
    }
}

proof fn lemma_scan_plain(e: crate::interp4::Env, s: Seq<char>, i: int, fuel: nat)
    requires
        !s.contains('['),
        0 <= i <= s.len(),
    ensures
        crate::interp4::expand_scan_s(e, s, i, s.take(i), false, fuel) == (
            fuel,
            Ok::<(Seq<char>, bool), crate::interp4::StopModel>((s, false)),
        ),
    decreases s.len() - i,
{
    if i < s.len() {
        lemma_no_substitution_starts(s, i);
        assert(s.take(i).push(s[i]) =~= s.take(i + 1));
        lemma_scan_plain(e, s, i + 1, fuel);
    } else {
        assert(s.take(i) =~= s);
    }
}

/// Text with no `[` holds no `var[...]`, `const[...]` or `calc[...]`, and expanding it gives
/// it back unchanged (after the two steps that one pass takes).
pub proof fn law_expansion_keeps_text_without_brackets(e: crate::interp4::Env, s: Seq<char>, fuel: nat)
    requires
        !s.contains('['),
        fuel >= 2,
    ensures
        crate::interp4::expand_all_s(e, s, fuel) == (
            (fuel - 2) as nat,
            Ok::<Seq<char>, crate::interp4::StopModel>(s),
        ),
{
    lemma_scan_plain(e, s, 0, (fuel - 2) as nat);
    assert(s.take(0) =~= Seq::<char>::empty());
}

/// `break` ends the innermost loop that a `for` runs, and outside any loop it does nothing:
/// the state is kept (but for the steps it took) and the run goes on.
pub proof fn law_break_outside_a_loop_does_nothing(
    a: crate::interp4::AnswersModel,
    st: crate::interp4::StateModel,
    depth: usize,
)
    requires
        st.fuel >= 2,
    ensures
        crate::interp4::exec_raw_s(a, st, "break"@, depth) == (
            crate::interp4::with_fuel(st, (st.fuel - 2) as nat),
            Ok::<crate::interp4::Signal, crate::interp4::StopModel>(
                if depth > 0 {
                    crate::interp4::Signal::Break
                } else {
                    crate::interp4::Signal::Normal
                },
            ),
        ),
{
    reveal_strlit("break");
    let b = "break"@;
    assert forall|i: int| 0 <= i < b.len() implies #[trigger] b[i] != '[' by {}
    lemma_none_is(b, '[');
    law_expansion_keeps_text_without_brackets(crate::interp4::env_of(st, a), b, st.fuel);
    assert(crate::text::trim_start(b) == b);
    assert(crate::text::trim_end(b) == b);
}

// ---------------------------------------------------------------------------------------
// Comments, settings and tables
// ---------------------------------------------------------------------------------------

/// Stripping comments (`strip_comments`) keeps the start of each line up to its first `#`
/// outside parentheses: what is kept holds a `#` only inside parentheses, and a line whose
/// every `#` stands inside parentheses, as a colour in `var.set color (#ff0000)`, is kept whole.
pub proof fn law_comments_start_outside_parentheses(line: Seq<char>)
    ensures
        crate::syntax4::uncommented(line).len() <= line.len(),
        crate::syntax4::uncommented(line) == line.take(crate::syntax4::uncommented(line).len() as int),
        forall|i: int|
            0 <= i < crate::syntax4::uncommented(line).len() && line[i] == '#' ==> #[trigger] crate::syntax4::depth_at(
                line,
                '(',
                ')',
                i,
            ) > 0,
        (forall|i: int|
            0 <= i < line.len() && line[i] == '#' ==> #[trigger] crate::syntax4::depth_at(
                line,
                '(',
                ')',
                i,
            ) > 0) ==> crate::syntax4::uncommented(line) == line,
{
    crate::syntax4::lemma_comment_from(line, 0);
    assert(line.take(line.len() as int) =~= line);
    if let Some(k) = crate::syntax4::comment_from(line, 0) {
        assert(line.take(k).len() == k);
    }
}

/// In the settings, a later line for a key wins over an earlier one, and adding a line for
/// one key leaves every other key as it was.
pub proof fn law_later_setting_wins(
    entries: Seq<(Seq<char>, Seq<char>)>,
    key: Seq<char>,
    value: Seq<char>,
    other: Seq<char>,
)
    ensures
        crate::warp3::entries_get(entries.push((key, value)), key) == Some(value),
        other != key ==> crate::warp3::entries_get(entries.push((key, value)), other)
            == crate::warp3::entries_get(entries, other),
{
    assert(entries.push((key, value)).drop_last() =~= entries);
}

/// The operations a table holds for `k`, if any.
pub open spec fn table_ops(t: Seq<(Seq<char>, Seq<crate::warp4::OpModel>)>, k: Seq<char>) -> Option<
    Seq<crate::warp4::OpModel>,
> {
    match crate::warp4::key_index(t, k) {
        Some(i) => Some(t[i].1),
        None => None,
    }
}

/// A table of events or functions after `insert`: its names stay strictly ascending (so each
/// name has one entry), the name inserted maps to the operations given (a second definition
/// replaces the first), and every other name keeps its operations.
pub proof fn law_table_insert_then_find(
    t: Seq<(Seq<char>, Seq<crate::warp4::OpModel>)>,
    k: Seq<char>,
    v: Seq<crate::warp4::OpModel>,
    other: Seq<char>,
)
    requires
        crate::warp4::keys_ascending(t),
    ensures
        crate::warp4::keys_ascending(crate::warp4::table_insert(t, k, v)),
        table_ops(crate::warp4::table_insert(t, k, v), k) == Some(v),
        other != k ==> table_ops(crate::warp4::table_insert(t, k, v), other) == table_ops(t, other),
{
    let r = crate::warp4::table_insert(t, k, v);
    crate::warp4::lemma_key_index(t, k);
    crate::warp4::lemma_key_index(t, other);
    crate::warp4::lemma_key_index(r, k);
    crate::warp4::lemma_key_index(r, other);
    lemma_ascending_first(t, other);
    match crate::warp4::key_index(t, k) {
        Some(i) => {
            assert(r == t.update(i, (k, v)));
            assert forall|x: int, y: int| 0 <= x < y < r.len() implies crate::names::lex_lt(
                #[trigger] r[x].0,
                #[trigger] r[y].0,
            ) by {
                assert(r[x].0 == t[x].0 && r[y].0 == t[y].0);
            }
            assert(r[i].0 == k);
            lemma_ascending_first(r, k);
            lemma_ascending_first(r, other);
            if other != k {
                if let Some(q) = crate::warp4::key_index(t, other) {
                    assert(r[q] == t[q]);
                }
                if let Some(q) = crate::warp4::key_index(r, other) {
                    assert(r[q] == t[q]);
                }
            }
        },
        None => {
            crate::warp4::lemma_insert_pos(t, k);
            lemma_insert_keeps_order(t, k, v);
            let p = crate::warp4::insert_pos(t, k);
            assert(r == t.insert(p, (k, v)));
            assert(r[p].0 == k);
            lemma_ascending_first(r, k);
            lemma_ascending_first(r, other);
            if other != k {
                if let Some(q) = crate::warp4::key_index(t, other) {
                    if q < p {
                        assert(r[q] == t[q]);
                    } else {
                        assert(r[q + 1] == t[q]);
                    }
                }
                if let Some(q) = crate::warp4::key_index(r, other) {
                    if q < p {
                        assert(r[q] == t[q]);
                    } else {
                        assert(q != p);
                        assert(r[q] == t[q - 1]);
                    }
                }
            }
        },
    }
}

/// In a table with ascending names, the entry `key_index` finds is the one entry with that
/// name.
proof fn lemma_ascending_first(t: Seq<(Seq<char>, Seq<crate::warp4::OpModel>)>, k: Seq<char>)
    requires
        crate::warp4::keys_ascending(t),
    ensures
        forall|j: int| 0 <= j < t.len() && t[j].0 == k ==> crate::warp4::key_index(t, k) == Some(j),
{
    crate::warp4::lemma_key_index(t, k);
    assert forall|j: int| 0 <= j < t.len() && t[j].0 == k implies crate::warp4::key_index(t, k)
        == Some(j) by {
        if let Some(i) = crate::warp4::key_index(t, k) {
            if i < j {
                assert(crate::names::lex_lt(t[i].0, t[j].0));
                crate::names::lemma_lex_irreflexive(k);
            } else if j < i {
                assert(crate::names::lex_lt(t[j].0, t[i].0));
                crate::names::lemma_lex_irreflexive(k);
            }
        }
    }
}

proof fn lemma_insert_keeps_order(
    t: Seq<(Seq<char>, Seq<crate::warp4::OpModel>)>,
    k: Seq<char>,
    v: Seq<crate::warp4::OpModel>,
)
    requires
        crate::warp4::keys_ascending(t),
        crate::warp4::key_index(t, k) is None,
    ensures
        crate::warp4::keys_ascending(t.insert(crate::warp4::insert_pos(t, k), (k, v))),
{
    crate::warp4::lemma_key_index(t, k);
    crate::warp4::lemma_insert_pos(t, k);
    let p = crate::warp4::insert_pos(t, k);
    let r = t.insert(p, (k, v));
    assert forall|x: int, y: int| 0 <= x < y < r.len() implies crate::names::lex_lt(
        #[trigger] r[x].0,
        #[trigger] r[y].0,
    ) by {
        if y < p {
            assert(r[x] == t[x] && r[y] == t[y]);
        } else if y == p {
            assert(r[x] == t[x]);
        } else if x < p {
            assert(r[x] == t[x] && r[y] == t[y - 1]);
            assert(crate::names::lex_lt(t[x].0, k));
            assert(crate::names::lex_lt(k, t[y - 1].0));
            crate::names::lemma_lex_transitive(t[x].0, k, t[y - 1].0);
        } else if x == p {
            assert(r[y] == t[y - 1]);
        } else {
            assert(r[x] == t[x - 1] && r[y] == t[y - 1]);
        }
    }
}

/// Names kept in ascending order (`NameSet`) are all different: each name is there once.
pub proof fn law_ascending_names_are_distinct(s: Seq<Seq<char>>)
    requires
        crate::names::ascending(s),
    ensures
        forall|i: int, j: int| 0 <= i < j < s.len() ==> #[trigger] s[i] != #[trigger] s[j],
{
    assert forall|i: int, j: int| 0 <= i < j < s.len() implies #[trigger] s[i] != #[trigger] s[j] by {
        assert(crate::names::lex_lt(s[i], s[j]));
        crate::names::lemma_lex_irreflexive(s[i]);
    }
}

// ---------------------------------------------------------------------------------------
// Layouts
// ---------------------------------------------------------------------------------------

/// An element of a tag that the renderer does not know stays visible as a generic container:
/// a `div` marked `baram-unknown` with its tag, holding its children rendered in order.
pub proof fn law_unknown_elements_keep_their_children(
    e: crate::layout::ElementModel,
    pt: Seq<char>,
    po: Seq<char>,
)
    requires
        !crate::layout::is_leaf(e.tag),
        e.tag != "TableLayout"@,
        e.tag != "LinearLayout"@,
        e.tag != "RelativeLayout"@,
        e.tag != "FrameLayout"@,
        e.tag != "GridLayout"@,
        e.tag != "AbsoluteLayout"@,
        e.tag != "ScrollView"@,
        e.tag != "HorizontalScrollView"@,
        e.tag != "RadioGroup"@,
        e.tag != "ViewFlipper"@,
        e.tag != "ViewAnimator"@,
        e.tag != "ViewSwitcher"@,
        e.tag != "TextSwitcher"@,
    ensures
        crate::layout::render(e, pt, po) == crate::layout::wrap_html(
            "div"@,
            crate::layout::add_attr(
                crate::layout::add_class(crate::layout::common_spec(e, pt, po), "baram-unknown"@),
                crate::layout::quoted("data-unknown-tag=\""@, e.tag),
            ),
            crate::layout::render_all(e.children, e.tag, ""@),
        ),
{
}

// ---------------------------------------------------------------------------------------
// Running a script again with more answers
// ---------------------------------------------------------------------------------------

/// `t` begins with `s`.
pub open spec fn grows(s: Seq<crate::interp4::EffectModel>, t: Seq<crate::interp4::EffectModel>) -> bool {
    s.len() <= t.len() && t.subrange(0, s.len() as int) == s
}

proof fn lemma_grows_trans(
    s: Seq<crate::interp4::EffectModel>,
    t: Seq<crate::interp4::EffectModel>,
    u: Seq<crate::interp4::EffectModel>,
)
    requires
        grows(s, t),
        grows(t, u),
    ensures
        grows(s, u),
{
    assert(u.subrange(0, s.len() as int) =~= u.subrange(0, t.len() as int).subrange(0, s.len() as int));
}

proof fn lemma_grows_refl(s: Seq<crate::interp4::EffectModel>)
    ensures
        grows(s, s),
{
    assert(s.subrange(0, s.len() as int) =~= s);
}

proof fn lemma_grows_push(s: Seq<crate::interp4::EffectModel>, x: crate::interp4::EffectModel)
    ensures
        grows(s, s.push(x)),
{
    assert(s.push(x).subrange(0, s.len() as int) =~= s);
}

/// Every answer that `a` holds, `b` holds the same.
pub open spec fn agree(a: crate::interp4::AnswersModel, b: crate::interp4::AnswersModel) -> bool {
    &&& forall|k: Seq<char>|
        crate::interp4::lookup(a.calc, k) is Some ==> #[trigger] crate::interp4::lookup(b.calc, k)
            == crate::interp4::lookup(a.calc, k)
    &&& forall|x: Seq<char>, y: Seq<char>|
        crate::interp4::less_answer(a.less, x, y) is Some ==> #[trigger] crate::interp4::less_answer(
            b.less,
            x,
            y,
        ) == crate::interp4::less_answer(a.less, x, y)
    &&& forall|k: Seq<char>|
        crate::interp4::lookup(a.non_negative, k) is Some ==> #[trigger] crate::interp4::lookup(
            b.non_negative,
            k,
        ) == crate::interp4::lookup(a.non_negative, k)
}

pub open spec fn env_agree(e1: crate::interp4::Env, e2: crate::interp4::Env) -> bool {
    e1.vars == e2.vars && e1.consts == e2.consts && agree(e1.answers, e2.answers)
}

/// Two outcomes of an expansion: the first asked a question, or they are the same.
pub open spec fn settles<T>(r1: (nat, Result<T, crate::interp4::StopModel>), r2: (
    nat,
    Result<T, crate::interp4::StopModel>,
)) -> bool {
    (r1.1 matches Err(crate::interp4::StopModel::Needs(_))) || r1 == r2
}

/// Two outcomes of running the same statements from the same state: the same, or, when the
/// first stopped to ask a question, the second went on from the first's effects.
pub open spec fn follows<T>(r1: (crate::interp4::StateModel, Result<T, crate::interp4::StopModel>), r2: (
    crate::interp4::StateModel,
    Result<T, crate::interp4::StopModel>,
)) -> bool {
    if r1.1 matches Err(crate::interp4::StopModel::Needs(_)) {
        grows(r1.0.effects, r2.0.effects)
    } else {
        r1 == r2
    }
}

proof fn lemma_scan_settles(
    e1: crate::interp4::Env,
    e2: crate::interp4::Env,
    s: Seq<char>,
    i: int,
    out: Seq<char>,
    changed: bool,
    fuel: nat,
)
    requires
        env_agree(e1, e2),
    ensures
        settles(
            crate::interp4::expand_scan_s(e1, s, i, out, changed, fuel),
            crate::interp4::expand_scan_s(e2, s, i, out, changed, fuel),
        ),
    decreases fuel, s.len() - i,
{
    if i < 0 || i >= s.len() {
    } else {
        let kind = crate::interp4::kind_at(s, i);
        if kind == 0 {
            lemma_scan_settles(e1, e2, s, i + 1, out.push(s[i]), changed, fuel);
        } else {
            let open = i + crate::interp4::kind_name(kind).len();
            match crate::script4::matching_square(s, open) {
                None => {},
                Some(close) => if fuel == 0 {
                } else if !(open < close) {
                } else {
                    let sub = s.subrange(open + 1, close);
                    lemma_all_settles(e1, e2, sub, (fuel - 1) as nat);
                    let (f2, r) = crate::interp4::expand_all_s(e1, sub, (fuel - 1) as nat);
                    match r {
                        Err(x) => {},
                        Ok(inner) => {
                            if kind == 3 {
                                match crate::interp4::lookup(e1.answers.calc, inner) {
                                    None => {},
                                    Some(Err(m)) => {},
                                    Some(Ok(v)) => {
                                        if f2 < fuel {
                                            lemma_scan_settles(e1, e2, s, close + 1, out + v, true, f2);
                                        }
                                    },
                                }
                            } else {
                                let m = if kind == 1 {
                                    e1.vars
                                } else {
                                    e1.consts
                                };
                                if f2 < fuel {
                                    match crate::interp4::lookup(m, crate::text::trim(inner)) {
                                        Some(v) => {
                                            lemma_scan_settles(e1, e2, s, close + 1, out + v, true, f2);
                                        },
                                        None => {
                                            lemma_scan_settles(
                                                e1,
                                                e2,
                                                s,
                                                close + 1,
                                                out + s.subrange(i, close + 1),
                                                changed,
                                                f2,
                                            );
                                        },
                                    }
                                }
                            }
                        },
                    }
                },
            }
        }
    }
}

proof fn lemma_loop_settles(
    e1: crate::interp4::Env,
    e2: crate::interp4::Env,
    current: Seq<char>,
    passes: nat,
    fuel: nat,
)
    requires
        env_agree(e1, e2),
    ensures
        settles(
            crate::interp4::expand_loop_s(e1, current, passes, fuel),
            crate::interp4::expand_loop_s(e2, current, passes, fuel),
        ),
    decreases fuel, 0int,
{
    if passes == 0 {
    } else if fuel == 0 {
    } else {
        lemma_scan_settles(e1, e2, current, 0, seq![], false, (fuel - 1) as nat);
        let (f2, r) = crate::interp4::expand_scan_s(e1, current, 0, seq![], false, (fuel - 1) as nat);
        match r {
            Err(x) => {},
            Ok((next, changed)) => if !changed || next == current {
            } else if f2 >= fuel {
            } else {
                lemma_loop_settles(e1, e2, next, (passes - 1) as nat, f2);
            },
        }
    }
}

proof fn lemma_all_settles(e1: crate::interp4::Env, e2: crate::interp4::Env, input: Seq<char>, fuel: nat)
    requires
        env_agree(e1, e2),
    ensures
        settles(
            crate::interp4::expand_all_s(e1, input, fuel),
            crate::interp4::expand_all_s(e2, input, fuel),
        ),
    decreases fuel, 1int,
{
    if fuel > 0 {
        lemma_loop_settles(e1, e2, input, 256, (fuel - 1) as nat);
    }
}

// What a run adds to its effects, it only adds.

proof fn lemma_nodes_grow(
    a: crate::interp4::AnswersModel,
    st: crate::interp4::StateModel,
    nodes: Seq<crate::syntax4::Stmt>,
    i: int,
    depth: usize,
)
    ensures
        grows(st.effects, crate::interp4::exec_nodes_s(a, st, nodes, i, depth).0.effects),
    decreases st.fuel, 5int,
{
    lemma_grows_refl(st.effects);
    if i < 0 || i >= nodes.len() {
    } else if st.fuel == 0 {
    } else {
        let s0 = crate::interp4::with_fuel(st, (st.fuel - 1) as nat);
        lemma_node_grows(a, s0, nodes[i], depth);
        let (st2, r) = crate::interp4::exec_node_s(a, s0, nodes[i], depth);
        match r {
            Ok(crate::interp4::Signal::Normal) => if st2.fuel < st.fuel {
                lemma_nodes_grow(a, st2, nodes, i + 1, depth);
                lemma_grows_trans(
                    st.effects,
                    st2.effects,
                    crate::interp4::exec_nodes_s(a, st2, nodes, i + 1, depth).0.effects,
                );
            },
            _ => {},
        }
    }
}

proof fn lemma_node_grows(
    a: crate::interp4::AnswersModel,
    st: crate::interp4::StateModel,
    node: crate::syntax4::Stmt,
    depth: usize,
)
    ensures
        grows(st.effects, crate::interp4::exec_node_s(a, st, node, depth).0.effects),
    decreases st.fuel, 4int,
{
    match node {
        crate::syntax4::Stmt::Raw(raw) => lemma_raw_grows(a, st, raw, depth),
        crate::syntax4::Stmt::Block { header, body } => lemma_block_grows(a, st, header, body, depth),
    }
}

proof fn lemma_block_grows(
    a: crate::interp4::AnswersModel,
    st: crate::interp4::StateModel,
    header: Seq<char>,
    body: Seq<crate::syntax4::Stmt>,
    depth: usize,
)
    ensures
        grows(st.effects, crate::interp4::exec_block_s(a, st, header, body, depth).0.effects),
    decreases st.fuel, 3int,
{
    lemma_grows_refl(st.effects);
    let (f2, r) = crate::interp4::expand_all_s(crate::interp4::env_of(st, a), header, st.fuel);
    let st1 = crate::interp4::with_fuel(st, f2);
    match r {
        Err(x) => {},
        Ok(expanded) => {
            let h = crate::text::trim(expanded);
            match crate::syntax4::fun_definition(h) {
                Ok(None) => if crate::text::starts_with(h, "if"@) && crate::syntax4::keyword_at_start(
                    h,
                    "if"@,
                ) {
                    let cond = crate::text::trim(h.skip(2));
                    match crate::script4::condition_of(cond) {
                        Some((l, op, rt)) => match crate::interp4::decide(a, l, op, rt) {
                            Ok(true) => if f2 < st.fuel {
                                lemma_nodes_grow(a, st1, body, 0, depth);
                            },
                            _ => {},
                        },
                        None => {},
                    }
                },
                _ => {},
            }
        },
    }
}

proof fn lemma_raw_grows(
    a: crate::interp4::AnswersModel,
    st: crate::interp4::StateModel,
    raw: Seq<char>,
    depth: usize,
)
    ensures
        grows(st.effects, crate::interp4::exec_raw_s(a, st, raw, depth).0.effects),
    decreases st.fuel, 3int,
{
    lemma_grows_refl(st.effects);
    let (f2, r) = crate::interp4::expand_all_s(crate::interp4::env_of(st, a), raw, st.fuel);
    let st1 = crate::interp4::with_fuel(st, f2);
    match r {
        Err(x) => {},
        Ok(expanded) => {
            let stmt = crate::text::trim(expanded);
            if stmt.len() != 0 && stmt != "break"@ {
                lemma_command_grows(a, st.fuel, st1, stmt, depth);
            }
        },
    }
}

proof fn lemma_command_grows(
    a: crate::interp4::AnswersModel,
    fuel0: nat,
    st1: crate::interp4::StateModel,
    stmt: Seq<char>,
    depth: usize,
)
    ensures
        grows(st1.effects, crate::interp4::exec_command_s(a, fuel0, st1, stmt, depth).0.effects),
    decreases fuel0, 2int,
{
    lemma_grows_refl(st1.effects);
    if crate::script4::command_rest(stmt, "var.set"@) is None && crate::script4::command_rest(
        stmt,
        "var.edit"@,
    ) is None && crate::script4::command_rest(stmt, "const.set"@) is None {
        lemma_output_grows(a, fuel0, st1, stmt, depth);
    }
}

proof fn lemma_output_grows(
    a: crate::interp4::AnswersModel,
    fuel0: nat,
    st1: crate::interp4::StateModel,
    stmt: Seq<char>,
    depth: usize,
)
    ensures
        grows(st1.effects, crate::interp4::exec_output_s(a, fuel0, st1, stmt, depth).0.effects),
    decreases fuel0, 1int,
{
    lemma_grows_refl(st1.effects);
    match crate::script4::call_args(stmt, "print"@) {
        Ok(Some(c)) => lemma_grows_push(st1.effects, crate::interp4::EffectModel::Print(c)),
        Ok(None) => match crate::script4::call_args(stmt, "wait"@) {
            Ok(Some(c)) => {
                let text = crate::text::trim(c);
                match crate::script4::duration_parts(text) {
                    Ok((num, unit)) => lemma_grows_push(
                        st1.effects,
                        crate::interp4::EffectModel::Wait(num, unit),
                    ),
                    Err(_) => {},
                }
            },
            Ok(None) => lemma_flow_grows(a, fuel0, st1, stmt, depth),
            Err(_) => {},
        },
        Err(_) => {},
    }
}

proof fn lemma_flow_grows(
    a: crate::interp4::AnswersModel,
    fuel0: nat,
    st1: crate::interp4::StateModel,
    stmt: Seq<char>,
    depth: usize,
)
    ensures
        grows(st1.effects, crate::interp4::exec_flow_s(a, fuel0, st1, stmt, depth).0.effects),
    decreases fuel0, 0int,
{
    lemma_grows_refl(st1.effects);
    if st1.fuel < fuel0 {
        match crate::script4::inline_if(stmt) {
            Ok(Some((l, op, rt, body))) => match crate::interp4::decide(a, l, op, rt) {
                Ok(true) => match crate::interp4::inline_program(body) {
                    Ok((nodes, _)) => lemma_nodes_grow(a, st1, nodes, 0, depth),
                    Err(_) => {},
                },
                _ => {},
            },
            Ok(None) => match crate::script4::named_call(stmt, "fun"@) {
                Ok(Some(name)) => lemma_call_grows(a, st1, name, depth),
                Ok(None) => match crate::script4::named_call(stmt, "for"@) {
                    Ok(Some(name)) => lemma_for_grows(a, st1, name, depth),
                    _ => {},
                },
                Err(_) => {},
            },
            Err(_) => {},
        }
    }
}

proof fn lemma_call_grows(
    a: crate::interp4::AnswersModel,
    st: crate::interp4::StateModel,
    name: Seq<char>,
    depth: usize,
)
    ensures
        grows(st.effects, crate::interp4::call_function_s(a, st, name, depth).0.effects),
    decreases st.fuel, 0int,
{
    lemma_grows_refl(st.effects);
    let (f2, r) = crate::interp4::expand_all_s(crate::interp4::env_of(st, a), name, st.fuel);
    let st1 = crate::interp4::with_fuel(st, f2);
    match r {
        Err(x) => {},
        Ok(x) => {
            let n = crate::text::trim(x);
            match crate::interp4::lookup(st1.functions, n) {
                None => {},
                Some(body) => if f2 < st.fuel {
                    lemma_nodes_grow(a, st1, body, 0, depth);
                },
            }
        },
    }
}

proof fn lemma_for_grows(
    a: crate::interp4::AnswersModel,
    st: crate::interp4::StateModel,
    name: Seq<char>,
    depth: usize,
)
    ensures
        grows(st.effects, crate::interp4::for_loop_s(a, st, name, depth).0.effects),
    decreases st.fuel, 0int,
{
    lemma_grows_refl(st.effects);
    if st.fuel > 0 {
        let s0 = crate::interp4::with_fuel(st, (st.fuel - 1) as nat);
        let d = crate::interp4::next_depth(depth);
        lemma_call_grows(a, s0, name, d);
        let (st2, r) = crate::interp4::call_function_s(a, s0, name, d);
        match r {
            Ok(crate::interp4::Signal::Normal) => if st2.fuel < st.fuel {
                lemma_for_grows(a, st2, name, depth);
                lemma_grows_trans(
                    st.effects,
                    st2.effects,
                    crate::interp4::for_loop_s(a, st2, name, depth).0.effects,
                );
            },
            _ => {},
        }
    }
}

// The same statements run with more answers go the same way until the first run asked.

proof fn lemma_decide_agrees(
    a: crate::interp4::AnswersModel,
    b: crate::interp4::AnswersModel,
    l: Seq<char>,
    op: crate::script4::CompareOp,
    rt: Seq<char>,
)
    requires
        agree(a, b),
    ensures
        crate::interp4::decide(a, l, op, rt) is Ok ==> crate::interp4::decide(b, l, op, rt)
            == crate::interp4::decide(a, l, op, rt),
{
    match crate::script4::compare_question(l, op, rt) {
        None => {},
        Some((x, y)) => {
            if crate::interp4::less_answer(a.less, x, y) is Some {
                assert(crate::interp4::less_answer(b.less, x, y) == crate::interp4::less_answer(
                    a.less,
                    x,
                    y,
                ));
            }
        },
    }
}

proof fn lemma_nodes_follow(
    a: crate::interp4::AnswersModel,
    b: crate::interp4::AnswersModel,
    st: crate::interp4::StateModel,
    nodes: Seq<crate::syntax4::Stmt>,
    i: int,
    depth: usize,
)
    requires
        agree(a, b),
    ensures
        follows(
            crate::interp4::exec_nodes_s(a, st, nodes, i, depth),
            crate::interp4::exec_nodes_s(b, st, nodes, i, depth),
        ),
    decreases st.fuel, 5int,
{
    if i < 0 || i >= nodes.len() {
    } else if st.fuel == 0 {
    } else {
        let s0 = crate::interp4::with_fuel(st, (st.fuel - 1) as nat);
        lemma_node_follows(a, b, s0, nodes[i], depth);
        let (st2, r) = crate::interp4::exec_node_s(a, s0, nodes[i], depth);
        let (st2b, rb) = crate::interp4::exec_node_s(b, s0, nodes[i], depth);
        if r matches Err(crate::interp4::StopModel::Needs(_)) {
            match rb {
                Ok(crate::interp4::Signal::Normal) => if st2b.fuel < st.fuel {
                    lemma_nodes_grow(b, st2b, nodes, i + 1, depth);
                    lemma_grows_trans(
                        st2.effects,
                        st2b.effects,
                        crate::interp4::exec_nodes_s(b, st2b, nodes, i + 1, depth).0.effects,
                    );
                },
                _ => {},
            }
        } else {
            match r {
                Ok(crate::interp4::Signal::Normal) => if st2.fuel < st.fuel {
                    lemma_nodes_follow(a, b, st2, nodes, i + 1, depth);
                },
                _ => {},
            }
        }
    }
}

proof fn lemma_node_follows(
    a: crate::interp4::AnswersModel,
    b: crate::interp4::AnswersModel,
    st: crate::interp4::StateModel,
    node: crate::syntax4::Stmt,
    depth: usize,
)
    requires
        agree(a, b),
    ensures
        follows(
            crate::interp4::exec_node_s(a, st, node, depth),
            crate::interp4::exec_node_s(b, st, node, depth),
        ),
    decreases st.fuel, 4int,
{
    match node {
        crate::syntax4::Stmt::Raw(raw) => lemma_raw_follows(a, b, st, raw, depth),
        crate::syntax4::Stmt::Block { header, body } => lemma_block_follows(a, b, st, header, body, depth),
    }
}

proof fn lemma_block_follows(
    a: crate::interp4::AnswersModel,
    b: crate::interp4::AnswersModel,
    st: crate::interp4::StateModel,
    header: Seq<char>,
    body: Seq<crate::syntax4::Stmt>,
    depth: usize,
)
    requires
        agree(a, b),
    ensures
        follows(
            crate::interp4::exec_block_s(a, st, header, body, depth),
            crate::interp4::exec_block_s(b, st, header, body, depth),
        ),
    decreases st.fuel, 3int,
{
    lemma_block_grows(b, st, header, body, depth);
    lemma_all_settles(crate::interp4::env_of(st, a), crate::interp4::env_of(st, b), header, st.fuel);
    let (f2, r) = crate::interp4::expand_all_s(crate::interp4::env_of(st, a), header, st.fuel);
    let st1 = crate::interp4::with_fuel(st, f2);
    match r {
        Err(x) => {},
        Ok(expanded) => {
            let h = crate::text::trim(expanded);
            match crate::syntax4::fun_definition(h) {
                Ok(None) => if crate::text::starts_with(h, "if"@) && crate::syntax4::keyword_at_start(
                    h,
                    "if"@,
                ) {
                    let cond = crate::text::trim(h.skip(2));
                    match crate::script4::condition_of(cond) {
                        Some((l, op, rt)) => {
                            lemma_decide_agrees(a, b, l, op, rt);
                            match crate::interp4::decide(a, l, op, rt) {
                                Ok(true) => if f2 < st.fuel {
                                    lemma_nodes_follow(a, b, st1, body, 0, depth);
                                },
                                _ => {},
                            }
                        },
                        None => {},
                    }
                },
                _ => {},
            }
        },
    }
}

proof fn lemma_raw_follows(
    a: crate::interp4::AnswersModel,
    b: crate::interp4::AnswersModel,
    st: crate::interp4::StateModel,
    raw: Seq<char>,
    depth: usize,
)
    requires
        agree(a, b),
    ensures
        follows(
            crate::interp4::exec_raw_s(a, st, raw, depth),
            crate::interp4::exec_raw_s(b, st, raw, depth),
        ),
    decreases st.fuel, 3int,
{
    lemma_raw_grows(b, st, raw, depth);
    lemma_all_settles(crate::interp4::env_of(st, a), crate::interp4::env_of(st, b), raw, st.fuel);
    let (f2, r) = crate::interp4::expand_all_s(crate::interp4::env_of(st, a), raw, st.fuel);
    let st1 = crate::interp4::with_fuel(st, f2);
    match r {
        Err(x) => {},
        Ok(expanded) => {
            let stmt = crate::text::trim(expanded);
            if stmt.len() != 0 && stmt != "break"@ {
                lemma_command_follows(a, b, st.fuel, st1, stmt, depth);
            }
        },
    }
}

proof fn lemma_command_follows(
    a: crate::interp4::AnswersModel,
    b: crate::interp4::AnswersModel,
    fuel0: nat,
    st1: crate::interp4::StateModel,
    stmt: Seq<char>,
    depth: usize,
)
    requires
        agree(a, b),
    ensures
        follows(
            crate::interp4::exec_command_s(a, fuel0, st1, stmt, depth),
            crate::interp4::exec_command_s(b, fuel0, st1, stmt, depth),
        ),
    decreases fuel0, 2int,
{
    if crate::script4::command_rest(stmt, "var.set"@) is None && crate::script4::command_rest(
        stmt,
        "var.edit"@,
    ) is None && crate::script4::command_rest(stmt, "const.set"@) is None {
        lemma_output_follows(a, b, fuel0, st1, stmt, depth);
    }
}

proof fn lemma_output_follows(
    a: crate::interp4::AnswersModel,
    b: crate::interp4::AnswersModel,
    fuel0: nat,
    st1: crate::interp4::StateModel,
    stmt: Seq<char>,
    depth: usize,
)
    requires
        agree(a, b),
    ensures
        follows(
            crate::interp4::exec_output_s(a, fuel0, st1, stmt, depth),
            crate::interp4::exec_output_s(b, fuel0, st1, stmt, depth),
        ),
    decreases fuel0, 1int,
{
    lemma_output_grows(b, fuel0, st1, stmt, depth);
    match crate::script4::call_args(stmt, "print"@) {
        Ok(Some(c)) => {},
        Ok(None) => match crate::script4::call_args(stmt, "wait"@) {
            Ok(Some(c)) => {
                let text = crate::text::trim(c);
                match crate::script4::duration_parts(text) {
                    Ok((num, unit)) => {
                        if crate::interp4::lookup(a.non_negative, num) is Some {
                            assert(crate::interp4::lookup(b.non_negative, num) == crate::interp4::lookup(
                                a.non_negative,
                                num,
                            ));
                        }
                    },
                    Err(_) => {},
                }
            },
            Ok(None) => lemma_flow_follows(a, b, fuel0, st1, stmt, depth),
            Err(_) => {},
        },
        Err(_) => {},
    }
}

proof fn lemma_flow_follows(
    a: crate::interp4::AnswersModel,
    b: crate::interp4::AnswersModel,
    fuel0: nat,
    st1: crate::interp4::StateModel,
    stmt: Seq<char>,
    depth: usize,
)
    requires
        agree(a, b),
    ensures
        follows(
            crate::interp4::exec_flow_s(a, fuel0, st1, stmt, depth),
            crate::interp4::exec_flow_s(b, fuel0, st1, stmt, depth),
        ),
    decreases fuel0, 0int,
{
    lemma_flow_grows(b, fuel0, st1, stmt, depth);
    if st1.fuel < fuel0 {
        match crate::script4::inline_if(stmt) {
            Ok(Some((l, op, rt, body))) => {
                lemma_decide_agrees(a, b, l, op, rt);
                match crate::interp4::decide(a, l, op, rt) {
                    Ok(true) => match crate::interp4::inline_program(body) {
                        Ok((nodes, _)) => lemma_nodes_follow(a, b, st1, nodes, 0, depth),
                        Err(_) => {},
                    },
                    _ => {},
                }
            },
            Ok(None) => match crate::script4::named_call(stmt, "fun"@) {
                Ok(Some(name)) => lemma_call_follows(a, b, st1, name, depth),
                Ok(None) => match crate::script4::named_call(stmt, "for"@) {
                    Ok(Some(name)) => lemma_for_follows(a, b, st1, name, depth),
                    _ => {},
                },
                Err(_) => {},
            },
            Err(_) => {},
        }
    }
}

proof fn lemma_call_follows(
    a: crate::interp4::AnswersModel,
    b: crate::interp4::AnswersModel,
    st: crate::interp4::StateModel,
    name: Seq<char>,
    depth: usize,
)
    requires
        agree(a, b),
    ensures
        follows(
            crate::interp4::call_function_s(a, st, name, depth),
            crate::interp4::call_function_s(b, st, name, depth),
        ),
    decreases st.fuel, 0int,
{
    lemma_call_grows(b, st, name, depth);
    lemma_all_settles(crate::interp4::env_of(st, a), crate::interp4::env_of(st, b), name, st.fuel);
    let (f2, r) = crate::interp4::expand_all_s(crate::interp4::env_of(st, a), name, st.fuel);
    let st1 = crate::interp4::with_fuel(st, f2);
    match r {
        Err(x) => {},
        Ok(x) => {
            let n = crate::text::trim(x);
            match crate::interp4::lookup(st1.functions, n) {
                None => {},
                Some(body) => if f2 < st.fuel {
                    lemma_nodes_follow(a, b, st1, body, 0, depth);
                },
            }
        },
    }
}

proof fn lemma_for_follows(
    a: crate::interp4::AnswersModel,
    b: crate::interp4::AnswersModel,
    st: crate::interp4::StateModel,
    name: Seq<char>,
    depth: usize,
)
    requires
        agree(a, b),
    ensures
        follows(
            crate::interp4::for_loop_s(a, st, name, depth),
            crate::interp4::for_loop_s(b, st, name, depth),
        ),
    decreases st.fuel, 0int,
{
    if st.fuel > 0 {
        let s0 = crate::interp4::with_fuel(st, (st.fuel - 1) as nat);
        let d = crate::interp4::next_depth(depth);
        lemma_call_follows(a, b, s0, name, d);
        let (st2, r) = crate::interp4::call_function_s(a, s0, name, d);
        let (st2b, rb) = crate::interp4::call_function_s(b, s0, name, d);
        if r matches Err(crate::interp4::StopModel::Needs(_)) {
            match rb {
                Ok(crate::interp4::Signal::Normal) => if st2b.fuel < st.fuel {
                    lemma_for_grows(b, st2b, name, depth);
                    lemma_grows_trans(
                        st2.effects,
                        st2b.effects,
                        crate::interp4::for_loop_s(b, st2b, name, depth).0.effects,
                    );
                },
                _ => {},
            }
        } else {
            match r {
                Ok(crate::interp4::Signal::Normal) => if st2.fuel < st.fuel {
                    lemma_for_follows(a, b, st2, name, depth);
                },
                _ => {},
            }
        }
    }
}

/// A script run again with more answers (every answer of the first run kept as it was)
/// ends as the first run did, with the same effects, unless the first run stopped to ask a
/// question; then the second run's effects begin with all of the first run's. So the effects
/// of a run that stopped to ask can be carried out at once, and the run started again with
/// the answer added.
pub proof fn law_more_answers_extend_a_run(
    a: crate::interp4::AnswersModel,
    b: crate::interp4::AnswersModel,
    st: crate::interp4::StateModel,
    nodes: Seq<crate::syntax4::Stmt>,
)
    requires
        agree(a, b),
    ensures
        follows(crate::interp4::run_s(a, st, nodes), crate::interp4::run_s(b, st, nodes)),
{
    match crate::interp4::hoist_from(st, nodes, 0) {
        Err(m) => {},
        Ok(st1) => {
            lemma_nodes_follow(a, b, st1, nodes, 0, 0);
        },
    }
}

/// Adding an answer to a question not answered yet keeps every answer there was.
pub proof fn law_new_answer_keeps_the_others(
    a: crate::interp4::AnswersModel,
    k: Seq<char>,
    c: Result<Seq<char>, Seq<char>>,
    x: Seq<char>,
    y: Seq<char>,
    less: bool,
    n: Seq<char>,
    ok: bool,
)
    ensures
        crate::interp4::lookup(a.calc, k) is None ==> agree(
            a,
            crate::interp4::AnswersModel { calc: a.calc.push((k, c)), ..a },
        ),
        crate::interp4::less_answer(a.less, x, y) is None ==> agree(
            a,
            crate::interp4::AnswersModel { less: a.less.push((x, y, less)), ..a },
        ),
        crate::interp4::lookup(a.non_negative, n) is None ==> agree(
            a,
            crate::interp4::AnswersModel { non_negative: a.non_negative.push((n, ok)), ..a },
        ),
{
    assert forall|j: Seq<char>| crate::interp4::lookup(a.calc, j) is Some implies #[trigger] crate::interp4::lookup(
        a.calc.push((k, c)),
        j,
    ) == crate::interp4::lookup(a.calc, j) by {
        lemma_push_keeps_lookup(a.calc, (k, c), j);
    }
    assert forall|j: Seq<char>| crate::interp4::lookup(a.non_negative, j) is Some implies #[trigger] crate::interp4::lookup(
        a.non_negative.push((n, ok)),
        j,
    ) == crate::interp4::lookup(a.non_negative, j) by {
        lemma_push_keeps_lookup(a.non_negative, (n, ok), j);
    }
    assert forall|p: Seq<char>, q: Seq<char>| crate::interp4::less_answer(a.less, p, q) is Some implies #[trigger] crate::interp4::less_answer(
        a.less.push((x, y, less)),
        p,
        q,
    ) == crate::interp4::less_answer(a.less, p, q) by {
        lemma_push_keeps_less(a.less, (x, y, less), p, q);
    }
}

proof fn lemma_push_keeps_lookup<V>(s: Seq<(Seq<char>, V)>, e: (Seq<char>, V), k: Seq<char>)
    requires
        crate::interp4::lookup(s, k) is Some,
    ensures
        crate::interp4::lookup(s.push(e), k) == crate::interp4::lookup(s, k),
{
    assert(s.push(e).drop_last() =~= s);
    crate::interp4::lemma_key_pos(s, k);
    if let Some(i) = crate::interp4::key_pos(s, k) {
        assert(s.push(e)[i] == s[i]);
    }
}

proof fn lemma_push_keeps_less(
    s: Seq<(Seq<char>, Seq<char>, bool)>,
    e: (Seq<char>, Seq<char>, bool),
    x: Seq<char>,
    y: Seq<char>,
)
    requires
        crate::interp4::less_answer(s, x, y) is Some,
    ensures
        crate::interp4::less_answer(s.push(e), x, y) == crate::interp4::less_answer(s, x, y),
    decreases s.len(),
{
    if s.len() > 0 {
        assert(s.push(e)[0] == s[0]);
        if !(s[0].0 == x && s[0].1 == y) {
            assert(s.push(e).drop_first() =~= s.drop_first().push(e));
            lemma_push_keeps_less(s.drop_first(), e, x, y);
        }
    }
}

// ---------------------------------------------------------------------------------------
// Running a script again with more steps
// ---------------------------------------------------------------------------------------

/// Two outcomes of an expansion, the second with `d` more steps: the first ran out of steps,
/// or the second is the first with `d` more steps left.
pub open spec fn shifted<T>(r1: (nat, Result<T, crate::interp4::StopModel>), r2: (
    nat,
    Result<T, crate::interp4::StopModel>,
), d: nat) -> bool {
    (r1.1 matches Err(crate::interp4::StopModel::OutOfFuel)) || r2 == (r1.0 + d, r1.1)
}

/// Two outcomes of running the same statements, the second with `d` more steps: the same but
/// for the steps left, or, when the first ran out of steps, the second went on from the
/// first's effects.
pub open spec fn outlasts<T>(r1: (crate::interp4::StateModel, Result<T, crate::interp4::StopModel>), r2: (
    crate::interp4::StateModel,
    Result<T, crate::interp4::StopModel>,
), d: nat) -> bool {
    if r1.1 matches Err(crate::interp4::StopModel::OutOfFuel) {
        grows(r1.0.effects, r2.0.effects)
    } else {
        r2 == (crate::interp4::with_fuel(r1.0, r1.0.fuel + d), r1.1)
    }
}

proof fn lemma_scan_shifted(
    e: crate::interp4::Env,
    s: Seq<char>,
    i: int,
    out: Seq<char>,
    changed: bool,
    fuel: nat,
    d: nat,
)
    ensures
        shifted(
            crate::interp4::expand_scan_s(e, s, i, out, changed, fuel),
            crate::interp4::expand_scan_s(e, s, i, out, changed, fuel + d),
            d,
        ),
    decreases fuel, s.len() - i,
{
    if i < 0 || i >= s.len() {
    } else {
        let kind = crate::interp4::kind_at(s, i);
        if kind == 0 {
            lemma_scan_shifted(e, s, i + 1, out.push(s[i]), changed, fuel, d);
        } else {
            let open = i + crate::interp4::kind_name(kind).len();
            match crate::script4::matching_square(s, open) {
                None => {},
                Some(close) => if fuel == 0 {
                } else if !(open < close) {
                } else {
                    let sub = s.subrange(open + 1, close);
                    assert((fuel + d - 1) as nat == (fuel - 1) as nat + d);
                    lemma_all_shifted(e, sub, (fuel - 1) as nat, d);
                    let (f2, r) = crate::interp4::expand_all_s(e, sub, (fuel - 1) as nat);
                    match r {
                        Err(x) => {},
                        Ok(inner) => {
                            if f2 < fuel {
                                if kind == 3 {
                                    match crate::interp4::lookup(e.answers.calc, inner) {
                                        Some(Ok(v)) => {
                                            lemma_scan_shifted(e, s, close + 1, out + v, true, f2, d);
                                        },
                                        _ => {},
                                    }
                                } else {
                                    let m = if kind == 1 {
                                        e.vars
                                    } else {
                                        e.consts
                                    };
                                    match crate::interp4::lookup(m, crate::text::trim(inner)) {
                                        Some(v) => {
                                            lemma_scan_shifted(e, s, close + 1, out + v, true, f2, d);
                                        },
                                        None => {
                                            lemma_scan_shifted(
                                                e,
                                                s,
                                                close + 1,
                                                out + s.subrange(i, close + 1),
                                                changed,
                                                f2,
                                                d,
                                            );
                                        },
                                    }
                                }
                            }
                        },
                    }
                },
            }
        }
    }
}

proof fn lemma_loop_shifted(e: crate::interp4::Env, current: Seq<char>, passes: nat, fuel: nat, d: nat)
    ensures
        shifted(
            crate::interp4::expand_loop_s(e, current, passes, fuel),
            crate::interp4::expand_loop_s(e, current, passes, fuel + d),
            d,
        ),
    decreases fuel, 0int,
{
    if passes == 0 {
    } else if fuel == 0 {
    } else {
        assert((fuel + d - 1) as nat == (fuel - 1) as nat + d);
        lemma_scan_shifted(e, current, 0, seq![], false, (fuel - 1) as nat, d);
        let (f2, r) = crate::interp4::expand_scan_s(e, current, 0, seq![], false, (fuel - 1) as nat);
        match r {
            Err(x) => {},
            Ok((next, changed)) => if !changed || next == current {
            } else if f2 >= fuel {
            } else {
                lemma_loop_shifted(e, next, (passes - 1) as nat, f2, d);
            },
        }
    }
}

proof fn lemma_all_shifted(e: crate::interp4::Env, input: Seq<char>, fuel: nat, d: nat)
    ensures
        shifted(crate::interp4::expand_all_s(e, input, fuel), crate::interp4::expand_all_s(e, input, fuel + d), d),
    decreases fuel, 1int,
{
    if fuel > 0 {
        assert((fuel + d - 1) as nat == (fuel - 1) as nat + d);
        lemma_loop_shifted(e, input, 256, (fuel - 1) as nat, d);
    }
}

proof fn lemma_nodes_outlast(
    a: crate::interp4::AnswersModel,
    st: crate::interp4::StateModel,
    nodes: Seq<crate::syntax4::Stmt>,
    i: int,
    depth: usize,
    d: nat,
)
    ensures
        outlasts(
            crate::interp4::exec_nodes_s(a, st, nodes, i, depth),
            crate::interp4::exec_nodes_s(a, crate::interp4::with_fuel(st, st.fuel + d), nodes, i, depth),
            d,
        ),
    decreases st.fuel, 5int,
{
    let st_ = crate::interp4::with_fuel(st, st.fuel + d);
    lemma_nodes_grow(a, st_, nodes, i, depth);
    if i < 0 || i >= nodes.len() {
    } else if st.fuel == 0 {
    } else {
        let s0 = crate::interp4::with_fuel(st, (st.fuel - 1) as nat);
        assert(crate::interp4::with_fuel(st_, (st_.fuel - 1) as nat) == crate::interp4::with_fuel(s0, s0.fuel + d));
        lemma_node_outlasts(a, s0, nodes[i], depth, d);
        let (st2, r) = crate::interp4::exec_node_s(a, s0, nodes[i], depth);
        let (st2b, rb) = crate::interp4::exec_node_s(a, crate::interp4::with_fuel(s0, s0.fuel + d), nodes[i], depth);
        if r matches Err(crate::interp4::StopModel::OutOfFuel) {
            match rb {
                Ok(crate::interp4::Signal::Normal) => if st2b.fuel < st_.fuel {
                    lemma_nodes_grow(a, st2b, nodes, i + 1, depth);
                    lemma_grows_trans(
                        st2.effects,
                        st2b.effects,
                        crate::interp4::exec_nodes_s(a, st2b, nodes, i + 1, depth).0.effects,
                    );
                },
                _ => {},
            }
        } else {
            lemma_grows_refl(st2.effects);
            match r {
                Ok(crate::interp4::Signal::Normal) => if st2.fuel < st.fuel {
                    lemma_nodes_outlast(a, st2, nodes, i + 1, depth, d);
                },
                _ => {},
            }
        }
    }
}

proof fn lemma_node_outlasts(
    a: crate::interp4::AnswersModel,
    st: crate::interp4::StateModel,
    node: crate::syntax4::Stmt,
    depth: usize,
    d: nat,
)
    ensures
        outlasts(
            crate::interp4::exec_node_s(a, st, node, depth),
            crate::interp4::exec_node_s(a, crate::interp4::with_fuel(st, st.fuel + d), node, depth),
            d,
        ),
    decreases st.fuel, 4int,
{
    match node {
        crate::syntax4::Stmt::Raw(raw) => lemma_raw_outlasts(a, st, raw, depth, d),
        crate::syntax4::Stmt::Block { header, body } => lemma_block_outlasts(a, st, header, body, depth, d),
    }
}

proof fn lemma_block_outlasts(
    a: crate::interp4::AnswersModel,
    st: crate::interp4::StateModel,
    header: Seq<char>,
    body: Seq<crate::syntax4::Stmt>,
    depth: usize,
    d: nat,
)
    ensures
        outlasts(
            crate::interp4::exec_block_s(a, st, header, body, depth),
            crate::interp4::exec_block_s(a, crate::interp4::with_fuel(st, st.fuel + d), header, body, depth),
            d,
        ),
    decreases st.fuel, 3int,
{
    let st_ = crate::interp4::with_fuel(st, st.fuel + d);
    lemma_block_grows(a, st_, header, body, depth);
    assert(crate::interp4::env_of(st_, a) == crate::interp4::env_of(st, a));
    lemma_all_shifted(crate::interp4::env_of(st, a), header, st.fuel, d);
    let (f2, r) = crate::interp4::expand_all_s(crate::interp4::env_of(st, a), header, st.fuel);
    let st1 = crate::interp4::with_fuel(st, f2);
    assert(crate::interp4::with_fuel(st_, f2 + d) == crate::interp4::with_fuel(st1, st1.fuel + d));
    match r {
        Err(x) => {},
        Ok(expanded) => {
            let h = crate::text::trim(expanded);
            match crate::syntax4::fun_definition(h) {
                Ok(Some(name)) => {
                    assert(crate::interp4::StateModel {
                        hoisted: crate::interp4::remove_name(st1.hoisted, name),
                        ..crate::interp4::with_fuel(st1, st1.fuel + d)
                    } == crate::interp4::with_fuel(
                        crate::interp4::StateModel {
                            hoisted: crate::interp4::remove_name(st1.hoisted, name),
                            ..st1
                        },
                        st1.fuel + d,
                    ));
                    assert(crate::interp4::StateModel {
                        functions: crate::interp4::put(st1.functions, name, body),
                        ..crate::interp4::with_fuel(st1, st1.fuel + d)
                    } == crate::interp4::with_fuel(
                        crate::interp4::StateModel {
                            functions: crate::interp4::put(st1.functions, name, body),
                            ..st1
                        },
                        st1.fuel + d,
                    ));
                },
                Ok(None) => if crate::text::starts_with(h, "if"@) && crate::syntax4::keyword_at_start(
                    h,
                    "if"@,
                ) {
                    let cond = crate::text::trim(h.skip(2));
                    match crate::script4::condition_of(cond) {
                        Some((l, op, rt)) => match crate::interp4::decide(a, l, op, rt) {
                            Ok(true) => if f2 < st.fuel {
                                lemma_nodes_outlast(a, st1, body, 0, depth, d);
                            },
                            _ => {},
                        },
                        None => {},
                    }
                },
                _ => {},
            }
        },
    }
}

proof fn lemma_raw_outlasts(
    a: crate::interp4::AnswersModel,
    st: crate::interp4::StateModel,
    raw: Seq<char>,
    depth: usize,
    d: nat,
)
    ensures
        outlasts(
            crate::interp4::exec_raw_s(a, st, raw, depth),
            crate::interp4::exec_raw_s(a, crate::interp4::with_fuel(st, st.fuel + d), raw, depth),
            d,
        ),
    decreases st.fuel, 3int,
{
    let st_ = crate::interp4::with_fuel(st, st.fuel + d);
    lemma_raw_grows(a, st_, raw, depth);
    assert(crate::interp4::env_of(st_, a) == crate::interp4::env_of(st, a));
    lemma_all_shifted(crate::interp4::env_of(st, a), raw, st.fuel, d);
    let (f2, r) = crate::interp4::expand_all_s(crate::interp4::env_of(st, a), raw, st.fuel);
    let st1 = crate::interp4::with_fuel(st, f2);
    assert(crate::interp4::with_fuel(st_, f2 + d) == crate::interp4::with_fuel(st1, st1.fuel + d));
    match r {
        Err(x) => {},
        Ok(expanded) => {
            let stmt = crate::text::trim(expanded);
            if stmt.len() != 0 && stmt != "break"@ {
                lemma_command_outlasts(a, st.fuel, st1, stmt, depth, d);
            }
        },
    }
}

proof fn lemma_command_outlasts(
    a: crate::interp4::AnswersModel,
    fuel0: nat,
    st1: crate::interp4::StateModel,
    stmt: Seq<char>,
    depth: usize,
    d: nat,
)
    ensures
        outlasts(
            crate::interp4::exec_command_s(a, fuel0, st1, stmt, depth),
            crate::interp4::exec_command_s(a, fuel0 + d, crate::interp4::with_fuel(st1, st1.fuel + d), stmt, depth),
            d,
        ),
    decreases fuel0, 2int,
{
    let s_ = crate::interp4::with_fuel(st1, st1.fuel + d);
    assert forall|vs: Seq<(Seq<char>, Seq<char>)>| (crate::interp4::StateModel { vars: vs, ..s_ }) == crate::interp4::with_fuel(
        crate::interp4::StateModel { vars: vs, ..st1 },
        st1.fuel + d,
    ) by {}
    assert forall|cs: Seq<(Seq<char>, Seq<char>)>| (crate::interp4::StateModel { consts: cs, ..s_ }) == crate::interp4::with_fuel(
        crate::interp4::StateModel { consts: cs, ..st1 },
        st1.fuel + d,
    ) by {}
    if crate::script4::command_rest(stmt, "var.set"@) is None && crate::script4::command_rest(
        stmt,
        "var.edit"@,
    ) is None && crate::script4::command_rest(stmt, "const.set"@) is None {
        lemma_output_outlasts(a, fuel0, st1, stmt, depth, d);
    }
}

proof fn lemma_output_outlasts(
    a: crate::interp4::AnswersModel,
    fuel0: nat,
    st1: crate::interp4::StateModel,
    stmt: Seq<char>,
    depth: usize,
    d: nat,
)
    ensures
        outlasts(
            crate::interp4::exec_output_s(a, fuel0, st1, stmt, depth),
            crate::interp4::exec_output_s(a, fuel0 + d, crate::interp4::with_fuel(st1, st1.fuel + d), stmt, depth),
            d,
        ),
    decreases fuel0, 1int,
{
    let s_ = crate::interp4::with_fuel(st1, st1.fuel + d);
    assert forall|es: Seq<crate::interp4::EffectModel>| (crate::interp4::StateModel { effects: es, ..s_ })
        == crate::interp4::with_fuel(crate::interp4::StateModel { effects: es, ..st1 }, st1.fuel + d) by {}
    match crate::script4::call_args(stmt, "print"@) {
        Ok(None) => match crate::script4::call_args(stmt, "wait"@) {
            Ok(None) => lemma_flow_outlasts(a, fuel0, st1, stmt, depth, d),
            _ => {},
        },
        _ => {},
    }
}

proof fn lemma_flow_outlasts(
    a: crate::interp4::AnswersModel,
    fuel0: nat,
    st1: crate::interp4::StateModel,
    stmt: Seq<char>,
    depth: usize,
    d: nat,
)
    ensures
        outlasts(
            crate::interp4::exec_flow_s(a, fuel0, st1, stmt, depth),
            crate::interp4::exec_flow_s(a, fuel0 + d, crate::interp4::with_fuel(st1, st1.fuel + d), stmt, depth),
            d,
        ),
    decreases fuel0, 0int,
{
    let s_ = crate::interp4::with_fuel(st1, st1.fuel + d);
    lemma_flow_grows(a, fuel0 + d, s_, stmt, depth);
    if st1.fuel < fuel0 {
        match crate::script4::inline_if(stmt) {
            Ok(Some((l, op, rt, body))) => match crate::interp4::decide(a, l, op, rt) {
                Ok(true) => match crate::interp4::inline_program(body) {
                    Ok((nodes, _)) => lemma_nodes_outlast(a, st1, nodes, 0, depth, d),
                    Err(_) => {},
                },
                _ => {},
            },
            Ok(None) => match crate::script4::named_call(stmt, "fun"@) {
                Ok(Some(name)) => lemma_call_outlasts(a, st1, name, depth, d),
                Ok(None) => match crate::script4::named_call(stmt, "for"@) {
                    Ok(Some(name)) => lemma_for_outlasts(a, st1, name, depth, d),
                    _ => {},
                },
                Err(_) => {},
            },
            Err(_) => {},
        }
    }
}

proof fn lemma_call_outlasts(
    a: crate::interp4::AnswersModel,
    st: crate::interp4::StateModel,
    name: Seq<char>,
    depth: usize,
    d: nat,
)
    ensures
        outlasts(
            crate::interp4::call_function_s(a, st, name, depth),
            crate::interp4::call_function_s(a, crate::interp4::with_fuel(st, st.fuel + d), name, depth),
            d,
        ),
    decreases st.fuel, 0int,
{
    let st_ = crate::interp4::with_fuel(st, st.fuel + d);
    lemma_call_grows(a, st_, name, depth);
    assert(crate::interp4::env_of(st_, a) == crate::interp4::env_of(st, a));
    lemma_all_shifted(crate::interp4::env_of(st, a), name, st.fuel, d);
    let (f2, r) = crate::interp4::expand_all_s(crate::interp4::env_of(st, a), name, st.fuel);
    let st1 = crate::interp4::with_fuel(st, f2);
    assert(crate::interp4::with_fuel(st_, f2 + d) == crate::interp4::with_fuel(st1, st1.fuel + d));
    match r {
        Err(x) => {},
        Ok(x) => {
            let n = crate::text::trim(x);
            match crate::interp4::lookup(st1.functions, n) {
                None => {},
                Some(body) => if f2 < st.fuel {
                    lemma_nodes_outlast(a, st1, body, 0, depth, d);
                },
            }
        },
    }
}

proof fn lemma_for_outlasts(
    a: crate::interp4::AnswersModel,
    st: crate::interp4::StateModel,
    name: Seq<char>,
    depth: usize,
    d: nat,
)
    ensures
        outlasts(
            crate::interp4::for_loop_s(a, st, name, depth),
            crate::interp4::for_loop_s(a, crate::interp4::with_fuel(st, st.fuel + d), name, depth),
            d,
        ),
    decreases st.fuel, 0int,
{
    let st_ = crate::interp4::with_fuel(st, st.fuel + d);
    lemma_for_grows(a, st_, name, depth);
    if st.fuel > 0 {
        let s0 = crate::interp4::with_fuel(st, (st.fuel - 1) as nat);
        let dd = crate::interp4::next_depth(depth);
        assert(crate::interp4::with_fuel(st_, (st_.fuel - 1) as nat) == crate::interp4::with_fuel(s0, s0.fuel + d));
        lemma_call_outlasts(a, s0, name, dd, d);
        let (st2, r) = crate::interp4::call_function_s(a, s0, name, dd);
        let (st2b, rb) = crate::interp4::call_function_s(a, crate::interp4::with_fuel(s0, s0.fuel + d), name, dd);
        if r matches Err(crate::interp4::StopModel::OutOfFuel) {
            match rb {
                Ok(crate::interp4::Signal::Normal) => if st2b.fuel < st_.fuel {
                    lemma_for_grows(a, st2b, name, depth);
                    lemma_grows_trans(
                        st2.effects,
                        st2b.effects,
                        crate::interp4::for_loop_s(a, st2b, name, depth).0.effects,
                    );
                },
                _ => {},
            }
        } else {
            lemma_grows_refl(st2.effects);
            match r {
                Ok(crate::interp4::Signal::Normal) => if st2.fuel < st.fuel {
                    lemma_for_outlasts(a, st2, name, depth, d);
                },
                _ => {},
            }
        }
    }
}

proof fn lemma_hoist_keeps_fuel(
    st: crate::interp4::StateModel,
    nodes: Seq<crate::syntax4::Stmt>,
    i: int,
    g: nat,
)
    ensures
        crate::interp4::hoist_from(crate::interp4::with_fuel(st, g), nodes, i) == match crate::interp4::hoist_from(st, nodes, i) {
            Ok(s) => Ok(crate::interp4::with_fuel(s, g)),
            Err(m) => Err::<crate::interp4::StateModel, Seq<char>>(m),
        },
    decreases nodes.len() - i,
{
    if 0 <= i < nodes.len() {
        match nodes[i] {
            crate::syntax4::Stmt::Raw(_) => lemma_hoist_keeps_fuel(st, nodes, i + 1, g),
            crate::syntax4::Stmt::Block { header, body } => {
                match crate::syntax4::fun_definition(header) {
                    Ok(Some(name)) => {
                        let next = crate::interp4::StateModel {
                            functions: crate::interp4::put(st.functions, name, body),
                            hoisted: crate::interp4::insert_name(st.hoisted, name),
                            ..st
                        };
                        assert(crate::interp4::StateModel {
                            functions: crate::interp4::put(st.functions, name, body),
                            hoisted: crate::interp4::insert_name(st.hoisted, name),
                            ..crate::interp4::with_fuel(st, g)
                        } == crate::interp4::with_fuel(next, g));
                        lemma_hoist_keeps_fuel(next, nodes, i + 1, g);
                    },
                    _ => {},
                }
                lemma_hoist_keeps_fuel(st, nodes, i + 1, g);
            },
        }
    }
}

/// A script run again with more steps ends as the first run did, with the same effects and
/// the extra steps left over, unless the first run ran out of steps; then the second run's
/// effects begin with all of the first run's.
pub proof fn law_more_steps_extend_a_run(
    a: crate::interp4::AnswersModel,
    st: crate::interp4::StateModel,
    nodes: Seq<crate::syntax4::Stmt>,
    d: nat,
)
    ensures
        outlasts(crate::interp4::run_s(a, st, nodes), crate::interp4::run_s(a, crate::interp4::with_fuel(st, st.fuel + d), nodes), d),
{
    lemma_hoist_keeps_fuel(st, nodes, 0, st.fuel + d);
    match crate::interp4::hoist_from(st, nodes, 0) {
        Err(m) => {},
        Ok(st1) => {
            assert(st1.fuel == st.fuel) by {
                lemma_hoist_fuel(st, nodes, 0);
            }
            lemma_nodes_outlast(a, st1, nodes, 0, 0, d);
        },
    }
}

proof fn lemma_hoist_fuel(st: crate::interp4::StateModel, nodes: Seq<crate::syntax4::Stmt>, i: int)
    ensures
        crate::interp4::hoist_from(st, nodes, i) matches Ok(s) ==> s.fuel == st.fuel,
    decreases nodes.len() - i,
{
    if 0 <= i < nodes.len() {
        match nodes[i] {
            crate::syntax4::Stmt::Raw(_) => lemma_hoist_fuel(st, nodes, i + 1),
            crate::syntax4::Stmt::Block { header, body } => {
                match crate::syntax4::fun_definition(header) {
                    Ok(Some(name)) => {
                        lemma_hoist_fuel(
                            crate::interp4::StateModel {
                                functions: crate::interp4::put(st.functions, name, body),
                                hoisted: crate::interp4::insert_name(st.hoisted, name),
                                ..st
                            },
                            nodes,
                            i + 1,
                        );
                    },
                    _ => {},
                }
                lemma_hoist_fuel(st, nodes, i + 1);
            },
        }
    }
}

// ---------------------------------------------------------------------------------------
// When the Warp 3 compiler fails
// ---------------------------------------------------------------------------------------

/// A section's actions (`render_actions`) fail exactly when one of the actions fails.
pub proof fn law_actions_fail_at_a_failing_action(a: Seq<(Seq<char>, Seq<char>)>, vars: Set<Seq<char>>)
    ensures
        crate::compile3::actions_js(a, vars) is Err <==> exists|i: int|
            0 <= i < a.len() && (#[trigger] crate::compile3::action_js(a[i].0, a[i].1, vars)) is Err,
    decreases a.len(),
{
    if a.len() > 0 {
        let d = a.drop_last();
        law_actions_fail_at_a_failing_action(d, vars);
        if exists|i: int| 0 <= i < d.len() && (#[trigger] crate::compile3::action_js(d[i].0, d[i].1, vars)) is Err {
            let i = choose|i: int| 0 <= i < d.len() && (#[trigger] crate::compile3::action_js(d[i].0, d[i].1, vars)) is Err;
            assert(a[i] == d[i]);
        }
        if exists|i: int| 0 <= i < a.len() && (#[trigger] crate::compile3::action_js(a[i].0, a[i].1, vars)) is Err {
            let i = choose|i: int| 0 <= i < a.len() && (#[trigger] crate::compile3::action_js(a[i].0, a[i].1, vars)) is Err;
            if i < a.len() - 1 {
                assert(a[i] == d[i]);
            }
        }
    }
}

/// When one action fails: its command has no word or more than two; two words that are not
/// `setText` or `getText`; `wait` with a value that, without a trailing `ms` and trimmed, is no
/// whole number; or a variable (any other single word) given `+` and a value that is no number.
pub open spec fn action_fails(left: Seq<char>, value: Seq<char>) -> bool {
    let w = crate::text::words(left);
    ||| w.len() == 0 || w.len() >= 3
    ||| w.len() == 2 && w[0] != "setText"@ && w[0] != "getText"@
    ||| w.len() == 1 && w[0] == "wait"@ && crate::text::u64_text(
        crate::text::trim(crate::compile3::strip_ms(value)),
    ) is None
    ||| w.len() == 1 && w[0] != "scroll"@ && w[0] != "print"@ && w[0] != "screen"@ && w[0] != "wait"@
        && w[0] != "fun"@ && crate::text::starts_with(value, "+"@) && !crate::text::float_text(
        value.drop_first(),
    )
}

/// One action of a section fails exactly in the cases `action_fails` lists.
pub proof fn law_when_an_action_fails(left: Seq<char>, value: Seq<char>, vars: Set<Seq<char>>)
    ensures
        crate::compile3::action_js(left, value, vars) is Err <==> action_fails(left, value),
{
    reveal_strlit("scroll");
    reveal_strlit("print");
    reveal_strlit("screen");
    reveal_strlit("wait");
    reveal_strlit("fun");
    reveal_strlit("setText");
    reveal_strlit("getText");
    assert("scroll"@[3] != "screen"@[3]);
    assert("setText"@[0] != "getText"@[0]);
    let w = crate::text::words(left);
    let r = crate::compile3::action_js(left, value, vars);
    if w.len() == 1 {
        if w[0] == "scroll"@ {
            assert(r is Ok);
            assert(!action_fails(left, value));
        } else if w[0] == "print"@ {
            assert("print"@.len() != "wait"@.len());
            assert(r is Ok);
            assert(!action_fails(left, value));
        } else if w[0] == "screen"@ {
            assert(r is Ok);
            assert(!action_fails(left, value));
        } else if w[0] == "wait"@ {
            assert(r is Err <==> action_fails(left, value));
        } else if w[0] == "fun"@ {
            assert(r is Ok);
            assert(!action_fails(left, value));
        } else {
            assert(r is Err <==> action_fails(left, value));
        }
    } else if w.len() == 2 {
        assert(r is Err <==> action_fails(left, value));
    } else {
        assert(r is Err);
        assert(action_fails(left, value));
    }
}

proof fn lemma_functions_fail(ss: Seq<crate::warp3::SectionModel>, vars: Set<Seq<char>>, k: int)
    requires
        0 <= k <= ss.len(),
    ensures
        crate::compile3::functions_js(ss, vars, k) is Err <==> exists|i: int|
            0 <= i < k && ss[i].kind == crate::warp3::SectionKind::Function
                && (#[trigger] crate::compile3::actions_js(ss[i].actions, vars)) is Err,
        crate::compile3::clicks_js(ss, vars, k) is Err <==> exists|i: int|
            0 <= i < k && ss[i].kind == crate::warp3::SectionKind::Click
                && (#[trigger] crate::compile3::actions_js(ss[i].actions, vars)) is Err,
    decreases k,
{
    if k > 0 {
        lemma_functions_fail(ss, vars, k - 1);
    }
}

/// `t` stands somewhere in `s`.
pub open spec fn has_infix(s: Seq<char>, t: Seq<char>) -> bool {
    exists|p: int| 0 <= p && p + t.len() <= s.len() && #[trigger] s.subrange(p, p + t.len()) == t
}

/// The JavaScript that registers the function `name` with body `body`.
pub open spec fn function_piece(name: Seq<char>, body: Seq<char>) -> Seq<char> {
    "\nfunctions["@ + crate::emit::js_quoted(name) + "] = async function () {\n"@ + body + " };\n"@
}

/// The actions of section `x` compile, and its function registration stands in `js`.
pub open spec fn registers(js: Seq<char>, x: crate::warp3::SectionModel, vars: Set<Seq<char>>) -> bool {
    crate::compile3::actions_js(x.actions, vars) matches Ok(a) && has_infix(js, function_piece(x.name, a))
}

proof fn lemma_infix_within(a: Seq<char>, f: Seq<char>, b: Seq<char>, t: Seq<char>)
    requires
        has_infix(f, t),
    ensures
        has_infix(a + f + b, t),
{
    let p = choose|p: int| 0 <= p && p + t.len() <= f.len() && #[trigger] f.subrange(p, p + t.len()) == t;
    assert((a + f + b).subrange(a.len() + p, a.len() + p + t.len()) =~= f.subrange(p, p + t.len()));
}

proof fn lemma_function_pieces(ss: Seq<crate::warp3::SectionModel>, vars: Set<Seq<char>>, k: int)
    requires
        0 <= k <= ss.len(),
    ensures
        crate::compile3::functions_js(ss, vars, k) matches Ok(f) ==> forall|i: int|
            0 <= i < k && ss[i].kind == crate::warp3::SectionKind::Function ==> #[trigger] registers(
                f,
                ss[i],
                vars,
            ),
    decreases k,
{
    if k > 0 {
        lemma_function_pieces(ss, vars, k - 1);
        if let Ok(f) = crate::compile3::functions_js(ss, vars, k) {
            let s = crate::compile3::functions_js(ss, vars, k - 1)->Ok_0;
            let x = ss[k - 1];
            let q = if x.kind == crate::warp3::SectionKind::Function {
                function_piece(x.name, crate::compile3::actions_js(x.actions, vars)->Ok_0)
            } else {
                seq![]
            };
            assert(f == s + q);
            assert forall|i: int|
                0 <= i < k && ss[i].kind == crate::warp3::SectionKind::Function implies #[trigger] registers(
                f,
                ss[i],
                vars,
            ) by {
                let t = function_piece(ss[i].name, crate::compile3::actions_js(ss[i].actions, vars)->Ok_0);
                if i < k - 1 {
                    assert(registers(s, ss[i], vars));
                    lemma_infix_within(seq![], s, q, t);
                    assert(Seq::<char>::empty() + s + q =~= f);
                } else {
                    assert(q == t);
                    assert(f.subrange(s.len() as int, (s.len() + t.len()) as int) =~= t);
                }
            }
        }
    }
}

proof fn lemma_starts_then(a: Seq<char>, b: Seq<char>, p: Seq<char>)
    requires
        crate::text::starts_with(a, p),
    ensures
        crate::text::starts_with(a + b, p),
{
    assert((a + b).take(p.len() as int) =~= a.take(p.len() as int));
}

proof fn lemma_strict_start()
    ensures
        crate::text::starts_with(crate::compile3::JS_STRICT@, "\"use strict\";"@),
{
    reveal_strlit("\"use strict\";\n");
    reveal_strlit("\"use strict\";");
    assert(crate::compile3::JS_STRICT@.take(13) =~= "\"use strict\";"@);
}

proof fn lemma_shape(a: Seq<char>, show: Seq<char>, c: Seq<char>, end: Seq<char>, p: Seq<char>)
    requires
        crate::text::starts_with(a, p),
    ensures
        crate::text::starts_with(a + show + c + end, p),
        crate::text::ends_with(a + show + c + end, end),
        has_infix(a + show + c + end, show),
{
    let js = a + show + c + end;
    assert(js.take(p.len() as int) =~= a.take(p.len() as int));
    assert(js.skip(js.len() - end.len()) =~= end);
    assert(js.subrange(a.len() as int, (a.len() + show.len()) as int) =~= show);
    assert(has_infix(js, show));
}

proof fn lemma_app_script_ends(f: Seq<char>, c: Seq<char>, start: Seq<char>)
    ensures
        ({
            let js = (crate::compile3::JS_STRICT@ + crate::compile3::JS_RUNTIME@) + f
                + "\ndocument.addEventListener(\"DOMContentLoaded\", () => {\n  initializeTabs();\n"@
                + "  showScreen("@ + crate::emit::js_quoted(start) + ");\n"@ + c + "});\n"@;
            &&& crate::text::starts_with(js, "\"use strict\";"@)
            &&& crate::text::ends_with(js, "});\n"@)
            &&& has_infix(js, "  showScreen("@ + crate::emit::js_quoted(start) + ");\n"@)
        }),
{
    let s0 = crate::compile3::JS_STRICT@;
    let rest = crate::compile3::JS_RUNTIME@ + f
        + "\ndocument.addEventListener(\"DOMContentLoaded\", () => {\n  initializeTabs();\n"@;
    let head = s0 + rest;
    lemma_strict_start();
    lemma_starts_then(s0, rest, "\"use strict\";"@);
    let show = "  showScreen("@ + crate::emit::js_quoted(start) + ");\n"@;
    lemma_shape(head, show, c, "});\n"@, "\"use strict\";"@);
    assert(head + show + c + "});\n"@ =~= (crate::compile3::JS_STRICT@ + crate::compile3::JS_RUNTIME@) + f
        + "\ndocument.addEventListener(\"DOMContentLoaded\", () => {\n  initializeTabs();\n"@
        + "  showScreen("@ + crate::emit::js_quoted(start) + ");\n"@ + c + "});\n"@);
}

/// The script of a Warp 3 app (`generate_js`) fails exactly when the actions of one of its
/// sections fail. Otherwise it is the prelude, the functions, then the start-up handler that
/// shows the start screen and installs the click handlers: it starts with `"use strict";`,
/// ends with `});` and a line feed, shows the start screen, and each function section's
/// registration, with the JavaScript of its actions, stands in it.
pub proof fn law_app_script_fails_at_a_failing_section(
    ss: Seq<crate::warp3::SectionModel>,
    vars: Set<Seq<char>>,
    start: Seq<char>,
)
    ensures
        crate::compile3::app_js(ss, vars, start) is Err <==> exists|i: int|
            0 <= i < ss.len() && (#[trigger] crate::compile3::actions_js(ss[i].actions, vars)) is Err,
        crate::compile3::app_js(ss, vars, start) matches Ok(js) ==> {
            &&& exists|f: Seq<char>, c: Seq<char>|
                js == (crate::compile3::JS_STRICT@ + crate::compile3::JS_RUNTIME@) + f
                    + "\ndocument.addEventListener(\"DOMContentLoaded\", () => {\n  initializeTabs();\n"@
                    + "  showScreen("@ + crate::emit::js_quoted(start) + ");\n"@ + c + "});\n"@
            &&& crate::text::starts_with(js, "\"use strict\";"@)
            &&& crate::text::ends_with(js, "});\n"@)
            &&& has_infix(js, "  showScreen("@ + crate::emit::js_quoted(start) + ");\n"@)
            &&& forall|i: int|
                0 <= i < ss.len() && ss[i].kind == crate::warp3::SectionKind::Function ==> #[trigger] registers(
                    js,
                    ss[i],
                    vars,
                )
        },
{
    lemma_functions_fail(ss, vars, ss.len() as int);
    if exists|i: int| 0 <= i < ss.len() && (#[trigger] crate::compile3::actions_js(ss[i].actions, vars)) is Err {
        let i = choose|i: int| 0 <= i < ss.len() && (#[trigger] crate::compile3::actions_js(ss[i].actions, vars)) is Err;
        if ss[i].kind == crate::warp3::SectionKind::Function {
        } else {
            assert(ss[i].kind == crate::warp3::SectionKind::Click);
        }
    }
    if let Ok(js) = crate::compile3::app_js(ss, vars, start) {
        let f = crate::compile3::functions_js(ss, vars, ss.len() as int)->Ok_0;
        let c = crate::compile3::clicks_js(ss, vars, ss.len() as int)->Ok_0;
        let rest = "\ndocument.addEventListener(\"DOMContentLoaded\", () => {\n  initializeTabs();\n"@
            + "  showScreen("@ + crate::emit::js_quoted(start) + ");\n"@ + c + "});\n"@;
        assert(js == (crate::compile3::JS_STRICT@ + crate::compile3::JS_RUNTIME@) + f
            + "\ndocument.addEventListener(\"DOMContentLoaded\", () => {\n  initializeTabs();\n"@
            + "  showScreen("@ + crate::emit::js_quoted(start) + ");\n"@ + c + "});\n"@);
        assert(js =~= (crate::compile3::JS_STRICT@ + crate::compile3::JS_RUNTIME@) + f + rest);
        lemma_app_script_ends(f, c, start);
        lemma_function_pieces(ss, vars, ss.len() as int);
        assert forall|i: int|
            0 <= i < ss.len() && ss[i].kind == crate::warp3::SectionKind::Function implies #[trigger] registers(
            js,
            ss[i],
            vars,
        ) by {
            assert(registers(f, ss[i], vars));
            lemma_infix_within(
                (crate::compile3::JS_STRICT@ + crate::compile3::JS_RUNTIME@),
                f,
                rest,
                function_piece(ss[i].name, crate::compile3::actions_js(ss[i].actions, vars)->Ok_0),
            );
        }
    }
}

/// A script line that is neither empty nor a comment.
pub open spec fn script_content(raw: Seq<char>) -> bool {
    let t = crate::text::trim(raw);
    !(t.len() == 0 || crate::text::starts_with(t, "#"@) || crate::text::starts_with(t, "//"@))
}

/// A `[...]` section line.
pub open spec fn section_line(raw: Seq<char>) -> bool {
    let t = crate::text::trim(raw);
    script_content(raw) && crate::text::starts_with(t, "["@) && crate::text::ends_with(t, "]"@)
}

/// Whether a script line is wrong, `seen` telling whether a section came before it: a
/// section line needs `=` and the kind `onClick` or `fun`; any other line needs `=` and a
/// section before it.
pub open spec fn script_line_fails(raw: Seq<char>, seen: bool) -> bool {
    let t = crate::text::trim(raw);
    if !script_content(raw) {
        false
    } else if section_line(raw) {
        match crate::text::split_once(t.subrange(1, t.len() - 1), '=') {
            None => true,
            Some((kind, _)) => crate::text::trim(kind) != "onClick"@ && crate::text::trim(kind) != "fun"@,
        }
    } else {
        crate::text::split_once(t, '=') is None || !seen
    }
}

/// Whether a section line stands in `lines[i..j]`.
pub open spec fn section_between(lines: Seq<Seq<char>>, i: int, j: int) -> bool {
    exists|k: int| i <= k < j && #[trigger] section_line(lines[k])
}

/// Whether line `j` is wrong, with a section seen before it when `seen` sections came before
/// line `i` or a section line stands in `lines[i..j]`.
pub open spec fn fails_at(lines: Seq<Seq<char>>, i: int, j: int, seen: nat) -> bool {
    script_line_fails(lines[j], seen > 0 || section_between(lines, i, j))
}

proof fn lemma_script_from_fails(
    file: Seq<char>,
    lines: Seq<Seq<char>>,
    i: int,
    secs: Seq<crate::warp3::SectionModel>,
)
    requires
        0 <= i <= lines.len(),
    ensures
        crate::warp3::script_from(file, lines, i, secs) is Err <==> exists|j: int|
            i <= j < lines.len() && #[trigger] fails_at(lines, i, j, secs.len()),
    decreases lines.len() - i,
{
    if i < lines.len() {
        let r = crate::warp3::script_line(file, i, lines[i], secs);
        assert(!section_between(lines, i, i));
        assert(r is Err <==> script_line_fails(lines[i], secs.len() > 0));
        if let Ok(next) = r {
            assert(next.len() > 0 <==> secs.len() > 0 || section_line(lines[i]));
            lemma_script_from_fails(file, lines, i + 1, next);
            assert forall|j: int| i + 1 <= j < lines.len() implies (next.len() > 0 || section_between(
                lines,
                i + 1,
                j,
            )) == (secs.len() > 0 || section_between(lines, i, j)) by {
                if section_between(lines, i, j) && !section_line(lines[i]) {
                    let k = choose|k: int| i <= k < j && #[trigger] section_line(lines[k]);
                    assert(section_between(lines, i + 1, j));
                }
                if section_between(lines, i + 1, j) {
                    let k = choose|k: int| i + 1 <= k < j && #[trigger] section_line(lines[k]);
                    assert(section_between(lines, i, j));
                }
                if section_line(lines[i]) {
                    assert(section_between(lines, i, j));
                }
            }
            if exists|j: int| i <= j < lines.len() && #[trigger] fails_at(lines, i, j, secs.len()) {
                let j = choose|j: int| i <= j < lines.len() && #[trigger] fails_at(lines, i, j, secs.len());
                assert(j != i);
                assert(fails_at(lines, i + 1, j, next.len()));
            }
            if exists|j: int| i + 1 <= j < lines.len() && #[trigger] fails_at(lines, i + 1, j, next.len()) {
                let j = choose|j: int| i + 1 <= j < lines.len() && #[trigger] fails_at(lines, i + 1, j, next.len());
                assert(fails_at(lines, i, j, secs.len()));
            }
        } else {
            assert(fails_at(lines, i, i, secs.len()));
        }
    }
}

/// A Warp 3 script (`parse_script`) fails exactly when one of its lines is wrong: a section
/// line without `=` or of a kind other than `onClick` and `fun`, or another line (not empty,
/// not a comment) without `=` or before every section line.
pub proof fn law_script_fails_at_a_wrong_line(source: Seq<char>, file: Seq<char>)
    ensures
        crate::warp3::spec_parse_script(source, file) is Err <==> exists|j: int|
            0 <= j < crate::text::lines(source).len() && #[trigger] fails_at(crate::text::lines(source), 0, j, 0),
{
    lemma_script_from_fails(file, crate::text::lines(source), 0, seq![]);
}

/// The section lines among `lines[i..]`.
pub open spec fn section_count(lines: Seq<Seq<char>>, i: int) -> nat
    decreases lines.len() - i,
{
    if i < 0 || i >= lines.len() {
        0
    } else {
        (if section_line(lines[i]) {
            1nat
        } else {
            0nat
        }) + section_count(lines, i + 1)
    }
}

/// The action lines (content that is no section line) among `lines[i..]`.
pub open spec fn action_count(lines: Seq<Seq<char>>, i: int) -> nat
    decreases lines.len() - i,
{
    if i < 0 || i >= lines.len() {
        0
    } else {
        (if script_content(lines[i]) && !section_line(lines[i]) {
            1nat
        } else {
            0nat
        }) + action_count(lines, i + 1)
    }
}

/// The actions of all the sections together.
pub open spec fn total_actions(secs: Seq<crate::warp3::SectionModel>) -> nat
    decreases secs.len(),
{
    if secs.len() == 0 {
        0
    } else {
        total_actions(secs.drop_last()) + secs.last().actions.len()
    }
}

proof fn lemma_script_from_counts(
    file: Seq<char>,
    lines: Seq<Seq<char>>,
    i: int,
    secs: Seq<crate::warp3::SectionModel>,
)
    requires
        0 <= i <= lines.len(),
    ensures
        crate::warp3::script_from(file, lines, i, secs) matches Ok(out) ==> out.len() == secs.len()
            + section_count(lines, i) && total_actions(out) == total_actions(secs) + action_count(lines, i),
    decreases lines.len() - i,
{
    if i < lines.len() {
        if let Ok(next) = crate::warp3::script_line(file, i, lines[i], secs) {
            lemma_script_from_counts(file, lines, i + 1, next);
            if script_content(lines[i]) && !section_line(lines[i]) {
                assert(next.drop_last() =~= secs.drop_last());
            } else if section_line(lines[i]) {
                assert(next.drop_last() =~= secs);
            }
        }
    }
}

/// A Warp 3 script that parses has one section for each section line and, over all its
/// sections, one action for each other line that is neither empty nor a comment.
pub proof fn law_script_sections_and_actions_match_its_lines(source: Seq<char>, file: Seq<char>)
    ensures
        crate::warp3::spec_parse_script(source, file) matches Ok(secs) ==> secs.len() == section_count(
            crate::text::lines(source),
            0,
        ) && total_actions(secs) == action_count(crate::text::lines(source), 0),
{
    lemma_script_from_counts(file, crate::text::lines(source), 0, seq![]);
}

/// The section lines among `lines[..k]`.
pub open spec fn sections_before(lines: Seq<Seq<char>>, k: int) -> nat
    decreases k,
{
    if k <= 0 || k > lines.len() {
        0
    } else {
        sections_before(lines, k - 1) + (if section_line(lines[k - 1]) {
            1nat
        } else {
            0nat
        })
    }
}

/// The first section line at or after `k`, or the number of lines when there is none.
pub open spec fn next_section(lines: Seq<Seq<char>>, k: int) -> int
    decreases lines.len() - k,
{
    if k < 0 || k >= lines.len() {
        lines.len() as int
    } else if section_line(lines[k]) {
        k
    } else {
        next_section(lines, k + 1)
    }
}

/// An action line: neither empty, a comment nor a section line.
pub open spec fn action_line(raw: Seq<char>) -> bool {
    script_content(raw) && !section_line(raw)
}

/// The action of an action line: the trimmed text before and after its first `=`.
pub open spec fn action_of(raw: Seq<char>) -> (Seq<char>, Seq<char>) {
    let (left, right) = crate::text::split_once(crate::text::trim(raw), '=')->Some_0;
    (crate::text::trim(left), crate::text::trim(right))
}

/// The actions of the action lines among `lines[a..b]`, in order.
pub open spec fn actions_between(lines: Seq<Seq<char>>, a: int, b: int) -> Seq<(Seq<char>, Seq<char>)>
    decreases b - a,
{
    if b <= a || b > lines.len() || a < 0 {
        seq![]
    } else if action_line(lines[b - 1]) {
        actions_between(lines, a, b - 1).push(action_of(lines[b - 1]))
    } else {
        actions_between(lines, a, b - 1)
    }
}

/// The section that a section line opens, before its actions: `onClick` or `fun`, and the
/// trimmed name after the `=`.
pub open spec fn section_head(raw: Seq<char>) -> crate::warp3::SectionModel {
    let t = crate::text::trim(raw);
    let (kind, name) = crate::text::split_once(t.subrange(1, t.len() - 1), '=')->Some_0;
    crate::warp3::SectionModel {
        kind: if crate::text::trim(kind) == "onClick"@ {
            crate::warp3::SectionKind::Click
        } else {
            crate::warp3::SectionKind::Function
        },
        name: crate::text::trim(name),
        actions: seq![],
    }
}

/// The sections read from `lines[..i]`: one for each section line, in order, each holding the
/// actions of the action lines after it and before the next section line (or line `i`).
pub open spec fn placed(lines: Seq<Seq<char>>, i: int, secs: Seq<crate::warp3::SectionModel>) -> bool {
    &&& secs.len() == sections_before(lines, i)
    &&& forall|k: int|
        0 <= k < i && #[trigger] section_line(lines[k]) ==> secs[sections_before(lines, k) as int]
            == (crate::warp3::SectionModel {
            actions: actions_between(lines, k + 1, min_int(next_section(lines, k + 1), i)),
            ..section_head(lines[k])
        })
}

/// The smaller of two integers.
pub open spec fn min_int(a: int, b: int) -> int {
    if a <= b {
        a
    } else {
        b
    }
}

proof fn lemma_next_section(lines: Seq<Seq<char>>, k: int)
    requires
        0 <= k <= lines.len(),
    ensures
        k <= next_section(lines, k) <= lines.len(),
        next_section(lines, k) < lines.len() ==> section_line(lines[next_section(lines, k)]),
        forall|j: int| k <= j < next_section(lines, k) ==> !#[trigger] section_line(lines[j]),
    decreases lines.len() - k,
{
    if k < lines.len() && !section_line(lines[k]) {
        lemma_next_section(lines, k + 1);
    }
}

proof fn lemma_sections_before(lines: Seq<Seq<char>>, j: int, k: int)
    requires
        0 <= j <= k <= lines.len(),
    ensures
        sections_before(lines, j) <= sections_before(lines, k),
        j < k && section_line(lines[j]) ==> sections_before(lines, j) < sections_before(lines, k),
        (forall|m: int| j <= m < k ==> !#[trigger] section_line(lines[m])) ==> sections_before(lines, j)
            == sections_before(lines, k),
    decreases k - j,
{
    if j < k {
        lemma_sections_before(lines, j, k - 1);
    }
}

#[verifier::spinoff_prover]
#[verifier::rlimit(40)]
proof fn lemma_placed_step(
    file: Seq<char>,
    lines: Seq<Seq<char>>,
    i: int,
    secs: Seq<crate::warp3::SectionModel>,
)
    requires
        0 <= i < lines.len(),
        placed(lines, i, secs),
    ensures
        crate::warp3::script_line(file, i, lines[i], secs) matches Ok(next) ==> placed(lines, i + 1, next),
{
    let raw = lines[i];
    if let Ok(next) = crate::warp3::script_line(file, i, raw, secs) {
        lemma_sections_before(lines, i, i + 1);
        assert(sections_before(lines, i + 1) == sections_before(lines, i) + (if section_line(raw) {
            1nat
        } else {
            0nat
        }));
        assert forall|k: int| 0 <= k < i + 1 && #[trigger] section_line(lines[k]) implies next[sections_before(
            lines,
            k,
        ) as int] == (crate::warp3::SectionModel {
            actions: actions_between(lines, k + 1, min_int(next_section(lines, k + 1), i + 1)),
            ..section_head(lines[k])
        }) by {
            lemma_next_section(lines, k + 1);
            let ns = next_section(lines, k + 1);
            if k == i {
                assert(actions_between(lines, k + 1, min_int(ns, i + 1)) =~= seq![]);
            } else {
                lemma_sections_before(lines, k, i);
                lemma_sections_before(lines, k + 1, i + 1);
                if ns <= i {
                    if ns < i {
                        lemma_sections_before(lines, ns, i);
                        lemma_sections_before(lines, k, ns);
                    }
                    assert(min_int(ns, i) == min_int(ns, i + 1));
                } else {
                    assert(!section_line(raw));
                    assert(actions_between(lines, k + 1, i + 1) == if action_line(raw) {
                        actions_between(lines, k + 1, i).push(action_of(raw))
                    } else {
                        actions_between(lines, k + 1, i)
                    });
                }
            }
        }
    }
}

proof fn lemma_script_from_placed(
    file: Seq<char>,
    lines: Seq<Seq<char>>,
    i: int,
    secs: Seq<crate::warp3::SectionModel>,
)
    requires
        0 <= i <= lines.len(),
        placed(lines, i, secs),
    ensures
        crate::warp3::script_from(file, lines, i, secs) matches Ok(out) ==> placed(lines, lines.len() as int, out),
    decreases lines.len() - i,
{
    if i < lines.len() {
        lemma_placed_step(file, lines, i, secs);
        if let Ok(next) = crate::warp3::script_line(file, i, lines[i], secs) {
            lemma_script_from_placed(file, lines, i + 1, next);
        }
    }
}

/// In a Warp 3 script that parses, each section line opens one section, in order, of its kind
/// and with its trimmed name, and each action line (split at its first `=`, both sides
/// trimmed) goes, in order, to the nearest section line above it.
pub proof fn law_actions_go_to_the_section_above(source: Seq<char>, file: Seq<char>)
    ensures
        crate::warp3::spec_parse_script(source, file) matches Ok(secs) ==> {
            let lines = crate::text::lines(source);
            &&& secs.len() == sections_before(lines, lines.len() as int)
            &&& forall|k: int|
                0 <= k < lines.len() && #[trigger] section_line(lines[k]) ==> secs[sections_before(lines, k) as int]
                    == (crate::warp3::SectionModel {
                    actions: actions_between(lines, k + 1, next_section(lines, k + 1)),
                    ..section_head(lines[k])
                })
        },
{
    let lines = crate::text::lines(source);
    assert(placed(lines, 0, seq![]));
    lemma_script_from_placed(file, lines, 0, seq![]);
    if let Ok(secs) = crate::warp3::spec_parse_script(source, file) {
        assert forall|k: int|
            0 <= k < lines.len() && #[trigger] section_line(lines[k]) implies min_int(
            next_section(lines, k + 1),
            lines.len() as int,
        ) == next_section(lines, k + 1) by {
            lemma_next_section(lines, k + 1);
        }
    }
}

// ---------------------------------------------------------------------------------------
// Balanced groups
// ---------------------------------------------------------------------------------------

/// The depth of `open`/`close` pairs at `j`, counted from `start`.
pub open spec fn depth_from(s: Seq<char>, open: char, close: char, start: int, j: int) -> int {
    crate::syntax4::depth_at(s, open, close, j) - crate::syntax4::depth_at(s, open, close, start)
}

proof fn lemma_group_depth(s: Seq<char>, open: char, close: char, start: int, p: int, depth: int)
    requires
        open != close,
        0 <= start < p <= s.len(),
        depth == depth_from(s, open, close, start, p),
        forall|j: int| start < j <= p ==> #[trigger] depth_from(s, open, close, start, j) >= 1,
    ensures
        match crate::syntax4::group_end(s, open, close, p, depth) {
            Some(q) => p <= q < s.len() && s[q] == close && depth_from(s, open, close, start, q + 1)
                == 0 && forall|j: int|
                start < j <= q ==> #[trigger] depth_from(s, open, close, start, j) >= 1,
            None => forall|j: int|
                start < j <= s.len() ==> #[trigger] depth_from(s, open, close, start, j) >= 1,
        },
    decreases s.len() - p,
{
    if p < s.len() {
        assert(depth_from(s, open, close, start, p + 1) == depth + (if s[p] == open {
            1int
        } else {
            0int
        }) - (if s[p] == close {
            1int
        } else {
            0int
        }));
        if s[p] == open {
            lemma_group_depth(s, open, close, start, p + 1, depth + 1);
        } else if s[p] == close {
            if depth != 1 {
                lemma_group_depth(s, open, close, start, p + 1, depth - 1);
            }
        } else {
            lemma_group_depth(s, open, close, start, p + 1, depth);
        }
    }
}

/// The group that `read_balanced_str` reads: without `open` at `start` it is an error; else
/// the group runs from that `open` to the first `close` that brings the depth of pairs back
/// to where it was, the text between them is what it returns, and the end is just past that
/// `close`; when no `close` does, it is the "not closed" error.
pub proof fn law_balanced_group(s: Seq<char>, start: int, open: char, close: char)
    ensures
        !(0 <= start < s.len() && s[start] == open) ==> crate::syntax4::balanced(s, start, open, close)
            == Err::<(Seq<char>, int), Seq<char>>(crate::syntax4::err_needed(open)),
        crate::syntax4::balanced(s, start, open, close) matches Ok((inner, end)) ==> 0 <= start
            && start + 2 <= end <= s.len() && s[start] == open && s[end - 1] == close && inner
            == s.subrange(start + 1, end - 1),
        open != close ==> (crate::syntax4::balanced(s, start, open, close) matches Ok((inner, end))
            ==> depth_from(s, open, close, start, end) == 0 && forall|j: int|
            start < j < end ==> #[trigger] depth_from(s, open, close, start, j) >= 1),
        open != close && 0 <= start < s.len() && s[start] == open ==> (crate::syntax4::balanced(
            s,
            start,
            open,
            close,
        ) == Err::<(Seq<char>, int), Seq<char>>(crate::syntax4::err_unclosed(open)) <==> forall|j: int|
            start < j <= s.len() ==> #[trigger] depth_from(s, open, close, start, j) >= 1),
{
    if 0 <= start < s.len() && s[start] == open {
        crate::syntax4::lemma_group_end(s, open, close, start, 0);
        if open != close {
            assert(depth_from(s, open, close, start, start + 1) == 1);
            lemma_group_depth(s, open, close, start, start + 1, 1);
            if let Some(q) = crate::syntax4::group_end(s, open, close, start, 0) {
                assert(!(forall|j: int|
                    start < j <= s.len() ==> #[trigger] depth_from(s, open, close, start, j) >= 1)) by {
                    assert(depth_from(s, open, close, start, q + 1) == 0);
                }
            }
        } else {
            lemma_group_same(s, open, start + 1, 1);
        }
        if let Some(q) = crate::syntax4::group_end(s, open, close, start, 0) {
            assert(q > start) by {
                if q == start {
                    assert(s[start] == open);
                }
            }
        }
    }
}

/// With `open` and `close` the same, every such character opens, so nothing closes.
proof fn lemma_group_same(s: Seq<char>, c: char, p: int, depth: int)
    ensures
        crate::syntax4::group_end(s, c, c, p, depth) is None,
    decreases s.len() - p,
{
    if 0 <= p < s.len() {
        if s[p] == c {
            lemma_group_same(s, c, p + 1, depth + 1);
        } else {
            lemma_group_same(s, c, p + 1, depth);
        }
    }
}

// ---------------------------------------------------------------------------------------
// Functions of a script run
// ---------------------------------------------------------------------------------------

/// Calling a function: when its name fails to expand, the call fails with that error; when
/// the expanded, trimmed name is not defined, the call is an error that names it. Either way
/// the run is kept as it was but for the steps the expansion took. When the name is defined,
/// the call runs the function's body, as defined before the call, at the caller's loop depth
/// with the steps left (or stops, out of steps, when none are left).
pub proof fn law_call_runs_the_named_function(
    a: crate::interp4::AnswersModel,
    st: crate::interp4::StateModel,
    name: Seq<char>,
    depth: usize,
)
    ensures
        ({
            let (f2, r) = crate::interp4::expand_all_s(crate::interp4::env_of(st, a), name, st.fuel);
            match r {
                Ok(k) => match crate::interp4::lookup(st.functions, crate::text::trim(k)) {
                    Some(body) => crate::interp4::call_function_s(a, st, name, depth) == if f2 >= st.fuel {
                        (
                            crate::interp4::with_fuel(st, f2),
                            Err::<crate::interp4::Signal, crate::interp4::StopModel>(
                                crate::interp4::StopModel::OutOfFuel,
                            ),
                        )
                    } else {
                        crate::interp4::exec_nodes_s(a, crate::interp4::with_fuel(st, f2), body, 0, depth)
                    },
                    None => crate::interp4::call_function_s(a, st, name, depth) == (
                    crate::interp4::with_fuel(st, f2),
                    Err::<crate::interp4::Signal, crate::interp4::StopModel>(
                        crate::interp4::failed(
                            "関数 '"@ + crate::text::trim(k) + "' は定義されていません"@,
                        ),
                    ),
                ),
                },
                Err(x) => crate::interp4::call_function_s(a, st, name, depth) == (
                    crate::interp4::with_fuel(st, f2),
                    Err::<crate::interp4::Signal, crate::interp4::StopModel>(x),
                ),
            }
        }),
{
}

/// The function that a top-level block defines ahead of the run: a `fun (name)` block whose
/// header holds no substitution.
pub open spec fn static_function(node: crate::syntax4::Stmt) -> Option<(Seq<char>, Seq<crate::syntax4::Stmt>)> {
    match node {
        crate::syntax4::Stmt::Raw(_) => None,
        crate::syntax4::Stmt::Block { header, body } => if crate::interp4::contains_text(header, "var["@)
            || crate::interp4::contains_text(header, "const["@) || crate::interp4::contains_text(
            header,
            "calc["@,
        ) {
            None
        } else {
            match crate::syntax4::fun_definition(header) {
                Ok(Some(name)) => Some((name, body)),
                _ => None,
            }
        },
    }
}

/// A block whose header has no substitution and is a malformed `fun` definition.
pub open spec fn bad_fun_header(node: crate::syntax4::Stmt) -> bool {
    match node {
        crate::syntax4::Stmt::Raw(_) => false,
        crate::syntax4::Stmt::Block { header, body } => !(crate::interp4::contains_text(header, "var["@)
            || crate::interp4::contains_text(header, "const["@) || crate::interp4::contains_text(
            header,
            "calc["@,
        )) && crate::syntax4::fun_definition(header) is Err,
    }
}

/// Whether the function `n` is defined in `st` or by a top-level block among `nodes[i..j]`.
pub open spec fn defined_before(
    st: crate::interp4::StateModel,
    nodes: Seq<crate::syntax4::Stmt>,
    i: int,
    j: int,
    n: Seq<char>,
) -> bool {
    crate::interp4::lookup(st.functions, n) is Some || exists|k: int| i <= k < j && #[trigger] defines(nodes[k], n)
}

/// Whether `node` is a top-level `fun` block of the function `n`.
pub open spec fn defines(node: crate::syntax4::Stmt, n: Seq<char>) -> bool {
    static_function(node) matches Some((m, _)) && m == n
}

/// Whether registering ahead fails at `nodes[j]`: a malformed `fun` header, or a function
/// defined again.
pub open spec fn hoist_fails_at(
    st: crate::interp4::StateModel,
    nodes: Seq<crate::syntax4::Stmt>,
    i: int,
    j: int,
) -> bool {
    bad_fun_header(nodes[j]) || (static_function(nodes[j]) matches Some((n, _)) && defined_before(
        st,
        nodes,
        i,
        j,
        n,
    ))
}

/// Registering the top-level functions ahead (`hoist_top_level_functions`) fails exactly when
/// a top-level block without a substitution in its header has a malformed `fun` header, or
/// names a function already defined or registered by an earlier block.
pub proof fn law_hoisting_fails_at_a_bad_or_repeated_function(
    st: crate::interp4::StateModel,
    nodes: Seq<crate::syntax4::Stmt>,
    i: int,
)
    requires
        0 <= i <= nodes.len(),
    ensures
        crate::interp4::hoist_from(st, nodes, i) is Err <==> exists|j: int|
            i <= j < nodes.len() && #[trigger] hoist_fails_at(st, nodes, i, j),
    decreases nodes.len() - i,
{
    if i < nodes.len() {
        assert(!hoist_fails_at(st, nodes, i, i) <==> !bad_fun_header(nodes[i]) && (static_function(
            nodes[i],
        ) matches Some((n, _)) ==> crate::interp4::lookup(st.functions, n) is None));
        let next = match static_function(nodes[i]) {
            Some((n, body)) => crate::interp4::StateModel {
                functions: crate::interp4::put(st.functions, n, body),
                hoisted: crate::interp4::insert_name(st.hoisted, n),
                ..st
            },
            None => st,
        };
        if !hoist_fails_at(st, nodes, i, i) {
            assert(crate::interp4::hoist_from(st, nodes, i) == crate::interp4::hoist_from(next, nodes, i + 1));
            law_hoisting_fails_at_a_bad_or_repeated_function(next, nodes, i + 1);
            assert forall|j: int| i + 1 <= j < nodes.len() implies hoist_fails_at(next, nodes, i + 1, j)
                == hoist_fails_at(st, nodes, i, j) by {
                if let Some((n, _)) = static_function(nodes[j]) {
                    match static_function(nodes[i]) {
                        Some((m, body)) => {
                            law_put_then_lookup(st.functions, m, body, n);
                            assert(defines(nodes[i], n) == (m == n));
                            assert((crate::interp4::lookup(next.functions, n) is Some) == (
                            crate::interp4::lookup(st.functions, n) is Some || m == n));
                        },
                        None => {
                            assert(!defines(nodes[i], n));
                        },
                    }
                    if exists|k: int| i <= k < j && #[trigger] defines(nodes[k], n) {
                        let k = choose|k: int| i <= k < j && #[trigger] defines(nodes[k], n);
                        if k > i {
                            assert(i + 1 <= k < j && defines(nodes[k], n));
                        }
                    }
                    if exists|k: int| i + 1 <= k < j && #[trigger] defines(nodes[k], n) {
                        let k = choose|k: int| i + 1 <= k < j && #[trigger] defines(nodes[k], n);
                        assert(i <= k < j && defines(nodes[k], n));
                    }
                    assert(defined_before(next, nodes, i + 1, j, n) == defined_before(st, nodes, i, j, n));
                }
            }
            if exists|j: int| i <= j < nodes.len() && #[trigger] hoist_fails_at(st, nodes, i, j) {
                let j = choose|j: int| i <= j < nodes.len() && #[trigger] hoist_fails_at(st, nodes, i, j);
                assert(hoist_fails_at(next, nodes, i + 1, j));
            }
            if exists|j: int| i + 1 <= j < nodes.len() && #[trigger] hoist_fails_at(next, nodes, i + 1, j) {
                let j = choose|j: int| i + 1 <= j < nodes.len() && #[trigger] hoist_fails_at(next, nodes, i + 1, j);
                assert(hoist_fails_at(st, nodes, i, j));
            }
        } else {
            assert(crate::interp4::hoist_from(st, nodes, i) is Err);
        }
    }
}

/// Registering the top-level functions ahead of a run (`hoist_top_level_functions`), when it
/// succeeds, touches only the functions and the names registered ahead: every function defined
/// before keeps its body, every `fun (name)` block without a substitution in its header is
/// registered with its body and marked as registered ahead, and no other function or name is
/// added.
pub proof fn law_hoisting_registers_static_functions(
    st: crate::interp4::StateModel,
    nodes: Seq<crate::syntax4::Stmt>,
    i: int,
)
    requires
        0 <= i,
    ensures
        crate::interp4::hoist_from(st, nodes, i) matches Ok(s2) ==> {
            &&& s2.vars == st.vars
            &&& s2.consts == st.consts
            &&& s2.effects == st.effects
            &&& s2.fuel == st.fuel
            &&& forall|k: Seq<char>|
                crate::interp4::lookup(st.functions, k) is Some ==> #[trigger] crate::interp4::lookup(
                    s2.functions,
                    k,
                ) == crate::interp4::lookup(st.functions, k)
            &&& forall|x: Seq<char>| st.hoisted.contains(x) ==> #[trigger] s2.hoisted.contains(x)
            &&& forall|j: int|
                i <= j < nodes.len() && (#[trigger] static_function(nodes[j])) is Some ==> {
                    let (n, body) = static_function(nodes[j])->Some_0;
                    crate::interp4::lookup(s2.functions, n) == Some(body) && s2.hoisted.contains(n)
                }
            &&& forall|k: Seq<char>|
                #[trigger] crate::interp4::lookup(s2.functions, k) is Some ==> crate::interp4::lookup(
                    st.functions,
                    k,
                ) is Some || exists|j: int| i <= j < nodes.len() && #[trigger] defines(nodes[j], k)
            &&& forall|x: Seq<char>|
                #[trigger] s2.hoisted.contains(x) ==> st.hoisted.contains(x) || exists|j: int|
                    i <= j < nodes.len() && #[trigger] defines(nodes[j], x)
        },
    decreases nodes.len() - i,
{
    if i < nodes.len() {
        match nodes[i] {
            crate::syntax4::Stmt::Raw(_) => law_hoisting_registers_static_functions(st, nodes, i + 1),
            crate::syntax4::Stmt::Block { header, body } => {
                if crate::interp4::contains_text(header, "var["@) || crate::interp4::contains_text(
                    header,
                    "const["@,
                ) || crate::interp4::contains_text(header, "calc["@) {
                    law_hoisting_registers_static_functions(st, nodes, i + 1);
                } else {
                    match crate::syntax4::fun_definition(header) {
                        Ok(Some(name)) => if crate::interp4::lookup(st.functions, name) is None {
                            let next = crate::interp4::StateModel {
                                functions: crate::interp4::put(st.functions, name, body),
                                hoisted: crate::interp4::insert_name(st.hoisted, name),
                                ..st
                            };
                            law_hoisting_registers_static_functions(next, nodes, i + 1);
                            law_put_then_lookup(st.functions, name, body, name);
                            assert forall|k: Seq<char>| crate::interp4::lookup(st.functions, k) is Some
                                implies crate::interp4::lookup(next.functions, k)
                                == crate::interp4::lookup(st.functions, k) by {
                                law_put_then_lookup(st.functions, name, body, k);
                            }
                            if !st.hoisted.contains(name) {
                                assert(next.hoisted[st.hoisted.len() as int] == name);
                            }
                            assert(next.hoisted.contains(name));
                            assert forall|x: Seq<char>| st.hoisted.contains(x) implies next.hoisted.contains(x) by {
                                if !st.hoisted.contains(name) {
                                    assert(next.hoisted == st.hoisted.push(name));
                                    let w = choose|w: int| 0 <= w < st.hoisted.len() && st.hoisted[w] == x;
                                    assert(next.hoisted[w] == x);
                                }
                            }
                            assert(defines(nodes[i], name));
                            if let Ok(s2) = crate::interp4::hoist_from(next, nodes, i + 1) {
                                assert forall|k: Seq<char>|
                                    #[trigger] crate::interp4::lookup(s2.functions, k) is Some implies crate::interp4::lookup(
                                    st.functions,
                                    k,
                                ) is Some || exists|j: int| i <= j < nodes.len() && #[trigger] defines(nodes[j], k) by {
                                    law_put_then_lookup(st.functions, name, body, k);
                                    if exists|j: int| i + 1 <= j < nodes.len() && #[trigger] defines(nodes[j], k) {
                                        let j = choose|j: int| i + 1 <= j < nodes.len() && #[trigger] defines(nodes[j], k);
                                        assert(i <= j < nodes.len() && defines(nodes[j], k));
                                    }
                                    if k == name {
                                        assert(i <= i < nodes.len() && defines(nodes[i], k));
                                    }
                                }
                                assert forall|x: Seq<char>|
                                    #[trigger] s2.hoisted.contains(x) implies st.hoisted.contains(x) || exists|j: int|
                                    i <= j < nodes.len() && #[trigger] defines(nodes[j], x) by {
                                    if exists|j: int| i + 1 <= j < nodes.len() && #[trigger] defines(nodes[j], x) {
                                        let j = choose|j: int| i + 1 <= j < nodes.len() && #[trigger] defines(nodes[j], x);
                                        assert(i <= j < nodes.len() && defines(nodes[j], x));
                                    }
                                    if next.hoisted.contains(x) && !st.hoisted.contains(x) {
                                        if !st.hoisted.contains(name) {
                                            assert(next.hoisted == st.hoisted.push(name));
                                            let w = choose|w: int| 0 <= w < next.hoisted.len() && next.hoisted[w] == x;
                                            if w < st.hoisted.len() {
                                                assert(st.hoisted[w] == x);
                                            }
                                        }
                                        assert(x == name);
                                        assert(i <= i < nodes.len() && defines(nodes[i], x));
                                    }
                                }
                            }
                        } else {
                        },
                        _ => law_hoisting_registers_static_functions(st, nodes, i + 1),
                    }
                }
            },
        }
    }
}

// ---------------------------------------------------------------------------------------
// Configuration nodes of a Warp 3 screen
// ---------------------------------------------------------------------------------------

/// Whether node `i` is a `config` node with a `title`.
pub open spec fn titled_config(ns: Seq<crate::warp3::NodeModel>, i: int) -> bool {
    crate::compile3::is_config(ns[i]) && crate::emit::prop_of(ns[i].props, "title"@) is Some
}

proof fn lemma_script_props(props: Seq<(Seq<char>, Seq<char>)>, j: int, v: Seq<char>)
    requires
        0 <= j <= props.len(),
    ensures
        crate::compile3::script_props(props, j).contains(v) <==> exists|m: int|
            0 <= m < j && #[trigger] props[m] == ("script"@, v),
    decreases j,
{
    if j > 0 {
        lemma_script_props(props, j - 1, v);
        if props[j - 1] == ("script"@, v) {
            assert(props[j - 1].0 == "script"@ && props[j - 1].1 == v);
        }
    }
}

proof fn lemma_config(ns: Seq<crate::warp3::NodeModel>, k: int, t0: Option<Seq<char>>, v: Seq<char>)
    requires
        0 <= k <= ns.len(),
    ensures
        crate::compile3::config_scripts(ns, k).contains(v) <==> exists|i: int, m: int|
            0 <= i < k && crate::compile3::is_config(ns[i]) && 0 <= m < ns[i].props.len()
                && #[trigger] ns[i].props[m] == ("script"@, v),
        (forall|i: int| 0 <= i < k ==> !#[trigger] titled_config(ns, i)) ==> crate::compile3::config_title(
            ns,
            k,
            t0,
        ) == t0,
        forall|i: int|
            0 <= i < k && #[trigger] titled_config(ns, i) && (forall|j: int|
                i < j < k ==> !titled_config(ns, j)) ==> crate::compile3::config_title(ns, k, t0)
                == crate::emit::prop_of(ns[i].props, "title"@),
    decreases k,
{
    if k > 0 {
        lemma_config(ns, k - 1, t0, v);
        let n = ns[k - 1];
        lemma_script_props(n.props, n.props.len() as int, v);
        if exists|i: int, m: int|
            0 <= i < k && crate::compile3::is_config(ns[i]) && 0 <= m < ns[i].props.len()
                && #[trigger] ns[i].props[m] == ("script"@, v) {
            let (i, m) = choose|i: int, m: int|
                0 <= i < k && crate::compile3::is_config(ns[i]) && 0 <= m < ns[i].props.len()
                    && #[trigger] ns[i].props[m] == ("script"@, v);
            if i == k - 1 {
                assert(n.props[m] == ("script"@, v));
            }
        }
        if crate::compile3::is_config(n) && crate::compile3::script_props(n.props, n.props.len() as int).contains(v) {
            let m = choose|m: int| 0 <= m < n.props.len() && #[trigger] n.props[m] == ("script"@, v);
            assert(ns[k - 1].props[m] == ("script"@, v));
        }
        if forall|i: int| 0 <= i < k ==> !#[trigger] titled_config(ns, i) {
            assert(!titled_config(ns, k - 1));
            assert forall|i: int| 0 <= i < k - 1 implies !#[trigger] titled_config(ns, i) by {}
        }
        assert forall|i: int|
            0 <= i < k && #[trigger] titled_config(ns, i) && (forall|j: int|
                i < j < k ==> !titled_config(ns, j)) implies crate::compile3::config_title(ns, k, t0)
            == crate::emit::prop_of(ns[i].props, "title"@) by {
            if i < k - 1 {
                assert(!titled_config(ns, k - 1));
            }
        }
    }
}

/// Reading the `config` nodes of a screen (`collect_config`): the scripts it adds are the
/// values of the `script` properties of the `config` nodes, and the title is that of the last
/// `config` node with a `title`, or the title given when there is none. Other nodes, and the
/// children of any node, are not read.
pub proof fn law_config_nodes_name_title_and_scripts(ns: Seq<crate::warp3::NodeModel>, t0: Option<Seq<char>>)
    ensures
        forall|v: Seq<char>|
            #[trigger] crate::compile3::config_scripts(ns, ns.len() as int).contains(v) <==> exists|
                i: int,
                m: int,
            |
                0 <= i < ns.len() && crate::compile3::is_config(ns[i]) && 0 <= m < ns[i].props.len()
                    && #[trigger] ns[i].props[m] == ("script"@, v),
        (forall|i: int| 0 <= i < ns.len() ==> !#[trigger] titled_config(ns, i)) ==> crate::compile3::config_title(
            ns,
            ns.len() as int,
            t0,
        ) == t0,
        forall|i: int|
            0 <= i < ns.len() && #[trigger] titled_config(ns, i) && (forall|j: int|
                i < j < ns.len() ==> !titled_config(ns, j)) ==> crate::compile3::config_title(
                ns,
                ns.len() as int,
                t0,
            ) == crate::emit::prop_of(ns[i].props, "title"@),
{
    assert forall|v: Seq<char>|
        #[trigger] crate::compile3::config_scripts(ns, ns.len() as int).contains(v) <==> exists|
            i: int,
            m: int,
        |
            0 <= i < ns.len() && crate::compile3::is_config(ns[i]) && 0 <= m < ns[i].props.len()
                && #[trigger] ns[i].props[m] == ("script"@, v) by {
        lemma_config(ns, ns.len() as int, t0, v);
    }
    lemma_config(ns, ns.len() as int, t0, seq![]);
}

// ---------------------------------------------------------------------------------------
// Expansion reaches a fixed point
// ---------------------------------------------------------------------------------------

/// A pass that changes nothing gives its input back, and a pass that has changed something
/// says so at its end.
proof fn lemma_scan_unchanged(
    e: crate::interp4::Env,
    s: Seq<char>,
    i: int,
    out: Seq<char>,
    changed: bool,
    fuel: nat,
)
    requires
        0 <= i <= s.len(),
    ensures
        crate::interp4::expand_scan_s(e, s, i, out, changed, fuel).1 matches Ok((o, c)) ==> (changed
            ==> c) && (!c ==> o == out + s.skip(i)),
    decreases fuel, s.len() - i,
{
    if i >= s.len() {
        assert(s.skip(i) =~= Seq::<char>::empty());
        assert(out + s.skip(i) =~= out);
    } else {
        let kind = crate::interp4::kind_at(s, i);
        if kind == 0 {
            lemma_scan_unchanged(e, s, i + 1, out.push(s[i]), changed, fuel);
            assert(out.push(s[i]) + s.skip(i + 1) =~= out + s.skip(i));
        } else {
            let open = i + crate::interp4::kind_name(kind).len();
            match crate::script4::matching_square(s, open) {
                None => {},
                Some(close) => if fuel == 0 {
                } else if !(open < close) {
                } else {
                    let (f2, r) = crate::interp4::expand_all_s(
                        e,
                        s.subrange(open + 1, close),
                        (fuel - 1) as nat,
                    );
                    crate::syntax4::lemma_group_end(s, '[', ']', open, 0);
                    match r {
                        Err(x) => {},
                        Ok(inner) => {
                            if f2 < fuel {
                                if kind == 3 {
                                    match crate::interp4::lookup(e.answers.calc, inner) {
                                        Some(Ok(v)) => {
                                            lemma_scan_unchanged(e, s, close + 1, out + v, true, f2);
                                        },
                                        _ => {},
                                    }
                                } else {
                                    let m = if kind == 1 {
                                        e.vars
                                    } else {
                                        e.consts
                                    };
                                    match crate::interp4::lookup(m, crate::text::trim(inner)) {
                                        Some(v) => {
                                            lemma_scan_unchanged(e, s, close + 1, out + v, true, f2);
                                        },
                                        None => {
                                            lemma_scan_unchanged(
                                                e,
                                                s,
                                                close + 1,
                                                out + s.subrange(i, close + 1),
                                                changed,
                                                f2,
                                            );
                                            assert(out + s.subrange(i, close + 1) + s.skip(close + 1)
                                                =~= out + s.skip(i));
                                        },
                                    }
                                }
                            }
                        },
                    }
                },
            }
        }
    }
}

/// A pass over `t` with `g` steps gives `t` back.
spec fn pass_gives_back(e: crate::interp4::Env, t: Seq<char>, g: nat) -> bool {
    crate::interp4::expand_scan_s(e, t, 0, seq![], false, g).1 matches Ok((u, _)) && u == t
}

/// When the passes end with `t`, one more pass over `t` with the steps returned gives `t` back.
proof fn lemma_loop_fixed(e: crate::interp4::Env, current: Seq<char>, passes: nat, fuel: nat) -> (g: nat)
    ensures
        crate::interp4::expand_loop_s(e, current, passes, fuel).1 matches Ok(t) ==> pass_gives_back(e, t, g),
    decreases fuel, 0int,
{
    if passes == 0 || fuel == 0 {
        0
    } else {
        let g = (fuel - 1) as nat;
        lemma_scan_unchanged(e, current, 0, seq![], false, g);
        assert(Seq::<char>::empty() + current.skip(0) =~= current);
        let (f2, r) = crate::interp4::expand_scan_s(e, current, 0, seq![], false, g);
        match r {
            Err(x) => g,
            Ok((next, changed)) => if !changed || next == current {
                assert(next == current);
                g
            } else if f2 >= fuel {
                g
            } else {
                lemma_loop_fixed(e, next, (passes - 1) as nat, f2)
            },
        }
    }
}

/// What `expand_all` gives is a fixed point of expansion: a pass over it gives it back, and
/// expanding it again gives it back, unless the steps given run out first.
pub proof fn law_expansion_reaches_a_fixed_point(e: crate::interp4::Env, s: Seq<char>, fuel: nat, g: nat)
    ensures
        crate::interp4::expand_all_s(e, s, fuel).1 matches Ok(t) ==> {
            &&& (crate::interp4::expand_scan_s(e, t, 0, seq![], false, g).1 is Err
                ==> crate::interp4::expand_scan_s(e, t, 0, seq![], false, g).1 == Err::<
                (Seq<char>, bool),
                crate::interp4::StopModel,
            >(crate::interp4::StopModel::OutOfFuel))
            &&& (crate::interp4::expand_scan_s(e, t, 0, seq![], false, g).1 matches Ok((u, _)) ==> u == t)
            &&& (crate::interp4::expand_all_s(e, t, g).1 is Err ==> crate::interp4::expand_all_s(e, t, g).1
                == Err::<Seq<char>, crate::interp4::StopModel>(crate::interp4::StopModel::OutOfFuel))
            &&& (crate::interp4::expand_all_s(e, t, g).1 matches Ok(u) ==> u == t)
        },
{
    if let Ok(t) = crate::interp4::expand_all_s(e, s, fuel).1 {
        let h = lemma_loop_fixed(e, s, 256, (fuel - 1) as nat);
        lemma_pass_any_fuel(e, t, h, g);
        if g >= 2 {
            lemma_pass_any_fuel(e, t, h, (g - 2) as nat);
            let (f3, r3) = crate::interp4::expand_scan_s(e, t, 0, seq![], false, (g - 2) as nat);
            if let Ok((u, c)) = r3 {
                assert(u == t);
            }
        }
    }
}

/// A pass over `t` that gives `t` back with `h` steps gives it back with any number of steps
/// that does not run out.
proof fn lemma_pass_any_fuel(e: crate::interp4::Env, t: Seq<char>, h: nat, g: nat)
    requires
        pass_gives_back(e, t, h),
    ensures
        crate::interp4::expand_scan_s(e, t, 0, seq![], false, g).1 is Err ==> crate::interp4::expand_scan_s(
            e,
            t,
            0,
            seq![],
            false,
            g,
        ).1 == Err::<(Seq<char>, bool), crate::interp4::StopModel>(crate::interp4::StopModel::OutOfFuel),
        crate::interp4::expand_scan_s(e, t, 0, seq![], false, g).1 matches Ok((u, _)) ==> u == t,
{
    if g >= h {
        lemma_scan_shifted(e, t, 0, seq![], false, h, (g - h) as nat);
        assert(h + (g - h) as nat == g);
    } else {
        lemma_scan_shifted(e, t, 0, seq![], false, g, (h - g) as nat);
        assert(g + (h - g) as nat == h);
    }
}

// ---------------------------------------------------------------------------------------
// Scrolling actions, textareas and setting commands
// ---------------------------------------------------------------------------------------

/// An action `scroll = +1` or `scroll = -1` adds a relative scroll by that step (to the next or
/// the previous scroll point) after the JavaScript of the actions before it; any other value
/// scrolls to the point it names, without its surrounding quotes.
pub proof fn law_scroll_by_one_scrolls_relative(
    a: Seq<(Seq<char>, Seq<char>)>,
    left: Seq<char>,
    v: Seq<char>,
    vars: Set<Seq<char>>,
)
    requires
        crate::text::words(left) == seq!["scroll"@],
    ensures
        crate::compile3::actions_js(a.push((left, v)), vars) == match crate::compile3::actions_js(a, vars) {
            Ok(s) => Ok(
                s + if v == "+1"@ || v == "-1"@ {
                    "  scrollRelative("@ + v + ");\n"@
                } else {
                    "  scrollToPoint("@ + crate::emit::js_quoted(crate::compile3::trim_quotes(v)) + ");\n"@
                },
            ),
            Err(e) => Err::<Seq<char>, Seq<char>>(e),
        },
{
    assert(a.push((left, v)).drop_last() =~= a);
}

/// A `textarea` node renders as a `<textarea>` element, with the node's classes, holding its
/// `text` property, escaped (nothing when it has none), and nothing else.
pub proof fn law_textarea_holds_its_text(n: crate::warp3::NodeModel)
    requires
        crate::emit::first_tag(n) == Some("textarea"@),
    ensures
        crate::emit::render(n) == "<textarea class=\""@ + crate::emit::class_list(n, "textarea"@) + "\""@
            + crate::emit::marker_of(n) + ">"@ + crate::emit::escaped(
            crate::emit::prop_or(n, "text"@, ""@),
        ) + "</textarea>"@,
        crate::emit::prop_of(n.props, "text"@) matches Some(t) ==> crate::emit::render(n) == "<textarea class=\""@
            + crate::emit::class_list(n, "textarea"@) + "\""@ + crate::emit::marker_of(n) + ">"@
            + crate::emit::escaped(t) + "</textarea>"@,
{
    reveal_strlit("textarea");
    reveal_strlit("config");
    reveal_strlit("text");
    reveal_strlit("detail");
    reveal_strlit("head");
    reveal_strlit("button");
    reveal_strlit("input");
    assert(crate::emit::primary_of(n) == "textarea"@);
    assert("textarea"@.len() != "config"@.len());
    assert("textarea"@.len() != "text"@.len());
    assert("textarea"@.len() != "detail"@.len());
    assert("textarea"@.len() != "head"@.len());
    assert("textarea"@.len() != "button"@.len());
    assert("textarea"@.len() != "input"@.len());
    reveal_strlit("<textarea class=\"");
    reveal_strlit("<");
    reveal_strlit(" class=\"");
    let cls = crate::emit::class_list(n, "textarea"@);
    let m = crate::emit::marker_of(n);
    let body = crate::emit::escaped(crate::emit::prop_or(n, "text"@, ""@));
    assert("<"@ + "textarea"@ + " class=\""@ =~= "<textarea class=\""@);
    assert(crate::emit::open_tag("textarea"@, cls, m) + body + "</textarea>"@ =~= "<textarea class=\""@ + cls
        + "\""@ + m + ">"@ + body + "</textarea>"@);
}

/// A character that may stand in the target of a setting command: no whitespace, no
/// parenthesis and no square bracket.
pub open spec fn target_char(c: char) -> bool {
    !crate::text::is_ws(c) && c != '(' && c != ')' && c != '[' && c != ']'
}

proof fn lemma_command_end_at(s: Seq<char>, i: int, k: int)
    requires
        0 <= i <= k < s.len(),
        crate::text::is_ws(s[k]),
        forall|j: int| i <= j < k ==> !crate::text::is_ws(#[trigger] s[j]) && s[j] != '(',
    ensures
        crate::warp4::command_end(s, i) == k,
    decreases k - i,
{
    if i < k {
        lemma_command_end_at(s, i + 1, k);
    }
}

proof fn lemma_top_level_at(s: Seq<char>, i: int, k: int)
    requires
        0 <= i <= k < s.len(),
        s[k] == '(',
        forall|j: int| i <= j < k ==> s[j] != '(' && s[j] != '[' && #[trigger] s[j] != ']',
    ensures
        crate::syntax4::top_level_from(s, '(', i, 0) == Some(k),
    decreases k - i,
{
    if i < k {
        lemma_top_level_at(s, i + 1, k);
    }
}

proof fn lemma_group_end_at(s: Seq<char>, p: int, k: int)
    requires
        0 <= p <= k < s.len(),
        s[k] == ')',
        forall|j: int| p <= j < k ==> s[j] != '(' && #[trigger] s[j] != ')',
    ensures
        crate::syntax4::group_end(s, '(', ')', p, 1) == Some(k),
    decreases k - p,
{
    if p < k {
        lemma_group_end_at(s, p + 1, k);
    }
}

proof fn lemma_trim_end_space(t: Seq<char>)
    requires
        t.len() > 0,
        !crate::text::is_ws(t.last()),
    ensures
        crate::text::trim_end(t + " "@) == t,
        crate::text::trim_end(t) == t,
{
    reveal_strlit(" ");
    assert((t + " "@).drop_last() =~= t);
    assert((t + " "@).last() == ' ');
    assert(crate::text::is_ws(' '));
    assert(crate::text::trim_end(t) == t);
    assert(crate::text::trim_end(t + " "@) == crate::text::trim_end(t));
}

/// `TARGET (VALUE)` reads as that target and that value, when the target is a word without
/// whitespace, parentheses or square brackets and the value holds no parentheses.
pub proof fn law_target_value_reads_both(t: Seq<char>, v: Seq<char>)
    requires
        t.len() > 0,
        forall|j: int| 0 <= j < t.len() ==> target_char(#[trigger] t[j]),
        forall|j: int| 0 <= j < v.len() ==> #[trigger] v[j] != '(' && v[j] != ')',
    ensures
        crate::warp4::target_value(t + " ("@ + v + ")"@) == Ok::<(Seq<char>, Seq<char>), Seq<char>>((t, v)),
{
    reveal_strlit(" ");
    reveal_strlit(" (");
    reveal_strlit(")");
    let r = t + " ("@ + v + ")"@;
    let tl = t.len() as int;
    assert forall|j: int| 0 <= j < tl + 1 implies r[j] != '(' && r[j] != '[' && #[trigger] r[j] != ']' by {
        if j < tl {
            assert(r[j] == t[j]);
            assert(target_char(t[j]));
        } else {
            assert(r[j] == ' ');
        }
    }
    assert(r[tl + 1] == '(');
    lemma_top_level_at(r, 0, tl + 1);
    assert(r.take(tl + 1) =~= t + " "@);
    assert(!crate::text::is_ws(t.last())) by {
        assert(target_char(t[tl - 1]));
    }
    assert(!crate::text::is_ws(t[0])) by {
        assert(target_char(t[0]));
    }
    lemma_trim_end_space(t);
    assert((t + " "@)[0] == t[0]);
    assert(crate::text::trim_start(t + " "@) == t + " "@);
    assert(crate::text::trim(r.take(tl + 1)) == t);
    let last = r.len() - 1;
    assert forall|j: int| tl + 2 <= j < last implies r[j] != '(' && #[trigger] r[j] != ')' by {
        assert(r[j] == v[j - tl - 2]);
    }
    lemma_group_end_at(r, tl + 2, last);
    assert(crate::syntax4::group_end(r, '(', ')', tl + 1, 0) == Some(last));
    assert(r.subrange(tl + 2, last) =~= v);
    assert(r.skip(last + 1) =~= Seq::<char>::empty());
    assert(crate::text::trim(r.skip(last + 1)).len() == 0);
}

proof fn lemma_setting_line(name: Seq<char>, r: Seq<char>)
    requires
        name == "var.set"@ || name == "var.edit"@ || name == "const.set"@,
        r.len() > 0,
        !crate::text::is_ws(r[0]),
        r[0] != '(',
        r.last() == ')',
    ensures
        ({
            let raw = name + " "@ + r;
            &&& crate::text::trim(raw) == raw
            &&& raw != "break"@
            &&& !crate::syntax4::keyword_at_start(raw, "if"@)
            &&& crate::warp4::command_split(raw) == (name, " "@ + r)
            &&& crate::text::trim_start(" "@ + r) == r
            &&& crate::text::trim(" "@ + r).len() > 0
            &&& !crate::text::starts_with(name, "WarpUI."@)
        }),
{
    reveal_strlit("var.set");
    reveal_strlit("var.edit");
    reveal_strlit("const.set");
    reveal_strlit(" ");
    reveal_strlit("break");
    reveal_strlit("if");
    reveal_strlit("WarpUI.");
    let raw = name + " "@ + r;
    assert(forall|j: int| 0 <= j < name.len() ==> !crate::text::is_ws(#[trigger] name[j]) && name[j] != '(');
    assert(name[0] != 'i');
    assert(raw[0] == name[0]);
    assert(!crate::text::is_ws(raw[0]));
    assert(crate::text::trim_start(raw) == raw);
    assert(raw.last() == ')');
    assert(crate::text::trim_end(raw) == raw);
    assert(raw.len() > 5);
    assert(raw.take(2)[0] == name[0]);
    let nl = name.len() as int;
    assert forall|j: int| 0 <= j < nl implies !crate::text::is_ws(#[trigger] raw[j]) && raw[j] != '(' by {
        assert(raw[j] == name[j]);
    }
    assert(raw[nl] == ' ');
    lemma_command_end_at(raw, 0, nl);
    assert(raw.take(nl) =~= name);
    assert(raw.skip(nl) =~= " "@ + r);
    let rest = " "@ + r;
    assert(rest.drop_first() =~= r);
    assert(crate::text::trim_start(r) == r);
    assert(rest[0] == ' ' && crate::text::is_ws(' '));
    assert(crate::text::trim_end(r) == r);
    assert(name.take(7)[0] == name[0]);
}

/// `var.set`, `var.edit` and `const.set` given a target and a value in parentheses,
/// `NAME TARGET (VALUE)`, compile to a command of that name with that target and that value.
/// The target is a word without whitespace, parentheses or square brackets; the value holds
/// no parentheses.
pub proof fn law_setting_commands_read_target_and_value(name: Seq<char>, t: Seq<char>, v: Seq<char>)
    requires
        name == "var.set"@ || name == "var.edit"@ || name == "const.set"@,
        t.len() > 0,
        forall|j: int| 0 <= j < t.len() ==> target_char(#[trigger] t[j]),
        forall|j: int| 0 <= j < v.len() ==> #[trigger] v[j] != '(' && v[j] != ')',
    ensures
        crate::warp4::compile_raw_spec(name + " "@ + t + " ("@ + v + ")"@) == Ok::<
            crate::warp4::OpModel,
            Seq<char>,
        >(
            crate::warp4::cmd(name, crate::warp4::OptText::Present(t), crate::warp4::OptText::Present(v)),
        ),
{
    reveal_strlit(" (");
    reveal_strlit(")");
    let r = t + " ("@ + v + ")"@;
    assert(r[0] == t[0]);
    assert(target_char(t[0]));
    assert(r.last() == ')');
    lemma_setting_line(name, r);
    law_target_value_reads_both(t, v);
    let raw = name + " "@ + r;
    assert(name + " "@ + t + " ("@ + v + ")"@ =~= raw);
    assert(crate::warp4::inline_if_head(raw) is None);
    assert(crate::warp4::inline_if_spec(raw) == Ok::<Option<crate::warp4::OpModel>, Seq<char>>(None));
    assert(name.len() > 0) by {
        reveal_strlit("var.set");
        reveal_strlit("var.edit");
        reveal_strlit("const.set");
    }
    assert(crate::warp4::plain_command(raw) == Ok::<crate::warp4::OpModel, Seq<char>>(
        crate::warp4::cmd(name, crate::warp4::OptText::Present(t), crate::warp4::OptText::Present(v)),
    ));
}

} // verus!
