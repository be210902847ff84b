//! The rest of the Warp 3 compiler: settings, configuration nodes, script variables, the
//! JavaScript of script sections and the page that holds the screens.
use vstd::prelude::*;
use crate::emit::{escaped, js_quoted, prop, prop_of, render_all};
use crate::names::NameSet;
use crate::text::{
    all_digits, chars_of, decimal, ends_with, float_text, lit, starts_with, trim, u64_text,
    words,
};
use crate::warp3::{
    entries_get, nodes_view, pairs_view, sections_view, strings_view, Node, NodeModel,
    ScriptSection, SectionKind, SectionModel,
};

verus! {

broadcast use {crate::text::lemma_concat_assoc, crate::text::lemma_concat_empty};

// ---------------------------------------------------------------------------------------
// `config { title(..) script(..) }` nodes
// ---------------------------------------------------------------------------------------

/// Whether a node is a `config` node.
pub open spec fn is_config(n: NodeModel) -> bool {
    crate::emit::first_tag(n) == Some("config"@)
}

/// The title after the first `k` nodes: that of the last `config` node with a `title`.
pub open spec fn config_title(ns: Seq<NodeModel>, k: int, title: Option<Seq<char>>) -> Option<
    Seq<char>,
>
    decreases k,
{
    if 0 < k <= ns.len() {
        let t = config_title(ns, k - 1, title);
        if is_config(ns[k - 1]) && prop_of(ns[k - 1].props, "title"@) is Some {
            prop_of(ns[k - 1].props, "title"@)
        } else {
            t
        }
    } else {
        title
    }
}

/// The values of the `script` properties of the first `j` properties.
pub open spec fn script_props(props: Seq<(Seq<char>, Seq<char>)>, j: int) -> Set<Seq<char>>
    decreases j,
{
    if 0 < j <= props.len() {
        let s = script_props(props, j - 1);
        if props[j - 1].0 == "script"@ {
            s.insert(props[j - 1].1)
        } else {
            s
        }
    } else {
        Set::empty()
    }
}

/// The script files that the `config` nodes among the first `k` nodes name.
pub open spec fn config_scripts(ns: Seq<NodeModel>, k: int) -> Set<Seq<char>>
    decreases k,
{
    if 0 < k <= ns.len() {
        let s = config_scripts(ns, k - 1);
        if is_config(ns[k - 1]) {
            s.union(script_props(ns[k - 1].props, ns[k - 1].props.len() as int))
        } else {
            s
        }
    } else {
        Set::empty()
    }
}

/// The text of an optional `String`.
pub open spec fn opt_view(o: Option<String>) -> Option<Seq<char>> {
    match o {
        Some(s) => Some(s@),
        None => None,
    }
}

/// Reads the `config` nodes among `nodes`: the last `title` replaces `title`, and each
/// `script` is added to `scripts`.
pub fn collect_config(nodes: &Vec<Node>, title: &mut Option<String>, scripts: &mut NameSet)
    requires
        old(scripts).wf(),
    ensures
        final(scripts).wf(),
        opt_view(*final(title)) == config_title(
            nodes_view(nodes@),
            nodes@.len() as int,
            opt_view(*old(title)),
        ),
        final(scripts)@.to_set() == old(scripts)@.to_set().union(
            config_scripts(nodes_view(nodes@), nodes@.len() as int),
        ),
{
    let ghost ns = nodes_view(nodes@);
    let mut i: usize = 0;
    assert(old(scripts)@.to_set().union(Set::empty()) =~= old(scripts)@.to_set());
    while i < nodes.len()
        invariant
            i <= nodes@.len(),
            ns == nodes_view(nodes@),
            scripts.wf(),
            opt_view(*title) == config_title(ns, i as int, opt_view(*old(title))),
            scripts@.to_set() == old(scripts)@.to_set().union(config_scripts(ns, i as int)),
        decreases nodes@.len() - i,
    {
        let node = &nodes[i];
        assert(ns[i as int] == node@);
        let is_cfg = node.tags.len() > 0 && {
            let t = chars_of(node.tags[0].as_str());
            crate::text::eq_str(&t, "config")
        };
        if is_cfg {
            match prop(node, "title") {
                Some(v) => {
                    *title = Some(lit(v));
                },
                None => {},
            }
            let ghost base = scripts@.to_set();
            let mut j: usize = 0;
            while j < node.props.len()
                invariant
                    j <= node.props@.len(),
                    node@.props == pairs_view(node.props@),
                    scripts.wf(),
                    scripts@.to_set() == base.union(script_props(node@.props, j as int)),
                decreases node.props@.len() - j,
            {
                let key = chars_of(node.props[j].0.as_str());
                if crate::text::eq_str(&key, "script") {
                    let ghost before = scripts@.to_set();
                    scripts.insert(node.props[j].1.clone());
                    assert(scripts@.to_set() =~= base.union(script_props(node@.props, j + 1)));
                } else {
                    assert(script_props(node@.props, j + 1) == script_props(node@.props, j as int));
                }
                j += 1;
            }
            assert(scripts@.to_set() =~= old(scripts)@.to_set().union(config_scripts(ns, i + 1)));
        } else {
            assert(config_scripts(ns, i + 1) == config_scripts(ns, i as int));
        }
        i += 1;
    }
}

// ---------------------------------------------------------------------------------------
// Variables of the script sections
// ---------------------------------------------------------------------------------------

/// The commands that are not variables.
pub open spec fn is_command(w: Seq<char>) -> bool {
    w == "scroll"@ || w == "print"@ || w == "screen"@ || w == "wait"@ || w == "fun"@
}

/// The variable that an action's left side names, if any: a single word that is not a
/// command, or the second word of `getText x`.
pub open spec fn action_variable(left: Seq<char>) -> Option<Seq<char>> {
    let w = words(left);
    if w.len() == 1 && !is_command(w[0]) {
        Some(w[0])
    } else if w.len() == 2 && w[0] == "getText"@ {
        Some(w[1])
    } else {
        None
    }
}

/// The variables that the first `j` actions name.
pub open spec fn action_vars(actions: Seq<(Seq<char>, Seq<char>)>, j: int) -> Set<Seq<char>>
    decreases j,
{
    if 0 < j <= actions.len() {
        let s = action_vars(actions, j - 1);
        match action_variable(actions[j - 1].0) {
            Some(v) => s.insert(v),
            None => s,
        }
    } else {
        Set::empty()
    }
}

/// The variables that the first `k` sections name.
pub open spec fn section_vars(sections: Seq<SectionModel>, k: int) -> Set<Seq<char>>
    decreases k,
{
    if 0 < k <= sections.len() {
        section_vars(sections, k - 1).union(
            action_vars(sections[k - 1].actions, sections[k - 1].actions.len() as int),
        )
    } else {
        Set::empty()
    }
}

fn is_command_word(w: &[char]) -> (r: bool)
    ensures
        r == is_command(w@),
{
    crate::text::eq_str(w, "scroll") || crate::text::eq_str(w, "print") || crate::text::eq_str(
        w,
        "screen",
    ) || crate::text::eq_str(w, "wait") || crate::text::eq_str(w, "fun")
}

/// The names that the script sections use as variables.
pub fn variable_names(sections: &Vec<ScriptSection>) -> (r: NameSet)
    ensures
        r.wf(),
        r@.to_set() == section_vars(sections_view(sections@), sections@.len() as int),
{
    let ghost ss = sections_view(sections@);
    let mut names = NameSet::new();
    let mut i: usize = 0;
    assert(names@.to_set() =~= Set::<Seq<char>>::empty());
    while i < sections.len()
        invariant
            i <= sections@.len(),
            ss == sections_view(sections@),
            names.wf(),
            names@.to_set() == section_vars(ss, i as int),
        decreases sections@.len() - i,
    {
        let section = &sections[i];
        assert(ss[i as int] == section@);
        let ghost base = names@.to_set();
        let mut j: usize = 0;
        assert(base.union(Set::empty()) =~= base);
        while j < section.actions.len()
            invariant
                j <= section.actions@.len(),
                section@.actions == pairs_view(section.actions@),
                names.wf(),
                names@.to_set() == base.union(action_vars(section@.actions, j as int)),
            decreases section.actions@.len() - j,
        {
            let left = chars_of(section.actions[j].0.as_str());
            let w = crate::text::split_whitespace_vec(&left);
            if w.len() == 1 && !is_command_word(&w[0]) {
                names.insert(crate::text::string_of(&w[0]));
                assert(names@.to_set() =~= base.union(action_vars(section@.actions, j + 1)));
            } else if w.len() == 2 && crate::text::eq_str(&w[0], "getText") {
                names.insert(crate::text::string_of(&w[1]));
                assert(names@.to_set() =~= base.union(action_vars(section@.actions, j + 1)));
            } else {
                assert(action_vars(section@.actions, j + 1) == action_vars(
                    section@.actions,
                    j as int,
                ));
            }
            j += 1;
        }
        i += 1;
    }
    names
}

// ---------------------------------------------------------------------------------------
// Script actions as JavaScript
// ---------------------------------------------------------------------------------------

/// The JavaScript expression for the right side of an action: a variable's state, a quoted
/// text without its quotes, a number as written, or else the text itself as a string.
pub open spec fn value_js(value: Seq<char>, vars: Set<Seq<char>>) -> Seq<char> {
    let t = trim(value);
    if vars.contains(t) {
        "state["@ + js_quoted(t) + "]"@
    } else if starts_with(t, "\""@) && ends_with(t, "\""@) && t.len() >= 2 {
        js_quoted(t.subrange(1, t.len() - 1))
    } else if float_text(t) {
        t
    } else {
        js_quoted(t)
    }
}

/// The JavaScript expression for `value`, given the script's variables.
pub fn value_expr(value: &str, variables: &NameSet) -> (r: String)
    ensures
        r@ == value_js(value@, variables@.to_set()),
{
    let v = chars_of(value);
    let t = crate::text::trim_vec(&v);
    if variables.contains(&t) {
        assert(variables@.to_set().contains(t@));
        let mut out = lit("state[");
        crate::emit::push_js_string(&mut out, &t);
        out.append("]");
        return out;
    }
    assert(!variables@.to_set().contains(t@));
    proof {
        reveal_strlit("\"");
    }
    if crate::text::starts_with_str(&t, "\"") && crate::text::ends_with_str(&t, "\"") && t.len()
        >= 2 {
        let inner = crate::text::slice_vec(&t, 1, t.len() - 1);
        let mut out = String::new();
        crate::emit::push_js_string(&mut out, &inner);
        return out;
    }
    if crate::text::is_float_text(&t) {
        return crate::text::string_of(&t);
    }
    let mut out = String::new();
    crate::emit::push_js_string(&mut out, &t);
    out
}

/// `value` without the `"` characters at either end, as `trim_matches('"')` gives it.
pub open spec fn strip_quotes_start(s: Seq<char>) -> Seq<char>
    decreases s.len(),
{
    if s.len() > 0 && s[0] == '"' {
        strip_quotes_start(s.drop_first())
    } else {
        s
    }
}

pub open spec fn strip_quotes_end(s: Seq<char>) -> Seq<char>
    decreases s.len(),
{
    if s.len() > 0 && s.last() == '"' {
        strip_quotes_end(s.drop_last())
    } else {
        s
    }
}

pub open spec fn trim_quotes(s: Seq<char>) -> Seq<char> {
    strip_quotes_end(strip_quotes_start(s))
}

fn trim_quotes_vec(v: &[char]) -> (r: Vec<char>)
    ensures
        r@ == trim_quotes(v@),
{
    let mut lo: usize = 0;
    assert(v@.skip(0) =~= v@);
    while lo < v.len() && v[lo] == '"'
        invariant
            lo <= v@.len(),
            strip_quotes_start(v@) == strip_quotes_start(v@.skip(lo as int)),
        decreases v@.len() - lo,
    {
        assert(v@.skip(lo as int).drop_first() =~= v@.skip(lo + 1));
        lo += 1;
    }
    let ghost t = v@.skip(lo as int);
    let mut hi: usize = v.len();
    assert(t.take(t.len() as int) =~= t);
    while hi > lo && v[hi - 1] == '"'
        invariant
            lo <= hi <= v@.len(),
            t == v@.skip(lo as int),
            strip_quotes_end(t) == strip_quotes_end(t.take(hi - lo)),
        decreases hi,
    {
        assert(t.take(hi - lo).drop_last() =~= t.take(hi - lo - 1));
        hi -= 1;
    }
    assert(t.take(hi - lo) =~= v@.subrange(lo as int, hi as int));
    crate::text::slice_vec(v, lo, hi)
}

/// A wait value without a final `ms`.
pub open spec fn strip_ms(value: Seq<char>) -> Seq<char> {
    if ends_with(value, "ms"@) {
        value.take(value.len() - 2)
    } else {
        value
    }
}

/// The JavaScript for one action `left = value`, or the error it raises.
pub open spec fn action_js(left: Seq<char>, value: Seq<char>, vars: Set<Seq<char>>) -> Result<
    Seq<char>,
    Seq<char>,
> {
    let w = words(left);
    if w.len() == 1 && w[0] == "scroll"@ {
        if value == "+1"@ || value == "-1"@ {
            Ok("  scrollRelative("@ + value + ");\n"@)
        } else {
            Ok("  scrollToPoint("@ + js_quoted(trim_quotes(value)) + ");\n"@)
        }
    } else if w.len() == 1 && w[0] == "print"@ {
        Ok("  console.log("@ + js_quoted(trim_quotes(value)) + ");\n"@)
    } else if w.len() == 1 && w[0] == "screen"@ {
        Ok("  showScreen("@ + js_quoted(value) + ");\n"@)
    } else if w.len() == 1 && w[0] == "wait"@ {
        match u64_text(trim(strip_ms(value))) {
            Some(n) => Ok("  await delay("@ + decimal(n) + ");\n"@),
            None => Err("wait の値 `"@ + value + "` は `10ms` の形式で指定してください"@),
        }
    } else if w.len() == 1 && w[0] == "fun"@ {
        Ok("  await functions["@ + js_quoted(value) + "]();\n"@)
    } else if w.len() == 2 && w[0] == "setText"@ {
        Ok("  setElementText("@ + js_quoted(w[1]) + ", "@ + value_js(value, vars) + ");\n"@)
    } else if w.len() == 2 && w[0] == "getText"@ {
        Ok("  state["@ + js_quoted(w[1]) + "] = getElementText("@ + js_quoted(value) + ");\n"@)
    } else if w.len() == 1 {
        let var = js_quoted(w[0]);
        if starts_with(value, "+"@) {
            if float_text(value.drop_first()) {
                Ok("  state["@ + var + "] = (Number(state["@ + var + "]) || 0) + "@
                    + value.drop_first() + ";\n"@)
            } else {
                Err("`"@ + left + " = "@ + value + "` の加算値が不正です"@)
            }
        } else if starts_with(value, "-"@) && float_text(value.drop_first()) {
            Ok("  state["@ + var + "] = (Number(state["@ + var + "]) || 0) "@ + value + ";\n"@)
        } else {
            Ok("  state["@ + var + "] = "@ + value_js(value, vars) + ";\n"@)
        }
    } else {
        Err("不明な命令 `"@ + left + "`"@)
    }
}

/// The JavaScript for a list of actions in order, or the first error.
pub open spec fn actions_js(actions: Seq<(Seq<char>, Seq<char>)>, vars: Set<Seq<char>>) -> Result<
    Seq<char>,
    Seq<char>,
>
    decreases actions.len(),
{
    if actions.len() == 0 {
        Ok(seq![])
    } else {
        match actions_js(actions.drop_last(), vars) {
            Err(e) => Err(e),
            Ok(s) => match action_js(actions.last().0, actions.last().1, vars) {
                Err(e) => Err(e),
                Ok(t) => Ok(s + t),
            },
        }
    }
}

fn push_quoted_str(out: &mut String, s: &str)
    ensures
        final(out)@ == old(out)@ + js_quoted(s@),
{
    let v = chars_of(s);
    crate::emit::push_js_string(out, &v);
}

/// The JavaScript of one action.
fn action_to_js(left: &str, value: &str, variables: &NameSet) -> (r: Result<String, String>)
    ensures
        match action_js(left@, value@, variables@.to_set()) {
            Ok(s) => r matches Ok(o) && o@ == s,
            Err(e) => r matches Err(m) && m@ == e,
        },
{
    let lv = chars_of(left);
    let vv = chars_of(value);
    let w = crate::text::split_whitespace_vec(&lv);
    let mut out = String::new();
    if w.len() == 1 && crate::text::eq_str(&w[0], "scroll") {
        if crate::text::eq_str(&vv, "+1") || crate::text::eq_str(&vv, "-1") {
            out.append("  scrollRelative(");
            out.append(value);
            out.append(");\n");
        } else {
            let t = trim_quotes_vec(&vv);
            out.append("  scrollToPoint(");
            crate::emit::push_js_string(&mut out, &t);
            out.append(");\n");
        }
        Ok(out)
    } else if w.len() == 1 && crate::text::eq_str(&w[0], "print") {
        let t = trim_quotes_vec(&vv);
        out.append("  console.log(");
        crate::emit::push_js_string(&mut out, &t);
        out.append(");\n");
        Ok(out)
    } else if w.len() == 1 && crate::text::eq_str(&w[0], "screen") {
        out.append("  showScreen(");
        push_quoted_str(&mut out, value);
        out.append(");\n");
        Ok(out)
    } else if w.len() == 1 && crate::text::eq_str(&w[0], "wait") {
        let stripped = if crate::text::ends_with_str(&vv, "ms") {
            proof {
                reveal_strlit("ms");
            }
            crate::text::slice_vec(&vv, 0, vv.len() - 2)
        } else {
            crate::text::slice_vec(&vv, 0, vv.len())
        };
        assert(vv@.subrange(0, vv@.len() as int) =~= vv@);
        assert(stripped@ == strip_ms(vv@)) by {
            reveal_strlit("ms");
            if ends_with(vv@, "ms"@) {
                assert(vv@.subrange(0, vv@.len() - 2) =~= vv@.take(vv@.len() - 2));
            }
        }
        let t = crate::text::trim_vec(&stripped);
        match crate::text::parse_u64(&t) {
            Some(n) => {
                out.append("  await delay(");
                crate::text::push_decimal(&mut out, n);
                out.append(");\n");
                Ok(out)
            },
            None => {
                out.append("wait の値 `");
                out.append(value);
                out.append("` は `10ms` の形式で指定してください");
                Err(out)
            },
        }
    } else if w.len() == 1 && crate::text::eq_str(&w[0], "fun") {
        out.append("  await functions[");
        push_quoted_str(&mut out, value);
        out.append("]();\n");
        Ok(out)
    } else if w.len() == 2 && crate::text::eq_str(&w[0], "setText") {
        out.append("  setElementText(");
        crate::emit::push_js_string(&mut out, &w[1]);
        out.append(", ");
        let e = value_expr(value, variables);
        out.append(e.as_str());
        out.append(");\n");
        Ok(out)
    } else if w.len() == 2 && crate::text::eq_str(&w[0], "getText") {
        out.append("  state[");
        crate::emit::push_js_string(&mut out, &w[1]);
        out.append("] = getElementText(");
        push_quoted_str(&mut out, value);
        out.append(");\n");
        Ok(out)
    } else if w.len() == 1 {
        let mut var = String::new();
        crate::emit::push_js_string(&mut var, &w[0]);
        proof {
            reveal_strlit("+");
            reveal_strlit("-");
        }
        if crate::text::starts_with_str(&vv, "+") {
            let delta = crate::text::slice_vec(&vv, 1, vv.len());
            assert(delta@ =~= vv@.drop_first());
            if crate::text::is_float_text(&delta) {
                out.append("  state[");
                out.append(var.as_str());
                out.append("] = (Number(state[");
                out.append(var.as_str());
                out.append("]) || 0) + ");
                crate::text::push_chars(&mut out, &delta);
                out.append(";\n");
                Ok(out)
            } else {
                out.append("`");
                out.append(left);
                out.append(" = ");
                out.append(value);
                out.append("` の加算値が不正です");
                Err(out)
            }
        } else if crate::text::starts_with_str(&vv, "-") && {
            let rest = crate::text::slice_vec(&vv, 1, vv.len());
            assert(rest@ =~= vv@.drop_first());
            crate::text::is_float_text(&rest)
        } {
            out.append("  state[");
            out.append(var.as_str());
            out.append("] = (Number(state[");
            out.append(var.as_str());
            out.append("]) || 0) ");
            out.append(value);
            out.append(";\n");
            Ok(out)
        } else {
            out.append("  state[");
            out.append(var.as_str());
            out.append("] = ");
            let e = value_expr(value, variables);
            out.append(e.as_str());
            out.append(";\n");
            Ok(out)
        }
    } else {
        out.append("不明な命令 `");
        out.append(left);
        out.append("`");
        Err(out)
    }
}

/// The JavaScript of a section's actions, one statement per line, or the first error.
pub fn render_actions(actions: &Vec<(String, String)>, variables: &NameSet) -> (r: Result<
    String,
    String,
>)
    ensures
        match actions_js(pairs_view(actions@), variables@.to_set()) {
            Ok(s) => r matches Ok(o) && o@ == s,
            Err(e) => r matches Err(m) && m@ == e,
        },
{
    let ghost all = pairs_view(actions@);
    let mut out = String::new();
    let mut i: usize = 0;
    assert(all.take(0) =~= Seq::<(Seq<char>, Seq<char>)>::empty());
    while i < actions.len()
        invariant
            i <= actions@.len(),
            all == pairs_view(actions@),
            actions_js(all.take(i as int), variables@.to_set()) == Ok::<Seq<char>, Seq<char>>(
                out@,
            ),
        decreases actions@.len() - i,
    {
        assert(all.take(i + 1).drop_last() =~= all.take(i as int));
        assert(all.take(i + 1).last() == all[i as int]);
        match action_to_js(actions[i].0.as_str(), actions[i].1.as_str(), variables) {
            Ok(s) => {
                out.append(s.as_str());
            },
            Err(e) => {
                proof {
                    lemma_actions_error(all, i as int, variables@.to_set());
                }
                return Err(e);
            },
        }
        i += 1;
    }
    assert(all.take(i as int) =~= all);
    Ok(out)
}

/// An error among the first `i + 1` actions is the error of the whole list.
proof fn lemma_actions_error(all: Seq<(Seq<char>, Seq<char>)>, i: int, vars: Set<Seq<char>>)
    requires
        0 <= i < all.len(),
        actions_js(all.take(i + 1), vars) is Err,
    ensures
        actions_js(all, vars) == actions_js(all.take(i + 1), vars),
    decreases all.len() - i,
{
    if i + 1 == all.len() {
        assert(all.take(i + 1) =~= all);
    } else {
        assert(all.take(i + 2).drop_last() =~= all.take(i + 1));
        lemma_actions_error(all, i + 1, vars);
    }
}


// ---------------------------------------------------------------------------------------
// The script file `app.js`
// ---------------------------------------------------------------------------------------

/// The first line of `app.js`: strict mode.
pub const JS_STRICT: &'static str = "\"use strict\";\n";

/// The runtime after the first line of `app.js`, which the generated sections call.
pub const JS_RUNTIME: &'static str = "\n\
const state = Object.create(null);\n\
const delay = milliseconds => new Promise(resolve => setTimeout(resolve, milliseconds));\n\
const namedElement = name => document.querySelector(`.${CSS.escape(name)}`);\n\
\n\
function elementValue(element) {\n\
\x20\x20if (!element) return \"\";\n\
\x20\x20if (element.matches(\"input, textarea, select\")) return element.value;\n\
\x20\x20return element.textContent ?? \"\";\n\
}\n\
\n\
function setElementText(name, value) {\n\
\x20\x20const element = namedElement(name);\n\
\x20\x20if (!element) {\n\
\x20\x20\x20\x20console.warn(`w3cp: element \".${name}\" was not found`);\n\
\x20\x20\x20\x20return;\n\
\x20\x20}\n\
\x20\x20if (element.matches(\"input, textarea, select\")) element.value = String(value);\n\
\x20\x20else element.textContent = String(value);\n\
}\n\
\n\
function getElementText(name) {\n\
\x20\x20const element = namedElement(name);\n\
\x20\x20if (!element) console.warn(`w3cp: element \".${name}\" was not found`);\n\
\x20\x20return elementValue(element);\n\
}\n\
\n\
function currentPoints() {\n\
\x20\x20const screen = document.querySelector(\".w3-screen.is-active\");\n\
\x20\x20return [...(screen?.querySelectorAll(\"[data-w3-scroll-point]\") ?? [])];\n\
}\n\
\n\
function scrollToPoint(name) {\n\
\x20\x20const target = namedElement(name);\n\
\x20\x20if (target) target.scrollIntoView({ behavior: \"smooth\", block: \"start\" });\n\
\x20\x20else console.warn(`w3cp: scroll point \".${name}\" was not found`);\n\
}\n\
\n\
function scrollRelative(direction) {\n\
\x20\x20const points = currentPoints();\n\
\x20\x20if (!points.length) return;\n\
\x20\x20const y = window.scrollY + 8;\n\
\x20\x20let index = points.findIndex(point => point.getBoundingClientRect().top + window.scrollY >= y);\n\
\x20\x20if (index < 0) index = points.length - 1;\n\
\x20\x20if (direction < 0 && points[index].getBoundingClientRect().top + window.scrollY >= y) index--;\n\
\x20\x20else if (direction > 0 && points[index].getBoundingClientRect().top + window.scrollY < y) index++;\n\
\x20\x20points[Math.max(0, Math.min(points.length - 1, index))]?.scrollIntoView({\n\
\x20\x20\x20\x20behavior: \"smooth\",\n\
\x20\x20\x20\x20block: \"start\"\n\
\x20\x20});\n\
}\n\
\n\
function showScreen(name) {\n\
\x20\x20const target = document.querySelector(`.w3-screen[data-screen=\"${CSS.escape(name)}\"]`);\n\
\x20\x20if (!target) {\n\
\x20\x20\x20\x20console.warn(`w3cp: screen \"${name}\" was not found`);\n\
\x20\x20\x20\x20return;\n\
\x20\x20}\n\
\x20\x20document.querySelectorAll(\".w3-screen\").forEach(screen => {\n\
\x20\x20\x20\x20screen.classList.toggle(\"is-active\", screen === target);\n\
\x20\x20});\n\
\x20\x20document.title = target.dataset.title || document.title;\n\
\x20\x20window.scrollTo({ top: 0, behavior: \"instant\" });\n\
}\n\
\n\
function initializeTabs() {\n\
\x20\x20document.querySelectorAll(\"[data-w3-tabs]\").forEach(tab => {\n\
\x20\x20\x20\x20const buttons = [...tab.querySelectorAll(\":scope > .w3-tab-controls > [data-w3-tab-button]\")];\n\
\x20\x20\x20\x20const pages = [...tab.querySelectorAll(\":scope > .w3-tab-pages > [data-w3-tab-page]\")];\n\
\x20\x20\x20\x20const select = index => {\n\
\x20\x20\x20\x20\x20\x20buttons.forEach((button, i) => {\n\
\x20\x20\x20\x20\x20\x20\x20\x20button.classList.toggle(\"is-active\", i === index);\n\
\x20\x20\x20\x20\x20\x20\x20\x20button.setAttribute(\"aria-selected\", String(i === index));\n\
\x20\x20\x20\x20\x20\x20});\n\
\x20\x20\x20\x20\x20\x20pages.forEach((page, i) => page.classList.toggle(\"is-active\", i === index));\n\
\x20\x20\x20\x20};\n\
\x20\x20\x20\x20buttons.forEach((button, index) => button.addEventListener(\"click\", () => select(index)));\n\
\x20\x20\x20\x20select(0);\n\
\x20\x20});\n\
}\n\
\n\
const functions = Object.create(null);\n\
";

/// The function definitions for the `fun` sections among the first `k`, or the first error.
pub open spec fn functions_js(ss: Seq<SectionModel>, vars: Set<Seq<char>>, k: int) -> Result<
    Seq<char>,
    Seq<char>,
>
    decreases k,
{
    if 0 < k <= ss.len() {
        match functions_js(ss, vars, k - 1) {
            Err(e) => Err(e),
            Ok(s) => if ss[k - 1].kind == SectionKind::Function {
                match actions_js(ss[k - 1].actions, vars) {
                    Err(e) => Err(e),
                    Ok(a) => Ok(s + "\nfunctions["@ + js_quoted(ss[k - 1].name)
                        + "] = async function () {\n"@ + a + " };\n"@),
                }
            } else {
                Ok(s)
            },
        }
    } else {
        Ok(seq![])
    }
}

/// The click handlers for the `onClick` sections among the first `k`, or the first error.
pub open spec fn clicks_js(ss: Seq<SectionModel>, vars: Set<Seq<char>>, k: int) -> Result<
    Seq<char>,
    Seq<char>,
>
    decreases k,
{
    if 0 < k <= ss.len() {
        match clicks_js(ss, vars, k - 1) {
            Err(e) => Err(e),
            Ok(s) => if ss[k - 1].kind == SectionKind::Click {
                match actions_js(ss[k - 1].actions, vars) {
                    Err(e) => Err(e),
                    Ok(a) => Ok(s + "  document.querySelectorAll(`.${CSS.escape("@ + js_quoted(
                        ss[k - 1].name,
                    ) + ")}`).forEach(element => {\n    element.addEventListener(\"click\", async () => {\n"@
                        + a + "    });\n  });\n"@),
                }
            } else {
                Ok(s)
            },
        }
    } else {
        Ok(seq![])
    }
}

/// The whole of `app.js`: the runtime, the functions, and on load the tabs, the start
/// screen and the click handlers; or the first error of a function, else of a handler.
pub open spec fn app_js(ss: Seq<SectionModel>, vars: Set<Seq<char>>, start: Seq<char>) -> Result<
    Seq<char>,
    Seq<char>,
> {
    match functions_js(ss, vars, ss.len() as int) {
        Err(e) => Err(e),
        Ok(f) => match clicks_js(ss, vars, ss.len() as int) {
            Err(e) => Err(e),
            Ok(c) => Ok(JS_STRICT@ + JS_RUNTIME@ + f
                + "\ndocument.addEventListener(\"DOMContentLoaded\", () => {\n  initializeTabs();\n"@
                + "  showScreen("@ + js_quoted(start) + ");\n"@ + c + "});\n"@),
        },
    }
}

/// Appends the handlers (`click` true) or the functions (`click` false) of the sections.
fn push_sections(
    out: &mut String,
    sections: &Vec<ScriptSection>,
    variables: &NameSet,
    click: bool,
) -> (r: Result<(), String>)
    ensures
        match (if click {
            clicks_js(sections_view(sections@), variables@.to_set(), sections@.len() as int)
        } else {
            functions_js(sections_view(sections@), variables@.to_set(), sections@.len() as int)
        }) {
            Ok(s) => r is Ok && final(out)@ == old(out)@ + s,
            Err(e) => r matches Err(m) && m@ == e,
        },
{
    let ghost ss = sections_view(sections@);
    let ghost vars = variables@.to_set();
    let mut i: usize = 0;
    while i < sections.len()
        invariant
            i <= sections@.len(),
            ss == sections_view(sections@),
            vars == variables@.to_set(),
            (if click {
                clicks_js(ss, vars, i as int)
            } else {
                functions_js(ss, vars, i as int)
            }) matches Ok(s) && out@ == old(out)@ + s,
        decreases sections@.len() - i,
    {
        let section = &sections[i];
        assert(ss[i as int] == section@);
        let wanted = if click {
            section.kind == SectionKind::Click
        } else {
            section.kind == SectionKind::Function
        };
        if wanted {
            match render_actions(&section.actions, variables) {
                Ok(a) => {
                    if click {
                        out.append("  document.querySelectorAll(`.${CSS.escape(");
                        push_quoted_str(out, section.name.as_str());
                        out.append(
                            ")}`).forEach(element => {\n    element.addEventListener(\"click\", async () => {\n",
                        );
                        out.append(a.as_str());
                        out.append("    });\n  });\n");
                    } else {
                        out.append("\nfunctions[");
                        push_quoted_str(out, section.name.as_str());
                        out.append("] = async function () {\n");
                        out.append(a.as_str());
                        out.append(" };\n");
                    }
                },
                Err(e) => {
                    proof {
                        lemma_sections_error(ss, vars, i as int, click);
                    }
                    return Err(e);
                },
            }
        }
        i += 1;
    }
    Ok(())
}

proof fn lemma_sections_error(ss: Seq<SectionModel>, vars: Set<Seq<char>>, i: int, click: bool)
    requires
        0 <= i < ss.len(),
        (if click {
            clicks_js(ss, vars, i + 1)
        } else {
            functions_js(ss, vars, i + 1)
        }) is Err,
    ensures
        (if click {
            clicks_js(ss, vars, ss.len() as int)
        } else {
            functions_js(ss, vars, ss.len() as int)
        }) == (if click {
            clicks_js(ss, vars, i + 1)
        } else {
            functions_js(ss, vars, i + 1)
        }),
    decreases ss.len() - i,
{
    if i + 1 < ss.len() {
        lemma_sections_error(ss, vars, i + 1, click);
    }
}

/// `app.js` for the sections, their variables and the start screen.
pub fn generate_js(sections: &Vec<ScriptSection>, variables: &NameSet, start_screen: &str) -> (r:
    Result<String, String>)
    ensures
        match app_js(sections_view(sections@), variables@.to_set(), start_screen@) {
            Ok(s) => r matches Ok(o) && o@ == s,
            Err(e) => r matches Err(m) && m@ == e,
        },
{
    let mut out = lit(JS_STRICT);
    out.append(JS_RUNTIME);
    push_sections(&mut out, sections, variables, false)?;
    out.append("\ndocument.addEventListener(\"DOMContentLoaded\", () => {\n  initializeTabs();\n");
    out.append("  showScreen(");
    push_quoted_str(&mut out, start_screen);
    out.append(");\n");
    push_sections(&mut out, sections, variables, true)?;
    out.append("});\n");
    Ok(out)
}

// ---------------------------------------------------------------------------------------
// Settings and the page
// ---------------------------------------------------------------------------------------

/// The start screen and the app name that `config.ini` gives, or the error when it does not
/// declare `version=3`.
pub open spec fn settings_of(entries: Seq<(Seq<char>, Seq<char>)>) -> Result<
    (Seq<char>, Seq<char>),
    Seq<char>,
> {
    if entries_get(entries, "version"@) != Some("3"@) {
        Err("config.ini の `version=3` が必要です"@)
    } else {
        Ok(
            (
                match entries_get(entries, "screen"@) {
                    Some(s) => s,
                    None => "main"@,
                },
                match entries_get(entries, "name"@) {
                    Some(n) => n,
                    None => "Warp 3 App"@,
                },
            ),
        )
    }
}

/// The start screen and the app name of a Warp 3 project's settings.
pub fn compile_settings(config: &Vec<(String, String)>) -> (r: Result<(String, String), String>)
    ensures
        match settings_of(pairs_view(config@)) {
            Ok((screen, name)) => r matches Ok(p) && p.0@ == screen && p.1@ == name,
            Err(e) => r matches Err(m) && m@ == e,
        },
{
    let version = crate::warp3::ini_get(config, "version");
    let ok = match &version {
        Some(v) => {
            let vv = chars_of(v.as_str());
            crate::text::eq_str(&vv, "3")
        },
        None => false,
    };
    if !ok {
        return Err(lit("config.ini の `version=3` が必要です"));
    }
    let screen = match crate::warp3::ini_get(config, "screen") {
        Some(s) => s,
        None => lit("main"),
    };
    let name = match crate::warp3::ini_get(config, "name") {
        Some(n) => n,
        None => lit("Warp 3 App"),
    };
    Ok((screen, name))
}

/// One screen of a Warp 3 page: its name, its title and its UI tree.
pub struct Screen3 {
    pub name: String,
    pub title: String,
    pub nodes: Vec<Node>,
}

/// The `<main>` element of one screen.
pub open spec fn screen_html(name: Seq<char>, title: Seq<char>, nodes: Seq<NodeModel>) -> Seq<
    char,
> {
    "<main class=\"w3-screen\" data-screen=\""@ + escaped(name) + "\" data-title=\""@ + escaped(
        title,
    ) + "\">"@ + render_all(nodes) + "</main>"@
}

/// The `<main>` elements of the first `k` screens.
pub open spec fn screens_html(ss: Seq<Screen3>, k: int) -> Seq<char>
    decreases k,
{
    if 0 < k <= ss.len() {
        screens_html(ss, k - 1) + screen_html(ss[k - 1].name@, ss[k - 1].title@, nodes_view(ss[k - 1].nodes@))
    } else {
        seq![]
    }
}

/// `index.html` for the app name and the screens.
pub open spec fn page_html(app_name: Seq<char>, ss: Seq<Screen3>) -> Seq<char> {
    "<!doctype html>\n<html lang=\"ja\">\n<head>\n<meta charset=\"utf-8\">\n<meta name=\"viewport\" content=\"width=device-width,initial-scale=1\">\n<title>"@
        + escaped(app_name)
        + "</title>\n<link rel=\"stylesheet\" href=\"style.css\">\n<script src=\"app.js\" defer></script>\n</head>\n<body>\n"@
        + screens_html(ss, ss.len() as int) + "\n</body>\n</html>\n"@
}

fn push_escaped_str(out: &mut String, s: &str)
    ensures
        final(out)@ == old(out)@ + escaped(s@),
{
    let e = crate::emit::escape_html(s);
    out.append(e.as_str());
}

/// The page that holds every screen, each a `<main>` element that the script shows or hides.
pub fn index_html(app_name: &str, screens: &Vec<Screen3>) -> (r: String)
    ensures
        r@ == page_html(app_name@, screens@),
{
    let mut body = String::new();
    let mut i: usize = 0;
    while i < screens.len()
        invariant
            i <= screens@.len(),
            body@ == screens_html(screens@, i as int),
        decreases screens@.len() - i,
    {
        let screen = &screens[i];
        body.append("<main class=\"w3-screen\" data-screen=\"");
        push_escaped_str(&mut body, screen.name.as_str());
        body.append("\" data-title=\"");
        push_escaped_str(&mut body, screen.title.as_str());
        body.append("\">");
        crate::emit::render_children(&screen.nodes, &mut body);
        body.append("</main>");
        i += 1;
    }
    let mut out = lit(
        "<!doctype html>\n<html lang=\"ja\">\n<head>\n<meta charset=\"utf-8\">\n<meta name=\"viewport\" content=\"width=device-width,initial-scale=1\">\n<title>",
    );
    push_escaped_str(&mut out, app_name);
    out.append(
        "</title>\n<link rel=\"stylesheet\" href=\"style.css\">\n<script src=\"app.js\" defer></script>\n</head>\n<body>\n",
    );
    out.append(body.as_str());
    out.append("\n</body>\n</html>\n");
    out
}

} // verus!
