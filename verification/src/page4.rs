//! The page that the Warp 4 compiler writes: compiled scripts as JavaScript objects, the
//! screens as HTML sections and the runtime that brings them to life.
use vstd::prelude::*;
use crate::warp4::{lemma_if_view, opt_text, ops_view, Op, OpModel, OpTable, ProgramModel, ScriptProgram};
use crate::js4::{js4_quoted, opt_js, push_js4};
use crate::text::{chars_of, lit, string_of};

verus! {

broadcast use crate::text::lemma_concat_empty;

/// One operation as a JavaScript object literal.
pub open spec fn op_js_spec(op: OpModel) -> Seq<char>
    decreases op, 1int,
{
    match op {
        OpModel::Command { name, target, value } => "{kind:\"command\",name:"@ + js4_quoted(name)
            + ",target:"@ + opt_js(target) + ",value:"@ + opt_js(value) + "}"@,
        OpModel::If { left, operator, right, then } => "{kind:\"if\",left:"@ + js4_quoted(left)
            + ",operator:"@ + js4_quoted(operator) + ",right:"@ + js4_quoted(right) + ",body:["@
            + ops_js_spec(then) + "]}"@,
    }
}

/// Operations as JavaScript object literals separated by commas.
pub open spec fn ops_js_spec(ops: Seq<OpModel>) -> Seq<char>
    decreases ops, 0int,
{
    if ops.len() == 0 {
        seq![]
    } else if ops.len() == 1 {
        op_js_spec(ops[0])
    } else {
        ops_js_spec(ops.subrange(0, ops.len() - 1)) + ","@ + op_js_spec(ops[ops.len() - 1])
    }
}

fn push_opt_js(out: &mut String, o: &Option<String>)
    ensures
        final(out)@ == old(out)@ + opt_js(opt_text(*o)),
{
    match o {
        Some(s) => push_js4(out, s.as_str()),
        None => out.append("null"),
    }
}

/// Appends the JavaScript of `op`.
fn push_op_js(out: &mut String, op: &Op)
    ensures
        final(out)@ == old(out)@ + op_js_spec(op@),
    decreases op, 1int,
{
    let mut buf = String::new();
    match op {
        Op::Command { name, target, value } => {
            buf.append("{kind:\"command\",name:");
            push_js4(&mut buf, name.as_str());
            buf.append(",target:");
            push_opt_js(&mut buf, target);
            buf.append(",value:");
            push_opt_js(&mut buf, value);
            buf.append("}");
        },
        Op::If { left, operator, right, body } => {
            proof {
                lemma_if_view(*op);
            }
            buf.append("{kind:\"if\",left:");
            push_js4(&mut buf, left.as_str());
            buf.append(",operator:");
            push_js4(&mut buf, operator.as_str());
            buf.append(",right:");
            push_js4(&mut buf, right.as_str());
            buf.append(",body:[");
            push_ops_js(&mut buf, body);
            buf.append("]}");
        },
    }
    assert(buf@ == op_js_spec(op@));
    out.append(buf.as_str());
}

/// Appends the JavaScript of `ops`, separated by commas.
fn push_ops_js(out: &mut String, ops: &Vec<Op>)
    ensures
        final(out)@ == old(out)@ + ops_js_spec(ops_view(ops@)),
    decreases ops, 0int,
{
    let ghost all = ops_view(ops@);
    let mut acc = String::new();
    let mut i: usize = 0;
    assert(all.subrange(0, 0) =~= Seq::<OpModel>::empty());
    while i < ops.len()
        invariant
            i <= ops@.len(),
            all == ops_view(ops@),
            acc@ == ops_js_spec(all.subrange(0, i as int)),
        decreases ops@.len() - i,
    {
        let ghost w = all.subrange(0, i + 1);
        assert(w.subrange(0, i as int) =~= all.subrange(0, i as int));
        assert(w[i as int] == ops@[i as int]@);
        if i > 0 {
            acc.append(",");
        } else {
            assert(w =~= seq![ops@[0]@]);
        }
        push_op_js(&mut acc, &ops[i]);
        i += 1;
    }
    assert(all.subrange(0, i as int) =~= all);
    out.append(acc.as_str());
}

/// One operation as a JavaScript object literal.
pub fn op_js(op: &Op) -> (r: String)
    ensures
        r@ == op_js_spec(op@),
{
    let mut out = String::new();
    push_op_js(&mut out, op);
    out
}

/// Operations as JavaScript object literals separated by commas.
pub fn ops_js(ops: &Vec<Op>) -> (r: String)
    ensures
        r@ == ops_js_spec(ops_view(ops@)),
{
    let mut out = String::new();
    push_ops_js(&mut out, ops);
    out
}

/// One table entry as JavaScript: `"id":[ops]` for handlers, `{name:"f",body:[ops]}` for
/// functions.
pub open spec fn entry_js(e: (Seq<char>, Seq<OpModel>), as_events: bool) -> Seq<char> {
    if as_events {
        js4_quoted(e.0) + ":["@ + ops_js_spec(e.1) + "]"@
    } else {
        "{name:"@ + js4_quoted(e.0) + ",body:["@ + ops_js_spec(e.1) + "]}"@
    }
}

/// The first `k` table entries as JavaScript, separated by commas.
pub open spec fn entries_js(t: Seq<(Seq<char>, Seq<OpModel>)>, k: int, as_events: bool) -> Seq<char>
    decreases k,
{
    if k <= 0 || k > t.len() {
        seq![]
    } else if k == 1 {
        entry_js(t[0], as_events)
    } else {
        entries_js(t, k - 1, as_events) + ","@ + entry_js(t[k - 1], as_events)
    }
}

/// A compiled script as the JavaScript object the runtime reads: its start-up operations,
/// its handlers by element ID and its functions, each in ascending order of names.
pub open spec fn script_js_spec(p: ProgramModel) -> Seq<char> {
    "{init:["@ + ops_js_spec(p.init) + "],events:{"@ + entries_js(
        p.events,
        p.events.len() as int,
        true,
    ) + "},functions:["@ + entries_js(p.functions, p.functions.len() as int, false) + "]}"@
}

fn entry_to_js(e: &(String, Vec<Op>), as_events: bool) -> (r: String)
    ensures
        r@ == entry_js(crate::warp4::entry_view(*e), as_events),
{
    let mut item = String::new();
    if as_events {
        push_js4(&mut item, e.0.as_str());
        item.append(":[");
        push_ops_js(&mut item, &e.1);
        item.append("]");
    } else {
        item.append("{name:");
        push_js4(&mut item, e.0.as_str());
        item.append(",body:[");
        push_ops_js(&mut item, &e.1);
        item.append("]}");
    }
    item
}

fn push_entries_js(out: &mut String, t: &OpTable, as_events: bool)
    ensures
        final(out)@ == old(out)@ + entries_js(t@, t@.len() as int, as_events),
{
    let mut acc = String::new();
    let mut i: usize = 0;
    while i < t.len()
        invariant
            i <= t@.len(),
            acc@ == entries_js(t@, i as int, as_events),
        decreases t@.len() - i,
    {
        let item = entry_to_js(t.get(i), as_events);
        if i > 0 {
            acc.append(",");
        }
        acc.append(item.as_str());
        i += 1;
    }
    out.append(acc.as_str());
}

/// A compiled script as the JavaScript object the runtime reads.
pub fn script_js(script: &ScriptProgram) -> (r: String)
    ensures
        r@ == script_js_spec(script@),
{
    let mut out = lit("{init:[");
    push_ops_js(&mut out, &script.init);
    out.append("],events:{");
    push_entries_js(&mut out, &script.events, true);
    out.append("},functions:[");
    push_entries_js(&mut out, &script.functions, false);
    out.append("]}");
    out
}

/// One character of HTML text: `&`, `<` and `>` become entities.
pub open spec fn text_char(c: char) -> Seq<char> {
    if c == '&' {
        "&amp;"@
    } else if c == '<' {
        "&lt;"@
    } else if c == '>' {
        "&gt;"@
    } else {
        seq![c]
    }
}

/// `s` as HTML text.
pub open spec fn text_escaped(s: Seq<char>) -> Seq<char> {
    crate::text::flat_map(s, |c: char| text_char(c))
}

/// `value` with `&`, `<` and `>` replaced by entities.
pub fn esc_text(value: &str) -> (r: String)
    ensures
        r@ == text_escaped(value@),
{
    let v = chars_of(value);
    let mut out = String::new();
    let mut i: usize = 0;
    assert(v@.take(0) =~= Seq::<char>::empty());
    while i < v.len()
        invariant
            i <= v@.len(),
            out@ == text_escaped(v@.take(i as int)),
        decreases v@.len() - i,
    {
        proof {
            crate::text::lemma_flat_map_push(v@, |c: char| text_char(c), i as int);
        }
        let c = v[i];
        if c == '&' {
            out.append("&amp;");
        } else if c == '<' {
            out.append("&lt;");
        } else if c == '>' {
            out.append("&gt;");
        } else {
            out.push(c);
            assert(out@ =~= text_escaped(v@.take(i + 1)));
        }
        i += 1;
    }
    assert(v@.take(v@.len() as int) =~= v@);
    out
}

/// `value` with `&`, `<`, `>` and `"` replaced by entities, for attribute values.
pub fn esc_attr(value: &str) -> (r: String)
    ensures
        r@ == crate::emit::escaped(value@),
{
    crate::emit::escape_html(value)
}

/// The style sheet inside the first `<style>` element of `reference`, or the built-in one.
pub open spec fn reference_css_spec(reference: Seq<char>) -> Seq<char> {
    match crate::text::split_once_str(reference, "<style>"@) {
        Some((_, rest)) => match crate::text::split_once_str(rest, "</style>"@) {
            Some((css, _)) => css,
            None => crate::runtime4::UI_CSS@,
        },
        None => crate::runtime4::UI_CSS@,
    }
}

/// The style sheet of the reference page `reference`, or the built-in one when it has none.
pub fn reference_css(reference: &str) -> (r: String)
    ensures
        r@ == reference_css_spec(reference@),
{
    let v = chars_of(reference);
    match crate::text::split_once_str_vec(&v, "<style>") {
        Some((_, rest)) => match crate::text::split_once_str_vec(&rest, "</style>") {
            Some((css, _)) => string_of(&css),
            None => lit(crate::runtime4::UI_CSS),
        },
        None => lit(crate::runtime4::UI_CSS),
    }
}


// ---------------------------------------------------------------------------------------
// The page
// ---------------------------------------------------------------------------------------

/// One screen of the page: its name, the HTML of its UI and its compiled script.
pub struct Screen {
    pub name: String,
    pub body: String,
    pub script: ScriptProgram,
}

/// The `<section>` elements of the first `k` screens.
pub open spec fn sections_html(ss: Seq<Screen>, k: int) -> Seq<char>
    decreases k,
{
    if k <= 0 || k > ss.len() {
        seq![]
    } else {
        sections_html(ss, k - 1) + ("<section class=\"warp-screen\" id=\"screen-"@
            + crate::emit::escaped(ss[k - 1].name@) + "\" data-screen=\""@ + crate::emit::escaped(
            ss[k - 1].name@,
        ) + "\">"@ + ss[k - 1].body@ + "</section>"@)
    }
}

/// The scripts of the first `k` screens as `"name":{...}` entries separated by commas.
pub open spec fn screens_data(ss: Seq<Screen>, k: int) -> Seq<char>
    decreases k,
{
    if k <= 0 || k > ss.len() {
        seq![]
    } else if k == 1 {
        js4_quoted(ss[0].name@) + ":"@ + script_js_spec(ss[0].script@)
    } else {
        screens_data(ss, k - 1) + ","@ + (js4_quoted(ss[k - 1].name@) + ":"@ + script_js_spec(
            ss[k - 1].script@,
        ))
    }
}

/// The page title: the `name` setting, or `Warp 4 Example`.
pub open spec fn page_title(config: Seq<(Seq<char>, Seq<char>)>) -> Seq<char> {
    match crate::warp3::entries_get(config, "name"@) {
        Some(n) => n,
        None => "Warp 4 Example"@,
    }
}

/// The single page of a Warp 4 app: every screen as a hidden section, the style sheet `css`,
/// the scripts by screen name, the entry screen, and the runtimes.
pub open spec fn document_spec(
    entry: Seq<char>,
    config: Seq<(Seq<char>, Seq<char>)>,
    ss: Seq<Screen>,
    css: Seq<char>,
) -> Seq<char> {
    "<!doctype html>\n<html lang=\"ja\">\n<head>\n<meta charset=\"utf-8\">\n<meta name=\"viewport\" content=\"width=device-width,initial-scale=1,maximum-scale=1,user-scalable=no\">\n<title>"@
        + text_escaped(page_title(config)) + "</title>\n<style>"@ + css
        + "\n.warp-screen{display:none;width:100%;height:100%;overflow:hidden}\n.warp-screen.active{display:block}\n</style>\n</head>\n<body><div id=\"app\">"@
        + sections_html(ss, ss.len() as int) + "</div>\n<script>\nconst SCREENS={"@ + screens_data(
        ss,
        ss.len() as int,
    ) + "};\nconst ENTRY="@ + js4_quoted(entry) + ";\n"@ + crate::runtime4::UI_RUNTIME_JS@ + "\n"@
        + crate::runtime4::SCRIPT_RUNTIME_JS@ + "\n</script>\n</body>\n</html>\n"@
}

fn sections_of(screens: &Vec<Screen>) -> (r: String)
    ensures
        r@ == sections_html(screens@, screens@.len() as int),
{
    let mut acc = String::new();
    let mut i: usize = 0;
    while i < screens.len()
        invariant
            i <= screens@.len(),
            acc@ == sections_html(screens@, i as int),
        decreases screens@.len() - i,
    {
        let sc = &screens[i];
        let mut item = lit("<section class=\"warp-screen\" id=\"screen-");
        let e = esc_attr(sc.name.as_str());
        item.append(e.as_str());
        item.append("\" data-screen=\"");
        item.append(e.as_str());
        item.append("\">");
        item.append(sc.body.as_str());
        item.append("</section>");
        acc.append(item.as_str());
        i += 1;
    }
    acc
}

fn data_of(screens: &Vec<Screen>) -> (r: String)
    ensures
        r@ == screens_data(screens@, screens@.len() as int),
{
    let mut acc = String::new();
    let mut i: usize = 0;
    while i < screens.len()
        invariant
            i <= screens@.len(),
            acc@ == screens_data(screens@, i as int),
        decreases screens@.len() - i,
    {
        let sc = &screens[i];
        let mut item = String::new();
        push_js4(&mut item, sc.name.as_str());
        item.append(":");
        let sj = script_js(&sc.script);
        item.append(sj.as_str());
        if i > 0 {
            acc.append(",");
        }
        acc.append(item.as_str());
        i += 1;
    }
    acc
}

/// The page for the entry screen `entry`, the settings, the screens and the style sheet.
pub fn build_document(
    entry: &str,
    config: &Vec<(String, String)>,
    screens: &Vec<Screen>,
    css: &str,
) -> (r: String)
    ensures
        r@ == document_spec(entry@, crate::warp3::pairs_view(config@), screens@, css@),
{
    let title = match crate::warp3::ini_get(config, "name") {
        Some(n) => n,
        None => lit("Warp 4 Example"),
    };
    let bodies = sections_of(screens);
    let data = data_of(screens);
    let mut out = lit(
        "<!doctype html>\n<html lang=\"ja\">\n<head>\n<meta charset=\"utf-8\">\n<meta name=\"viewport\" content=\"width=device-width,initial-scale=1,maximum-scale=1,user-scalable=no\">\n<title>",
    );
    let t = esc_text(title.as_str());
    out.append(t.as_str());
    out.append("</title>\n<style>");
    out.append(css);
    out.append(
        "\n.warp-screen{display:none;width:100%;height:100%;overflow:hidden}\n.warp-screen.active{display:block}\n</style>\n</head>\n<body><div id=\"app\">",
    );
    out.append(bodies.as_str());
    out.append("</div>\n<script>\nconst SCREENS={");
    out.append(data.as_str());
    out.append("};\nconst ENTRY=");
    push_js4(&mut out, entry);
    out.append(";\n");
    out.append(crate::runtime4::UI_RUNTIME_JS);
    out.append("\n");
    out.append(crate::runtime4::SCRIPT_RUNTIME_JS);
    out.append("\n</script>\n</body>\n</html>\n");
    out
}

// ---------------------------------------------------------------------------------------
// `config.ini`
// ---------------------------------------------------------------------------------------

/// One line of `config.ini` added to the settings read so far: blank lines and `#` or `;`
/// comments are skipped, any other line must be `key=value`.
pub open spec fn config_line(
    file: Seq<char>,
    index: int,
    raw: Seq<char>,
    entries: Seq<(Seq<char>, Seq<char>)>,
) -> Result<Seq<(Seq<char>, Seq<char>)>, Seq<char>> {
    let line = crate::text::trim(raw);
    if line.len() == 0 || crate::text::starts_with(line, "#"@) || crate::text::starts_with(
        line,
        ";"@,
    ) {
        Ok(entries)
    } else {
        match crate::text::split_once(line, '=') {
            None => Err(crate::warp3::location(file, index) + ": key=value の形式が必要です"@),
            Some((k, v)) => Ok(entries.push((crate::text::trim(k), crate::text::trim(v)))),
        }
    }
}

/// The settings of the lines from `i` on, or the first error.
pub open spec fn config_from(
    file: Seq<char>,
    lines: Seq<Seq<char>>,
    i: int,
    entries: Seq<(Seq<char>, Seq<char>)>,
) -> Result<Seq<(Seq<char>, Seq<char>)>, Seq<char>>
    decreases lines.len() - i,
{
    if i < 0 || i >= lines.len() {
        Ok(entries)
    } else {
        match config_line(file, i, lines[i], entries) {
            Err(e) => Err(e),
            Ok(next) => config_from(file, lines, i + 1, next),
        }
    }
}

/// The settings of the text of `config.ini` in order (a later line for a key wins when they
/// are looked up), or the error for the first line that is not `key=value`; `file` names the
/// file in the error.
pub fn parse_config(source: &str, file: &str) -> (r: Result<Vec<(String, String)>, String>)
    ensures
        match config_from(file@, crate::text::lines(source@), 0, seq![]) {
            Ok(e) => r matches Ok(v) && crate::warp3::pairs_view(v@) == e,
            Err(e) => r matches Err(m) && m@ == e,
        },
{
    let chars = chars_of(source);
    let lines = crate::text::lines_vec(&chars);
    let ghost ls = crate::text::lines(source@);
    let mut out: Vec<(String, String)> = Vec::new();
    assert(crate::warp3::pairs_view(out@) =~= Seq::<(Seq<char>, Seq<char>)>::empty());
    let mut i: usize = 0;
    while i < lines.len()
        invariant
            ls == crate::text::lines(source@),
            lines@.len() == ls.len(),
            forall|k: int| 0 <= k < lines@.len() ==> #[trigger] lines@[k]@ == ls[k],
            i <= lines@.len(),
            config_from(file@, ls, 0, seq![]) == config_from(
                file@,
                ls,
                i as int,
                crate::warp3::pairs_view(out@),
            ),
        decreases lines@.len() - i,
    {
        let line = crate::text::trim_vec(&lines[i]);
        if !(line.len() == 0 || crate::text::starts_with_str(&line, "#")
            || crate::text::starts_with_str(&line, ";")) {
            match crate::text::split_once_vec(&line, '=') {
                Some((k, v)) => {
                    let kt = crate::text::trim_vec(&k);
                    let vt = crate::text::trim_vec(&v);
                    let entry = (string_of(&kt), string_of(&vt));
                    let ghost before = out@;
                    out.push(entry);
                    assert(crate::warp3::pairs_view(out@) =~= crate::warp3::pairs_view(before).push(
                        (kt@, vt@),
                    ));
                },
                None => {
                    let mut e = lit(file);
                    e.append(":");
                    crate::text::push_decimal(&mut e, (i + 1) as u64);
                    e.append(": key=value の形式が必要です");
                    return Err(e);
                },
            }
        }
        i += 1;
    }
    Ok(out)
}

// ---------------------------------------------------------------------------------------
// Pairing layouts with scripts
// ---------------------------------------------------------------------------------------

/// The value of the last entry of `s` for `k`.
pub open spec fn last_for<V>(s: Seq<(Seq<char>, V)>, k: Seq<char>) -> Option<V>
    decreases s.len(),
{
    if s.len() == 0 {
        None
    } else if s.last().0 == k {
        Some(s.last().1)
    } else {
        last_for(s.drop_last(), k)
    }
}

proof fn lemma_last_for<V>(s: Seq<(Seq<char>, V)>, k: Seq<char>, j: int)
    requires
        0 <= j < s.len(),
        s[j].0 == k,
        forall|i: int| j < i < s.len() ==> s[i].0 != k,
    ensures
        last_for(s, k) == Some(s[j].1),
    decreases s.len(),
{
    if j < s.len() - 1 {
        lemma_last_for(s.drop_last(), k, j);
    }
}

proof fn lemma_last_for_none<V>(s: Seq<(Seq<char>, V)>, k: Seq<char>)
    requires
        forall|i: int| 0 <= i < s.len() ==> s[i].0 != k,
    ensures
        last_for(s, k) is None,
    decreases s.len(),
{
    if s.len() > 0 {
        lemma_last_for_none(s.drop_last(), k);
    }
}

/// Removing an entry for one key leaves the last entries of the other keys as they were.
proof fn lemma_last_for_remove<V>(s: Seq<(Seq<char>, V)>, j: int, k: Seq<char>)
    requires
        0 <= j < s.len(),
        s[j].0 != k,
    ensures
        last_for(s.remove(j), k) == last_for(s, k),
    decreases s.len(),
{
    let r = s.remove(j);
    if j == s.len() - 1 {
        assert(r =~= s.drop_last());
    } else {
        assert(r.drop_last() =~= s.drop_last().remove(j));
        assert(r.last() == s.last());
        lemma_last_for_remove(s.drop_last(), j, k);
    }
}

/// Where the last entry for `k` stands in `v`.
fn find_last<V>(v: &Vec<(String, V)>, k: &[char]) -> (r: Option<usize>)
    ensures
        match r {
            Some(j) => j < v@.len() && v@[j as int].0@ == k@ && forall|i: int|
                j < i < v@.len() ==> (#[trigger] v@[i]).0@ != k@,
            None => forall|i: int| 0 <= i < v@.len() ==> (#[trigger] v@[i]).0@ != k@,
        },
{
    let mut i: usize = v.len();
    while i > 0
        invariant
            i <= v@.len(),
            forall|x: int| i <= x < v@.len() ==> (#[trigger] v@[x]).0@ != k@,
        decreases i,
    {
        let name = chars_of(v[i - 1].0.as_str());
        if crate::text::eq_chars(&name, k) {
            return Some(i - 1);
        }
        i -= 1;
    }
    None
}

pub open spec fn keyed_texts(v: Seq<(String, String)>) -> Seq<(Seq<char>, Seq<char>)> {
    v.map_values(|e: (String, String)| (e.0@, e.1@))
}

pub open spec fn keyed_programs(v: Seq<(String, ScriptProgram)>) -> Seq<(Seq<char>, ProgramModel)> {
    v.map_values(|e: (String, ScriptProgram)| (e.0@, e.1@))
}

/// Whether some layout has the name `k`.
pub open spec fn has_layout(layouts: Seq<(Seq<char>, Seq<char>)>, k: Seq<char>) -> bool {
    exists|i: int| 0 <= i < layouts.len() && (#[trigger] layouts[i]).0 == k
}

/// The error of an example whose layouts are `layouts` in the directory `dir`, with the
/// entry screen `entry`: there must be a layout, and one for the entry screen.
pub open spec fn layouts_error(dir: Seq<char>, entry: Seq<char>, layouts: Seq<(Seq<char>, Seq<char>)>) -> Option<
    Seq<char>,
> {
    if layouts.len() == 0 {
        Some(dir + ".w3u/.w4u が見つかりません"@)
    } else if !has_layout(layouts, entry) {
        Some("config.ini の screen '"@ + entry + "' に対応する画面がありません"@)
    } else {
        None
    }
}

/// Checks that the layouts found in `dir` include one for the entry screen.
pub fn check_layouts(dir: &str, entry: &str, layouts: &Vec<(String, String)>) -> (r: Result<(), String>)
    ensures
        match layouts_error(dir@, entry@, keyed_texts(layouts@)) {
            Some(e) => r matches Err(m) && m@ == e,
            None => r is Ok,
        },
{
    let ghost ls = keyed_texts(layouts@);
    if layouts.len() == 0 {
        let mut m = lit(dir);
        m.append(".w3u/.w4u が見つかりません");
        return Err(m);
    }
    let ev = chars_of(entry);
    match find_last(layouts, &ev) {
        Some(j) => {
            assert(ls[j as int].0 == entry@);
            Ok(())
        },
        None => {
            assert(!has_layout(ls, entry@)) by {
                if has_layout(ls, entry@) {
                    let i = choose|i: int| 0 <= i < ls.len() && (#[trigger] ls[i]).0 == entry@;
                    assert(layouts@[i].0@ == entry@);
                }
            }
            let mut m = lit("config.ini の screen '");
            m.append(entry);
            m.append("' に対応する画面がありません");
            Err(m)
        },
    }
}

/// The screens of an example: one for each name that the layouts give, in ascending order of
/// the names, each with the last layout body given for its name and the last script compiled
/// for that name (an empty program when there is none).
pub fn assemble_screens(layouts: &Vec<(String, String)>, scripts: Vec<(String, ScriptProgram)>) -> (r:
    Vec<Screen>)
    ensures
        forall|i: int, j: int|
            0 <= i < j < r@.len() ==> crate::names::lex_lt(#[trigger] r@[i].name@, #[trigger] r@[j].name@),
        forall|k: Seq<char>| has_layout(keyed_texts(layouts@), k) <==> exists|i: int|
            0 <= i < r@.len() && #[trigger] r@[i].name@ == k,
        forall|i: int|
            0 <= i < r@.len() ==> last_for(keyed_texts(layouts@), #[trigger] r@[i].name@) == Some(
                r@[i].body@,
            ),
        forall|i: int|
            0 <= i < r@.len() ==> (#[trigger] r@[i].script@) == match last_for(
                keyed_programs(scripts@),
                r@[i].name@,
            ) {
                Some(p) => p,
                None => ProgramModel { init: seq![], events: seq![], functions: seq![] },
            },
{
    let ghost ls = keyed_texts(layouts@);
    let ghost ss0 = keyed_programs(scripts@);
    let mut names = crate::names::NameSet::new();
    let mut i: usize = 0;
    while i < layouts.len()
        invariant
            i <= layouts@.len(),
            ls == keyed_texts(layouts@),
            names.wf(),
            forall|k: Seq<char>| names@.to_set().contains(k) <==> exists|x: int|
                0 <= x < i && (#[trigger] ls[x]).0 == k,
        decreases layouts@.len() - i,
    {
        let ghost before = names@.to_set();
        names.insert(lit(layouts[i].0.as_str()));
        proof {
            assert forall|k: Seq<char>| names@.to_set().contains(k) <==> exists|x: int|
                0 <= x < i + 1 && (#[trigger] ls[x]).0 == k by {
                if k == ls[i as int].0 {
                } else if names@.to_set().contains(k) {
                    assert(before.contains(k));
                } else {
                    assert(!before.contains(k));
                }
            }
        }
        i += 1;
    }
    let order = names.to_vec();
    let ghost ns = names@;
    proof {
        crate::properties::law_ascending_names_are_distinct(ns);
        assert forall|k: Seq<char>| has_layout(ls, k) <==> ns.contains(k) by {
            if has_layout(ls, k) {
                let x = choose|x: int| 0 <= x < ls.len() && (#[trigger] ls[x]).0 == k;
                assert(names@.to_set().contains(k));
            }
            if ns.contains(k) {
                assert(names@.to_set().contains(k));
            }
        }
    }
    let mut scripts = scripts;
    let mut out: Vec<Screen> = Vec::new();
    let mut n: usize = 0;
    while n < order.len()
        invariant
            n <= order@.len(),
            crate::warp3::strings_view(order@) == ns,
            crate::names::ascending(ns),
            forall|x: int, y: int| 0 <= x < y < ns.len() ==> #[trigger] ns[x] != #[trigger] ns[y],
            forall|k: Seq<char>| has_layout(ls, k) <==> ns.contains(k),
            ls == keyed_texts(layouts@),
            out@.len() == n,
            forall|x: int| 0 <= x < n ==> (#[trigger] out@[x]).name@ == ns[x],
            forall|x: int| 0 <= x < n ==> last_for(ls, (#[trigger] out@[x]).name@) == Some(out@[x].body@),
            forall|x: int|
                0 <= x < n ==> (#[trigger] out@[x]).script@ == match last_for(ss0, out@[x].name@) {
                    Some(p) => p,
                    None => ProgramModel { init: seq![], events: seq![], functions: seq![] },
                },
            forall|k: Seq<char>|
                (forall|x: int| 0 <= x < n ==> ns[x] != k) ==> last_for(
                    keyed_programs(scripts@),
                    k,
                ) == #[trigger] last_for(ss0, k),
        decreases order@.len() - n,
    {
        let name = lit(order[n].as_str());
        let nv = chars_of(name.as_str());
        let ghost k = ns[n as int];
        assert(nv@ == k);
        assert(ns.contains(k));
        let j = match find_last(layouts, &nv) {
            Some(j) => j,
            None => {
                proof {
                    assert(!has_layout(ls, k)) by {
                        if has_layout(ls, k) {
                            let x = choose|x: int| 0 <= x < ls.len() && (#[trigger] ls[x]).0 == k;
                            assert(layouts@[x].0@ == k);
                        }
                    }
                    assert(false);
                }
                n += 1;
                continue;
            },
        };
        proof {
            assert forall|x: int| j < x < ls.len() implies ls[x].0 != k by {
                assert(layouts@[x].0@ != k);
            }
            lemma_last_for(ls, k, j as int);
        }
        let body = lit(layouts[j].1.as_str());
        let ghost sv = keyed_programs(scripts@);
        let script = match find_last(&scripts, &nv) {
            Some(t) => {
                proof {
                    assert forall|x: int| t < x < sv.len() implies sv[x].0 != k by {
                        assert(scripts@[x].0@ != k);
                    }
                    lemma_last_for(sv, k, t as int);
                    assert forall|k2: Seq<char>| k2 != k implies last_for(sv.remove(t as int), k2)
                        == last_for(sv, k2) by {
                        lemma_last_for_remove(sv, t as int, k2);
                    }
                }
                let (_, p) = scripts.remove(t);
                proof {
                    assert(keyed_programs(scripts@) =~= sv.remove(t as int));
                }
                p
            },
            None => {
                proof {
                    assert forall|x: int| 0 <= x < sv.len() implies sv[x].0 != k by {
                        assert(scripts@[x].0@ != k);
                    }
                    lemma_last_for_none(sv, k);
                }
                ScriptProgram::new()
            },
        };
        out.push(Screen { name, body, script });
        n += 1;
    }
    proof {
        assert forall|k: Seq<char>| has_layout(ls, k) <==> exists|i: int|
            0 <= i < out@.len() && #[trigger] out@[i].name@ == k by {
            if has_layout(ls, k) {
                let x = choose|x: int| 0 <= x < ns.len() && ns[x] == k;
                assert(out@[x].name@ == k);
            }
            if exists|i: int| 0 <= i < out@.len() && #[trigger] out@[i].name@ == k {
                let i = choose|i: int| 0 <= i < out@.len() && #[trigger] out@[i].name@ == k;
                assert(ns[i] == k);
            }
        }
        assert forall|x: int, y: int| 0 <= x < y < out@.len() implies crate::names::lex_lt(
            #[trigger] out@[x].name@,
            #[trigger] out@[y].name@,
        ) by {
            assert(crate::names::lex_lt(ns[x], ns[y]));
        }
    }
    out
}

} // verus!
