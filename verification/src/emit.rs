//! What the Warp 3 compiler writes: escaped HTML text, JavaScript string literals and
//! the HTML of a UI tree.
use vstd::prelude::*;
use crate::text::{flat_map, lemma_flat_map_push};
use crate::warp3::{Node, NodeModel};

verus! {

broadcast use {crate::text::lemma_concat_assoc, crate::text::lemma_concat_empty};

// ---------------------------------------------------------------------------------------
// HTML text
// ---------------------------------------------------------------------------------------

/// The HTML form of one character: `&`, `<`, `>` and `"` become entities.
pub open spec fn html_char(c: char) -> Seq<char> {
    if c == '&' {
        "&amp;"@
    } else if c == '<' {
        "&lt;"@
    } else if c == '>' {
        "&gt;"@
    } else if c == '"' {
        "&quot;"@
    } else {
        seq![c]
    }
}

/// `s` with the HTML special characters replaced by entities.
pub open spec fn escaped(s: Seq<char>) -> Seq<char> {
    flat_map(s, |c: char| html_char(c))
}

/// One character of escaped text shown as HTML: a line feed becomes `<br>`.
pub open spec fn br_char(c: char) -> Seq<char> {
    if c == '\n' {
        "<br>"@
    } else {
        seq![c]
    }
}

/// Escaped text with its line breaks as `<br>`.
pub open spec fn html_text(s: Seq<char>) -> Seq<char> {
    flat_map(escaped(s), |c: char| br_char(c))
}

/// Appends the characters `lit` names to `out`; a helper that keeps the spec literal in view.
fn push_html_char(out: &mut String, c: char)
    ensures
        final(out)@ == old(out)@ + html_char(c),
{
    if c == '&' {
        out.append("&amp;");
    } else if c == '<' {
        out.append("&lt;");
    } else if c == '>' {
        out.append("&gt;");
    } else if c == '"' {
        out.append("&quot;");
    } else {
        out.push(c);
        assert(old(out)@.push(c) =~= old(out)@ + seq![c]);
    }
}

/// Appends `escaped(v)` to `out`.
fn push_escaped(out: &mut String, v: &[char])
    ensures
        final(out)@ == old(out)@ + escaped(v@),
{
    let mut i: usize = 0;
    assert(v@.take(0) =~= Seq::<char>::empty());
    while i < v.len()
        invariant
            i <= v@.len(),
            out@ == old(out)@ + escaped(v@.take(i as int)),
        decreases v@.len() - i,
    {
        proof {
            lemma_flat_map_push(v@, |c: char| html_char(c), i as int);
        }
        push_html_char(out, v[i]);
        i += 1;
    }
    assert(v@.take(v@.len() as int) =~= v@);
}

/// `value` with `&`, `<`, `>` and `"` replaced by their HTML entities.
pub fn escape_html(value: &str) -> (r: String)
    ensures
        r@ == escaped(value@),
{
    let v = crate::text::chars_of(value);
    let mut out = String::new();
    push_escaped(&mut out, &v);
    assert(Seq::<char>::empty() + escaped(v@) =~= escaped(v@));
    out
}

/// Appends `html_text(v)` to `out`.
fn push_html_text(out: &mut String, v: &[char])
    ensures
        final(out)@ == old(out)@ + html_text(v@),
{
    let mut e = String::new();
    push_escaped(&mut e, v);
    let ev = crate::text::chars_of(e.as_str());
    assert(ev@ =~= escaped(v@));
    let mut i: usize = 0;
    assert(ev@.take(0) =~= Seq::<char>::empty());
    while i < ev.len()
        invariant
            i <= ev@.len(),
            out@ == old(out)@ + flat_map(ev@.take(i as int), |c: char| br_char(c)),
        decreases ev@.len() - i,
    {
        proof {
            lemma_flat_map_push(ev@, |c: char| br_char(c), i as int);
        }
        let c = ev[i];
        if c == '\n' {
            out.append("<br>");
        } else {
            out.push(c);
            assert(out@ =~= old(out)@ + flat_map(ev@.take(i + 1), |c: char| br_char(c)));
        }
        i += 1;
    }
    assert(ev@.take(ev@.len() as int) =~= ev@);
}

// ---------------------------------------------------------------------------------------
// JavaScript string literals
// ---------------------------------------------------------------------------------------

/// Unicode general category `Cc`, the control codes that `char::is_control` tests.
pub open spec fn control(c: char) -> bool {
    (c as u32) <= 0x1f || (0x7f <= (c as u32) && (c as u32) <= 0x9f)
}

/// Whether `c` is a control code (`U+0000..U+001F` or `U+007F..U+009F`).
pub fn is_control(c: char) -> (r: bool)
    ensures
        r == control(c),
{
    let n = c as u32;
    n <= 0x1f || (0x7f <= n && n <= 0x9f)
}

/// The lowercase hexadecimal digit for `d < 16`.
pub open spec fn hex_digit(d: nat) -> char {
    if d < 10 {
        crate::text::digit_char(d)
    } else if d == 10 {
        'a'
    } else if d == 11 {
        'b'
    } else if d == 12 {
        'c'
    } else if d == 13 {
        'd'
    } else if d == 14 {
        'e'
    } else {
        'f'
    }
}

/// `n < 0x10000` as four lowercase hexadecimal digits.
pub open spec fn hex4(n: nat) -> Seq<char> {
    seq![
        hex_digit((n / 4096) % 16),
        hex_digit((n / 256) % 16),
        hex_digit((n / 16) % 16),
        hex_digit(n % 16),
    ]
}

fn hex_digit_of(d: u32) -> (c: char)
    requires
        d < 16,
    ensures
        c == hex_digit(d as nat),
{
    if d < 10 {
        crate::text::digit(d as u64)
    } else if d == 10 {
        'a'
    } else if d == 11 {
        'b'
    } else if d == 12 {
        'c'
    } else if d == 13 {
        'd'
    } else if d == 14 {
        'e'
    } else {
        'f'
    }
}

/// The JavaScript string-literal form of one character.
pub open spec fn js_char(c: char) -> Seq<char> {
    if c == '\\' {
        seq!['\\', '\\']
    } else if c == '"' {
        seq!['\\', '"']
    } else if c == '\n' {
        seq!['\\', 'n']
    } else if c == '\r' {
        seq!['\\', 'r']
    } else if c == '\t' {
        seq!['\\', 't']
    } else if control(c) {
        seq!['\\', 'u'] + hex4(c as nat)
    } else {
        seq![c]
    }
}

/// `s` as a double-quoted JavaScript string literal.
pub open spec fn js_quoted(s: Seq<char>) -> Seq<char> {
    seq!['"'] + flat_map(s, |c: char| js_char(c)) + seq!['"']
}

fn push_js_char(out: &mut String, c: char)
    ensures
        final(out)@ == old(out)@ + js_char(c),
{
    if c == '\\' {
        out.push('\\');
        out.push('\\');
    } else if c == '"' {
        out.push('\\');
        out.push('"');
    } else if c == '\n' {
        out.push('\\');
        out.push('n');
    } else if c == '\r' {
        out.push('\\');
        out.push('r');
    } else if c == '\t' {
        out.push('\\');
        out.push('t');
    } else if is_control(c) {
        let n = c as u32;
        out.push('\\');
        out.push('u');
        out.push(hex_digit_of((n / 4096) % 16));
        out.push(hex_digit_of((n / 256) % 16));
        out.push(hex_digit_of((n / 16) % 16));
        out.push(hex_digit_of(n % 16));
    } else {
        out.push(c);
    }
    assert(final(out)@ =~= old(out)@ + js_char(c)) by {
        assert(out@ =~= old(out)@ + js_char(c));
    }
}

/// Appends `js_quoted(v)` to `out`.
pub fn push_js_string(out: &mut String, v: &[char])
    ensures
        final(out)@ == old(out)@ + js_quoted(v@),
{
    out.push('"');
    let mut i: usize = 0;
    assert(v@.take(0) =~= Seq::<char>::empty());
    while i < v.len()
        invariant
            i <= v@.len(),
            out@ == old(out)@ + seq!['"'] + flat_map(v@.take(i as int), |c: char| js_char(c)),
        decreases v@.len() - i,
    {
        proof {
            lemma_flat_map_push(v@, |c: char| js_char(c), i as int);
        }
        push_js_char(out, v[i]);
        i += 1;
    }
    assert(v@.take(v@.len() as int) =~= v@);
    out.push('"');
}

/// `value` as a double-quoted JavaScript string literal: backslash, quote, line feed,
/// carriage return and tab escaped, other control codes as `\uXXXX`.
pub fn js_string(value: &str) -> (r: String)
    ensures
        r@ == js_quoted(value@),
{
    let v = crate::text::chars_of(value);
    let mut out = String::new();
    push_js_string(&mut out, &v);
    assert(Seq::<char>::empty() + js_quoted(v@) =~= js_quoted(v@));
    out
}


// ---------------------------------------------------------------------------------------
// Properties and classes of a node
// ---------------------------------------------------------------------------------------

/// The value of the first property called `name`.
pub open spec fn prop_of(props: Seq<(Seq<char>, Seq<char>)>, name: Seq<char>) -> Option<Seq<char>>
    decreases props.len(),
{
    if props.len() == 0 {
        None
    } else if props[0].0 == name {
        Some(props[0].1)
    } else {
        prop_of(props.drop_first(), name)
    }
}

/// The value of the first property called `name`, or `default`.
pub open spec fn prop_or(n: NodeModel, name: Seq<char>, default: Seq<char>) -> Seq<char> {
    match prop_of(n.props, name) {
        Some(v) => v,
        None => default,
    }
}

/// The value of the first property of `node` called `name`.
pub fn prop<'a>(node: &'a Node, name: &str) -> (r: Option<&'a str>)
    ensures
        match prop_of(node@.props, name@) {
            Some(v) => r matches Some(s) && s@ == v,
            None => r is None,
        },
{
    let key = crate::text::lit(name);
    let ghost all = node@.props;
    let mut i: usize = 0;
    assert(all.skip(0) =~= all);
    while i < node.props.len()
        invariant
            all == node@.props,
            all == crate::warp3::pairs_view(node.props@),
            key@ == name@,
            i <= node.props@.len(),
            prop_of(all, name@) == prop_of(all.skip(i as int), name@),
        decreases node.props@.len() - i,
    {
        assert(all.skip(i as int).drop_first() =~= all.skip(i + 1));
        if node.props[i].0 == key {
            return Some(node.props[i].1.as_str());
        }
        i += 1;
    }
    None
}

/// The first tag of a node, if it has one.
pub open spec fn first_tag(n: NodeModel) -> Option<Seq<char>> {
    if n.tags.len() > 0 {
        Some(n.tags[0])
    } else {
        None
    }
}

/// Each of `ts` after `prefix`, joined in order.
pub open spec fn prefixed(ts: Seq<Seq<char>>, prefix: Seq<char>) -> Seq<char>
    decreases ts.len(),
{
    if ts.len() == 0 {
        seq![]
    } else {
        prefixed(ts.drop_last(), prefix) + prefix + ts.last()
    }
}

/// The tags after the first.
pub open spec fn extra_tags(n: NodeModel) -> Seq<Seq<char>> {
    if n.tags.len() > 0 {
        n.tags.skip(1)
    } else {
        seq![]
    }
}

/// The `class` attribute of a node whose element kind is `primary`: `w3-element`,
/// `w3-<primary>`, `w3-<tag>` for each further tag and then the node's own classes,
/// separated by spaces.
pub open spec fn class_list(n: NodeModel, primary: Seq<char>) -> Seq<char> {
    "w3-element w3-"@ + primary + prefixed(extra_tags(n), " w3-"@) + prefixed(n.classes, " "@)
}

fn push_prefixed(out: &mut String, ts: &Vec<String>, from: usize, prefix: &str)
    requires
        from <= ts@.len(),
    ensures
        final(out)@ == old(out)@ + prefixed(
            crate::warp3::strings_view(ts@).skip(from as int),
            prefix@,
        ),
{
    let ghost all = crate::warp3::strings_view(ts@).skip(from as int);
    let mut i: usize = from;
    assert(all.take(0) =~= Seq::<Seq<char>>::empty());
    while i < ts.len()
        invariant
            from <= i <= ts@.len(),
            all == crate::warp3::strings_view(ts@).skip(from as int),
            out@ == old(out)@ + prefixed(all.take(i - from), prefix@),
        decreases ts@.len() - i,
    {
        assert(all.take(i - from + 1).drop_last() =~= all.take(i - from));
        out.append(prefix);
        out.append(ts[i].as_str());
        i += 1;
    }
    assert(all.take(i - from) =~= all);
}

/// The `class` attribute of `node` for the element kind `primary`.
pub fn node_classes(node: &Node, primary: &str) -> (r: String)
    ensures
        r@ == class_list(node@, primary@),
{
    let mut out = crate::text::lit("w3-element w3-");
    out.append(primary);
    if node.tags.len() > 0 {
        push_prefixed(&mut out, &node.tags, 1, " w3-");
    } else {
        assert(prefixed(extra_tags(node@), " w3-"@) =~= Seq::<char>::empty());
    }
    push_prefixed(&mut out, &node.classes, 0, " ");
    assert(crate::warp3::strings_view(node.classes@).skip(0) =~= node@.classes);
    out
}


// ---------------------------------------------------------------------------------------
// The HTML of a UI tree
// ---------------------------------------------------------------------------------------

/// The element kind of a node: its first tag, or `div`.
pub open spec fn primary_of(n: NodeModel) -> Seq<char> {
    match first_tag(n) {
        Some(t) => t,
        None => "div"@,
    }
}

/// The attribute that marks a scroll point, for nodes that carry the `scroll-point` tag.
pub open spec fn marker_of(n: NodeModel) -> Seq<char> {
    if n.tags.contains("scroll-point"@) {
        " data-w3-scroll-point=\"true\""@
    } else {
        ""@
    }
}

/// `<tag class="classes"marker>`.
pub open spec fn open_tag(tag: Seq<char>, classes: Seq<char>, marker: Seq<char>) -> Seq<char> {
    "<"@ + tag + " class=\""@ + classes + "\""@ + marker + ">"@
}

/// The element that a generic container kind renders as.
pub open spec fn semantic_tag(primary: Seq<char>) -> Seq<char> {
    if primary == "toolbar"@ {
        "nav"@
    } else if primary == "card"@ {
        "section"@
    } else {
        "div"@
    }
}

/// The HTML of a node and its children. `config` nodes render as nothing.
pub open spec fn render(n: NodeModel) -> Seq<char>
    decreases n, 0int,
{
    let p = primary_of(n);
    let cls = class_list(n, p);
    let t = prop_or(n, "text"@, ""@);
    let th = html_text(t);
    let raw = escaped(t);
    let m = marker_of(n);
    let kids = render_all(n.children);
    if p == "config"@ {
        seq![]
    } else if p == "text"@ {
        open_tag("p"@, cls, m) + th + kids + "</p>"@
    } else if p == "detail"@ {
        open_tag("div"@, cls, m) + th + kids + "</div>"@
    } else if p == "head"@ {
        open_tag("h2"@, cls, m) + th + kids + "</h2>"@
    } else if p == "button"@ {
        "<button type=\"button\" class=\""@ + cls + " w3-button-"@ + prop_or(n, "type"@, "normal"@)
            + "\""@ + m + ">"@ + th + kids + "</button>"@
    } else if p == "input"@ {
        "<input class=\""@ + cls + "\" value=\""@ + raw + "\""@ + m + ">"@
    } else if p == "textarea"@ {
        open_tag("textarea"@, cls, m) + raw + "</textarea>"@
    } else if p == "switch"@ {
        open_tag("label"@, cls, m) + "<input type=\"checkbox\""@ + (if prop_of(n.props, "default"@)
            == Some("true"@) {
            " checked"@
        } else {
            ""@
        }) + "><span></span></label>"@
    } else if p == "code"@ {
        open_tag("pre"@, cls, m) + "<code>"@ + raw + "</code></pre>"@
    } else if p == "space"@ {
        open_tag("div"@, cls, m) + "</div>"@
    } else if p == "scroll-point"@ {
        "<div class=\""@ + cls + "\" data-w3-scroll-point=\"true\"></div>"@
    } else if p == "list-box"@ {
        (if t.len() > 0 {
            "<div class=\"w3-list-title\">"@ + th + "</div>"@
        } else {
            ""@
        }) + open_tag("ul"@, cls, m) + kids + "</ul>"@
    } else if p == "list"@ {
        open_tag("li"@, cls, m) + "<span>"@ + th + "</span>"@ + kids + "</li>"@
    } else if p == "tab"@ {
        "<section class=\""@ + cls + " w3-tab-"@ + prop_or(n, "control"@, "top"@)
            + "\" data-w3-tabs"@ + m + "><div class=\"w3-tab-controls\" role=\"tablist\">"@
            + tab_buttons(n.children, n.children.len() as int) + "</div><div class=\"w3-tab-pages\">"@
            + tab_pages(n.children, n.children.len() as int) + "</div></section>"@
    } else if p == "content"@ {
        open_tag("div"@, cls, m) + kids + "</div>"@
    } else {
        let sem = semantic_tag(p);
        open_tag(sem, cls, m) + (if t.len() > 0 {
            th
        } else {
            ""@
        }) + kids + "</"@ + sem + ">"@
    }
}

/// The HTML of a list of nodes, one after another.
pub open spec fn render_all(ns: Seq<NodeModel>) -> Seq<char>
    decreases ns, 0int,
{
    if ns.len() == 0 {
        seq![]
    } else {
        render_all(ns.subrange(0, ns.len() - 1)) + render(ns[ns.len() - 1])
    }
}

/// Whether a node is a page of a tab container.
pub open spec fn is_content(n: NodeModel) -> bool {
    first_tag(n) == Some("content"@)
}

/// The tab buttons for the first `k` children of a tab container; each `content` child
/// gets one, labelled by its `text` (or `Tab`) and numbered by its place among all children.
pub open spec fn tab_buttons(ns: Seq<NodeModel>, k: int) -> Seq<char>
    decreases k,
{
    if 0 < k <= ns.len() {
        tab_buttons(ns, k - 1) + (if is_content(ns[k - 1]) {
            "<button type=\"button\" role=\"tab\" data-w3-tab-button=\""@ + crate::text::decimal(
                (k - 1) as nat,
            ) + "\">"@ + escaped(prop_or(ns[k - 1], "text"@, "Tab"@)) + "</button>"@
        } else {
            ""@
        })
    } else {
        seq![]
    }
}

/// The tab pages for the first `k` children of a tab container.
pub open spec fn tab_pages(ns: Seq<NodeModel>, k: int) -> Seq<char>
    decreases ns, k,
{
    if 0 < k <= ns.len() {
        tab_pages(ns, k - 1) + (if is_content(ns[k - 1]) {
            tab_page(ns[k - 1], k - 1)
        } else {
            ""@
        })
    } else {
        seq![]
    }
}

/// One tab page: the children of a `content` node at `index`.
pub open spec fn tab_page(child: NodeModel, index: int) -> Seq<char>
    decreases child, 0int,
{
    "<div class=\"w3-tab-page\" role=\"tabpanel\" data-w3-tab-page=\""@ + crate::text::decimal(
        index as nat,
    ) + "\">"@ + render_all(child.children) + "</div>"@
}


fn push_open(out: &mut String, tag: &str, classes: &String, marker: &str)
    ensures
        final(out)@ == old(out)@ + open_tag(tag@, classes@, marker@),
{
    out.append("<");
    out.append(tag);
    out.append(" class=\"");
    out.append(classes.as_str());
    out.append("\"");
    out.append(marker);
    out.append(">");
}

fn has_tag(node: &Node, tag: &str) -> (r: bool)
    ensures
        r == node@.tags.contains(tag@),
{
    let key = crate::text::lit(tag);
    let mut i: usize = 0;
    while i < node.tags.len()
        invariant
            key@ == tag@,
            node@.tags == crate::warp3::strings_view(node.tags@),
            i <= node.tags@.len(),
            forall|k: int| 0 <= k < i ==> node@.tags[k] != tag@,
        decreases node.tags@.len() - i,
    {
        if node.tags[i] == key {
            assert(node@.tags[i as int] == tag@);
            return true;
        }
        i += 1;
    }
    false
}

fn primary_str(node: &Node) -> (r: &str)
    ensures
        r@ == primary_of(node@),
{
    if node.tags.len() > 0 {
        node.tags[0].as_str()
    } else {
        "div"
    }
}

fn prop_or_str<'a>(node: &'a Node, name: &str, default: &'a str) -> (r: &'a str)
    ensures
        r@ == prop_or(node@, name@, default@),
{
    match prop(node, name) {
        Some(v) => v,
        None => default,
    }
}

/// Appends the HTML of the tab page `child`, the child at `index` of a tab container.
fn render_tab_page(child: &Node, index: usize, out: &mut String)
    ensures
        final(out)@ == old(out)@ + tab_page(child@, index as int),
    decreases child, 1int,
{
    out.append("<div class=\"w3-tab-page\" role=\"tabpanel\" data-w3-tab-page=\"");
    crate::text::push_decimal(out, index as u64);
    out.append("\">");
    assert(child@.children =~= crate::warp3::nodes_view(child.children@));
    render_children(&child.children, out);
    out.append("</div>");
}

/// Appends the HTML of `node` and its children to `out`.
#[verifier::rlimit(40)]
pub fn render_node(node: &Node, out: &mut String)
    ensures
        final(out)@ == old(out)@ + render(node@),
    decreases node, 1int,
{
    let primary = primary_str(node);
    let pv = crate::text::chars_of(primary);
    assert(node@.children =~= crate::warp3::nodes_view(node.children@));
    if crate::text::eq_str(&pv, "config") {
        assert(old(out)@ + Seq::<char>::empty() =~= old(out)@);
        return;
    }
    let classes = node_classes(node, primary);
    let text = prop_or_str(node, "text", "");
    let tv = crate::text::chars_of(text);
    let mut buf = String::new();
    let marker = if has_tag(node, "scroll-point") {
        " data-w3-scroll-point=\"true\""
    } else {
        ""
    };
    if crate::text::eq_str(&pv, "text") {
        push_open(&mut buf, "p", &classes, marker);
        push_html_text(&mut buf, &tv);
        render_children(&node.children, &mut buf);
        buf.append("</p>");
    } else if crate::text::eq_str(&pv, "detail") {
        push_open(&mut buf, "div", &classes, marker);
        push_html_text(&mut buf, &tv);
        render_children(&node.children, &mut buf);
        buf.append("</div>");
    } else if crate::text::eq_str(&pv, "head") {
        push_open(&mut buf, "h2", &classes, marker);
        push_html_text(&mut buf, &tv);
        render_children(&node.children, &mut buf);
        buf.append("</h2>");
    } else if crate::text::eq_str(&pv, "button") {
        let button_type = prop_or_str(node, "type", "normal");
        buf.append("<button type=\"button\" class=\"");
        buf.append(classes.as_str());
        buf.append(" w3-button-");
        buf.append(button_type);
        buf.append("\"");
        buf.append(marker);
        buf.append(">");
        push_html_text(&mut buf, &tv);
        render_children(&node.children, &mut buf);
        buf.append("</button>");
    } else if crate::text::eq_str(&pv, "input") {
        buf.append("<input class=\"");
        buf.append(classes.as_str());
        buf.append("\" value=\"");
        push_escaped(&mut buf, &tv);
        buf.append("\"");
        buf.append(marker);
        buf.append(">");
    } else if crate::text::eq_str(&pv, "textarea") {
        push_open(&mut buf, "textarea", &classes, marker);
        push_escaped(&mut buf, &tv);
        buf.append("</textarea>");
    } else if crate::text::eq_str(&pv, "switch") {
        let checked = match prop(node, "default") {
            Some(v) => {
                let vv = crate::text::chars_of(v);
                if crate::text::eq_str(&vv, "true") {
                    " checked"
                } else {
                    ""
                }
            },
            None => "",
        };
        push_open(&mut buf, "label", &classes, marker);
        buf.append("<input type=\"checkbox\"");
        buf.append(checked);
        buf.append("><span></span></label>");
    } else if crate::text::eq_str(&pv, "code") {
        push_open(&mut buf, "pre", &classes, marker);
        buf.append("<code>");
        push_escaped(&mut buf, &tv);
        buf.append("</code></pre>");
    } else if crate::text::eq_str(&pv, "space") {
        push_open(&mut buf, "div", &classes, marker);
        buf.append("</div>");
    } else if crate::text::eq_str(&pv, "scroll-point") {
        buf.append("<div class=\"");
        buf.append(classes.as_str());
        buf.append("\" data-w3-scroll-point=\"true\"></div>");
    } else if crate::text::eq_str(&pv, "list-box") {
        if tv.len() > 0 {
            buf.append("<div class=\"w3-list-title\">");
            push_html_text(&mut buf, &tv);
            buf.append("</div>");
        } else {
            buf.append("");
        }
        push_open(&mut buf, "ul", &classes, marker);
        render_children(&node.children, &mut buf);
        buf.append("</ul>");
    } else if crate::text::eq_str(&pv, "list") {
        push_open(&mut buf, "li", &classes, marker);
        buf.append("<span>");
        push_html_text(&mut buf, &tv);
        buf.append("</span>");
        render_children(&node.children, &mut buf);
        buf.append("</li>");
    } else if crate::text::eq_str(&pv, "tab") {
        let control = prop_or_str(node, "control", "top");
        buf.append("<section class=\"");
        buf.append(classes.as_str());
        buf.append(" w3-tab-");
        buf.append(control);
        buf.append("\" data-w3-tabs");
        buf.append(marker);
        buf.append("><div class=\"w3-tab-controls\" role=\"tablist\">");
        push_tab_buttons(&node.children, &mut buf);
        buf.append("</div><div class=\"w3-tab-pages\">");
        push_tab_pages(&node.children, &mut buf);
        buf.append("</div></section>");
    } else if crate::text::eq_str(&pv, "content") {
        push_open(&mut buf, "div", &classes, marker);
        render_children(&node.children, &mut buf);
        buf.append("</div>");
    } else {
        let sem = if crate::text::eq_str(&pv, "toolbar") {
            "nav"
        } else if crate::text::eq_str(&pv, "card") {
            "section"
        } else {
            "div"
        };
        push_open(&mut buf, sem, &classes, marker);
        if tv.len() > 0 {
            push_html_text(&mut buf, &tv);
        } else {
            buf.append("");
        }
        render_children(&node.children, &mut buf);
        buf.append("</");
        buf.append(sem);
        buf.append(">");
    }
    assert(buf@ == render(node@));
    out.append(buf.as_str());
}

/// Appends the HTML of each of `nodes` in order to `out`.
pub fn render_children(nodes: &Vec<Node>, out: &mut String)
    ensures
        final(out)@ == old(out)@ + render_all(crate::warp3::nodes_view(nodes@)),
    decreases nodes, 0int,
{
    let ghost all = crate::warp3::nodes_view(nodes@);
    let mut i: usize = 0;
    assert(all.subrange(0, 0) =~= Seq::<NodeModel>::empty());
    while i < nodes.len()
        invariant
            i <= nodes@.len(),
            all == crate::warp3::nodes_view(nodes@),
            out@ == old(out)@ + render_all(all.subrange(0, i as int)),
        decreases nodes@.len() - i,
    {
        let ghost x = all.subrange(0, i + 1);
        assert(x.subrange(0, i as int) =~= all.subrange(0, i as int));
        assert(x[i as int] == nodes@[i as int]@);
        assert(x.len() == i + 1);
        assert(render_all(x) == render_all(x.subrange(0, x.len() - 1)) + render(x[x.len() - 1]));
        assert(render_all(all.subrange(0, i + 1)) == render_all(all.subrange(0, i as int)) + render(
            nodes@[i as int]@,
        ));
        render_node(&nodes[i], out);
        i += 1;
    }
    assert(all.subrange(0, nodes@.len() as int) =~= all);
}

/// Appends the tab buttons for the children of a tab container.
fn push_tab_buttons(children: &Vec<Node>, out: &mut String)
    ensures
        final(out)@ == old(out)@ + tab_buttons(
            crate::warp3::nodes_view(children@),
            children@.len() as int,
        ),
{
    let ghost ns = crate::warp3::nodes_view(children@);
    let mut i: usize = 0;
    while i < children.len()
        invariant
            i <= children@.len(),
            ns == crate::warp3::nodes_view(children@),
            out@ == old(out)@ + tab_buttons(ns, i as int),
        decreases children@.len() - i,
    {
        let child = &children[i];
        assert(ns[i as int] == child@);
        if child.tags.len() > 0 && {
            let tv = crate::text::chars_of(child.tags[0].as_str());
            crate::text::eq_str(&tv, "content")
        } {
            let label = prop_or_str(child, "text", "Tab");
            let lv = crate::text::chars_of(label);
            out.append("<button type=\"button\" role=\"tab\" data-w3-tab-button=\"");
            crate::text::push_decimal(out, i as u64);
            out.append("\">");
            push_escaped(out, &lv);
            out.append("</button>");
        } else {
            out.append("");
        }
        i += 1;
    }
}

/// Appends the tab pages for the children of a tab container.
fn push_tab_pages(children: &Vec<Node>, out: &mut String)
    ensures
        final(out)@ == old(out)@ + tab_pages(
            crate::warp3::nodes_view(children@),
            children@.len() as int,
        ),
    decreases children, 1int,
{
    let ghost ns = crate::warp3::nodes_view(children@);
    let mut i: usize = 0;
    while i < children.len()
        invariant
            i <= children@.len(),
            ns == crate::warp3::nodes_view(children@),
            out@ == old(out)@ + tab_pages(ns, i as int),
        decreases children@.len() - i,
    {
        let child = &children[i];
        assert(ns[i as int] == child@);
        if child.tags.len() > 0 && {
            let tv = crate::text::chars_of(child.tags[0].as_str());
            crate::text::eq_str(&tv, "content")
        } {
            render_tab_page(child, i, out);
        } else {
            out.append("");
        }
        i += 1;
    }
}

} // verus!
