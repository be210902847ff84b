//! Pieces of the Warp 4 UI renderer: element attributes, escaping, IDs, colours, gravity,
//! sizes, and the page around a rendered layout.
use vstd::prelude::*;
use crate::text::{chars_of, flat_map, lit, slice_vec, starts_with, string_of, trim, trim_vec};

verus! {

broadcast use crate::text::lemma_concat_empty;

// ---------------------------------------------------------------------------------------
// Escaping
// ---------------------------------------------------------------------------------------

/// `&`, `<` and `>` as entities.
pub open spec fn text_char(c: char) -> Seq<char> {
    if c == '&' {
        "&amp;"@
    } else if c == '<' {
        "&lt;"@
    } else if c == '>' {
        "&gt;"@
    } else {
        seq![c]
    }
}

/// `"` as an entity.
pub open spec fn quote_char(c: char) -> Seq<char> {
    if c == '"' {
        "&quot;"@
    } else {
        seq![c]
    }
}

/// `s` as HTML text.
pub open spec fn text_escaped(s: Seq<char>) -> Seq<char> {
    flat_map(s, |c: char| text_char(c))
}

/// `s` as an HTML attribute value: escaped as text, then `"` as an entity.
pub open spec fn attr_escaped(s: Seq<char>) -> Seq<char> {
    flat_map(text_escaped(s), |c: char| quote_char(c))
}

fn mapped(v: &[char], quotes: bool) -> (r: String)
    ensures
        r@ == (if quotes {
            flat_map(v@, |c: char| quote_char(c))
        } else {
            flat_map(v@, |c: char| text_char(c))
        }),
{
    let mut acc = String::new();
    let mut i: usize = 0;
    assert(v@.take(0) =~= Seq::<char>::empty());
    while i < v.len()
        invariant
            i <= v@.len(),
            acc@ == (if quotes {
                flat_map(v@.take(i as int), |c: char| quote_char(c))
            } else {
                flat_map(v@.take(i as int), |c: char| text_char(c))
            }),
        decreases v@.len() - i,
    {
        proof {
            crate::text::lemma_flat_map_push(v@, |c: char| quote_char(c), i as int);
            crate::text::lemma_flat_map_push(v@, |c: char| text_char(c), i as int);
        }
        let c = v[i];
        if quotes {
            if c == '"' {
                acc.append("&quot;");
            } else {
                acc.push(c);
                assert(acc@ =~= flat_map(v@.take(i + 1), |c: char| quote_char(c)));
            }
        } else if c == '&' {
            acc.append("&amp;");
        } else if c == '<' {
            acc.append("&lt;");
        } else if c == '>' {
            acc.append("&gt;");
        } else {
            acc.push(c);
            assert(acc@ =~= flat_map(v@.take(i + 1), |c: char| text_char(c)));
        }
        i += 1;
    }
    assert(v@.take(v@.len() as int) =~= v@);
    acc
}

/// `s` with `&`, `<` and `>` replaced by entities.
pub fn esc_text(s: &str) -> (r: String)
    ensures
        r@ == text_escaped(s@),
{
    let v = chars_of(s);
    mapped(&v, false)
}

/// `s` as an attribute value: `&`, `<`, `>` and `"` replaced by entities.
pub fn esc_attr(s: &str) -> (r: String)
    ensures
        r@ == attr_escaped(s@),
{
    let t = esc_text(s);
    let v = chars_of(t.as_str());
    mapped(&v, true)
}

// ---------------------------------------------------------------------------------------
// Attributes and elements
// ---------------------------------------------------------------------------------------

/// The classes, styles and other attributes of an element.
pub struct Parts {
    pub classes: Vec<String>,
    pub styles: Vec<String>,
    pub attrs: Vec<String>,
}

impl Parts {
    /// Parts with nothing in them.
    pub fn new() -> (r: Self)
        ensures
            r.classes@.len() == 0,
            r.styles@.len() == 0,
            r.attrs@.len() == 0,
    {
        Parts { classes: Vec::new(), styles: Vec::new(), attrs: Vec::new() }
    }
}

/// The texts `ts` joined by `sep`.
pub open spec fn joined(ts: Seq<Seq<char>>, sep: Seq<char>) -> Seq<char>
    decreases ts.len(),
{
    if ts.len() == 0 {
        seq![]
    } else if ts.len() == 1 {
        ts[0]
    } else {
        joined(ts.drop_last(), sep) + sep + ts.last()
    }
}

fn join_strings(ts: &Vec<String>, sep: &str) -> (r: String)
    ensures
        r@ == joined(crate::warp3::strings_view(ts@), sep@),
{
    let ghost all = crate::warp3::strings_view(ts@);
    let mut out = String::new();
    let mut i: usize = 0;
    assert(all.take(0) =~= Seq::<Seq<char>>::empty());
    while i < ts.len()
        invariant
            i <= ts@.len(),
            all == crate::warp3::strings_view(ts@),
            out@ == joined(all.take(i as int), sep@),
        decreases ts@.len() - i,
    {
        assert(all.take(i + 1).drop_last() =~= all.take(i as int));
        if i > 0 {
            out.append(sep);
        } else {
            assert(all.take(1) =~= seq![all[0]]);
        }
        out.append(ts[i].as_str());
        i += 1;
    }
    assert(all.take(i as int) =~= all);
    out
}

/// The attribute list of an element: its attributes, then `class` and `style` when it has
/// classes or styles, each after a space; nothing when there are none.
pub open spec fn attrs_text(classes: Seq<Seq<char>>, styles: Seq<Seq<char>>, attrs: Seq<Seq<char>>) -> Seq<
    char,
> {
    let a1 = if classes.len() > 0 {
        attrs.push("class=\""@ + attr_escaped(joined(classes, " "@)) + "\""@)
    } else {
        attrs
    };
    let a2 = if styles.len() > 0 {
        a1.push("style=\""@ + attr_escaped(joined(styles, ";"@)) + "\""@)
    } else {
        a1
    };
    if a2.len() == 0 {
        seq![]
    } else {
        " "@ + joined(a2, " "@)
    }
}

/// The value of a parts' attribute list.
pub open spec fn parts_attrs(p: &Parts) -> Seq<char> {
    attrs_text(
        crate::warp3::strings_view(p.classes@),
        crate::warp3::strings_view(p.styles@),
        crate::warp3::strings_view(p.attrs@),
    )
}

/// The attribute list of an element with these parts.
pub fn attrs_to_string(parts: &Parts) -> (r: String)
    ensures
        r@ == parts_attrs(parts),
{
    let mut attrs: Vec<String> = Vec::new();
    let mut i: usize = 0;
    while i < parts.attrs.len()
        invariant
            i <= parts.attrs@.len(),
            attrs@.len() == i,
            forall|k: int| 0 <= k < i ==> #[trigger] attrs@[k]@ == parts.attrs@[k]@,
        decreases parts.attrs@.len() - i,
    {
        attrs.push(parts.attrs[i].clone());
        i += 1;
    }
    assert(crate::warp3::strings_view(attrs@) =~= crate::warp3::strings_view(parts.attrs@));
    if parts.classes.len() > 0 {
        let j = join_strings(&parts.classes, " ");
        let mut c = lit("class=\"");
        let e = esc_attr(j.as_str());
        c.append(e.as_str());
        c.append("\"");
        let ghost before = attrs@;
        let ghost cv = c@;
        attrs.push(c);
        assert(crate::warp3::strings_view(attrs@) =~= crate::warp3::strings_view(before).push(cv));
    }
    if parts.styles.len() > 0 {
        let j = join_strings(&parts.styles, ";");
        let mut c = lit("style=\"");
        let e = esc_attr(j.as_str());
        c.append(e.as_str());
        c.append("\"");
        let ghost before = attrs@;
        let ghost cv = c@;
        attrs.push(c);
        assert(crate::warp3::strings_view(attrs@) =~= crate::warp3::strings_view(before).push(cv));
    }
    if attrs.len() == 0 {
        String::new()
    } else {
        let j = join_strings(&attrs, " ");
        let mut out = lit(" ");
        out.append(j.as_str());
        out
    }
}

/// `<tag attributes>content</tag>`.
pub fn wrap(tag: &str, parts: &Parts, content: &str) -> (r: String)
    ensures
        r@ == "<"@ + tag@ + parts_attrs(parts) + ">"@ + content@ + "</"@ + tag@ + ">"@,
{
    let mut out = lit("<");
    out.append(tag);
    let a = attrs_to_string(parts);
    out.append(a.as_str());
    out.append(">");
    out.append(content);
    out.append("</");
    out.append(tag);
    out.append(">");
    out
}

/// `<tag attributes>` for an element without content.
pub fn void_tag(tag: &str, parts: &Parts) -> (r: String)
    ensures
        r@ == "<"@ + tag@ + parts_attrs(parts) + ">"@,
{
    let mut out = lit("<");
    out.append(tag);
    let a = attrs_to_string(parts);
    out.append(a.as_str());
    out.append(">");
    out
}

// ---------------------------------------------------------------------------------------
// IDs, colours, gravity and sizes
// ---------------------------------------------------------------------------------------

/// `s` without every leading copy of `p`, as `trim_start_matches` gives it.
pub open spec fn strip_all(s: Seq<char>, p: Seq<char>) -> Seq<char>
    decreases s.len(),
{
    if p.len() > 0 && starts_with(s, p) {
        strip_all(s.skip(p.len() as int), p)
    } else {
        s
    }
}

pub(crate) fn strip_all_vec(v: &[char], p: &str) -> (r: Vec<char>)
    ensures
        r@ == strip_all(v@, p@),
{
    let n = p.unicode_len();
    let mut lo: usize = 0;
    assert(v@.skip(0) =~= v@);
    while n > 0 && lo <= v.len() && crate::text::starts_at_str(v, lo, p)
        invariant
            lo <= v@.len(),
            n == p@.len(),
            strip_all(v@, p@) == strip_all(v@.skip(lo as int), p@),
        decreases v@.len() - lo,
    {
        assert(v@.skip(lo as int).take(n as int) =~= v@.subrange(lo as int, lo + n));
        assert(v@.skip(lo as int).skip(n as int) =~= v@.skip(lo + n));
        lo = lo + n;
    }
    if n > 0 && lo <= v.len() {
        assert(v@.skip(lo as int).take(n as int) =~= v@.subrange(lo as int, lo + n)
            || v@.skip(lo as int).len() < n);
    }
    slice_vec(v, lo, v.len())
}

/// An ID reference without its `@+id/`, `@id/` and `@baram:id/` prefixes.
pub open spec fn id_of(value: Seq<char>) -> Seq<char> {
    strip_all(strip_all(strip_all(value, "@+id/"@), "@id/"@), "@baram:id/"@)
}

/// The name that an ID reference gives an element.
pub fn id_name(value: &str) -> (r: String)
    ensures
        r@ == id_of(value@),
{
    let v = chars_of(value);
    let a = strip_all_vec(&v, "@+id/");
    let b = strip_all_vec(&a, "@id/");
    let c = strip_all_vec(&b, "@baram:id/");
    string_of(&c)
}

/// An ASCII letter.
pub open spec fn is_ascii_alpha(c: char) -> bool {
    ('a' <= c && c <= 'z') || ('A' <= c && c <= 'Z')
}

/// Whether a value can stand as a CSS colour: `#...`, `rgb(...)`, `rgba(...)` or a word of
/// ASCII letters (after trimming).
pub open spec fn css_color(value: Seq<char>) -> bool {
    let v = trim(value);
    starts_with(v, "#"@) || starts_with(v, "rgb("@) || starts_with(v, "rgba("@) || forall|i: int|
        0 <= i < v.len() ==> is_ascii_alpha(#[trigger] v[i])
}

/// Whether `value` can stand as a CSS colour.
pub fn is_css_color(value: &str) -> (r: bool)
    ensures
        r == css_color(value@),
{
    let v = trim_vec(&chars_of(value));
    if crate::text::starts_with_str(&v, "#") || crate::text::starts_with_str(&v, "rgb(")
        || crate::text::starts_with_str(&v, "rgba(") {
        return true;
    }
    let mut i: usize = 0;
    while i < v.len()
        invariant
            i <= v@.len(),
            v@ == trim(value@),
            !starts_with(v@, "#"@) && !starts_with(v@, "rgb("@) && !starts_with(v@, "rgba("@),
            forall|k: int| 0 <= k < i ==> is_ascii_alpha(#[trigger] v@[k]),
        decreases v@.len() - i,
    {
        let c = v[i];
        if !(('a' <= c && c <= 'z') || ('A' <= c && c <= 'Z')) {
            assert(!is_ascii_alpha(v@[i as int]));
            return false;
        }
        i += 1;
    }
    true
}

/// The pieces of `s` between the `|` separators.
pub open spec fn bar_terms(s: Seq<char>) -> Seq<Seq<char>>
    decreases s.len(),
{
    match crate::text::index_of(s, '|') {
        Some(i) => if 0 <= i < s.len() {
            seq![s.take(i)] + bar_terms(s.skip(i + 1))
        } else {
            seq![s]
        },
        None => seq![s],
    }
}

pub(crate) fn split_bars(v: &[char]) -> (r: Vec<Vec<char>>)
    ensures
        r@.len() == bar_terms(v@).len(),
        forall|k: int| 0 <= k < r@.len() ==> #[trigger] r@[k]@ == bar_terms(v@)[k],
    decreases v@.len(),
{
    match crate::text::find_char(v, '|') {
        Some(i) => {
            proof {
                crate::text::lemma_index_of_from(v@, '|', 0);
            }
            let n = v.len();
            assert(i < n);
            let head = slice_vec(v, 0, i);
            let tail = slice_vec(v, i + 1, v.len());
            assert(head@ =~= v@.take(i as int));
            assert(tail@ =~= v@.skip(i + 1));
            let rest = split_bars(&tail);
            let mut r: Vec<Vec<char>> = Vec::new();
            r.push(head);
            let mut k: usize = 0;
            while k < rest.len()
                invariant
                    k <= rest@.len(),
                    r@.len() == k + 1,
                    r@[0]@ == v@.take(i as int),
                    rest@.len() == bar_terms(tail@).len(),
                    forall|j: int| 0 <= j < rest@.len() ==> #[trigger] rest@[j]@ == bar_terms(tail@)[j],
                    forall|j: int| 1 <= j <= k ==> #[trigger] r@[j]@ == rest@[j - 1]@,
                decreases rest@.len() - k,
            {
                r.push(slice_vec(&rest[k], 0, rest[k].len()));
                assert(rest@[k as int]@.subrange(0, rest@[k as int]@.len() as int) =~= rest@[k as int]@);
                k += 1;
            }
            r
        },
        None => {
            let mut r: Vec<Vec<char>> = Vec::new();
            r.push(slice_vec(v, 0, v.len()));
            assert(v@.subrange(0, v@.len() as int) =~= v@);
            r
        },
    }
}

pub(crate) fn has_term(terms: &Vec<Vec<char>>, t: &str) -> (r: bool)
    ensures
        r == exists|k: int| 0 <= k < terms@.len() && #[trigger] terms@[k]@ == t@,
{
    let mut i: usize = 0;
    while i < terms.len()
        invariant
            i <= terms@.len(),
            forall|k: int| 0 <= k < i ==> #[trigger] terms@[k]@ != t@,
        decreases terms@.len() - i,
    {
        if crate::text::eq_str(&terms[i], t) {
            return true;
        }
        i += 1;
    }
    false
}

/// The styles that a `gravity` value adds: text alignment, then vertical centring or bottom
/// alignment, each for the `|`-separated terms it holds.
pub open spec fn gravity_styles(value: Option<Seq<char>>) -> Seq<Seq<char>> {
    match value {
        None => seq![],
        Some(v) => {
            let t = bar_terms(v);
            let center = t.contains("center"@);
            let align = if center || t.contains("center_horizontal"@) {
                seq!["text-align:center"@]
            } else if t.contains("right"@) || t.contains("end"@) {
                seq!["text-align:right"@]
            } else {
                seq![]
            };
            let vertical = if center || t.contains("center_vertical"@) {
                seq!["display:flex"@, "align-items:center"@] + (if center {
                    seq!["justify-content:center"@]
                } else {
                    seq![]
                })
            } else {
                seq![]
            };
            let bottom = if t.contains("bottom"@) {
                seq!["display:flex"@, "align-items:flex-end"@]
            } else {
                seq![]
            };
            align + vertical + bottom
        },
    }
}

pub(crate) fn push_style(styles: &mut Vec<String>, s: &str)
    ensures
        crate::warp3::strings_view(final(styles)@) == crate::warp3::strings_view(old(styles)@).push(
            s@,
        ),
{
    let ghost before = styles@;
    styles.push(lit(s));
    assert(crate::warp3::strings_view(styles@) =~= crate::warp3::strings_view(before).push(s@));
}

/// Adds the styles of a `gravity` value.
pub fn apply_gravity(value: Option<&str>, styles: &mut Vec<String>)
    ensures
        crate::warp3::strings_view(final(styles)@) == crate::warp3::strings_view(old(styles)@)
            + gravity_styles(
            match value {
                Some(v) => Some(v@),
                None => None,
            },
        ),
{
    let v = match value {
        None => {
            assert(crate::warp3::strings_view(styles@) =~= crate::warp3::strings_view(styles@)
                + Seq::<Seq<char>>::empty());
            return;
        },
        Some(v) => v,
    };
    let terms = split_bars(&chars_of(v));
    let ghost t = bar_terms(v@);
    proof {
        assert forall|w: Seq<char>| t.contains(w) <==> exists|k: int|
            0 <= k < terms@.len() && #[trigger] terms@[k]@ == w by {
            if t.contains(w) {
                let k = choose|k: int| 0 <= k < t.len() && t[k] == w;
                assert(terms@[k]@ == w);
            }
            if exists|k: int| 0 <= k < terms@.len() && #[trigger] terms@[k]@ == w {
                let k = choose|k: int| 0 <= k < terms@.len() && #[trigger] terms@[k]@ == w;
                assert(t[k] == w);
            }
        }
    }
    let ghost start = crate::warp3::strings_view(styles@);
    let center = has_term(&terms, "center");
    if center || has_term(&terms, "center_horizontal") {
        push_style(styles, "text-align:center");
    } else if has_term(&terms, "right") || has_term(&terms, "end") {
        push_style(styles, "text-align:right");
    }
    let ghost mid = crate::warp3::strings_view(styles@);
    if center || has_term(&terms, "center_vertical") {
        push_style(styles, "display:flex");
        push_style(styles, "align-items:center");
        if center {
            push_style(styles, "justify-content:center");
        }
    }
    if has_term(&terms, "bottom") {
        push_style(styles, "display:flex");
        push_style(styles, "align-items:flex-end");
    }
    assert(crate::warp3::strings_view(styles@) =~= start + gravity_styles(Some(v@)));
}

/// What a size value becomes: a CSS text as it stands, or a number (a float text) to write
/// in pixels.
pub enum Dim {
    Text(String),
    Pixels(String),
}

pub enum DimModel {
    Text(Seq<char>),
    Pixels(Seq<char>),
}

impl View for Dim {
    type V = DimModel;

    open spec fn view(&self) -> DimModel {
        match self {
            Dim::Text(s) => DimModel::Text(s@),
            Dim::Pixels(n) => DimModel::Pixels(n@),
        }
    }
}

/// A size: `match_parent` and `fill_parent` fill, `wrap_content` fits, a number with `dp`,
/// `dip`, `sp` or `px` (or none) is pixels, anything else stands trimmed.
pub open spec fn dim_of(value: Seq<char>) -> DimModel {
    if value == "match_parent"@ || value == "fill_parent"@ {
        DimModel::Text("100%"@)
    } else if value == "wrap_content"@ {
        DimModel::Text("auto"@)
    } else {
        let t = trim(value);
        if crate::text::ends_with(t, "dp"@) && crate::text::float_text(t.take(t.len() - 2)) {
            DimModel::Pixels(t.take(t.len() - 2))
        } else if crate::text::ends_with(t, "dip"@) && crate::text::float_text(t.take(t.len() - 3)) {
            DimModel::Pixels(t.take(t.len() - 3))
        } else if crate::text::ends_with(t, "sp"@) && crate::text::float_text(t.take(t.len() - 2)) {
            DimModel::Pixels(t.take(t.len() - 2))
        } else if crate::text::ends_with(t, "px"@) && crate::text::float_text(t.take(t.len() - 2)) {
            DimModel::Pixels(t.take(t.len() - 2))
        } else if crate::text::float_text(t) {
            DimModel::Pixels(t)
        } else {
            DimModel::Text(t)
        }
    }
}

fn number_before(t: &Vec<char>, suffix: &str) -> (r: Option<Vec<char>>)
    ensures
        match r {
            Some(n) => crate::text::ends_with(t@, suffix@) && n@ == t@.take(t@.len() - suffix@.len())
                && crate::text::float_text(n@),
            None => !(crate::text::ends_with(t@, suffix@) && crate::text::float_text(
                t@.take(t@.len() - suffix@.len()),
            )),
        },
{
    if !crate::text::ends_with_str(t, suffix) {
        return None;
    }
    let k = suffix.unicode_len();
    let n = slice_vec(t, 0, t.len() - k);
    assert(n@ =~= t@.take(t@.len() - k));
    if crate::text::is_float_text(&n) {
        Some(n)
    } else {
        None
    }
}

/// What a size value becomes.
pub fn dim(value: &str) -> (r: Dim)
    ensures
        r@ == dim_of(value@),
{
    let v = chars_of(value);
    if crate::text::eq_str(&v, "match_parent") || crate::text::eq_str(&v, "fill_parent") {
        return Dim::Text(lit("100%"));
    }
    if crate::text::eq_str(&v, "wrap_content") {
        return Dim::Text(lit("auto"));
    }
    let t = trim_vec(&v);
    proof {
        reveal_strlit("dp");
        reveal_strlit("dip");
        reveal_strlit("sp");
        reveal_strlit("px");
    }
    if let Some(n) = number_before(&t, "dp") {
        return Dim::Pixels(string_of(&n));
    }
    if let Some(n) = number_before(&t, "dip") {
        return Dim::Pixels(string_of(&n));
    }
    if let Some(n) = number_before(&t, "sp") {
        return Dim::Pixels(string_of(&n));
    }
    if let Some(n) = number_before(&t, "px") {
        return Dim::Pixels(string_of(&n));
    }
    if crate::text::is_float_text(&t) {
        return Dim::Pixels(string_of(&t));
    }
    Dim::Text(string_of(&t))
}

/// The page around a rendered layout, with the style sheet and the layout runtime.
pub open spec fn layout_page(body: Seq<char>) -> Seq<char> {
    "<!doctype html>\n<html lang=\"ja\">\n<head>\n<meta charset=\"utf-8\">\n<meta name=\"viewport\" content=\"width=device-width,initial-scale=1,maximum-scale=1,user-scalable=no\">\n<title>W3U Output</title>\n<style>"@
        + crate::runtime4::UI_CSS@ + "</style>\n</head>\n<body>\n<div id=\"app\">"@ + body
        + "</div>\n<script>"@ + crate::runtime4::UI_RUNTIME_JS@ + "</script>\n</body>\n</html>\n"@
}

/// The page around the layout HTML `body`.
pub fn build_document(body: &str) -> (r: String)
    ensures
        r@ == layout_page(body@),
{
    let mut out = lit(
        "<!doctype html>\n<html lang=\"ja\">\n<head>\n<meta charset=\"utf-8\">\n<meta name=\"viewport\" content=\"width=device-width,initial-scale=1,maximum-scale=1,user-scalable=no\">\n<title>W3U Output</title>\n<style>",
    );
    out.append(crate::runtime4::UI_CSS);
    out.append("</style>\n</head>\n<body>\n<div id=\"app\">");
    out.append(body);
    out.append("</div>\n<script>");
    out.append(crate::runtime4::UI_RUNTIME_JS);
    out.append("</script>\n</body>\n</html>\n");
    out
}

} // verus!
