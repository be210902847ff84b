//! The Warp 4 layout renderer: an Android-style XML layout, read into an element tree, as
//! HTML. Sizes in pixels and numbers read from attribute values come with each attribute,
//! already worked out; everything else the renderer decides here.
use vstd::prelude::*;
use crate::text::{chars_of, lit, string_of};
use crate::ui4::{attr_escaped, attrs_text, dim_of, DimModel, Parts};
use crate::warp3::strings_view;

verus! {

// ---------------------------------------------------------------------------------------
// The element tree
// ---------------------------------------------------------------------------------------

/// What the number at the start of an attribute value reads as: the longest prefix made of
/// ASCII digits, `.`, `-` and `+`, read as a float.
#[derive(Debug)]
pub struct Reading {
    /// Whether that prefix reads as a float at all.
    pub parsed: bool,
    /// The float as `{}` writes it.
    pub text: String,
    /// The float converted with `as i64`.
    pub whole: i64,
    /// The float raised to at least 1, converted with `as u64`.
    pub at_least_one: u64,
    /// The float rounded, raised to at least 0, converted with `as u64`.
    pub rounded: u64,
    /// Whether the float is greater than 0.
    pub positive: bool,
}

/// One attribute of an element.
#[derive(Debug)]
pub struct Attr {
    /// The local name, without a namespace prefix.
    pub name: String,
    pub value: String,
    /// Whether the attribute has no namespace.
    pub plain: bool,
    /// The size in pixels (`12px`) when the value is a size in `dp`, `dip`, `sp`, `px` or a
    /// bare number, as `dim_of` tells; unused otherwise.
    pub pixels: String,
    pub number: Reading,
}

/// An element of a layout with its attributes in document order and its child elements.
#[derive(Debug)]
pub struct Element {
    pub tag: String,
    pub attrs: Vec<Attr>,
    pub children: Vec<Element>,
}

pub struct ReadingModel {
    pub parsed: bool,
    pub text: Seq<char>,
    pub whole: i64,
    pub at_least_one: u64,
    pub rounded: u64,
    pub positive: bool,
}

pub struct AttrModel {
    pub name: Seq<char>,
    pub value: Seq<char>,
    pub plain: bool,
    pub pixels: Seq<char>,
    pub number: ReadingModel,
}

#[verifier::ext_equal]
pub struct ElementModel {
    pub tag: Seq<char>,
    pub attrs: Seq<AttrModel>,
    pub children: Seq<ElementModel>,
}

impl View for Reading {
    type V = ReadingModel;

    open spec fn view(&self) -> ReadingModel {
        ReadingModel {
            parsed: self.parsed,
            text: self.text@,
            whole: self.whole,
            at_least_one: self.at_least_one,
            rounded: self.rounded,
            positive: self.positive,
        }
    }
}

impl View for Attr {
    type V = AttrModel;

    open spec fn view(&self) -> AttrModel {
        AttrModel {
            name: self.name@,
            value: self.value@,
            plain: self.plain,
            pixels: self.pixels@,
            number: self.number@,
        }
    }
}

pub open spec fn attrs_view(v: Seq<Attr>) -> Seq<AttrModel> {
    v.map_values(|a: Attr| a@)
}

impl View for Element {
    type V = ElementModel;

    open spec fn view(&self) -> ElementModel
        decreases self,
    {
        ElementModel {
            tag: self.tag@,
            attrs: attrs_view(self.attrs@),
            children: Seq::new(
                self.children@.len(),
                |i: int|
                    if 0 <= i < self.children@.len() {
                        self.children@[i].view()
                    } else {
                        ElementModel { tag: seq![], attrs: seq![], children: seq![] }
                    },
            ),
        }
    }
}

pub open spec fn elements_view(v: Seq<Element>) -> Seq<ElementModel> {
    v.map_values(|e: Element| e@)
}

// ---------------------------------------------------------------------------------------
// Attributes
// ---------------------------------------------------------------------------------------

/// The first attribute from `i` on named `name` (of no namespace only, when `plain_only`).
pub open spec fn attr_from(attrs: Seq<AttrModel>, name: Seq<char>, plain_only: bool, i: int) -> Option<
    AttrModel,
>
    decreases attrs.len() - i,
{
    if i < 0 || i >= attrs.len() {
        None
    } else if attrs[i].name == name && (attrs[i].plain || !plain_only) {
        Some(attrs[i])
    } else {
        attr_from(attrs, name, plain_only, i + 1)
    }
}

/// The first attribute named `name`, in any namespace.
pub open spec fn attr_of(e: ElementModel, name: Seq<char>) -> Option<AttrModel> {
    attr_from(e.attrs, name, false, 0)
}

/// The value of the first attribute named `name`.
pub open spec fn value_of(e: ElementModel, name: Seq<char>) -> Option<Seq<char>> {
    match attr_of(e, name) {
        Some(a) => Some(a.value),
        None => None,
    }
}

/// Finds the first attribute named `name`.
fn find_attr(attrs: &Vec<Attr>, name: &str, plain_only: bool) -> (r: Option<usize>)
    ensures
        match attr_from(attrs_view(attrs@), name@, plain_only, 0) {
            Some(a) => r matches Some(i) && i < attrs@.len() && attrs@[i as int]@ == a,
            None => r is None,
        },
{
    let ghost s = attrs_view(attrs@);
    let nv = chars_of(name);
    let mut i: usize = 0;
    while i < attrs.len()
        invariant
            i <= attrs@.len(),
            s == attrs_view(attrs@),
            nv@ == name@,
            attr_from(s, name@, plain_only, 0) == attr_from(s, name@, plain_only, i as int),
        decreases attrs@.len() - i,
    {
        let a = &attrs[i];
        let an = chars_of(a.name.as_str());
        if crate::text::eq_chars(&an, &nv) && (a.plain || !plain_only) {
            return Some(i);
        }
        i += 1;
    }
    None
}

/// The value of the first attribute named `name`.
fn attr<'a>(node: &'a Element, name: &str) -> (r: Option<&'a str>)
    ensures
        match value_of(node@, name@) {
            Some(v) => r matches Some(s) && s@ == v,
            None => r is None,
        },
{
    match find_attr(&node.attrs, name, false) {
        Some(i) => Some(node.attrs[i].value.as_str()),
        None => None,
    }
}

/// Whether a value equals the word, as text.
fn is_word(value: Option<&str>, word: &str) -> (r: bool)
    ensures
        r == (match value {
            Some(v) => v@ == word@,
            None => false,
        }),
{
    match value {
        Some(v) => crate::text::eq_str(&chars_of(v), word),
        None => false,
    }
}

/// `true` or `false` as a boolean attribute reads: the value spelled `true` in any case, or
/// the default when the attribute is missing.
pub open spec fn flag_of(e: ElementModel, name: Seq<char>, default: bool) -> bool {
    match value_of(e, name) {
        Some(v) => crate::text::ascii_caseless_eq(v, "true"@),
        None => default,
    }
}

/// The words `true` and `false`.
pub open spec fn bool_text(b: bool) -> Seq<char> {
    if b {
        "true"@
    } else {
        "false"@
    }
}

fn bool_attr(node: &Element, name: &str, default: bool) -> (r: bool)
    ensures
        r == flag_of(node@, name@, default),
{
    match attr(node, name) {
        Some(v) => {
            let cs = chars_of(v);
            let r = crate::text::caseless_between(&cs, 0, cs.len(), "true");
            assert(cs@.subrange(0, cs@.len() as int) =~= cs@);
            r
        },
        None => default,
    }
}

/// A size as CSS: the pixels worked out for the attribute, or the text that `dim_of` keeps.
pub open spec fn dim_text(a: AttrModel) -> Seq<char> {
    match dim_of(a.value) {
        DimModel::Text(t) => t,
        DimModel::Pixels(_) => a.pixels,
    }
}

fn dim_str(a: &Attr) -> (r: String)
    ensures
        r@ == dim_text(a@),
{
    match crate::ui4::dim(a.value.as_str()) {
        crate::ui4::Dim::Text(t) => t,
        crate::ui4::Dim::Pixels(_) => a.pixels.clone(),
    }
}

/// The size of the first attribute named `name`, or `0px` when there is none.
pub open spec fn dim_or_zero(e: ElementModel, name: Seq<char>) -> Seq<char> {
    match attr_of(e, name) {
        Some(a) => dim_text(a),
        None => "0px"@,
    }
}

fn dim_or_zero_str(node: &Element, name: &str) -> (r: String)
    ensures
        r@ == dim_or_zero(node@, name@),
{
    match find_attr(&node.attrs, name, false) {
        Some(i) => dim_str(&node.attrs[i]),
        None => lit("0px"),
    }
}

/// The reading of the first attribute named `name`, when it reads as a number.
pub open spec fn reading_of(e: ElementModel, name: Seq<char>) -> Option<ReadingModel> {
    match attr_of(e, name) {
        Some(a) => if a.number.parsed {
            Some(a.number)
        } else {
            None
        },
        None => None,
    }
}

fn reading<'a>(node: &'a Element, name: &str) -> (r: Option<&'a Reading>)
    ensures
        match reading_of(node@, name@) {
            Some(m) => r matches Some(x) && x@ == m,
            None => r is None,
        },
{
    match find_attr(&node.attrs, name, false) {
        Some(i) => if node.attrs[i].number.parsed {
            Some(&node.attrs[i].number)
        } else {
            None
        },
        None => None,
    }
}

/// The whole part of the number in `name`, at least 1; `default` when there is none.
pub open spec fn count_of(e: ElementModel, name: Seq<char>, default: int) -> int {
    match reading_of(e, name) {
        Some(m) => if m.whole < 1 {
            1
        } else {
            m.whole as int
        },
        None => default,
    }
}

fn count(node: &Element, name: &str, default: i64) -> (r: i64)
    ensures
        r == count_of(node@, name@, default as int),
{
    match reading(node, name) {
        Some(m) => if m.whole < 1 {
            1
        } else {
            m.whole
        },
        None => default,
    }
}

// ---------------------------------------------------------------------------------------
// Numbers as text
// ---------------------------------------------------------------------------------------

/// An integer in decimal, with a `-` when it is negative.
pub open spec fn int_text(i: int) -> Seq<char> {
    if i < 0 {
        seq!['-'] + crate::text::decimal((-i) as nat)
    } else {
        crate::text::decimal(i as nat)
    }
}

fn push_int(out: &mut String, i: i64)
    ensures
        final(out)@ == old(out)@ + int_text(i as int),
{
    if i < 0 {
        out.push('-');
        let m: i128 = -(i as i128);
        let n: u64 = m as u64;
        crate::text::push_decimal(out, n);
        assert(old(out)@.push('-') + crate::text::decimal(n as nat) =~= old(out)@ + (seq!['-']
            + crate::text::decimal(n as nat)));
    } else {
        crate::text::push_decimal(out, i as u64);
    }
}

// ---------------------------------------------------------------------------------------
// Element parts
// ---------------------------------------------------------------------------------------

/// The classes, styles and attributes of an element as values.
pub struct PartsModel {
    pub classes: Seq<Seq<char>>,
    pub styles: Seq<Seq<char>>,
    pub attrs: Seq<Seq<char>>,
}

pub open spec fn parts_model(p: &Parts) -> PartsModel {
    PartsModel {
        classes: strings_view(p.classes@),
        styles: strings_view(p.styles@),
        attrs: strings_view(p.attrs@),
    }
}

pub open spec fn add_class(p: PartsModel, c: Seq<char>) -> PartsModel {
    PartsModel { classes: p.classes.push(c), ..p }
}

pub open spec fn add_style(p: PartsModel, s: Seq<char>) -> PartsModel {
    PartsModel { styles: p.styles.push(s), ..p }
}

pub open spec fn add_attr(p: PartsModel, a: Seq<char>) -> PartsModel {
    PartsModel { attrs: p.attrs.push(a), ..p }
}

fn push_text(v: &mut Vec<String>, s: String)
    ensures
        strings_view(final(v)@) == strings_view(old(v)@).push(s@),
{
    let ghost before = v@;
    let ghost sv = s@;
    v.push(s);
    assert(strings_view(v@) =~= strings_view(before).push(sv));
}

fn class(p: &mut Parts, c: &str)
    ensures
        parts_model(final(p)) == add_class(parts_model(old(p)), c@),
{
    push_text(&mut p.classes, lit(c));
}

fn style(p: &mut Parts, s: String)
    ensures
        parts_model(final(p)) == add_style(parts_model(old(p)), s@),
{
    push_text(&mut p.styles, s);
}

fn attribute(p: &mut Parts, a: String)
    ensures
        parts_model(final(p)) == add_attr(parts_model(old(p)), a@),
{
    push_text(&mut p.attrs, a);
}

/// `prefix` followed by `middle`.
fn join2(prefix: &str, middle: &str) -> (r: String)
    ensures
        r@ == prefix@ + middle@,
{
    let mut s = lit(prefix);
    s.append(middle);
    s
}

/// `name="value"` with the value escaped for an attribute; `prefix` is `name="`.
pub open spec fn quoted(prefix: Seq<char>, value: Seq<char>) -> Seq<char> {
    prefix + attr_escaped(value) + "\""@
}

fn quoted_str(prefix: &str, value: &str) -> (r: String)
    ensures
        r@ == quoted(prefix@, value@),
{
    let mut s = lit(prefix);
    let e = crate::ui4::esc_attr(value);
    s.append(e.as_str());
    s.append("\"");
    s
}

// ---------------------------------------------------------------------------------------
// The parts every element gets
// ---------------------------------------------------------------------------------------

/// Whether the attribute is there with exactly this value.
pub open spec fn has_value(a: Option<AttrModel>, w: Seq<char>) -> bool {
    a matches Some(x) && x.value == w
}

/// The ID attributes of an element with an `id` whose name is not empty.
pub open spec fn id_attrs(e: ElementModel) -> Seq<Seq<char>> {
    match value_of(e, "id"@) {
        Some(id) => {
            let n = crate::ui4::id_of(id);
            if n.len() > 0 {
                seq![quoted("data-baram-id=\""@, n), quoted("id=\"baram-id-"@, n)]
            } else {
                seq![]
            }
        },
        None => seq![],
    }
}

/// A character of a style name as it stands in a class name: ASCII letters, digits, `_` and
/// `-` stay, anything else becomes `-`.
pub open spec fn safe_char(c: char) -> char {
    if ('a' <= c && c <= 'z') || ('A' <= c && c <= 'Z') || ('0' <= c && c <= '9') || c == '_'
        || c == '-' {
        c
    } else {
        '-'
    }
}

/// The style reference of an element: its `style` attribute of no namespace, else the first
/// `style` attribute of any.
pub open spec fn style_ref(e: ElementModel) -> Option<Seq<char>> {
    match attr_from(e.attrs, "style"@, true, 0) {
        Some(a) => Some(a.value),
        None => value_of(e, "style"@),
    }
}

/// The class that names the style of an element, if it has one.
pub open spec fn style_classes(e: ElementModel) -> Seq<Seq<char>> {
    match style_ref(e) {
        Some(r) => {
            let n = crate::ui4::strip_all(crate::ui4::strip_all(r, "@style/"@), "?baram:attr/"@);
            seq!["style-"@ + n.map_values(|c: char| safe_char(c))]
        },
        None => seq![],
    }
}

/// What `layout_width` or `layout_height` adds: `match_parent` and `fill_parent` fill,
/// `wrap_content` fits, `0dp` adds nothing here, any other value is a size.
pub open spec fn size_styles(
    a: Option<AttrModel>,
    fill: Seq<char>,
    fit: Seq<char>,
    prefix: Seq<char>,
) -> Seq<Seq<char>> {
    match a {
        None => seq![],
        Some(x) => if x.value == "match_parent"@ || x.value == "fill_parent"@ {
            seq![fill]
        } else if x.value == "wrap_content"@ {
            seq![fit]
        } else if x.value == "0dp"@ {
            seq![]
        } else {
            seq![prefix + dim_text(x)]
        },
    }
}

/// The flex styles of a child of a `LinearLayout` with a positive `layout_weight`; for any
/// other element, a `0dp` width or height as `0px`.
pub open spec fn weight_styles(e: ElementModel, pt: Seq<char>, po: Seq<char>) -> Seq<Seq<char>> {
    let wz = has_value(attr_of(e, "layout_width"@), "0dp"@);
    let hz = has_value(attr_of(e, "layout_height"@), "0dp"@);
    match reading_of(e, "layout_weight"@) {
        Some(r) => if pt == "LinearLayout"@ && r.positive {
            if po == "horizontal"@ {
                seq![
                    "flex-grow:"@ + r.text,
                    "flex-shrink:1"@,
                    if wz {
                        "flex-basis:0px"@
                    } else {
                        "flex-basis:auto"@
                    },
                ] + if wz {
                    seq!["width:auto"@, "min-width:0"@]
                } else {
                    seq![]
                }
            } else {
                seq![
                    "flex-grow:"@ + r.text,
                    "flex-shrink:1"@,
                    if hz {
                        "flex-basis:0px"@
                    } else {
                        "flex-basis:auto"@
                    },
                ] + if hz {
                    seq!["height:auto"@, "min-height:0"@]
                } else {
                    seq![]
                }
            }
        } else {
            zero_sizes(wz, hz)
        },
        None => zero_sizes(wz, hz),
    }
}

pub open spec fn zero_sizes(wz: bool, hz: bool) -> Seq<Seq<char>> {
    (if wz {
        seq!["width:0px"@]
    } else {
        seq![]
    }) + if hz {
        seq!["height:0px"@]
    } else {
        seq![]
    }
}

/// The size of one side: the attribute for that side, else its alternative, else the one for
/// its axis, else the one for all sides, else `0px`.
pub open spec fn side_value(
    e: ElementModel,
    direct: Seq<char>,
    alt: Option<Seq<char>>,
    axis: Option<AttrModel>,
    all: Option<AttrModel>,
) -> Seq<char> {
    let d = attr_of(e, direct);
    let alternate = match alt {
        Some(k) => attr_of(e, k),
        None => None,
    };
    let chosen = if d is Some {
        d
    } else if alternate is Some {
        alternate
    } else if axis is Some {
        axis
    } else {
        all
    };
    match chosen {
        Some(a) => dim_text(a),
        None => "0px"@,
    }
}

/// The attribute names of one kind of spacing: for all sides, each axis and each side.
pub struct SideKeys {
    pub all: Seq<char>,
    pub horizontal: Seq<char>,
    pub vertical: Seq<char>,
    pub top: Seq<char>,
    pub right: Seq<char>,
    pub end: Seq<char>,
    pub bottom: Seq<char>,
    pub left: Seq<char>,
    pub start: Seq<char>,
}

pub open spec fn padding_keys() -> SideKeys {
    SideKeys {
        all: "padding"@,
        horizontal: "paddingHorizontal"@,
        vertical: "paddingVertical"@,
        top: "paddingTop"@,
        right: "paddingRight"@,
        end: "paddingEnd"@,
        bottom: "paddingBottom"@,
        left: "paddingLeft"@,
        start: "paddingStart"@,
    }
}

pub open spec fn margin_keys() -> SideKeys {
    SideKeys {
        all: "layout_margin"@,
        horizontal: "layout_marginHorizontal"@,
        vertical: "layout_marginVertical"@,
        top: "layout_marginTop"@,
        right: "layout_marginRight"@,
        end: "layout_marginEnd"@,
        bottom: "layout_marginBottom"@,
        left: "layout_marginLeft"@,
        start: "layout_marginStart"@,
    }
}

/// The shorthand for one kind of spacing, when any side is not `0px`.
pub open spec fn sides_styles(e: ElementModel, prefix: Seq<char>, k: SideKeys) -> Seq<Seq<char>> {
    let all = attr_of(e, k.all);
    let h = attr_of(e, k.horizontal);
    let v = attr_of(e, k.vertical);
    let top = side_value(e, k.top, None, v, all);
    let right = side_value(e, k.right, Some(k.end), h, all);
    let bottom = side_value(e, k.bottom, None, v, all);
    let left = side_value(e, k.left, Some(k.start), h, all);
    if top != "0px"@ || right != "0px"@ || bottom != "0px"@ || left != "0px"@ {
        seq![prefix + top + " "@ + right + " "@ + bottom + " "@ + left]
    } else {
        seq![]
    }
}

/// The background, opacity and visibility styles.
pub open spec fn look_styles(e: ElementModel) -> Seq<Seq<char>> {
    (match value_of(e, "background"@) {
        Some(bg) => if crate::ui4::css_color(bg) {
            seq!["background:"@ + bg]
        } else {
            seq![]
        },
        None => seq![],
    }) + (match value_of(e, "alpha"@) {
        Some(a) => seq!["opacity:"@ + attr_escaped(a)],
        None => seq![],
    }) + (match value_of(e, "visibility"@) {
        Some(v) => if v == "gone"@ {
            seq!["display:none"@]
        } else if v == "invisible"@ {
            seq!["visibility:hidden"@]
        } else {
            seq![]
        },
        None => seq![],
    })
}

/// Whether the element is disabled (`enabled="false"`).
pub open spec fn disabled(e: ElementModel) -> bool {
    value_of(e, "enabled"@) == Some("false"@)
}

/// A size limit, when the attribute is there.
pub open spec fn limit_style(e: ElementModel, key: Seq<char>, prefix: Seq<char>) -> Seq<Seq<char>> {
    match attr_of(e, key) {
        Some(a) => seq![prefix + dim_text(a)],
        None => seq![],
    }
}

pub open spec fn limit_styles(e: ElementModel) -> Seq<Seq<char>> {
    limit_style(e, "minWidth"@, "min-width:"@) + limit_style(e, "minHeight"@, "min-height:"@)
        + limit_style(e, "maxWidth"@, "max-width:"@) + limit_style(e, "maxHeight"@, "max-height:"@)
}

/// How a child of a `LinearLayout` aligns itself across the layout's direction.
pub open spec fn self_align(e: ElementModel, pt: Seq<char>, po: Seq<char>) -> Seq<Seq<char>> {
    if pt != "LinearLayout"@ {
        seq![]
    } else {
        match value_of(e, "layout_gravity"@) {
            None => seq![],
            Some(g) => {
                let t = crate::ui4::bar_terms(g);
                if po == "vertical"@ {
                    if t.contains("center"@) || t.contains("center_horizontal"@) {
                        seq!["align-self:center"@]
                    } else if t.contains("right"@) || t.contains("end"@) {
                        seq!["align-self:flex-end"@]
                    } else if t.contains("left"@) || t.contains("start"@) {
                        seq!["align-self:flex-start"@]
                    } else {
                        seq![]
                    }
                } else if t.contains("center"@) || t.contains("center_vertical"@) {
                    seq!["align-self:center"@]
                } else if t.contains("bottom"@) {
                    seq!["align-self:flex-end"@]
                } else if t.contains("top"@) {
                    seq!["align-self:flex-start"@]
                } else {
                    seq![]
                }
            },
        }
    }
}

/// The position of a child of an `AbsoluteLayout`.
pub open spec fn absolute_styles(e: ElementModel, pt: Seq<char>) -> Seq<Seq<char>> {
    if pt == "AbsoluteLayout"@ {
        seq![
            "position:absolute"@,
            "left:"@ + dim_or_zero(e, "layout_x"@),
            "top:"@ + dim_or_zero(e, "layout_y"@),
        ]
    } else {
        seq![]
    }
}

/// `w + 1`, wrapping past the largest `i64`.
pub open spec fn next_int(w: i64) -> int {
    if w == i64::MAX {
        i64::MIN as int
    } else {
        w + 1
    }
}

/// A grid line: the whole number of the attribute plus one (1 when it reads as no number).
pub open spec fn grid_start(e: ElementModel, key: Seq<char>, prefix: Seq<char>) -> Seq<Seq<char>> {
    match attr_of(e, key) {
        Some(a) => seq![
            prefix + int_text(
                if a.number.parsed {
                    next_int(a.number.whole)
                } else {
                    1
                },
            ),
        ],
        None => seq![],
    }
}

/// A grid span: the whole number of the attribute, at least 1.
pub open spec fn grid_span(e: ElementModel, key: Seq<char>, prefix: Seq<char>) -> Seq<Seq<char>> {
    match attr_of(e, key) {
        Some(a) => seq![
            prefix + int_text(
                if a.number.parsed && a.number.whole > 1 {
                    a.number.whole as int
                } else {
                    1
                },
            ),
        ],
        None => seq![],
    }
}

/// The placement of a child of a `GridLayout`.
pub open spec fn grid_styles(e: ElementModel, pt: Seq<char>) -> Seq<Seq<char>> {
    if pt == "GridLayout"@ {
        grid_start(e, "layout_column"@, "grid-column-start:"@) + grid_start(
            e,
            "layout_row"@,
            "grid-row-start:"@,
        ) + grid_span(e, "layout_columnSpan"@, "grid-column-end:span "@) + grid_span(
            e,
            "layout_rowSpan"@,
            "grid-row-end:span "@,
        )
    } else {
        seq![]
    }
}

/// A layout attribute kept for the page's runtime, as `data-w3u-<name in lowercase>`.
pub open spec fn meta_attr(e: ElementModel, key: Seq<char>, prefix: Seq<char>) -> Seq<Seq<char>> {
    match value_of(e, key) {
        Some(v) => seq![quoted(prefix, v)],
        None => seq![],
    }
}

pub open spec fn meta_step(acc: Seq<Seq<char>>, e: ElementModel, key: Seq<char>, prefix: Seq<char>) -> Seq<
    Seq<char>,
> {
    acc + meta_attr(e, key, prefix)
}

/// `acc` followed by the layout attributes that the page's runtime reads, in a fixed order.
pub open spec fn meta_all(acc: Seq<Seq<char>>, e: ElementModel) -> Seq<Seq<char>> {
    let m = acc;
    let m = meta_step(m, e, "layout_gravity"@, "data-w3u-layout_gravity=\""@);
    let m = meta_step(m, e, "layout_alignParentRight"@, "data-w3u-layout_alignparentright=\""@);
    let m = meta_step(m, e, "layout_alignParentEnd"@, "data-w3u-layout_alignparentend=\""@);
    let m = meta_step(m, e, "layout_alignParentBottom"@, "data-w3u-layout_alignparentbottom=\""@);
    let m = meta_step(m, e, "layout_centerHorizontal"@, "data-w3u-layout_centerhorizontal=\""@);
    let m = meta_step(m, e, "layout_centerVertical"@, "data-w3u-layout_centervertical=\""@);
    let m = meta_step(m, e, "layout_centerInParent"@, "data-w3u-layout_centerinparent=\""@);
    let m = meta_step(m, e, "layout_below"@, "data-w3u-layout_below=\""@);
    let m = meta_step(m, e, "layout_above"@, "data-w3u-layout_above=\""@);
    let m = meta_step(m, e, "layout_toRightOf"@, "data-w3u-layout_torightof=\""@);
    let m = meta_step(m, e, "layout_toEndOf"@, "data-w3u-layout_toendof=\""@);
    let m = meta_step(m, e, "layout_toLeftOf"@, "data-w3u-layout_toleftof=\""@);
    let m = meta_step(m, e, "layout_toStartOf"@, "data-w3u-layout_tostartof=\""@);
    let m = meta_step(m, e, "layout_alignLeft"@, "data-w3u-layout_alignleft=\""@);
    let m = meta_step(m, e, "layout_alignStart"@, "data-w3u-layout_alignstart=\""@);
    let m = meta_step(m, e, "layout_alignRight"@, "data-w3u-layout_alignright=\""@);
    let m = meta_step(m, e, "layout_alignEnd"@, "data-w3u-layout_alignend=\""@);
    let m = meta_step(m, e, "layout_alignTop"@, "data-w3u-layout_aligntop=\""@);
    let m = meta_step(m, e, "layout_alignBottom"@, "data-w3u-layout_alignbottom=\""@);
    let m = meta_step(m, e, "layout_margin"@, "data-w3u-layout_margin=\""@);
    let m = meta_step(m, e, "layout_marginHorizontal"@, "data-w3u-layout_marginhorizontal=\""@);
    let m = meta_step(m, e, "layout_marginVertical"@, "data-w3u-layout_marginvertical=\""@);
    let m = meta_step(m, e, "layout_marginTop"@, "data-w3u-layout_margintop=\""@);
    let m = meta_step(m, e, "layout_marginRight"@, "data-w3u-layout_marginright=\""@);
    let m = meta_step(m, e, "layout_marginEnd"@, "data-w3u-layout_marginend=\""@);
    let m = meta_step(m, e, "layout_marginBottom"@, "data-w3u-layout_marginbottom=\""@);
    let m = meta_step(m, e, "layout_marginLeft"@, "data-w3u-layout_marginleft=\""@);
    let m = meta_step(m, e, "layout_marginStart"@, "data-w3u-layout_marginstart=\""@);
    m
}

/// The disabled styles.
pub open spec fn disabled_styles(e: ElementModel) -> Seq<Seq<char>> {
    if disabled(e) {
        seq!["opacity:.45"@, "pointer-events:none"@]
    } else {
        seq![]
    }
}

/// The styles every element gets, in order.
pub open spec fn common_styles(e: ElementModel, pt: Seq<char>, po: Seq<char>) -> Seq<Seq<char>> {
    size_styles(attr_of(e, "layout_width"@), "width:100%"@, "width:fit-content"@, "width:"@)
        + size_styles(attr_of(e, "layout_height"@), "height:100%"@, "height:fit-content"@, "height:"@)
        + weight_styles(e, pt, po) + sides_styles(e, "padding:"@, padding_keys()) + sides_styles(
        e,
        "margin:"@,
        margin_keys(),
    ) + look_styles(e) + disabled_styles(e) + limit_styles(e) + crate::ui4::gravity_styles(
        value_of(e, "gravity"@),
    ) + self_align(e, pt, po) + absolute_styles(e, pt) + grid_styles(e, pt)
}

/// The classes, styles and attributes every element gets: `baram-view`, its tag, its ID,
/// its style, sizes, spacing, look, state, limits, alignment, position in its parent and the
/// layout attributes that the page's runtime reads.
pub open spec fn common_spec(e: ElementModel, pt: Seq<char>, po: Seq<char>) -> PartsModel {
    PartsModel {
        classes: seq!["baram-view"@] + style_classes(e),
        styles: common_styles(e, pt, po),
        attrs: meta_all(
            seq![quoted("data-baram-tag=\""@, e.tag)] + id_attrs(e) + if disabled(e) {
                seq!["aria-disabled=\"true\""@]
            } else {
                seq![]
            },
            e,
        ),
    }
}

// ---------------------------------------------------------------------------------------
// Building the parts
// ---------------------------------------------------------------------------------------

fn append_all(v: &mut Vec<String>, extra: Vec<String>)
    ensures
        strings_view(final(v)@) == strings_view(old(v)@) + strings_view(extra@),
{
    let ghost start = strings_view(v@);
    let ghost ex = strings_view(extra@);
    let mut extra = extra;
    let mut rest: Vec<String> = Vec::new();
    // Move the extra texts over in order.
    let n = extra.len();
    let mut i: usize = 0;
    while i < n
        invariant
            n == extra@.len(),
            i <= n,
            ex == strings_view(extra@),
            strings_view(v@) == start + ex.take(i as int),
        decreases n - i,
    {
        let t = lit(extra[i].as_str());
        let ghost before = v@;
        v.push(t);
        assert(strings_view(v@) =~= strings_view(before).push(ex[i as int]));
        assert(ex.take(i + 1) =~= ex.take(i as int).push(ex[i as int]));
        assert(start + ex.take(i + 1) =~= (start + ex.take(i as int)).push(ex[i as int]));
        i += 1;
    }
    assert(ex.take(n as int) =~= ex);
    rest.clear();
}

fn one(t: String) -> (r: Vec<String>)
    ensures
        strings_view(r@) == seq![t@],
{
    let mut r: Vec<String> = Vec::new();
    let ghost tv = t@;
    r.push(t);
    assert(strings_view(r@) =~= seq![tv]);
    r
}

fn none() -> (r: Vec<String>)
    ensures
        strings_view(r@) == Seq::<Seq<char>>::empty(),
{
    let r: Vec<String> = Vec::new();
    assert(strings_view(r@) =~= Seq::<Seq<char>>::empty());
    r
}

fn id_attrs_vec(node: &Element) -> (r: Vec<String>)
    ensures
        strings_view(r@) == id_attrs(node@),
{
    match attr(node, "id") {
        Some(id) => {
            let n = crate::ui4::id_name(id);
            if n.unicode_len() > 0 {
                let mut r = one(quoted_str("data-baram-id=\"", n.as_str()));
                push_text(&mut r, quoted_str("id=\"baram-id-", n.as_str()));
                r
            } else {
                none()
            }
        },
        None => none(),
    }
}

fn style_classes_vec(node: &Element) -> (r: Vec<String>)
    ensures
        strings_view(r@) == style_classes(node@),
{
    let sr = match find_attr(&node.attrs, "style", true) {
        Some(i) => Some(node.attrs[i].value.as_str()),
        None => attr(node, "style"),
    };
    match sr {
        Some(r) => {
            let a = crate::ui4::strip_all_vec(&chars_of(r), "@style/");
            let b = crate::ui4::strip_all_vec(&a, "?baram:attr/");
            let mut out = lit("style-");
            let mut i: usize = 0;
            let ghost start = out@;
            while i < b.len()
                invariant
                    i <= b@.len(),
                    out@ == start + b@.take(i as int).map_values(|c: char| safe_char(c)),
                decreases b@.len() - i,
            {
                let c = b[i];
                let d = if ('a' <= c && c <= 'z') || ('A' <= c && c <= 'Z') || ('0' <= c && c <= '9')
                    || c == '_' || c == '-' {
                    c
                } else {
                    '-'
                };
                out.push(d);
                assert(b@.take(i + 1).map_values(|c: char| safe_char(c)) =~= b@.take(
                    i as int,
                ).map_values(|c: char| safe_char(c)).push(safe_char(c)));
                i += 1;
            }
            assert(b@.take(b@.len() as int) =~= b@);
            one(out)
        },
        None => none(),
    }
}

fn size_styles_vec(node: &Element, key: &str, fill: &str, fit: &str, prefix: &str) -> (r: Vec<String>)
    ensures
        strings_view(r@) == size_styles(attr_of(node@, key@), fill@, fit@, prefix@),
{
    match find_attr(&node.attrs, key, false) {
        None => none(),
        Some(i) => {
            let a = &node.attrs[i];
            let v = Some(a.value.as_str());
            if is_word(v, "match_parent") || is_word(v, "fill_parent") {
                one(lit(fill))
            } else if is_word(v, "wrap_content") {
                one(lit(fit))
            } else if is_word(v, "0dp") {
                none()
            } else {
                let d = dim_str(a);
                one(join2(prefix, d.as_str()))
            }
        },
    }
}

fn weight_styles_vec(node: &Element, pt: &str, po: &str) -> (r: Vec<String>)
    ensures
        strings_view(r@) == weight_styles(node@, pt@, po@),
{
    let wz = is_word(attr(node, "layout_width"), "0dp");
    let hz = is_word(attr(node, "layout_height"), "0dp");
    let linear = crate::text::eq_str(&chars_of(pt), "LinearLayout");
    let horizontal = crate::text::eq_str(&chars_of(po), "horizontal");
    let weighted = match reading(node, "layout_weight") {
        Some(m) => if linear && m.positive {
            Some(m)
        } else {
            None
        },
        None => None,
    };
    match weighted {
        Some(m) => {
            let z = if horizontal {
                wz
            } else {
                hz
            };
            let mut r = one(join2("flex-grow:", m.text.as_str()));
            push_text(&mut r, lit("flex-shrink:1"));
            push_text(
                &mut r,
                lit(
                    if z {
                        "flex-basis:0px"
                    } else {
                        "flex-basis:auto"
                    },
                ),
            );
            if z {
                if horizontal {
                    push_text(&mut r, lit("width:auto"));
                    push_text(&mut r, lit("min-width:0"));
                } else {
                    push_text(&mut r, lit("height:auto"));
                    push_text(&mut r, lit("min-height:0"));
                }
            }
            let ghost w = weight_styles(node@, pt@, po@);
            assert(strings_view(r@) =~= w);
            r
        },
        None => {
            let mut r = none();
            if wz {
                push_text(&mut r, lit("width:0px"));
            }
            if hz {
                push_text(&mut r, lit("height:0px"));
            }
            assert(strings_view(r@) =~= zero_sizes(wz, hz));
            r
        },
    }
}

fn side_value_str(
    node: &Element,
    direct: &str,
    alt: Option<&str>,
    axis: Option<usize>,
    all: Option<usize>,
) -> (r: String)
    requires
        axis matches Some(i) ==> i < node.attrs@.len(),
        all matches Some(i) ==> i < node.attrs@.len(),
    ensures
        r@ == side_value(
            node@,
            direct@,
            match alt {
                Some(k) => Some(k@),
                None => None,
            },
            match axis {
                Some(i) => Some(node.attrs@[i as int]@),
                None => None,
            },
            match all {
                Some(i) => Some(node.attrs@[i as int]@),
                None => None,
            },
        ),
{
    let d = find_attr(&node.attrs, direct, false);
    let alternate = match alt {
        Some(k) => find_attr(&node.attrs, k, false),
        None => None,
    };
    let chosen = if d.is_some() {
        d
    } else if alternate.is_some() {
        alternate
    } else if axis.is_some() {
        axis
    } else {
        all
    };
    match chosen {
        Some(i) => dim_str(&node.attrs[i]),
        None => lit("0px"),
    }
}

fn sides_styles_vec(
    node: &Element,
    prefix: &str,
    all_key: &str,
    h_key: &str,
    v_key: &str,
    top_key: &str,
    right_key: &str,
    end_key: &str,
    bottom_key: &str,
    left_key: &str,
    start_key: &str,
) -> (r: Vec<String>)
    ensures
        strings_view(r@) == sides_styles(
            node@,
            prefix@,
            SideKeys {
                all: all_key@,
                horizontal: h_key@,
                vertical: v_key@,
                top: top_key@,
                right: right_key@,
                end: end_key@,
                bottom: bottom_key@,
                left: left_key@,
                start: start_key@,
            },
        ),
{
    let all = find_attr(&node.attrs, all_key, false);
    let h = find_attr(&node.attrs, h_key, false);
    let v = find_attr(&node.attrs, v_key, false);
    let top = side_value_str(node, top_key, None, v, all);
    let right = side_value_str(node, right_key, Some(end_key), h, all);
    let bottom = side_value_str(node, bottom_key, None, v, all);
    let left = side_value_str(node, left_key, Some(start_key), h, all);
    if !is_zero_px(&top) || !is_zero_px(&right) || !is_zero_px(&bottom) || !is_zero_px(&left) {
        let mut out = lit(prefix);
        out.append(top.as_str());
        out.append(" ");
        out.append(right.as_str());
        out.append(" ");
        out.append(bottom.as_str());
        out.append(" ");
        out.append(left.as_str());
        one(out)
    } else {
        none()
    }
}

fn look_styles_vec(node: &Element) -> (r: Vec<String>)
    ensures
        strings_view(r@) == look_styles(node@),
{
    let mut r = none();
    let ghost e = node@;
    if let Some(bg) = attr(node, "background") {
        if crate::ui4::is_css_color(bg) {
            push_text(&mut r, join2("background:", bg));
        }
    }
    let ghost r1 = strings_view(r@);
    if let Some(a) = attr(node, "alpha") {
        let x = crate::ui4::esc_attr(a);
        push_text(&mut r, join2("opacity:", x.as_str()));
    }
    let ghost r2 = strings_view(r@);
    let vis = attr(node, "visibility");
    if is_word(vis, "gone") {
        push_text(&mut r, lit("display:none"));
    } else if is_word(vis, "invisible") {
        push_text(&mut r, lit("visibility:hidden"));
    }
    proof {
        let b = match value_of(e, "background"@) {
            Some(bg) => if crate::ui4::css_color(bg) {
                seq!["background:"@ + bg]
            } else {
                seq![]
            },
            None => seq![],
        };
        let al = match value_of(e, "alpha"@) {
            Some(a) => seq!["opacity:"@ + attr_escaped(a)],
            None => seq![],
        };
        assert(r1 =~= b);
        assert(r2 =~= b + al);
    }
    assert(strings_view(r@) =~= look_styles(node@));
    r
}

fn limit_style_vec(node: &Element, key: &str, prefix: &str) -> (r: Vec<String>)
    ensures
        strings_view(r@) == limit_style(node@, key@, prefix@),
{
    match find_attr(&node.attrs, key, false) {
        Some(i) => {
            let d = dim_str(&node.attrs[i]);
            one(join2(prefix, d.as_str()))
        },
        None => none(),
    }
}

fn is_zero_px(x: &String) -> (b: bool)
    ensures
        b == (x@ == "0px"@),
{
    crate::text::eq_str(&chars_of(x.as_str()), "0px")
}

/// Whether the `|`-separated terms of `g` (split as `terms`) include `w`.
fn has_bar_term(terms: &Vec<Vec<char>>, g: &str, w: &str) -> (b: bool)
    requires
        terms@.len() == crate::ui4::bar_terms(g@).len(),
        forall|k: int| 0 <= k < terms@.len() ==> #[trigger] terms@[k]@ == crate::ui4::bar_terms(g@)[k],
    ensures
        b == crate::ui4::bar_terms(g@).contains(w@),
{
    let ghost t = crate::ui4::bar_terms(g@);
    let b = crate::ui4::has_term(terms, w);
    proof {
        if t.contains(w@) {
            let k = choose|k: int| 0 <= k < t.len() && t[k] == w@;
            assert(terms@[k]@ == w@);
        }
        if b {
            let k = choose|k: int| 0 <= k < terms@.len() && #[trigger] terms@[k]@ == w@;
            assert(t[k] == w@);
        }
    }
    b
}

fn self_align_vec(node: &Element, pt: &str, po: &str) -> (r: Vec<String>)
    ensures
        strings_view(r@) == self_align(node@, pt@, po@),
{
    if !crate::text::eq_str(&chars_of(pt), "LinearLayout") {
        return none();
    }
    let g = match attr(node, "layout_gravity") {
        Some(g) => g,
        None => {
            return none();
        },
    };
    let terms = crate::ui4::split_bars(&chars_of(g));
    let ghost t = crate::ui4::bar_terms(g@);
    if crate::text::eq_str(&chars_of(po), "vertical") {
        if has_bar_term(&terms, g, "center") || has_bar_term(&terms, g, "center_horizontal") {
            one(lit("align-self:center"))
        } else if has_bar_term(&terms, g, "right") || has_bar_term(&terms, g, "end") {
            one(lit("align-self:flex-end"))
        } else if has_bar_term(&terms, g, "left") || has_bar_term(&terms, g, "start") {
            one(lit("align-self:flex-start"))
        } else {
            none()
        }
    } else if has_bar_term(&terms, g, "center") || has_bar_term(&terms, g, "center_vertical") {
        one(lit("align-self:center"))
    } else if has_bar_term(&terms, g, "bottom") {
        one(lit("align-self:flex-end"))
    } else if has_bar_term(&terms, g, "top") {
        one(lit("align-self:flex-start"))
    } else {
        none()
    }
}

fn absolute_styles_vec(node: &Element, pt: &str) -> (r: Vec<String>)
    ensures
        strings_view(r@) == absolute_styles(node@, pt@),
{
    if crate::text::eq_str(&chars_of(pt), "AbsoluteLayout") {
        let mut r = one(lit("position:absolute"));
        let x = dim_or_zero_str(node, "layout_x");
        push_text(&mut r, join2("left:", x.as_str()));
        let y = dim_or_zero_str(node, "layout_y");
        push_text(&mut r, join2("top:", y.as_str()));
        assert(strings_view(r@) =~= absolute_styles(node@, pt@));
        r
    } else {
        none()
    }
}

fn grid_start_vec(node: &Element, key: &str, prefix: &str) -> (r: Vec<String>)
    ensures
        strings_view(r@) == grid_start(node@, key@, prefix@),
{
    match find_attr(&node.attrs, key, false) {
        Some(i) => {
            let m = &node.attrs[i].number;
            let n: i64 = if m.parsed {
                m.whole.wrapping_add(1)
            } else {
                1
            };
            proof {
                if m.parsed {
                    assert(n as int == next_int(m.whole));
                }
            }
            let mut t = lit(prefix);
            push_int(&mut t, n);
            one(t)
        },
        None => none(),
    }
}

fn grid_span_vec(node: &Element, key: &str, prefix: &str) -> (r: Vec<String>)
    ensures
        strings_view(r@) == grid_span(node@, key@, prefix@),
{
    match find_attr(&node.attrs, key, false) {
        Some(i) => {
            let m = &node.attrs[i].number;
            let n: i64 = if m.parsed && m.whole > 1 {
                m.whole
            } else {
                1
            };
            let mut t = lit(prefix);
            push_int(&mut t, n);
            one(t)
        },
        None => none(),
    }
}

fn grid_styles_vec(node: &Element, pt: &str) -> (r: Vec<String>)
    ensures
        strings_view(r@) == grid_styles(node@, pt@),
{
    if crate::text::eq_str(&chars_of(pt), "GridLayout") {
        let mut r = grid_start_vec(node, "layout_column", "grid-column-start:");
        append_all(&mut r, grid_start_vec(node, "layout_row", "grid-row-start:"));
        append_all(&mut r, grid_span_vec(node, "layout_columnSpan", "grid-column-end:span "));
        append_all(&mut r, grid_span_vec(node, "layout_rowSpan", "grid-row-end:span "));
        r
    } else {
        none()
    }
}

fn push_meta(attrs: &mut Vec<String>, node: &Element, key: &str, prefix: &str)
    ensures
        strings_view(final(attrs)@) == meta_step(strings_view(old(attrs)@), node@, key@, prefix@),
{
    match attr(node, key) {
        Some(v) => {
            let ghost before = strings_view(attrs@);
            push_text(attrs, quoted_str(prefix, v));
            assert(strings_view(attrs@) =~= meta_step(before, node@, key@, prefix@));
        },
        None => {
            assert(strings_view(attrs@) =~= meta_step(strings_view(attrs@), node@, key@, prefix@));
        },
    }
}

/// The classes, styles and attributes that every element gets, for a child of an element
/// with tag `parent_tag` and orientation `parent_orientation`.
pub fn common_parts(node: &Element, parent_tag: &str, parent_orientation: &str) -> (r: Parts)
    ensures
        parts_model(&r) == common_spec(node@, parent_tag@, parent_orientation@),
{
    let ghost e = node@;
    let mut classes = one(lit("baram-view"));
    append_all(&mut classes, style_classes_vec(node));

    let mut attrs = one(quoted_str("data-baram-tag=\"", node.tag.as_str()));
    append_all(&mut attrs, id_attrs_vec(node));
    let off = is_word(attr(node, "enabled"), "false");
    let ghost base = strings_view(attrs@);
    if off {
        push_text(&mut attrs, lit("aria-disabled=\"true\""));
        assert(strings_view(attrs@) =~= base + seq!["aria-disabled=\"true\""@]);
    } else {
        append_all(&mut attrs, none());
    }
    assert(strings_view(attrs@) == seq![quoted("data-baram-tag=\""@, e.tag)] + id_attrs(e) + if disabled(e) {
        seq!["aria-disabled=\"true\""@]
    } else {
        seq![]
    });
    push_meta(&mut attrs, node, "layout_gravity", "data-w3u-layout_gravity=\"");
    push_meta(&mut attrs, node, "layout_alignParentRight", "data-w3u-layout_alignparentright=\"");
    push_meta(&mut attrs, node, "layout_alignParentEnd", "data-w3u-layout_alignparentend=\"");
    push_meta(&mut attrs, node, "layout_alignParentBottom", "data-w3u-layout_alignparentbottom=\"");
    push_meta(&mut attrs, node, "layout_centerHorizontal", "data-w3u-layout_centerhorizontal=\"");
    push_meta(&mut attrs, node, "layout_centerVertical", "data-w3u-layout_centervertical=\"");
    push_meta(&mut attrs, node, "layout_centerInParent", "data-w3u-layout_centerinparent=\"");
    push_meta(&mut attrs, node, "layout_below", "data-w3u-layout_below=\"");
    push_meta(&mut attrs, node, "layout_above", "data-w3u-layout_above=\"");
    push_meta(&mut attrs, node, "layout_toRightOf", "data-w3u-layout_torightof=\"");
    push_meta(&mut attrs, node, "layout_toEndOf", "data-w3u-layout_toendof=\"");
    push_meta(&mut attrs, node, "layout_toLeftOf", "data-w3u-layout_toleftof=\"");
    push_meta(&mut attrs, node, "layout_toStartOf", "data-w3u-layout_tostartof=\"");
    push_meta(&mut attrs, node, "layout_alignLeft", "data-w3u-layout_alignleft=\"");
    push_meta(&mut attrs, node, "layout_alignStart", "data-w3u-layout_alignstart=\"");
    push_meta(&mut attrs, node, "layout_alignRight", "data-w3u-layout_alignright=\"");
    push_meta(&mut attrs, node, "layout_alignEnd", "data-w3u-layout_alignend=\"");
    push_meta(&mut attrs, node, "layout_alignTop", "data-w3u-layout_aligntop=\"");
    push_meta(&mut attrs, node, "layout_alignBottom", "data-w3u-layout_alignbottom=\"");
    push_meta(&mut attrs, node, "layout_margin", "data-w3u-layout_margin=\"");
    push_meta(&mut attrs, node, "layout_marginHorizontal", "data-w3u-layout_marginhorizontal=\"");
    push_meta(&mut attrs, node, "layout_marginVertical", "data-w3u-layout_marginvertical=\"");
    push_meta(&mut attrs, node, "layout_marginTop", "data-w3u-layout_margintop=\"");
    push_meta(&mut attrs, node, "layout_marginRight", "data-w3u-layout_marginright=\"");
    push_meta(&mut attrs, node, "layout_marginEnd", "data-w3u-layout_marginend=\"");
    push_meta(&mut attrs, node, "layout_marginBottom", "data-w3u-layout_marginbottom=\"");
    push_meta(&mut attrs, node, "layout_marginLeft", "data-w3u-layout_marginleft=\"");
    push_meta(&mut attrs, node, "layout_marginStart", "data-w3u-layout_marginstart=\"");

    let mut styles = size_styles_vec(node, "layout_width", "width:100%", "width:fit-content", "width:");
    append_all(
        &mut styles,
        size_styles_vec(node, "layout_height", "height:100%", "height:fit-content", "height:"),
    );
    append_all(&mut styles, weight_styles_vec(node, parent_tag, parent_orientation));
    append_all(
        &mut styles,
        sides_styles_vec(
            node,
            "padding:",
            "padding",
            "paddingHorizontal",
            "paddingVertical",
            "paddingTop",
            "paddingRight",
            "paddingEnd",
            "paddingBottom",
            "paddingLeft",
            "paddingStart",
        ),
    );
    append_all(
        &mut styles,
        sides_styles_vec(
            node,
            "margin:",
            "layout_margin",
            "layout_marginHorizontal",
            "layout_marginVertical",
            "layout_marginTop",
            "layout_marginRight",
            "layout_marginEnd",
            "layout_marginBottom",
            "layout_marginLeft",
            "layout_marginStart",
        ),
    );
    append_all(&mut styles, look_styles_vec(node));
    if off {
        let mut d = one(lit("opacity:.45"));
        push_text(&mut d, lit("pointer-events:none"));
        assert(strings_view(d@) =~= disabled_styles(e));
        append_all(&mut styles, d);
    } else {
        append_all(&mut styles, none());
    }
    let mut limits = limit_style_vec(node, "minWidth", "min-width:");
    append_all(&mut limits, limit_style_vec(node, "minHeight", "min-height:"));
    append_all(&mut limits, limit_style_vec(node, "maxWidth", "max-width:"));
    append_all(&mut limits, limit_style_vec(node, "maxHeight", "max-height:"));
    append_all(&mut styles, limits);
    let gv = attr(node, "gravity");
    crate::ui4::apply_gravity(gv, &mut styles);
    assert(match gv {
        Some(v) => Some(v@),
        None => None,
    } == value_of(e, "gravity"@));
    append_all(&mut styles, self_align_vec(node, parent_tag, parent_orientation));
    append_all(&mut styles, absolute_styles_vec(node, parent_tag));
    append_all(&mut styles, grid_styles_vec(node, parent_tag));
    assert(strings_view(classes@) == seq!["baram-view"@] + style_classes(e));
    assert(strings_view(styles@) == common_styles(e, parent_tag@, parent_orientation@));
    Parts { classes, styles, attrs }
}

// ---------------------------------------------------------------------------------------
// Rendering, stated
// ---------------------------------------------------------------------------------------

/// Whether `pat` occurs in `s`.
pub open spec fn has_text(s: Seq<char>, pat: Seq<char>) -> bool {
    crate::text::find_from(s, pat, 0) is Some
}

/// The value of `name`, or `default` when the attribute is missing.
pub open spec fn value_or(e: ElementModel, name: Seq<char>, default: Seq<char>) -> Seq<char> {
    match value_of(e, name) {
        Some(v) => v,
        None => default,
    }
}

pub open spec fn font_size_style(e: ElementModel) -> Seq<Seq<char>> {
    match attr_of(e, "textSize"@) {
        Some(a) => seq!["font-size:"@ + dim_text(a)],
        None => seq![],
    }
}

pub open spec fn color_style(e: ElementModel) -> Seq<Seq<char>> {
    match value_of(e, "textColor"@) {
        Some(v) => if crate::ui4::css_color(v) {
            seq!["color:"@ + v]
        } else {
            seq![]
        },
        None => seq![],
    }
}

pub open spec fn font_styles(e: ElementModel) -> Seq<Seq<char>> {
    match value_of(e, "textStyle"@) {
        Some(v) => (if has_text(v, "bold"@) {
            seq!["font-weight:700"@]
        } else {
            seq![]
        }) + if has_text(v, "italic"@) {
            seq!["font-style:italic"@]
        } else {
            seq![]
        },
        None => seq![],
    }
}

pub open spec fn line_styles(e: ElementModel) -> Seq<Seq<char>> {
    match value_of(e, "maxLines"@) {
        Some(_) => seq![
            "overflow:hidden"@,
            "display:-webkit-box"@,
            "-webkit-box-orient:vertical"@,
            "-webkit-line-clamp:"@ + int_text(count_of(e, "maxLines"@, 1)),
        ],
        None => seq![],
    }
}

/// The text styles: size, colour, weight and slant, and a line limit.
pub open spec fn text_styles(e: ElementModel) -> Seq<Seq<char>> {
    font_size_style(e) + color_style(e) + font_styles(e) + line_styles(e)
}

pub open spec fn with_text(p: PartsModel, e: ElementModel) -> PartsModel {
    PartsModel { styles: p.styles + text_styles(e), ..p }
}

/// `<tag attributes>content</tag>`.
pub open spec fn wrap_html(tag: Seq<char>, p: PartsModel, content: Seq<char>) -> Seq<char> {
    "<"@ + tag + attrs_text(p.classes, p.styles, p.attrs) + ">"@ + content + "</"@ + tag + ">"@
}

/// `<tag attributes>`.
pub open spec fn void_html(tag: Seq<char>, p: PartsModel) -> Seq<char> {
    "<"@ + tag + attrs_text(p.classes, p.styles, p.attrs) + ">"@
}

/// The direction of a `LinearLayout` or `RadioGroup`: `horizontal` when it says so, else
/// `vertical`; other elements have none.
pub open spec fn orientation_of(e: ElementModel) -> Seq<char> {
    if e.tag == "LinearLayout"@ || e.tag == "RadioGroup"@ {
        if value_of(e, "orientation"@) == Some("horizontal"@) {
            "horizontal"@
        } else {
            "vertical"@
        }
    } else {
        ""@
    }
}

/// The text of an element, escaped.
pub open spec fn text_html(e: ElementModel) -> Seq<char> {
    crate::ui4::text_escaped(value_or(e, "text"@, ""@))
}

/// `data-checked="true"` or `"false"`.
pub open spec fn checked_attr(e: ElementModel) -> Seq<char> {
    "data-checked=\""@ + bool_text(flag_of(e, "checked"@, false)) + "\""@
}

/// The text of a control, or its kind's name when it has none.
pub open spec fn label_or(e: ElementModel, default: Seq<char>) -> Seq<char> {
    if text_html(e).len() > 0 {
        text_html(e)
    } else {
        default
    }
}

/// The content of a check box or radio button.
pub open spec fn mark_html(label: Seq<char>) -> Seq<char> {
    "<span class=\"mark\"></span><span class=\"control-text\">"@ + label + "</span>"@
}

/// The stars of a rating bar from `1` to `k`, lit up to `rating`.
pub open spec fn stars_html(k: nat, rating: nat) -> Seq<char>
    decreases k,
{
    if k == 0 {
        seq![]
    } else {
        stars_html((k - 1) as nat, rating) + if k <= rating {
            "<span class=\"star on\">★</span>"@
        } else {
            "<span class=\"star\">★</span>"@
        }
    }
}

/// The number of stars of a rating bar (5 when `numStars` reads as no number).
pub open spec fn star_count(e: ElementModel) -> nat {
    match reading_of(e, "numStars"@) {
        Some(m) => m.at_least_one as nat,
        None => 5,
    }
}

/// The stars lit in a rating bar (0 when `rating` reads as no number).
pub open spec fn star_rating(e: ElementModel) -> nat {
    match reading_of(e, "rating"@) {
        Some(m) => m.rounded as nat,
        None => 0,
    }
}

/// The rating of a rating bar as written.
pub open spec fn rating_text(e: ElementModel) -> Seq<char> {
    match reading_of(e, "rating"@) {
        Some(m) => m.text,
        None => "0"@,
    }
}

/// Whether a progress bar is a horizontal bar rather than a spinner.
pub open spec fn progress_horizontal(e: ElementModel) -> bool {
    (match value_of(e, "style"@) {
        Some(v) => has_text(v, "progressBarStyleHorizontal"@),
        None => false,
    }) || value_of(e, "indeterminate"@) == Some("false"@)
}

/// The rows of a list view.
pub open spec fn list_rows() -> Seq<char> {
    "<div class=\"baram-list-row\">Item 1</div><div class=\"baram-list-row\">Item 2</div><div class=\"baram-list-row\">Item 3</div><div class=\"baram-list-row\">Item 4</div><div class=\"baram-list-row\">Item 5</div>"@
}

/// The cells of a grid view.
pub open spec fn grid_cells() -> Seq<char> {
    "<div class=\"baram-grid-cell\">Item 1</div><div class=\"baram-grid-cell\">Item 2</div><div class=\"baram-grid-cell\">Item 3</div><div class=\"baram-grid-cell\">Item 4</div><div class=\"baram-grid-cell\">Item 5</div><div class=\"baram-grid-cell\">Item 6</div>"@
}

/// The content of an expandable list view.
pub open spec fn expandable_rows() -> Seq<char> {
    "<div class=\"baram-list-row baram-expand-head\">Group 1</div><div class=\"baram-list-row\">Child 1</div><div class=\"baram-list-row\">Child 2</div><div class=\"baram-list-row baram-expand-head\">Group 2</div><div class=\"baram-list-row\">Child 1</div>"@
}

/// The content of a number picker.
pub open spec fn number_picker_html(e: ElementModel) -> Seq<char> {
    "<button type=\"button\" data-number-action=\"minus\">−</button><input type=\"number\" min=\""@
        + attr_escaped(value_or(e, "minValue"@, "0"@)) + "\" max=\""@ + attr_escaped(
        value_or(e, "maxValue"@, "100"@),
    ) + "\" value=\""@ + attr_escaped(value_or(e, "value"@, value_or(e, "minValue"@, "0"@)))
        + "\"><button type=\"button\" data-number-action=\"plus\">+</button>"@
}

/// The tags of elements whose content is not their children.
pub open spec fn is_leaf(t: Seq<char>) -> bool {
    t == "TextView"@ || t == "EditText"@ || t == "AutoCompleteTextView"@ || t
        == "MultiAutoCompleteTextView"@ || t == "Button"@ || t == "PrimaryButton"@ || t
        == "ImageButton"@ || t == "CheckBox"@ || t == "RadioButton"@ || t == "ToggleButton"@ || t
        == "Switch"@ || t == "Spinner"@ || t == "SeekBar"@ || t == "RatingBar"@ || t
        == "ProgressBar"@ || t == "Chronometer"@ || t == "ImageView"@ || t == "DatePicker"@ || t
        == "CalendarView"@ || t == "TimePicker"@ || t == "NumberPicker"@ || t == "ListView"@ || t
        == "GridView"@ || t == "ExpandableListView"@ || t == "SearchView"@ || t == "WebView"@ || t
        == "VideoView"@ || t == "Space"@ || t == "View"@
}

/// The HTML of a text field, text view, button or check control.
pub open spec fn text_control_html(e: ElementModel, c: PartsModel) -> Seq<char> {
    let t = e.tag;
    let text = text_html(e);
    let hint = value_or(e, "hint"@, ""@);
    if t == "TextView"@ {
        wrap_html("div"@, with_text(add_class(c, "baram-text"@), e), text)
    } else if t == "EditText"@ || t == "AutoCompleteTextView"@ || t == "MultiAutoCompleteTextView"@ {
        let p = with_text(add_class(c, "baram-edit"@), e);
        if t == "MultiAutoCompleteTextView"@ || value_of(e, "singleLine"@) == Some("false"@) {
            wrap_html(
                "textarea"@,
                if attr_escaped(hint).len() > 0 {
                    add_attr(p, quoted("placeholder=\""@, hint))
                } else {
                    p
                },
                text,
            )
        } else {
            let p1 = add_attr(p, "type=\"text\""@);
            let p2 = if attr_escaped(hint).len() > 0 {
                add_attr(p1, quoted("placeholder=\""@, hint))
            } else {
                p1
            };
            let p3 = if text.len() > 0 {
                add_attr(p2, quoted("value=\""@, value_or(e, "text"@, ""@)))
            } else {
                p2
            };
            void_html("input"@, p3)
        }
    } else if t == "Button"@ || t == "PrimaryButton"@ {
        let p = with_text(
            add_attr(
                add_class(
                    c,
                    if t == "PrimaryButton"@ {
                        "baram-primary-button"@
                    } else {
                        "baram-button"@
                    },
                ),
                "type=\"button\""@,
            ),
            e,
        );
        wrap_html("button"@, p, label_or(e, "Button"@))
    } else if t == "ImageButton"@ {
        wrap_html(
            "button"@,
            add_attr(
                add_attr(add_class(c, "baram-image-button"@), "type=\"button\""@),
                quoted("aria-label=\""@, value_or(e, "contentDescription"@, "ImageButton"@)),
            ),
            "<span class=\"camera-icon\" aria-hidden=\"true\"></span>"@,
        )
    } else if t == "CheckBox"@ {
        wrap_html(
            "div"@,
            add_attr(
                add_attr(add_attr(add_class(c, "baram-checkbox"@), "tabindex=\"0\""@), "role=\"checkbox\""@),
                checked_attr(e),
            ),
            mark_html(label_or(e, "CheckBox"@)),
        )
    } else if t == "RadioButton"@ {
        wrap_html(
            "div"@,
            add_attr(
                add_attr(add_attr(add_class(c, "baram-radio"@), "tabindex=\"0\""@), "role=\"radio\""@),
                checked_attr(e),
            ),
            mark_html(label_or(e, "RadioButton"@)),
        )
    } else if t == "ToggleButton"@ {
        let p = add_attr(
            add_attr(
                add_attr(add_attr(add_class(c, "baram-toggle"@), "type=\"button\""@), checked_attr(e)),
                quoted("data-text-on=\""@, value_or(e, "textOn"@, "ON"@)),
            ),
            quoted("data-text-off=\""@, value_or(e, "textOff"@, "OFF"@)),
        );
        wrap_html(
            "button"@,
            p,
            if flag_of(e, "checked"@, false) {
                crate::ui4::text_escaped(value_or(e, "textOn"@, "ON"@))
            } else {
                crate::ui4::text_escaped(value_or(e, "textOff"@, "OFF"@))
            },
        )
    } else {
        wrap_html(
            "div"@,
            add_attr(
                add_attr(add_attr(add_class(c, "baram-switch"@), "tabindex=\"0\""@), "role=\"switch\""@),
                checked_attr(e),
            ),
            "<span class=\"track\"><span class=\"thumb\"></span></span><span class=\"control-text\">"@
                + label_or(e, "Switch"@) + "</span>"@,
        )
    }
}

/// Whether a tag is rendered by `text_control_html`.
pub open spec fn is_text_control(t: Seq<char>) -> bool {
    t == "TextView"@ || t == "EditText"@ || t == "AutoCompleteTextView"@ || t
        == "MultiAutoCompleteTextView"@ || t == "Button"@ || t == "PrimaryButton"@ || t
        == "ImageButton"@ || t == "CheckBox"@ || t == "RadioButton"@ || t == "ToggleButton"@ || t
        == "Switch"@
}

/// The HTML of the other elements without children: inputs, bars, pickers and placeholders.
pub open spec fn widget_html(e: ElementModel, c: PartsModel) -> Seq<char> {
    let t = e.tag;
    if t == "Spinner"@ {
        wrap_html(
            "select"@,
            add_class(c, "baram-spinner"@),
            "<option>Item 1</option><option>Item 2</option><option>Item 3</option>"@,
        )
    } else if t == "SeekBar"@ {
        void_html(
            "input"@,
            add_attr(
                add_attr(
                    add_attr(add_attr(add_class(c, "baram-seek"@), "type=\"range\""@), quoted(
                        "min=\""@,
                        value_or(e, "min"@, "0"@),
                    )),
                    quoted("max=\""@, value_or(e, "max"@, "100"@)),
                ),
                quoted("value=\""@, value_or(e, "progress"@, "0"@)),
            ),
        )
    } else if t == "RatingBar"@ {
        wrap_html(
            "div"@,
            add_attr(
                add_attr(
                    add_class(c, "baram-rating"@),
                    "data-stars=\""@ + crate::text::decimal(star_count(e)) + "\""@,
                ),
                "data-rating=\""@ + rating_text(e) + "\""@,
            ),
            stars_html(star_count(e), star_rating(e)),
        )
    } else if t == "ProgressBar"@ {
        if progress_horizontal(e) {
            wrap_html(
                "progress"@,
                add_attr(
                    add_attr(
                        add_class(c, "baram-progress-horizontal"@),
                        quoted("max=\""@, value_or(e, "max"@, "100"@)),
                    ),
                    quoted("value=\""@, value_or(e, "progress"@, "0"@)),
                ),
                ""@,
            )
        } else {
            wrap_html("div"@, add_class(c, "baram-progress-spinner"@), ""@)
        }
    } else if t == "Chronometer"@ {
        wrap_html(
            "div"@,
            with_text(add_class(add_class(c, "baram-text"@), "baram-chronometer"@), e),
            "00:00"@,
        )
    } else if t == "ImageView"@ {
        wrap_html(
            "div"@,
            add_class(c, "baram-image-placeholder"@),
            crate::ui4::text_escaped(value_or(e, "contentDescription"@, "Image"@)),
        )
    } else if t == "DatePicker"@ || t == "CalendarView"@ {
        void_html("input"@, add_attr(add_class(c, "baram-date"@), "type=\"date\""@))
    } else if t == "TimePicker"@ {
        void_html("input"@, add_attr(add_class(c, "baram-time"@), "type=\"time\""@))
    } else if t == "NumberPicker"@ {
        wrap_html("div"@, add_class(c, "baram-number-picker"@), number_picker_html(e))
    } else if t == "ListView"@ {
        wrap_html("div"@, add_class(c, "baram-list"@), list_rows())
    } else if t == "GridView"@ {
        wrap_html(
            "div"@,
            add_style(
                add_class(c, "baram-grid-list"@),
                "grid-template-columns:repeat("@ + int_text(count_of(e, "numColumns"@, 2))
                    + ",1fr)"@,
            ),
            grid_cells(),
        )
    } else if t == "ExpandableListView"@ {
        wrap_html("div"@, add_class(c, "baram-expandable"@), expandable_rows())
    } else if t == "SearchView"@ {
        void_html(
            "input"@,
            add_attr(
                add_attr(add_class(c, "baram-search"@), "type=\"search\""@),
                quoted("placeholder=\""@, value_or(e, "queryHint"@, "Search"@)),
            ),
        )
    } else if t == "WebView"@ {
        wrap_html("div"@, add_class(c, "baram-web"@), "WebView"@)
    } else if t == "VideoView"@ {
        wrap_html("div"@, add_class(c, "baram-video"@), "VideoView"@)
    } else if t == "Space"@ {
        wrap_html("div"@, add_class(c, "baram-space"@), ""@)
    } else {
        wrap_html("div"@, c, ""@)
    }
}

/// The parts of a container, by its tag, before its children.
pub open spec fn container_parts(e: ElementModel, c: PartsModel) -> PartsModel {
    let t = e.tag;
    let o = orientation_of(e);
    let direction = "flex-direction:"@ + if o == "horizontal"@ {
        "row"@
    } else {
        "column"@
    };
    let orient_attr = "data-orientation=\""@ + o + "\""@;
    if t == "LinearLayout"@ {
        add_attr(add_style(add_class(c, "baram-linear"@), direction), orient_attr)
    } else if t == "RelativeLayout"@ {
        add_class(c, "baram-relative"@)
    } else if t == "FrameLayout"@ {
        add_class(c, "baram-frame"@)
    } else if t == "GridLayout"@ {
        add_style(
            add_style(
                add_class(c, "baram-grid"@),
                "grid-template-columns:repeat("@ + int_text(count_of(e, "columnCount"@, 1))
                    + ",minmax(0,1fr))"@,
            ),
            "gap:8px"@,
        )
    } else if t == "AbsoluteLayout"@ {
        add_class(c, "baram-absolute"@)
    } else if t == "ScrollView"@ {
        add_style(add_style(add_class(c, "baram-scroll"@), "overflow-y:auto"@), "overflow-x:hidden"@)
    } else if t == "HorizontalScrollView"@ {
        add_style(add_style(add_class(c, "baram-scroll"@), "overflow-x:auto"@), "overflow-y:hidden"@)
    } else if t == "RadioGroup"@ {
        add_attr(
            add_style(add_class(add_class(c, "baram-linear"@), "baram-radio-group"@), direction),
            orient_attr,
        )
    } else if t == "ViewFlipper"@ || t == "ViewAnimator"@ || t == "ViewSwitcher"@ || t
        == "TextSwitcher"@ {
        add_attr(
            add_attr(
                add_class(c, "baram-viewflipper"@),
                "data-auto-start=\""@ + bool_text(flag_of(e, "autoStart"@, false)) + "\""@,
            ),
            quoted("data-flip-interval=\""@, value_or(e, "flipInterval"@, "3000"@)),
        )
    } else {
        add_attr(add_class(c, "baram-unknown"@), quoted("data-unknown-tag=\""@, t))
    }
}

/// The HTML of an element of a layout, whose parent has tag `pt` and orientation `po`.
pub open spec fn render(e: ElementModel, pt: Seq<char>, po: Seq<char>) -> Seq<char>
    decreases e, 1int,
{
    let c = common_spec(e, pt, po);
    if e.tag == "TableLayout"@ {
        let p0 = add_class(c, "baram-table"@);
        let p = if value_of(e, "stretchColumns"@) == Some("*"@) {
            add_class(p0, "stretch-all"@)
        } else {
            p0
        };
        wrap_html("table"@, p, "<tbody>"@ + rows_html(e.children, e.children.len() as int) + "</tbody>"@)
    } else if is_text_control(e.tag) {
        text_control_html(e, c)
    } else if is_leaf(e.tag) {
        widget_html(e, c)
    } else {
        wrap_html("div"@, container_parts(e, c), render_all(e.children, e.tag, orientation_of(e)))
    }
}

/// The HTML of a list of elements, one after another.
pub open spec fn render_all(es: Seq<ElementModel>, pt: Seq<char>, po: Seq<char>) -> Seq<char>
    decreases es, 0int,
{
    if es.len() == 0 {
        seq![]
    } else {
        render_all(es.subrange(0, es.len() - 1), pt, po) + render(es[es.len() - 1], pt, po)
    }
}

/// The style of a table row with a height other than `wrap_content`.
pub open spec fn row_style(row: ElementModel) -> Seq<char> {
    match attr_of(row, "layout_height"@) {
        Some(a) => if a.value != "wrap_content"@ {
            " style=\"height:"@ + attr_escaped(dim_text(a)) + "\""@
        } else {
            ""@
        },
        None => ""@,
    }
}

/// The rows of a table from its first `k` children: each `TableRow` child, with a cell for
/// each of its children.
pub open spec fn rows_html(es: Seq<ElementModel>, k: int) -> Seq<char>
    decreases es, k,
{
    if 0 < k <= es.len() {
        rows_html(es, k - 1) + if es[k - 1].tag == "TableRow"@ {
            "<tr class=\"table-row\""@ + row_style(es[k - 1]) + ">"@ + cells_html(
                es[k - 1].children,
                es[k - 1].children.len() as int,
            ) + "</tr>"@
        } else {
            ""@
        }
    } else {
        seq![]
    }
}

/// The cells of a table row for its first `k` children.
pub open spec fn cells_html(es: Seq<ElementModel>, k: int) -> Seq<char>
    decreases es, k,
{
    if 0 < k <= es.len() {
        cells_html(es, k - 1) + "<td>"@ + render(es[k - 1], "TableRow"@, ""@) + "</td>"@
    } else {
        seq![]
    }
}

// ---------------------------------------------------------------------------------------
// Rendering
// ---------------------------------------------------------------------------------------

fn contains_text(v: &str, pat: &str) -> (r: bool)
    ensures
        r == has_text(v@, pat@),
{
    crate::text::split_once_str_vec(&chars_of(v), pat).is_some()
}

fn value_or_str<'a>(node: &'a Element, name: &str, default: &'a str) -> (r: &'a str)
    ensures
        r@ == value_or(node@, name@, default@),
{
    match attr(node, name) {
        Some(v) => v,
        None => default,
    }
}

fn text_styles_vec(node: &Element) -> (r: Vec<String>)
    ensures
        strings_view(r@) == text_styles(node@),
{
    let ghost e = node@;
    let mut r = match find_attr(&node.attrs, "textSize", false) {
        Some(i) => {
            let d = dim_str(&node.attrs[i]);
            one(join2("font-size:", d.as_str()))
        },
        None => none(),
    };
    let c = match attr(node, "textColor") {
        Some(v) => if crate::ui4::is_css_color(v) {
            one(join2("color:", v))
        } else {
            none()
        },
        None => none(),
    };
    assert(strings_view(c@) == color_style(e));
    append_all(&mut r, c);
    let mut f = none();
    if let Some(v) = attr(node, "textStyle") {
        if contains_text(v, "bold") {
            push_text(&mut f, lit("font-weight:700"));
        }
        let ghost f1 = strings_view(f@);
        if contains_text(v, "italic") {
            push_text(&mut f, lit("font-style:italic"));
        }
        proof {
            assert(f1 =~= if has_text(v@, "bold"@) {
                seq!["font-weight:700"@]
            } else {
                seq![]
            });
            assert(strings_view(f@) =~= font_styles(e));
        }
    }
    assert(strings_view(f@) =~= font_styles(e));
    append_all(&mut r, f);
    let l = match attr(node, "maxLines") {
        Some(_) => {
            let n = count(node, "maxLines", 1);
            let mut l = one(lit("overflow:hidden"));
            push_text(&mut l, lit("display:-webkit-box"));
            push_text(&mut l, lit("-webkit-box-orient:vertical"));
            let mut t = lit("-webkit-line-clamp:");
            push_int(&mut t, n);
            push_text(&mut l, t);
            assert(strings_view(l@) =~= line_styles(e));
            l
        },
        None => none(),
    };
    append_all(&mut r, l);
    r
}

fn apply_text(node: &Element, p: &mut Parts)
    ensures
        parts_model(final(p)) == with_text(parts_model(old(p)), node@),
{
    let v = text_styles_vec(node);
    append_all(&mut p.styles, v);
}

fn checked_attr_str(node: &Element) -> (r: String)
    ensures
        r@ == checked_attr(node@),
{
    let mut a = lit("data-checked=\"");
    a.append(
        if bool_attr(node, "checked", false) {
            "true"
        } else {
            "false"
        },
    );
    a.append("\"");
    a
}

fn label_or_str(text: &String, default: &str) -> (r: String)
    ensures
        r@ == (if text@.len() > 0 {
            text@
        } else {
            default@
        }),
{
    if text.unicode_len() > 0 {
        lit(text.as_str())
    } else {
        lit(default)
    }
}

fn mark_str(label: &String) -> (r: String)
    ensures
        r@ == mark_html(label@),
{
    let mut s = lit("<span class=\"mark\"></span><span class=\"control-text\">");
    s.append(label.as_str());
    s.append("</span>");
    s
}

fn is_text_control_str(t: &Vec<char>) -> (r: bool)
    ensures
        r == is_text_control(t@),
{
    crate::text::eq_str(t, "TextView") || crate::text::eq_str(t, "EditText") || crate::text::eq_str(
        t,
        "AutoCompleteTextView",
    ) || crate::text::eq_str(t, "MultiAutoCompleteTextView") || crate::text::eq_str(t, "Button")
        || crate::text::eq_str(t, "PrimaryButton") || crate::text::eq_str(t, "ImageButton")
        || crate::text::eq_str(t, "CheckBox") || crate::text::eq_str(t, "RadioButton")
        || crate::text::eq_str(t, "ToggleButton") || crate::text::eq_str(t, "Switch")
}

fn is_leaf_str(t: &Vec<char>) -> (r: bool)
    ensures
        r == is_leaf(t@),
{
    is_text_control_str(t) || crate::text::eq_str(t, "Spinner") || crate::text::eq_str(t, "SeekBar")
        || crate::text::eq_str(t, "RatingBar") || crate::text::eq_str(t, "ProgressBar")
        || crate::text::eq_str(t, "Chronometer") || crate::text::eq_str(t, "ImageView")
        || crate::text::eq_str(t, "DatePicker") || crate::text::eq_str(t, "CalendarView")
        || crate::text::eq_str(t, "TimePicker") || crate::text::eq_str(t, "NumberPicker")
        || crate::text::eq_str(t, "ListView") || crate::text::eq_str(t, "GridView")
        || crate::text::eq_str(t, "ExpandableListView") || crate::text::eq_str(t, "SearchView")
        || crate::text::eq_str(t, "WebView") || crate::text::eq_str(t, "VideoView")
        || crate::text::eq_str(t, "Space") || crate::text::eq_str(t, "View")
}

fn edit_html(node: &Element, c: Parts) -> (r: String)
    requires
        node@.tag != "TextView"@,
        node@.tag == "EditText"@ || node@.tag == "AutoCompleteTextView"@ || node@.tag
            == "MultiAutoCompleteTextView"@,
    ensures
        r@ == text_control_html(node@, parts_model(&c)),
{
    let t = chars_of(node.tag.as_str());
    let text = crate::ui4::esc_text(value_or_str(node, "text", ""));
    let hint_raw = value_or_str(node, "hint", "");
    let hint = crate::ui4::esc_attr(hint_raw);
    let mut p = c;
    class(&mut p, "baram-edit");
    apply_text(node, &mut p);
    if crate::text::eq_str(&t, "MultiAutoCompleteTextView") || is_word(attr(node, "singleLine"), "false") {
        if hint.unicode_len() > 0 {
            attribute(&mut p, quoted_str("placeholder=\"", hint_raw));
        }
        wrap_str("textarea", &p, &text)
    } else {
        attribute(&mut p, lit("type=\"text\""));
        if hint.unicode_len() > 0 {
            attribute(&mut p, quoted_str("placeholder=\"", hint_raw));
        }
        if text.unicode_len() > 0 {
            attribute(&mut p, quoted_str("value=\"", value_or_str(node, "text", "")));
        }
        void_str("input", &p)
    }
}

fn wrap_str(tag: &str, p: &Parts, content: &String) -> (r: String)
    ensures
        r@ == wrap_html(tag@, parts_model(p), content@),
{
    crate::ui4::wrap(tag, p, content.as_str())
}

fn void_str(tag: &str, p: &Parts) -> (r: String)
    ensures
        r@ == void_html(tag@, parts_model(p)),
{
    crate::ui4::void_tag(tag, p)
}

fn check_html(node: &Element, c: Parts, cls: &str, role: &str, default: &str) -> (r: String)
    ensures
        r@ == wrap_html(
            "div"@,
            add_attr(
                add_attr(add_attr(add_class(parts_model(&c), cls@), "tabindex=\"0\""@), role@),
                checked_attr(node@),
            ),
            mark_html(label_or(node@, default@)),
        ),
{
    let text = crate::ui4::esc_text(value_or_str(node, "text", ""));
    let mut p = c;
    class(&mut p, cls);
    attribute(&mut p, lit("tabindex=\"0\""));
    attribute(&mut p, lit(role));
    attribute(&mut p, checked_attr_str(node));
    let label = label_or_str(&text, default);
    wrap_str("div", &p, &mark_str(&label))
}

fn text_control(node: &Element, c: Parts) -> (r: String)
    requires
        is_text_control(node@.tag),
    ensures
        r@ == text_control_html(node@, parts_model(&c)),
{
    let ghost c0 = parts_model(&c);
    let t = chars_of(node.tag.as_str());
    let text = crate::ui4::esc_text(value_or_str(node, "text", ""));
    if crate::text::eq_str(&t, "TextView") {
        let mut p = c;
        class(&mut p, "baram-text");
        apply_text(node, &mut p);
        return wrap_str("div", &p, &text);
    }
    if crate::text::eq_str(&t, "EditText") || crate::text::eq_str(&t, "AutoCompleteTextView")
        || crate::text::eq_str(&t, "MultiAutoCompleteTextView") {
        return edit_html(node, c);
    }
    if crate::text::eq_str(&t, "Button") || crate::text::eq_str(&t, "PrimaryButton") {
        let mut p = c;
        class(
            &mut p,
            if crate::text::eq_str(&t, "PrimaryButton") {
                "baram-primary-button"
            } else {
                "baram-button"
            },
        );
        attribute(&mut p, lit("type=\"button\""));
        apply_text(node, &mut p);
        return wrap_str("button", &p, &label_or_str(&text, "Button"));
    }
    if crate::text::eq_str(&t, "ImageButton") {
        let mut p = c;
        class(&mut p, "baram-image-button");
        attribute(&mut p, lit("type=\"button\""));
        attribute(
            &mut p,
            quoted_str("aria-label=\"", value_or_str(node, "contentDescription", "ImageButton")),
        );
        return wrap_str("button", &p, &lit("<span class=\"camera-icon\" aria-hidden=\"true\"></span>"));
    }
    if crate::text::eq_str(&t, "CheckBox") {
        return check_html(node, c, "baram-checkbox", "role=\"checkbox\"", "CheckBox");
    }
    if crate::text::eq_str(&t, "RadioButton") {
        return check_html(node, c, "baram-radio", "role=\"radio\"", "RadioButton");
    }
    if crate::text::eq_str(&t, "ToggleButton") {
        let mut p = c;
        class(&mut p, "baram-toggle");
        attribute(&mut p, lit("type=\"button\""));
        attribute(&mut p, checked_attr_str(node));
        attribute(&mut p, quoted_str("data-text-on=\"", value_or_str(node, "textOn", "ON")));
        attribute(&mut p, quoted_str("data-text-off=\"", value_or_str(node, "textOff", "OFF")));
        let label = if bool_attr(node, "checked", false) {
            crate::ui4::esc_text(value_or_str(node, "textOn", "ON"))
        } else {
            crate::ui4::esc_text(value_or_str(node, "textOff", "OFF"))
        };
        return wrap_str("button", &p, &label);
    }
    let mut p = c;
    class(&mut p, "baram-switch");
    attribute(&mut p, lit("tabindex=\"0\""));
    attribute(&mut p, lit("role=\"switch\""));
    attribute(&mut p, checked_attr_str(node));
    let label = label_or_str(&text, "Switch");
    let mut content = lit(
        "<span class=\"track\"><span class=\"thumb\"></span></span><span class=\"control-text\">",
    );
    content.append(label.as_str());
    content.append("</span>");
    wrap_str("div", &p, &content)
}

fn stars_str(count: u64, rating: u64) -> (r: String)
    ensures
        r@ == stars_html(count as nat, rating as nat),
{
    let mut out = String::new();
    let mut i: u64 = 0;
    while i < count
        invariant
            i <= count,
            out@ == stars_html(i as nat, rating as nat),
        decreases count - i,
    {
        i += 1;
        if i <= rating {
            out.append("<span class=\"star on\">★</span>");
        } else {
            out.append("<span class=\"star\">★</span>");
        }
    }
    out
}

fn rating_html(node: &Element, c: Parts) -> (r: String)
    requires
        node@.tag != "Spinner"@,
        node@.tag != "SeekBar"@,
        node@.tag == "RatingBar"@,
    ensures
        r@ == widget_html(node@, parts_model(&c)),
{
    let stars: u64 = match reading(node, "numStars") {
        Some(m) => m.at_least_one,
        None => 5,
    };
    let rated: u64 = match reading(node, "rating") {
        Some(m) => m.rounded,
        None => 0,
    };
    let rtext = match reading(node, "rating") {
        Some(m) => lit(m.text.as_str()),
        None => lit("0"),
    };
    let mut p = c;
    class(&mut p, "baram-rating");
    let mut a = lit("data-stars=\"");
    crate::text::push_decimal(&mut a, stars);
    a.append("\"");
    attribute(&mut p, a);
    let mut b = lit("data-rating=\"");
    b.append(rtext.as_str());
    b.append("\"");
    attribute(&mut p, b);
    wrap_str("div", &p, &stars_str(stars, rated))
}

fn widget(node: &Element, c: Parts) -> (r: String)
    requires
        is_leaf(node@.tag),
        !is_text_control(node@.tag),
    ensures
        r@ == widget_html(node@, parts_model(&c)),
{
    let t = chars_of(node.tag.as_str());
    let mut p = c;
    if crate::text::eq_str(&t, "Spinner") {
        class(&mut p, "baram-spinner");
        return wrap_str(
            "select",
            &p,
            &lit("<option>Item 1</option><option>Item 2</option><option>Item 3</option>"),
        );
    }
    if crate::text::eq_str(&t, "SeekBar") {
        class(&mut p, "baram-seek");
        attribute(&mut p, lit("type=\"range\""));
        attribute(&mut p, quoted_str("min=\"", value_or_str(node, "min", "0")));
        attribute(&mut p, quoted_str("max=\"", value_or_str(node, "max", "100")));
        attribute(&mut p, quoted_str("value=\"", value_or_str(node, "progress", "0")));
        return void_str("input", &p);
    }
    if crate::text::eq_str(&t, "RatingBar") {
        return rating_html(node, p);
    }
    if crate::text::eq_str(&t, "ProgressBar") {
        let style_says = match attr(node, "style") {
            Some(v) => contains_text(v, "progressBarStyleHorizontal"),
            None => false,
        };
        if style_says || is_word(attr(node, "indeterminate"), "false") {
            class(&mut p, "baram-progress-horizontal");
            attribute(&mut p, quoted_str("max=\"", value_or_str(node, "max", "100")));
            attribute(&mut p, quoted_str("value=\"", value_or_str(node, "progress", "0")));
            return wrap_str("progress", &p, &lit(""));
        } else {
            class(&mut p, "baram-progress-spinner");
            return wrap_str("div", &p, &lit(""));
        }
    }
    if crate::text::eq_str(&t, "Chronometer") {
        class(&mut p, "baram-text");
        class(&mut p, "baram-chronometer");
        apply_text(node, &mut p);
        return wrap_str("div", &p, &lit("00:00"));
    }
    if crate::text::eq_str(&t, "ImageView") {
        class(&mut p, "baram-image-placeholder");
        return wrap_str(
            "div",
            &p,
            &crate::ui4::esc_text(value_or_str(node, "contentDescription", "Image")),
        );
    }
    if crate::text::eq_str(&t, "DatePicker") || crate::text::eq_str(&t, "CalendarView") {
        class(&mut p, "baram-date");
        attribute(&mut p, lit("type=\"date\""));
        return void_str("input", &p);
    }
    if crate::text::eq_str(&t, "TimePicker") {
        class(&mut p, "baram-time");
        attribute(&mut p, lit("type=\"time\""));
        return void_str("input", &p);
    }
    if crate::text::eq_str(&t, "NumberPicker") {
        class(&mut p, "baram-number-picker");
        let min_raw = value_or_str(node, "minValue", "0");
        let mut s = lit(
            "<button type=\"button\" data-number-action=\"minus\">−</button><input type=\"number\" min=\"",
        );
        s.append(crate::ui4::esc_attr(min_raw).as_str());
        s.append("\" max=\"");
        s.append(crate::ui4::esc_attr(value_or_str(node, "maxValue", "100")).as_str());
        s.append("\" value=\"");
        s.append(crate::ui4::esc_attr(value_or_str(node, "value", min_raw)).as_str());
        s.append("\"><button type=\"button\" data-number-action=\"plus\">+</button>");
        return wrap_str("div", &p, &s);
    }
    if crate::text::eq_str(&t, "ListView") {
        class(&mut p, "baram-list");
        return wrap_str(
            "div",
            &p,
            &lit(
                "<div class=\"baram-list-row\">Item 1</div><div class=\"baram-list-row\">Item 2</div><div class=\"baram-list-row\">Item 3</div><div class=\"baram-list-row\">Item 4</div><div class=\"baram-list-row\">Item 5</div>",
            ),
        );
    }
    if crate::text::eq_str(&t, "GridView") {
        class(&mut p, "baram-grid-list");
        let n = count(node, "numColumns", 2);
        let mut s = lit("grid-template-columns:repeat(");
        push_int(&mut s, n);
        s.append(",1fr)");
        style(&mut p, s);
        return wrap_str(
            "div",
            &p,
            &lit(
                "<div class=\"baram-grid-cell\">Item 1</div><div class=\"baram-grid-cell\">Item 2</div><div class=\"baram-grid-cell\">Item 3</div><div class=\"baram-grid-cell\">Item 4</div><div class=\"baram-grid-cell\">Item 5</div><div class=\"baram-grid-cell\">Item 6</div>",
            ),
        );
    }
    if crate::text::eq_str(&t, "ExpandableListView") {
        class(&mut p, "baram-expandable");
        return wrap_str(
            "div",
            &p,
            &lit(
                "<div class=\"baram-list-row baram-expand-head\">Group 1</div><div class=\"baram-list-row\">Child 1</div><div class=\"baram-list-row\">Child 2</div><div class=\"baram-list-row baram-expand-head\">Group 2</div><div class=\"baram-list-row\">Child 1</div>",
            ),
        );
    }
    if crate::text::eq_str(&t, "SearchView") {
        class(&mut p, "baram-search");
        attribute(&mut p, lit("type=\"search\""));
        attribute(&mut p, quoted_str("placeholder=\"", value_or_str(node, "queryHint", "Search")));
        return void_str("input", &p);
    }
    if crate::text::eq_str(&t, "WebView") {
        class(&mut p, "baram-web");
        return wrap_str("div", &p, &lit("WebView"));
    }
    if crate::text::eq_str(&t, "VideoView") {
        class(&mut p, "baram-video");
        return wrap_str("div", &p, &lit("VideoView"));
    }
    if crate::text::eq_str(&t, "Space") {
        class(&mut p, "baram-space");
        return wrap_str("div", &p, &lit(""));
    }
    wrap_str("div", &p, &lit(""))
}

fn orientation_str(node: &Element) -> (r: &'static str)
    ensures
        r@ == orientation_of(node@),
{
    let t = chars_of(node.tag.as_str());
    if crate::text::eq_str(&t, "LinearLayout") || crate::text::eq_str(&t, "RadioGroup") {
        if is_word(attr(node, "orientation"), "horizontal") {
            "horizontal"
        } else {
            "vertical"
        }
    } else {
        ""
    }
}

fn container_parts_exec(node: &Element, p: &mut Parts)
    requires
        !is_leaf(node@.tag),
    ensures
        parts_model(final(p)) == container_parts(node@, parts_model(old(p))),
{
    let t = chars_of(node.tag.as_str());
    let o = orientation_str(node);
    let horizontal = crate::text::eq_str(&chars_of(o), "horizontal");
    let linear = crate::text::eq_str(&t, "LinearLayout");
    let radio = crate::text::eq_str(&t, "RadioGroup");
    if linear {
        class(p, "baram-linear");
        style(
            p,
            join2(
                "flex-direction:",
                if horizontal {
                    "row"
                } else {
                    "column"
                },
            ),
        );
        let mut a = lit("data-orientation=\"");
        a.append(o);
        a.append("\"");
        attribute(p, a);
    } else if crate::text::eq_str(&t, "RelativeLayout") {
        class(p, "baram-relative");
    } else if crate::text::eq_str(&t, "FrameLayout") {
        class(p, "baram-frame");
    } else if crate::text::eq_str(&t, "GridLayout") {
        class(p, "baram-grid");
        let n = count(node, "columnCount", 1);
        let mut s = lit("grid-template-columns:repeat(");
        push_int(&mut s, n);
        s.append(",minmax(0,1fr))");
        style(p, s);
        style(p, lit("gap:8px"));
    } else if crate::text::eq_str(&t, "AbsoluteLayout") {
        class(p, "baram-absolute");
    } else if crate::text::eq_str(&t, "ScrollView") {
        class(p, "baram-scroll");
        style(p, lit("overflow-y:auto"));
        style(p, lit("overflow-x:hidden"));
    } else if crate::text::eq_str(&t, "HorizontalScrollView") {
        class(p, "baram-scroll");
        style(p, lit("overflow-x:auto"));
        style(p, lit("overflow-y:hidden"));
    } else if radio {
        class(p, "baram-linear");
        class(p, "baram-radio-group");
        style(
            p,
            join2(
                "flex-direction:",
                if horizontal {
                    "row"
                } else {
                    "column"
                },
            ),
        );
        let mut a = lit("data-orientation=\"");
        a.append(o);
        a.append("\"");
        attribute(p, a);
    } else if crate::text::eq_str(&t, "ViewFlipper") || crate::text::eq_str(&t, "ViewAnimator")
        || crate::text::eq_str(&t, "ViewSwitcher") || crate::text::eq_str(&t, "TextSwitcher") {
        class(p, "baram-viewflipper");
        let mut a = lit("data-auto-start=\"");
        a.append(
            if bool_attr(node, "autoStart", false) {
                "true"
            } else {
                "false"
            },
        );
        a.append("\"");
        attribute(p, a);
        attribute(
            p,
            quoted_str("data-flip-interval=\"", value_or_str(node, "flipInterval", "3000")),
        );
    } else {
        class(p, "baram-unknown");
        attribute(p, quoted_str("data-unknown-tag=\"", node.tag.as_str()));
    }
}

/// The HTML of an element of a layout and its children, for a parent with tag `parent_tag`
/// and orientation `parent_orientation` (both empty at the root).
pub fn render_node(node: &Element, parent_tag: &str, parent_orientation: &str) -> (r: String)
    ensures
        r@ == render(node@, parent_tag@, parent_orientation@),
    decreases node, 1int,
{
    let mut c = common_parts(node, parent_tag, parent_orientation);
    let t = chars_of(node.tag.as_str());
    assert(node@.children =~= elements_view(node.children@));
    if crate::text::eq_str(&t, "TableLayout") {
        class(&mut c, "baram-table");
        if is_word(attr(node, "stretchColumns"), "*") {
            class(&mut c, "stretch-all");
        }
        let mut body = lit("<tbody>");
        let rows = render_rows(&node.children);
        body.append(rows.as_str());
        body.append("</tbody>");
        return wrap_str("table", &c, &body);
    }
    if is_text_control_str(&t) {
        return text_control(node, c);
    }
    if is_leaf_str(&t) {
        return widget(node, c);
    }
    container_parts_exec(node, &mut c);
    let o = orientation_str(node);
    let kids = render_children(&node.children, node.tag.as_str(), o);
    wrap_str("div", &c, &kids)
}

/// The HTML of each of `nodes` in order, for a parent with tag `parent_tag` and orientation
/// `parent_orientation`.
pub fn render_children(nodes: &Vec<Element>, parent_tag: &str, parent_orientation: &str) -> (r:
    String)
    ensures
        r@ == render_all(elements_view(nodes@), parent_tag@, parent_orientation@),
    decreases nodes, 0int,
{
    let ghost all = elements_view(nodes@);
    let mut out = String::new();
    let mut i: usize = 0;
    assert(all.subrange(0, 0) =~= Seq::<ElementModel>::empty());
    while i < nodes.len()
        invariant
            i <= nodes@.len(),
            all == elements_view(nodes@),
            out@ == render_all(all.subrange(0, i as int), parent_tag@, parent_orientation@),
        decreases nodes@.len() - i,
    {
        let ghost x = all.subrange(0, i + 1);
        assert(x.subrange(0, i as int) =~= all.subrange(0, i as int));
        assert(x[i as int] == nodes@[i as int]@);
        let h = render_node(&nodes[i], parent_tag, parent_orientation);
        out.append(h.as_str());
        i += 1;
    }
    assert(all.subrange(0, nodes@.len() as int) =~= all);
    out
}

fn row_style_str(row: &Element) -> (r: String)
    ensures
        r@ == row_style(row@),
{
    match find_attr(&row.attrs, "layout_height", false) {
        Some(i) => {
            let a = &row.attrs[i];
            if !is_word(Some(a.value.as_str()), "wrap_content") {
                let d = dim_str(a);
                let mut s = lit(" style=\"height:");
                s.append(crate::ui4::esc_attr(d.as_str()).as_str());
                s.append("\"");
                s
            } else {
                lit("")
            }
        },
        None => lit(""),
    }
}

/// The rows of a table whose children are `rows`.
fn render_rows(rows: &Vec<Element>) -> (r: String)
    ensures
        r@ == rows_html(elements_view(rows@), rows@.len() as int),
    decreases rows, 0int,
{
    let ghost all = elements_view(rows@);
    let mut out = String::new();
    let mut i: usize = 0;
    while i < rows.len()
        invariant
            i <= rows@.len(),
            all == elements_view(rows@),
            out@ == rows_html(all, i as int),
        decreases rows@.len() - i,
    {
        let row = &rows[i];
        assert(all[i as int] == row@);
        assert(row@.children =~= elements_view(row.children@));
        if crate::text::eq_str(&chars_of(row.tag.as_str()), "TableRow") {
            out.append("<tr class=\"table-row\"");
            out.append(row_style_str(row).as_str());
            out.append(">");
            out.append(render_cells(&row.children).as_str());
            out.append("</tr>");
        } else {
            out.append("");
        }
        i += 1;
    }
    out
}

/// The cells of a table row whose children are `cells`.
fn render_cells(cells: &Vec<Element>) -> (r: String)
    ensures
        r@ == cells_html(elements_view(cells@), cells@.len() as int),
    decreases cells, 0int,
{
    let ghost all = elements_view(cells@);
    let mut out = String::new();
    let mut i: usize = 0;
    while i < cells.len()
        invariant
            i <= cells@.len(),
            all == elements_view(cells@),
            out@ == cells_html(all, i as int),
        decreases cells@.len() - i,
    {
        assert(all[i as int] == cells@[i as int]@);
        out.append("<td>");
        out.append(render_node(&cells[i], "TableRow", "").as_str());
        out.append("</td>");
        i += 1;
    }
    out
}

} // verus!
