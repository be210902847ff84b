//! The Warp 3 compiler: the `.w3u` UI language, the `.w3s` script sections and their
//! compilation to HTML and JavaScript.
use vstd::prelude::*;
use crate::text::{
    chars_of, debug_option_char, decimal, ends_with, ends_with_str, eq_str, is_alphanumeric,
    is_whitespace, is_ws, lines_vec, lit, option_char_debug, push_chars, push_decimal, slice_vec,
    split_once, split_once_vec, starts_with, starts_with_str, string_of, trim, trim_vec,
    alphanumeric,
};

verus! {

/// One element of a Warp 3 UI file: `tag,tag.class.class { prop("value") child { .. } }`.
#[derive(Debug)]
pub struct Node {
    pub tags: Vec<String>,
    pub classes: Vec<String>,
    pub props: Vec<(String, String)>,
    pub children: Vec<Node>,
}

/// The mathematical value of a `Node`.
#[verifier::ext_equal]
pub struct NodeModel {
    pub tags: Seq<Seq<char>>,
    pub classes: Seq<Seq<char>>,
    pub props: Seq<(Seq<char>, Seq<char>)>,
    pub children: Seq<NodeModel>,
}

pub open spec fn strings_view(v: Seq<String>) -> Seq<Seq<char>> {
    v.map_values(|s: String| s@)
}

pub open spec fn pairs_view(v: Seq<(String, String)>) -> Seq<(Seq<char>, Seq<char>)> {
    v.map_values(|p: (String, String)| (p.0@, p.1@))
}

impl View for Node {
    type V = NodeModel;

    open spec fn view(&self) -> NodeModel
        decreases self,
    {
        NodeModel {
            tags: strings_view(self.tags@),
            classes: strings_view(self.classes@),
            props: pairs_view(self.props@),
            children: Seq::new(
                self.children@.len(),
                |i: int|
                    if 0 <= i < self.children@.len() {
                        self.children@[i].view()
                    } else {
                        NodeModel {
                            tags: seq![],
                            classes: seq![],
                            props: seq![],
                            children: seq![],
                        }
                    },
            ),
        }
    }
}

pub open spec fn nodes_view(v: Seq<Node>) -> Seq<NodeModel> {
    v.map_values(|n: Node| n@)
}

// ---------------------------------------------------------------------------------------
// The UI grammar, stated over the character sequence and a position in it.
// ---------------------------------------------------------------------------------------

/// The character at `p`, if there is one.
pub open spec fn char_at(cs: Seq<char>, p: int) -> Option<char> {
    if 0 <= p < cs.len() {
        Some(cs[p])
    } else {
        None
    }
}

/// The first position at or after `p` that is not whitespace.
pub open spec fn skip_ws(cs: Seq<char>, p: int) -> int
    decreases cs.len() - p,
{
    if 0 <= p < cs.len() && is_ws(cs[p]) {
        skip_ws(cs, p + 1)
    } else {
        p
    }
}

/// The first line feed at or after `p`, or the end.
pub open spec fn line_end(cs: Seq<char>, p: int) -> int
    decreases cs.len() - p,
{
    if 0 <= p < cs.len() && cs[p] != '\n' {
        line_end(cs, p + 1)
    } else {
        p
    }
}

pub proof fn lemma_skip_ws(cs: Seq<char>, p: int)
    ensures
        p <= skip_ws(cs, p),
        0 <= p <= cs.len() ==> skip_ws(cs, p) <= cs.len(),
    decreases cs.len() - p,
{
    if 0 <= p < cs.len() && is_ws(cs[p]) {
        lemma_skip_ws(cs, p + 1);
    }
}

pub proof fn lemma_line_end(cs: Seq<char>, p: int)
    ensures
        p <= line_end(cs, p),
        0 <= p <= cs.len() ==> line_end(cs, p) <= cs.len(),
    decreases cs.len() - p,
{
    if 0 <= p < cs.len() && cs[p] != '\n' {
        lemma_line_end(cs, p + 1);
    }
}

/// Whitespace and `//` comments skipped from `p`.
pub open spec fn skip_sc(cs: Seq<char>, p: int) -> int
    decreases cs.len() - p,
{
    let q = skip_ws(cs, p);
    if 0 <= p && q + 1 < cs.len() && cs[q] == '/' && cs[q + 1] == '/' {
        proof {
            lemma_skip_ws(cs, p);
            lemma_line_end(cs, q + 1);
        }
        skip_sc(cs, line_end(cs, q))
    } else {
        q
    }
}

pub proof fn lemma_skip_sc(cs: Seq<char>, p: int)
    ensures
        p <= skip_sc(cs, p),
        0 <= p <= cs.len() ==> skip_sc(cs, p) <= cs.len(),
    decreases cs.len() - p,
{
    let q = skip_ws(cs, p);
    lemma_skip_ws(cs, p);
    if 0 <= p && q + 1 < cs.len() && cs[q] == '/' && cs[q + 1] == '/' {
        lemma_line_end(cs, q + 1);
        lemma_skip_sc(cs, line_end(cs, q));
    }
}

/// A character that may stand in a name.
pub open spec fn is_ident_char(c: char) -> bool {
    alphanumeric(c) || c == '-' || c == '_'
}

/// The end of the run of name characters that starts at `p`.
pub open spec fn ident_end(cs: Seq<char>, p: int) -> int
    decreases cs.len() - p,
{
    if 0 <= p < cs.len() && is_ident_char(cs[p]) {
        ident_end(cs, p + 1)
    } else {
        p
    }
}

pub proof fn lemma_ident_end(cs: Seq<char>, p: int)
    ensures
        p <= ident_end(cs, p),
        0 <= p <= cs.len() ==> ident_end(cs, p) <= cs.len(),
    decreases cs.len() - p,
{
    if 0 <= p < cs.len() && is_ident_char(cs[p]) {
        lemma_ident_end(cs, p + 1);
    }
}

/// `{n}文字目: 名前が必要です` for the position `p`.
pub open spec fn err_name_needed(p: int) -> Seq<char> {
    decimal((p + 1) as nat) + "文字目: 名前が必要です"@
}

/// `{n}文字目: `{c}` が必要です` for the position `p`.
pub open spec fn err_expected(p: int, c: char) -> Seq<char> {
    decimal((p + 1) as nat) + "文字目: `"@ + seq![c] + "` が必要です"@
}

pub open spec fn err_unclosed_brace() -> Seq<char> {
    "閉じる `}` がありません"@
}

pub open spec fn err_extra_brace(p: int) -> Seq<char> {
    decimal((p + 1) as nat) + "文字目に余分な `}` があります"@
}

pub open spec fn err_bad_prop_name() -> Seq<char> {
    "プロパティ呼び出しの名前が不正です"@
}

pub open spec fn err_root_prop(name: Seq<char>, value: Seq<char>) -> Seq<char> {
    "ルートではプロパティ `"@ + name + "` を使えません（値: "@ + value + "）"@
}

pub open spec fn err_open_expected(p: int, found: Option<char>) -> Seq<char> {
    decimal((p + 1) as nat) + "文字目: `{` または `(` が必要です（実際: "@ + option_char_debug(found)
        + "）"@
}

pub open spec fn err_escape_cut() -> Seq<char> {
    "文字列のエスケープが途中で終わっています"@
}

pub open spec fn err_string_unclosed() -> Seq<char> {
    "文字列が閉じられていません"@
}

/// A name starting at `p`, and the position after it.
pub open spec fn spec_ident(cs: Seq<char>, p: int) -> Result<(Seq<char>, int), Seq<char>> {
    let e = ident_end(cs, p);
    if e == p {
        Err(err_name_needed(p))
    } else {
        Ok((cs.subrange(p, e), e))
    }
}

pub proof fn lemma_spec_ident(cs: Seq<char>, p: int)
    requires
        0 <= p <= cs.len(),
    ensures
        spec_ident(cs, p) matches Ok((_, q)) ==> p < q <= cs.len(),
{
    lemma_ident_end(cs, p);
}

/// The `.class` and `,tag` parts of a selector after its first name.
pub open spec fn spec_selector_rest(
    cs: Seq<char>,
    p: int,
    tags: Seq<Seq<char>>,
    classes: Seq<Seq<char>>,
) -> Result<((Seq<Seq<char>>, Seq<Seq<char>>), int), Seq<char>>
    decreases cs.len() - p,
{
    if 0 <= p < cs.len() && cs[p] == '.' {
        match spec_ident(cs, p + 1) {
            Err(e) => Err(e),
            Ok((name, q)) => {
                proof {
                    lemma_spec_ident(cs, p + 1);
                }
                spec_selector_rest(cs, q, tags, classes.push(name))
            },
        }
    } else if 0 <= p < cs.len() && cs[p] == ',' {
        let q = skip_sc(cs, p + 1);
        proof {
            lemma_skip_sc(cs, p + 1);
        }
        match spec_ident(cs, q) {
            Err(e) => Err(e),
            Ok((name, r)) => {
                proof {
                    lemma_spec_ident(cs, q);
                }
                spec_selector_rest(cs, r, tags.push(name), classes)
            },
        }
    } else {
        Ok(((tags, classes), p))
    }
}

/// A selector `tag,tag.class` starting at `p`: its tags and classes, and the position after it.
pub open spec fn spec_selector(cs: Seq<char>, p: int) -> Result<
    ((Seq<Seq<char>>, Seq<Seq<char>>), int),
    Seq<char>,
> {
    match spec_ident(cs, p) {
        Err(e) => Err(e),
        Ok((name, q)) => spec_selector_rest(cs, q, seq![name], seq![]),
    }
}

pub proof fn lemma_selector_rest(
    cs: Seq<char>,
    p: int,
    tags: Seq<Seq<char>>,
    classes: Seq<Seq<char>>,
)
    requires
        0 <= p <= cs.len(),
    ensures
        spec_selector_rest(cs, p, tags, classes) matches Ok((_, q)) ==> p <= q <= cs.len(),
    decreases cs.len() - p,
{
    if 0 <= p < cs.len() && cs[p] == '.' {
        lemma_spec_ident(cs, p + 1);
        if let Ok((name, q)) = spec_ident(cs, p + 1) {
            lemma_selector_rest(cs, q, tags, classes.push(name));
        }
    } else if 0 <= p < cs.len() && cs[p] == ',' {
        let q = skip_sc(cs, p + 1);
        lemma_skip_sc(cs, p + 1);
        lemma_spec_ident(cs, q);
        if let Ok((name, r)) = spec_ident(cs, q) {
            lemma_selector_rest(cs, r, tags.push(name), classes);
        }
    }
}

pub proof fn lemma_selector(cs: Seq<char>, p: int)
    requires
        0 <= p <= cs.len(),
    ensures
        spec_selector(cs, p) matches Ok((_, q)) ==> p < q <= cs.len(),
{
    lemma_spec_ident(cs, p);
    if let Ok((name, q)) = spec_ident(cs, p) {
        lemma_selector_rest(cs, q, seq![name], seq![]);
    }
}

/// The character that the escape `\c` stands for.
pub open spec fn unescape(c: char) -> char {
    if c == 'n' {
        '\n'
    } else if c == 'r' {
        '\r'
    } else if c == 't' {
        '\t'
    } else {
        c
    }
}

/// The rest of a quoted value from `p`, after the opening quote, with `out` read so far.
pub open spec fn spec_string_body(cs: Seq<char>, p: int, out: Seq<char>) -> Result<
    (Seq<char>, int),
    Seq<char>,
>
    decreases cs.len() - p,
{
    if !(0 <= p < cs.len()) {
        Err(err_string_unclosed())
    } else if cs[p] == '"' {
        let r = skip_sc(cs, p + 1);
        if char_at(cs, r) == Some(')') {
            Ok((out, r + 1))
        } else {
            Err(err_expected(r, ')'))
        }
    } else if cs[p] == '\\' {
        if p + 1 >= cs.len() {
            Err(err_escape_cut())
        } else {
            spec_string_body(cs, p + 2, out.push(unescape(cs[p + 1])))
        }
    } else {
        spec_string_body(cs, p + 1, out.push(cs[p]))
    }
}

/// A property value `("text")` starting at `p`, and the position after it.
pub open spec fn spec_call_value(cs: Seq<char>, p: int) -> Result<(Seq<char>, int), Seq<char>> {
    if char_at(cs, p) != Some('(') {
        Err(err_expected(p, '('))
    } else {
        let q = skip_sc(cs, p + 1);
        if char_at(cs, q) != Some('"') {
            Err(err_expected(q, '"'))
        } else {
            spec_string_body(cs, q + 1, seq![])
        }
    }
}

pub proof fn lemma_string_body(cs: Seq<char>, p: int, out: Seq<char>)
    requires
        0 <= p,
    ensures
        spec_string_body(cs, p, out) matches Ok((_, q)) ==> p < q <= cs.len(),
    decreases cs.len() - p,
{
    if 0 <= p < cs.len() {
        if cs[p] == '"' {
            lemma_skip_sc(cs, p + 1);
        } else if cs[p] == '\\' {
            if p + 1 < cs.len() {
                lemma_string_body(cs, p + 2, out.push(unescape(cs[p + 1])));
            }
        } else {
            lemma_string_body(cs, p + 1, out.push(cs[p]));
        }
    }
}

pub proof fn lemma_call_value(cs: Seq<char>, p: int)
    requires
        0 <= p,
    ensures
        spec_call_value(cs, p) matches Ok((_, q)) ==> p < q <= cs.len(),
{
    if char_at(cs, p) == Some('(') {
        let q = skip_sc(cs, p + 1);
        lemma_skip_sc(cs, p + 1);
        lemma_string_body(cs, q + 1, seq![]);
    }
}

pub open spec fn empty_model(tags: Seq<Seq<char>>, classes: Seq<Seq<char>>) -> NodeModel {
    NodeModel { tags, classes, props: seq![], children: seq![] }
}

/// A sequence of elements from `p`, appended to `acc`; `nested` when a `}` closes it.
pub open spec fn spec_nodes(cs: Seq<char>, p: int, nested: bool, acc: Seq<NodeModel>) -> Result<
    (Seq<NodeModel>, int),
    Seq<char>,
>
    decreases cs.len() - p, 0int,
{
    if !(0 <= p <= cs.len()) {
        Err(seq![])
    } else {
        let q = skip_sc(cs, p);
        proof {
            lemma_skip_sc(cs, p);
        }
        if q >= cs.len() {
            if nested {
                Err(err_unclosed_brace())
            } else {
                Ok((acc, q))
            }
        } else if cs[q] == '}' {
            if !nested {
                Err(err_extra_brace(q))
            } else {
                Ok((acc, q + 1))
            }
        } else {
            match spec_selector(cs, q) {
                Err(e) => Err(e),
                Ok(((tags, classes), r)) => {
                    proof {
                        lemma_selector(cs, q);
                    }
                    let r2 = skip_sc(cs, r);
                    proof {
                        lemma_skip_sc(cs, r);
                    }
                    if char_at(cs, r2) == Some('(') {
                        if tags.len() != 1 || classes.len() != 0 {
                            Err(err_bad_prop_name())
                        } else {
                            match spec_call_value(cs, r2) {
                                Err(e) => Err(e),
                                Ok((value, _)) => Err(err_root_prop(tags[0], value)),
                            }
                        }
                    } else if char_at(cs, r2) == Some('{') {
                        match spec_body(cs, r2 + 1, empty_model(tags, classes)) {
                            Err(e) => Err(e),
                            Ok((node, r3)) => {
                                if r3 <= p || r3 > cs.len() {
                                    Err(seq![])
                                } else {
                                    spec_nodes(cs, r3, nested, acc.push(node))
                                }
                            },
                        }
                    } else {
                        Err(err_open_expected(r2, char_at(cs, r2)))
                    }
                },
            }
        }
    }
}

/// The inside of an element's braces from `p`: properties, then children up to its `}`.
pub open spec fn spec_body(cs: Seq<char>, p: int, node: NodeModel) -> Result<
    (NodeModel, int),
    Seq<char>,
>
    decreases cs.len() - p, 1int,
{
    if !(0 <= p <= cs.len()) {
        Err(seq![])
    } else {
        let q = skip_sc(cs, p);
        proof {
            lemma_skip_sc(cs, p);
        }
        if char_at(cs, q) == Some('}') {
            Ok((node, q + 1))
        } else if q >= cs.len() {
            Err(err_unclosed_brace())
        } else {
            match spec_selector(cs, q) {
                Err(e) => Err(e),
                Ok(((names, inner), r)) => {
                    proof {
                        lemma_selector(cs, q);
                    }
                    let r2 = skip_sc(cs, r);
                    proof {
                        lemma_skip_sc(cs, r);
                    }
                    if char_at(cs, r2) == Some('(') {
                        if names.len() != 1 || inner.len() != 0 {
                            Err(err_bad_prop_name())
                        } else {
                            match spec_call_value(cs, r2) {
                                Err(e) => Err(e),
                                Ok((value, r3)) => {
                                    proof {
                                        lemma_call_value(cs, r2);
                                    }
                                    spec_body(
                                        cs,
                                        r3,
                                        NodeModel {
                                            props: node.props.push((names[0], value)),
                                            ..node
                                        },
                                    )
                                },
                            }
                        }
                    } else {
                        match spec_nodes(cs, q, true, seq![]) {
                            Err(e) => Err(e),
                            Ok((kids, r3)) => Ok((NodeModel { children: kids, ..node }, r3)),
                        }
                    }
                },
            }
        }
    }
}

pub proof fn lemma_nodes_pos(cs: Seq<char>, p: int, nested: bool, acc: Seq<NodeModel>)
    ensures
        spec_nodes(cs, p, nested, acc) matches Ok((_, q)) ==> p <= q <= cs.len() && (nested
            ==> p < q),
    decreases cs.len() - p, 0int,
{
    if 0 <= p <= cs.len() {
        let q = skip_sc(cs, p);
        lemma_skip_sc(cs, p);
        if q < cs.len() && cs[q] != '}' {
            lemma_selector(cs, q);
            if let Ok(((tags, classes), r)) = spec_selector(cs, q) {
                let r2 = skip_sc(cs, r);
                lemma_skip_sc(cs, r);
                if char_at(cs, r2) == Some('{') {
                    lemma_body_pos(cs, r2 + 1, empty_model(tags, classes));
                    if let Ok((node, r3)) = spec_body(cs, r2 + 1, empty_model(tags, classes)) {
                        if p < r3 <= cs.len() {
                            lemma_nodes_pos(cs, r3, nested, acc.push(node));
                        }
                    }
                }
            }
        }
    }
}

pub proof fn lemma_body_pos(cs: Seq<char>, p: int, node: NodeModel)
    ensures
        spec_body(cs, p, node) matches Ok((_, q)) ==> p < q <= cs.len(),
    decreases cs.len() - p, 1int,
{
    if 0 <= p <= cs.len() {
        let q = skip_sc(cs, p);
        lemma_skip_sc(cs, p);
        if char_at(cs, q) != Some('}') && q < cs.len() {
            lemma_selector(cs, q);
            if let Ok(((names, inner), r)) = spec_selector(cs, q) {
                let r2 = skip_sc(cs, r);
                lemma_skip_sc(cs, r);
                if char_at(cs, r2) == Some('(') {
                    lemma_call_value(cs, r2);
                    if names.len() == 1 && inner.len() == 0 {
                        if let Ok((value, r3)) = spec_call_value(cs, r2) {
                            lemma_body_pos(
                                cs,
                                r3,
                                NodeModel { props: node.props.push((names[0], value)), ..node },
                            );
                        }
                    }
                } else {
                    lemma_nodes_pos(cs, q, true, seq![]);
                }
            }
        }
    }
}

/// The elements or the error message, as values.
pub open spec fn parse_result_view(r: Result<Vec<Node>, String>) -> Result<Seq<NodeModel>, Seq<char>> {
    match r {
        Ok(v) => Ok(nodes_view(v@)),
        Err(e) => Err(e@),
    }
}

/// A cursor over the characters of a UI file.
pub struct UiParser {
    pub chars: Vec<char>,
    pub pos: usize,
}

impl UiParser {
    /// The cursor stays within the text, whose length fits below `usize::MAX`.
    pub open spec fn wf(&self) -> bool {
        self.pos <= self.chars@.len() < usize::MAX
    }

    pub fn new(source: &str) -> (r: Self)
        requires
            source@.len() < usize::MAX,
        ensures
            r.chars@ == source@,
            r.pos == 0,
            r.wf(),
    {
        UiParser { chars: chars_of(source), pos: 0 }
    }

    /// The elements of the whole file, or the first error met.
    pub fn parse(self) -> (r: Result<Vec<Node>, String>)
        requires
            self.wf(),
        ensures
            parse_result_view(r) == (match spec_nodes(self.chars@, self.pos as int, false, seq![]) {
                Ok((nodes, _)) => Ok(nodes),
                Err(e) => Err(e),
            }),
    {
        let mut parser = self;
        parser.parse_nodes(false)
    }

    pub fn peek(&self) -> (r: Option<char>)
        ensures
            r == char_at(self.chars@, self.pos as int),
    {
        if self.pos < self.chars.len() {
            Some(self.chars[self.pos])
        } else {
            None
        }
    }

    pub fn eof(&self) -> (r: bool)
        ensures
            r == (self.pos >= self.chars@.len()),
    {
        self.pos >= self.chars.len()
    }

    /// Moves past whitespace and `//` comments.
    #[verifier::loop_isolation(false)]
    pub fn skip_space_and_comments(&mut self)
        requires
            old(self).wf(),
        ensures
            final(self).wf(),
            final(self).chars@ == old(self).chars@,
            final(self).pos == skip_sc(old(self).chars@, old(self).pos as int),
    {
        let ghost cs = self.chars@;
        let ghost p0 = self.pos as int;
        loop
            invariant
                self.chars@ == cs,
                self.wf(),
                skip_sc(cs, p0) == skip_sc(cs, self.pos as int),
            decreases cs.len() - self.pos,
        {
            let ghost p = self.pos as int;
            while self.pos < self.chars.len() && is_whitespace(self.chars[self.pos])
                invariant
                    self.chars@ == cs,
                    self.wf(),
                    p <= self.pos,
                    skip_ws(cs, p) == skip_ws(cs, self.pos as int),
                decreases cs.len() - self.pos,
            {
                self.pos += 1;
            }
            if self.pos + 1 < self.chars.len() && self.chars[self.pos] == '/' && self.chars[self.pos
                + 1] == '/' {
                let ghost q = self.pos as int;
                while self.pos < self.chars.len() && self.chars[self.pos] != '\n'
                    invariant
                        self.chars@ == cs,
                        self.wf(),
                        q <= self.pos,
                        line_end(cs, q) == line_end(cs, self.pos as int),
                    decreases cs.len() - self.pos,
                {
                    self.pos += 1;
                }
            } else {
                break;
            }
        }
    }

    /// Consumes `expected` or reports that it is missing.
    pub fn expect(&mut self, expected: char) -> (r: Result<(), String>)
        requires
            old(self).wf(),
        ensures
            final(self).wf(),
            final(self).chars@ == old(self).chars@,
            char_at(old(self).chars@, old(self).pos as int) == Some(expected) ==> (r is Ok
                && final(self).pos == old(self).pos + 1),
            char_at(old(self).chars@, old(self).pos as int) != Some(expected) ==> (r matches Err(e)
                && e@ == err_expected(old(self).pos as int, expected)),
    {
        if self.peek() == Some(expected) {
            self.pos += 1;
            Ok(())
        } else {
            let mut e = String::new();
            push_decimal(&mut e, (self.pos + 1) as u64);
            e.append("文字目: `");
            e.push(expected);
            e.append("` が必要です");
            Err(e)
        }
    }

    /// A name: letters, digits, `-` and `_`.
    #[verifier::loop_isolation(false)]
    pub fn parse_ident(&mut self) -> (r: Result<String, String>)
        requires
            old(self).wf(),
        ensures
            final(self).wf(),
            final(self).chars@ == old(self).chars@,
            match spec_ident(old(self).chars@, old(self).pos as int) {
                Ok((name, q)) => r matches Ok(s) && s@ == name && final(self).pos == q && q
                    > old(self).pos,
                Err(e) => r matches Err(m) && m@ == e && final(self).pos == old(self).pos,
            },
    {
        let ghost cs = self.chars@;
        let start = self.pos;
        while self.pos < self.chars.len() && (is_alphanumeric(self.chars[self.pos])
            || self.chars[self.pos] == '-' || self.chars[self.pos] == '_')
            invariant
                self.chars@ == cs,
                self.wf(),
                start <= self.pos,
                ident_end(cs, start as int) == ident_end(cs, self.pos as int),
            decreases cs.len() - self.pos,
        {
            self.pos += 1;
        }
        if self.pos == start {
            let mut e = String::new();
            push_decimal(&mut e, (self.pos + 1) as u64);
            e.append("文字目: 名前が必要です");
            Err(e)
        } else {
            let v = slice_vec(&self.chars, start, self.pos);
            Ok(string_of(&v))
        }
    }

    /// A selector: names joined by `,` and classes marked by `.`.
    #[verifier::loop_isolation(false)]
    pub fn parse_selector(&mut self) -> (r: Result<(Vec<String>, Vec<String>), String>)
        requires
            old(self).wf(),
        ensures
            final(self).wf(),
            final(self).chars@ == old(self).chars@,
            match spec_selector(old(self).chars@, old(self).pos as int) {
                Ok(((tags, classes), q)) => r matches Ok(v) && strings_view(v.0@) == tags
                    && strings_view(v.1@) == classes && final(self).pos == q && q > old(
                    self).pos,
                Err(e) => r matches Err(m) && m@ == e,
            },
    {
        let ghost cs = self.chars@;
        let ghost p0 = self.pos as int;
        let mut tags: Vec<String> = Vec::new();
        let mut classes: Vec<String> = Vec::new();
        let first = self.parse_ident()?;
        tags.push(first);
        assert(strings_view(tags@) =~= seq![spec_ident(cs, p0)->Ok_0.0]);
        assert(strings_view(classes@) =~= Seq::<Seq<char>>::empty());
        loop
            invariant
                self.chars@ == cs,
                self.wf(),
                self.pos > p0,
                spec_selector(cs, p0) == spec_selector_rest(
                    cs,
                    self.pos as int,
                    strings_view(tags@),
                    strings_view(classes@),
                ),
            decreases cs.len() - self.pos,
        {
            if self.peek() == Some('.') {
                self.pos += 1;
                let name = self.parse_ident()?;
                proof {
                    assert(strings_view(classes@.push(name)) =~= strings_view(classes@).push(
                        name@,
                    ));
                }
                classes.push(name);
            } else if self.peek() == Some(',') {
                self.pos += 1;
                proof {
                    lemma_skip_sc(cs, self.pos as int);
                }
                self.skip_space_and_comments();
                let name = self.parse_ident()?;
                proof {
                    assert(strings_view(tags@.push(name)) =~= strings_view(tags@).push(name@));
                }
                tags.push(name);
            } else {
                break;
            }
        }
        Ok((tags, classes))
    }

    /// A property value: `(`, a quoted string with `\n`, `\r`, `\t`, `\"` and `\\` escapes, `)`.
    #[verifier::loop_isolation(false)]
    pub fn parse_call_value(&mut self) -> (r: Result<String, String>)
        requires
            old(self).wf(),
        ensures
            final(self).wf(),
            final(self).chars@ == old(self).chars@,
            match spec_call_value(old(self).chars@, old(self).pos as int) {
                Ok((value, q)) => r matches Ok(s) && s@ == value && final(self).pos == q && q
                    > old(self).pos,
                Err(e) => r matches Err(m) && m@ == e,
            },
    {
        let ghost cs = self.chars@;
        let ghost p0 = self.pos as int;
        proof {
            lemma_call_value(cs, p0);
        }
        self.expect('(')?;
        self.skip_space_and_comments();
        self.expect('"')?;
        let mut out = String::new();
        loop
            invariant
                self.chars@ == cs,
                self.wf(),
                spec_call_value(cs, p0) == spec_string_body(cs, self.pos as int, out@),
            decreases cs.len() - self.pos,
        {
            let c = match self.peek() {
                Some(c) => c,
                None => {
                    return Err(lit("文字列が閉じられていません"));
                },
            };
            self.pos += 1;
            if c == '"' {
                self.skip_space_and_comments();
                self.expect(')')?;
                return Ok(out);
            } else if c == '\\' {
                let escaped = match self.peek() {
                    Some(e) => e,
                    None => {
                        return Err(lit("文字列のエスケープが途中で終わっています"));
                    },
                };
                self.pos += 1;
                let u = if escaped == 'n' {
                    '\n'
                } else if escaped == 'r' {
                    '\r'
                } else if escaped == 't' {
                    '\t'
                } else {
                    escaped
                };
                out.push(u);
            } else {
                out.push(c);
            }
        }
    }

    /// A sequence of elements; `nested` when it ends at a `}` that closes an element.
    #[verifier::loop_isolation(false)]
    pub fn parse_nodes(&mut self, nested: bool) -> (r: Result<Vec<Node>, String>)
        requires
            old(self).wf(),
        ensures
            final(self).wf(),
            final(self).chars@ == old(self).chars@,
            match spec_nodes(old(self).chars@, old(self).pos as int, nested, seq![]) {
                Ok((nodes, q)) => r matches Ok(v) && nodes_view(v@) == nodes && final(self).pos
                    == q,
                Err(e) => r matches Err(m) && m@ == e,
            },
        decreases old(self).chars@.len() - old(self).pos,
    {
        let ghost cs = self.chars@;
        let ghost p0 = self.pos as int;
        let mut nodes: Vec<Node> = Vec::new();
        assert(nodes_view(nodes@) =~= Seq::<NodeModel>::empty());
        loop
            invariant
                spec_nodes(cs, p0, nested, seq![]) == spec_nodes(
                    cs,
                    self.pos as int,
                    nested,
                    nodes_view(nodes@),
                ),
                self.chars@ == cs,
                self.wf(),
                p0 <= self.pos,
            decreases cs.len() - self.pos,
        {
            let ghost p = self.pos as int;
            proof {
                lemma_skip_sc(cs, p);
            }
            self.skip_space_and_comments();
            if self.eof() {
                if nested {
                    return Err(lit("閉じる `}` がありません"));
                }
                break;
            }
            if self.peek() == Some('}') {
                if !nested {
                    let mut e = String::new();
                    push_decimal(&mut e, (self.pos + 1) as u64);
                    e.append("文字目に余分な `}` があります");
                    return Err(e);
                }
                self.pos += 1;
                break;
            }
            let ghost q = self.pos as int;
            proof {
                lemma_selector(cs, q);
            }
            let (tags, classes) = self.parse_selector()?;
            proof {
                lemma_skip_sc(cs, self.pos as int);
            }
            self.skip_space_and_comments();
            let next = self.peek();
            if next == Some('(') {
                if tags.len() != 1 || classes.len() != 0 {
                    return Err(lit("プロパティ呼び出しの名前が不正です"));
                }
                let value = self.parse_call_value()?;
                let mut e = lit("ルートではプロパティ `");
                e.append(tags[0].as_str());
                e.append("` を使えません（値: ");
                e.append(value.as_str());
                e.append("）");
                return Err(e);
            } else if next == Some('{') {
                self.pos += 1;
                let ghost b0 = self.pos as int;
                let mut node = Node { tags, classes, props: Vec::new(), children: Vec::new() };
                let ghost m0 = node@;
                assert(pairs_view(node.props@) =~= Seq::<(Seq<char>, Seq<char>)>::empty());
                assert(m0.children =~= Seq::<NodeModel>::empty());
                assert(m0 =~= empty_model(strings_view(node.tags@), strings_view(node.classes@)));
                loop
                    invariant
                        spec_body(cs, b0, m0) == spec_body(cs, self.pos as int, node@),
                        self.chars@ == cs,
                        self.wf(),
                        p0 <= p < b0 <= self.pos,
                    decreases cs.len() - self.pos,
                {
                    proof {
                        lemma_skip_sc(cs, self.pos as int);
                    }
                    self.skip_space_and_comments();
                    if self.peek() == Some('}') {
                        self.pos += 1;
                        break;
                    }
                    if self.eof() {
                        return Err(lit("閉じる `}` がありません"));
                    }
                    let saved = self.pos;
                    let (names, inner_classes) = self.parse_selector()?;
                    proof {
                        lemma_skip_sc(cs, self.pos as int);
                    }
                    self.skip_space_and_comments();
                    if self.peek() == Some('(') {
                        if names.len() != 1 || inner_classes.len() != 0 {
                            return Err(lit("プロパティ呼び出しの名前が不正です"));
                        }
                        let value = self.parse_call_value()?;
                        let name = names[0].clone();
                        let ghost before = node@;
                        proof {
                            assert(pairs_view(node.props@.push((name, value))) =~= pairs_view(
                                node.props@,
                            ).push((name@, value@)));
                        }
                        node.props.push((name, value));
                        assert(node@ =~= NodeModel {
                            props: before.props.push((strings_view(names@)[0], value@)),
                            ..before
                        });
                    } else {
                        self.pos = saved;
                        proof {
                            lemma_nodes_pos(cs, saved as int, true, seq![]);
                        }
                        let parsed = self.parse_nodes(true)?;
                        let ghost before = node@;
                        node.children = parsed;
                        assert(node@.children =~= nodes_view(node.children@));
                        assert(node@ =~= NodeModel { children: node@.children, ..before });
                        break;
                    }
                }
                proof {
                    assert(spec_body(cs, b0, m0) == Ok::<_, Seq<char>>((node@, self.pos as int)));
                    assert(spec_nodes(cs, p, nested, nodes_view(nodes@)) == spec_nodes(
                        cs,
                        self.pos as int,
                        nested,
                        nodes_view(nodes@).push(node@),
                    ));
                    assert(nodes_view(nodes@.push(node)) =~= nodes_view(nodes@).push(node@));
                }
                nodes.push(node);
            } else {
                let mut e = String::new();
                push_decimal(&mut e, (self.pos + 1) as u64);
                e.append("文字目: `{` または `(` が必要です（実際: ");
                let d = debug_option_char(next);
                e.append(d.as_str());
                e.append("）");
                return Err(e);
            }
        }
        Ok(nodes)
    }
}

} // verus!

verus! {

broadcast use crate::text::lemma_concat_assoc;

// ---------------------------------------------------------------------------------------
// Script files: `[onClick = name]` and `[fun = name]` sections of `left = right` actions.
// ---------------------------------------------------------------------------------------

/// What starts a section: a click on elements of a class, or a named function.
#[derive(Debug, Clone, Copy, PartialEq, Eq, Structural)]
pub enum SectionKind {
    Click,
    Function,
}

/// A section of a script file with its actions in order.
#[derive(Debug)]
pub struct ScriptSection {
    pub kind: SectionKind,
    pub name: String,
    pub actions: Vec<(String, String)>,
}

#[verifier::ext_equal]
pub struct SectionModel {
    pub kind: SectionKind,
    pub name: Seq<char>,
    pub actions: Seq<(Seq<char>, Seq<char>)>,
}

impl View for ScriptSection {
    type V = SectionModel;

    open spec fn view(&self) -> SectionModel {
        SectionModel { kind: self.kind, name: self.name@, actions: pairs_view(self.actions@) }
    }
}

pub open spec fn sections_view(v: Seq<ScriptSection>) -> Seq<SectionModel> {
    v.map_values(|s: ScriptSection| s@)
}

/// `file:line` for the line at `index` (counted from zero).
pub open spec fn location(file: Seq<char>, index: int) -> Seq<char> {
    file + ":"@ + decimal((index + 1) as nat)
}

/// One line of a script file applied to the sections read so far.
pub open spec fn script_line(
    file: Seq<char>,
    index: int,
    raw: Seq<char>,
    sections: Seq<SectionModel>,
) -> Result<Seq<SectionModel>, Seq<char>> {
    let line = trim(raw);
    if line.len() == 0 || starts_with(line, "#"@) || starts_with(line, "//"@) {
        Ok(sections)
    } else if starts_with(line, "["@) && ends_with(line, "]"@) {
        match split_once(line.subrange(1, line.len() - 1), '=') {
            None => Err(location(file, index) + ": セクションには `=` が必要です"@),
            Some((kind, name)) => {
                let k = trim(kind);
                if k == "onClick"@ {
                    Ok(
                        sections.push(
                            SectionModel { kind: SectionKind::Click, name: trim(name), actions: seq![] },
                        ),
                    )
                } else if k == "fun"@ {
                    Ok(
                        sections.push(
                            SectionModel {
                                kind: SectionKind::Function,
                                name: trim(name),
                                actions: seq![],
                            },
                        ),
                    )
                } else {
                    Err(location(file, index) + ": 不明なセクション `"@ + k + "`"@)
                }
            },
        }
    } else {
        match split_once(line, '=') {
            None => Err(location(file, index) + ": 命令には `=` が必要です"@),
            Some((left, right)) => {
                if sections.len() == 0 {
                    Err(location(file, index) + ": 命令より前にセクションが必要です"@)
                } else {
                    let last = sections.last();
                    Ok(
                        sections.update(
                            sections.len() - 1,
                            SectionModel {
                                actions: last.actions.push((trim(left), trim(right))),
                                ..last
                            },
                        ),
                    )
                }
            },
        }
    }
}

/// The lines from `i` on, applied in order to `sections`.
pub open spec fn script_from(
    file: Seq<char>,
    lines: Seq<Seq<char>>,
    i: int,
    sections: Seq<SectionModel>,
) -> Result<Seq<SectionModel>, Seq<char>>
    decreases lines.len() - i,
{
    if i < 0 || i >= lines.len() {
        Ok(sections)
    } else {
        match script_line(file, i, lines[i], sections) {
            Err(e) => Err(e),
            Ok(next) => script_from(file, lines, i + 1, next),
        }
    }
}

/// The sections of a script file named `file`, or the first error.
pub open spec fn spec_parse_script(source: Seq<char>, file: Seq<char>) -> Result<
    Seq<SectionModel>,
    Seq<char>,
> {
    script_from(file, crate::text::lines(source), 0, seq![])
}

fn location_prefix(file: &str, index: usize) -> (r: String)
    requires
        index < usize::MAX,
    ensures
        r@ == location(file@, index as int),
{
    let mut r = lit(file);
    r.append(":");
    push_decimal(&mut r, (index + 1) as u64);
    r
}

/// The sections of the script `source`; `file` names it in error messages.
pub fn parse_script(source: &str, file: &str) -> (r: Result<Vec<ScriptSection>, String>)
    ensures
        match spec_parse_script(source@, file@) {
            Ok(sections) => r matches Ok(v) && sections_view(v@) == sections,
            Err(e) => r matches Err(m) && m@ == e,
        },
{
    let chars = chars_of(source);
    let lines = lines_vec(&chars);
    let ghost ls = crate::text::lines(source@);
    let mut sections: Vec<ScriptSection> = Vec::new();
    assert(sections_view(sections@) =~= Seq::<SectionModel>::empty());
    let mut index: usize = 0;
    while index < lines.len()
        invariant
            ls == crate::text::lines(source@),
            lines@.len() == ls.len(),
            forall|k: int| 0 <= k < lines@.len() ==> #[trigger] lines@[k]@ == ls[k],
            index <= lines@.len(),
            spec_parse_script(source@, file@) == script_from(
                file@,
                ls,
                index as int,
                sections_view(sections@),
            ),
        decreases lines@.len() - index,
    {
        let ghost before = sections_view(sections@);
        let raw = &lines[index];
        let line = trim_vec(raw);
        if line.len() == 0 || starts_with_str(&line, "#") || starts_with_str(&line, "//") {
            index += 1;
            continue;
        }
        if starts_with_str(&line, "[") && ends_with_str(&line, "]") {
            proof {
                reveal_strlit("[");
                reveal_strlit("]");
                if line@.len() < 2 {
                    assert(line@.take(1)[0] == '[');
                    assert(line@.skip(line@.len() - 1)[0] == ']');
                }
            }
            let inside = slice_vec(&line, 1, line.len() - 1);
            let (kind, name) = match split_once_vec(&inside, '=') {
                Some(p) => p,
                None => {
                    let mut e = location_prefix(file, index);
                    e.append(": セクションには `=` が必要です");
                    return Err(e);
                },
            };
            let k = trim_vec(&kind);
            let kind = if eq_str(&k, "onClick") {
                SectionKind::Click
            } else if eq_str(&k, "fun") {
                SectionKind::Function
            } else {
                let mut e = location_prefix(file, index);
                e.append(": 不明なセクション `");
                push_chars(&mut e, &k);
                e.append("`");
                return Err(e);
            };
            let n = trim_vec(&name);
            let section = ScriptSection { kind, name: string_of(&n), actions: Vec::new() };
            assert(pairs_view(section.actions@) =~= Seq::<(Seq<char>, Seq<char>)>::empty());
            proof {
                assert(sections_view(sections@.push(section)) =~= before.push(section@));
            }
            sections.push(section);
        } else {
            let (left, right) = match split_once_vec(&line, '=') {
                Some(p) => p,
                None => {
                    let mut e = location_prefix(file, index);
                    e.append(": 命令には `=` が必要です");
                    return Err(e);
                },
            };
            let mut current = match sections.pop() {
                Some(s) => s,
                None => {
                    let mut e = location_prefix(file, index);
                    e.append(": 命令より前にセクションが必要です");
                    return Err(e);
                },
            };
            let l = trim_vec(&left);
            let r = trim_vec(&right);
            let ghost cur_before = current@;
            let entry = (string_of(&l), string_of(&r));
            proof {
                assert(pairs_view(current.actions@.push(entry)) =~= pairs_view(
                    current.actions@,
                ).push((l@, r@)));
            }
            current.actions.push(entry);
            proof {
                assert(sections_view(sections@.push(current)) =~= before.update(
                    before.len() - 1,
                    SectionModel { actions: cur_before.actions.push((l@, r@)), ..cur_before },
                ));
            }
            sections.push(current);
        }
        index += 1;
    }
    Ok(sections)
}

// ---------------------------------------------------------------------------------------
// `config.ini`: `key = value` lines.
// ---------------------------------------------------------------------------------------

/// The entry that one line of an ini file holds, if any.
pub open spec fn ini_entry(raw: Seq<char>) -> Option<(Seq<char>, Seq<char>)> {
    let line = trim(raw);
    if line.len() == 0 || starts_with(line, "#"@) || starts_with(line, ";"@) {
        None
    } else {
        match split_once(line, '=') {
            Some((key, value)) => Some((trim(key), trim(value))),
            None => None,
        }
    }
}

/// The entries of the lines from `i` on, in order.
pub open spec fn ini_entries(lines: Seq<Seq<char>>, i: int) -> Seq<(Seq<char>, Seq<char>)>
    decreases lines.len() - i,
{
    if i < 0 || i >= lines.len() {
        seq![]
    } else {
        match ini_entry(lines[i]) {
            Some(e) => seq![e] + ini_entries(lines, i + 1),
            None => ini_entries(lines, i + 1),
        }
    }
}

/// The key-value map that a list of entries makes, a later entry replacing an earlier one.
pub open spec fn entries_map(entries: Seq<(Seq<char>, Seq<char>)>) -> Map<Seq<char>, Seq<char>>
    decreases entries.len(),
{
    if entries.len() == 0 {
        Map::empty()
    } else {
        entries_map(entries.drop_last()).insert(entries.last().0, entries.last().1)
    }
}

/// The settings of an ini text: every `key = value` line in order (blank lines and lines
/// starting with `#` or `;` skipped). As a map, a later line for a key replaces an earlier one.
pub fn ini(source: &str) -> (r: Vec<(String, String)>)
    ensures
        pairs_view(r@) == ini_entries(crate::text::lines(source@), 0),
{
    let chars = chars_of(source);
    let lines = lines_vec(&chars);
    let ghost ls = crate::text::lines(source@);
    let mut out: Vec<(String, String)> = Vec::new();
    let mut i: usize = 0;
    assert(pairs_view(out@) =~= Seq::<(Seq<char>, Seq<char>)>::empty());
    while i < lines.len()
        invariant
            ls == crate::text::lines(source@),
            lines@.len() == ls.len(),
            forall|k: int| 0 <= k < lines@.len() ==> #[trigger] lines@[k]@ == ls[k],
            i <= lines@.len(),
            ini_entries(ls, 0) == pairs_view(out@) + ini_entries(ls, i as int),
        decreases lines@.len() - i,
    {
        let line = trim_vec(&lines[i]);
        if !(line.len() == 0 || starts_with_str(&line, "#") || starts_with_str(&line, ";")) {
            match split_once_vec(&line, '=') {
                Some((key, value)) => {
                    let k = trim_vec(&key);
                    let v = trim_vec(&value);
                    let entry = (string_of(&k), string_of(&v));
                    proof {
                        assert(pairs_view(out@.push(entry)) =~= pairs_view(out@) + seq![
                            (k@, v@),
                        ]);
                    }
                    out.push(entry);
                },
                None => {},
            }
        }
        i += 1;
    }
    assert(pairs_view(out@) + Seq::<(Seq<char>, Seq<char>)>::empty() =~= pairs_view(out@));
    out
}

/// The value that `entries` give `key`: that of its last entry.
pub open spec fn entries_get(entries: Seq<(Seq<char>, Seq<char>)>, key: Seq<char>) -> Option<
    Seq<char>,
>
    decreases entries.len(),
{
    if entries.len() == 0 {
        None
    } else if entries.last().0 == key {
        Some(entries.last().1)
    } else {
        entries_get(entries.drop_last(), key)
    }
}

/// The value of `key` in the settings, as a map of them holds it.
pub fn ini_get(entries: &Vec<(String, String)>, key: &str) -> (r: Option<String>)
    ensures
        r matches Some(v) ==> entries_get(pairs_view(entries@), key@) == Some(v@),
        r is None ==> entries_get(pairs_view(entries@), key@) is None,
{
    let mut i = entries.len();
    assert(entries@.take(i as int) =~= entries@);
    while i > 0
        invariant
            i <= entries@.len(),
            entries_get(pairs_view(entries@), key@) == entries_get(
                pairs_view(entries@.take(i as int)),
                key@,
            ),
        decreases i,
    {
        let k = chars_of(entries[i - 1].0.as_str());
        assert(pairs_view(entries@.take(i as int)).drop_last() =~= pairs_view(
            entries@.take(i - 1),
        ));
        if eq_str(&k, key) {
            return Some(entries[i - 1].1.clone());
        }
        i -= 1;
    }
    assert(pairs_view(entries@.take(0)) =~= Seq::<(Seq<char>, Seq<char>)>::empty());
    None
}

} // verus!
