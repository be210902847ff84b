//! Pieces of the Warp 4 script syntax shared by the interpreter and the compiler:
//! comments, bracket depth, balanced parentheses, keywords and conditions.
//! Positions are counted in characters.
use vstd::prelude::*;
use crate::text::{chars_of, is_ws, lines, slice_vec, string_of, trim, trim_start, trim_vec};

verus! {

broadcast use {crate::text::lemma_concat_assoc, crate::text::lemma_concat_empty};

// ---------------------------------------------------------------------------------------
// Comments
// ---------------------------------------------------------------------------------------

/// The first `#` from `i` on that stands outside parentheses, where a comment starts.
pub open spec fn comment_from(line: Seq<char>, i: int) -> Option<int>
    decreases line.len() - i,
{
    if i < 0 || i >= line.len() {
        None
    } else if line[i] == '#' && depth_at(line, '(', ')', i) <= 0 {
        Some(i)
    } else {
        comment_from(line, i + 1)
    }
}

/// A line without its `#` comment; a `#` inside parentheses, as in `(#ff0000)`, is part of a
/// value and stays.
pub open spec fn uncommented(line: Seq<char>) -> Seq<char> {
    match comment_from(line, 0) {
        Some(i) => line.take(i),
        None => line,
    }
}

pub proof fn lemma_comment_from(line: Seq<char>, i: int)
    requires
        0 <= i,
    ensures
        comment_from(line, i) matches Some(k) ==> i <= k < line.len() && line[k] == '#' && depth_at(
            line,
            '(',
            ')',
            k,
        ) <= 0 && forall|j: int|
            i <= j < k ==> !(line[j] == '#' && #[trigger] depth_at(line, '(', ')', j) <= 0),
        comment_from(line, i) is None ==> forall|j: int|
            i <= j < line.len() ==> !(line[j] == '#' && #[trigger] depth_at(line, '(', ')', j) <= 0),
    decreases line.len() - i,
{
    if i < line.len() {
        lemma_comment_from(line, i + 1);
    }
}

/// The end of the part of `line` before its comment.
fn comment_start(line: &Vec<char>) -> (r: usize)
    ensures
        r <= line@.len(),
        line@.take(r as int) == uncommented(line@),
{
    let mut i: usize = 0;
    let mut depth: i128 = 0;
    while i < line.len()
        invariant
            i <= line@.len(),
            depth == depth_at(line@, '(', ')', i as int),
            -(i as int) <= depth <= i as int,
            comment_from(line@, 0) == comment_from(line@, i as int),
        decreases line@.len() - i,
    {
        let c = line[i];
        if c == '#' && depth <= 0 {
            return i;
        }
        if c == '(' {
            depth = depth + 1;
        } else if c == ')' {
            depth = depth - 1;
        }
        i += 1;
    }
    assert(line@.take(i as int) =~= line@);
    i
}

/// The lines `ls`, each without its comment, joined by line feeds.
pub open spec fn join_uncommented(ls: Seq<Seq<char>>) -> Seq<char>
    decreases ls.len(),
{
    if ls.len() == 0 {
        seq![]
    } else if ls.len() == 1 {
        uncommented(ls[0])
    } else {
        join_uncommented(ls.drop_last()) + seq!['\n'] + uncommented(ls.last())
    }
}

/// `source` with every `#` comment removed, line by line, lines joined by `\n`.
pub fn strip_comments(source: &str) -> (r: String)
    ensures
        r@ == join_uncommented(lines(source@)),
{
    let v = chars_of(source);
    let ls = crate::text::lines_vec(&v);
    let ghost all = lines(source@);
    let mut out = String::new();
    let mut i: usize = 0;
    assert(all.take(0) =~= Seq::<Seq<char>>::empty());
    while i < ls.len()
        invariant
            i <= ls@.len(),
            all == lines(source@),
            ls@.len() == all.len(),
            forall|k: int| 0 <= k < ls@.len() ==> #[trigger] ls@[k]@ == all[k],
            out@ == join_uncommented(all.take(i as int)),
        decreases ls@.len() - i,
    {
        let line = &ls[i];
        let k = comment_start(line);
        let kept = slice_vec(line, 0, k);
        assert(kept@ == uncommented(all[i as int]));
        assert(all.take(i + 1).drop_last() =~= all.take(i as int));
        if i > 0 {
            out.push('\n');
        }
        crate::text::push_chars(&mut out, &kept);
        assert(out@ =~= join_uncommented(all.take(i + 1)));
        i += 1;
    }
    assert(all.take(i as int) =~= all);
    out
}

// ---------------------------------------------------------------------------------------
// Bracket depth
// ---------------------------------------------------------------------------------------

/// How many times `c` occurs in `s[..i]`.
pub open spec fn count_before(s: Seq<char>, c: char, i: int) -> int
    decreases i,
{
    if i <= 0 || i > s.len() {
        0
    } else {
        count_before(s, c, i - 1) + if s[i - 1] == c {
            1int
        } else {
            0int
        }
    }
}

/// The depth of `open`/`close` pairs before `i`: opens minus closes.
pub open spec fn depth_at(s: Seq<char>, open: char, close: char, i: int) -> int {
    count_before(s, open, i) - count_before(s, close, i)
}

pub proof fn lemma_count_before(s: Seq<char>, c: char, i: int)
    requires
        0 <= i <= s.len(),
    ensures
        0 <= count_before(s, c, i) <= i,
    decreases i,
{
    if i > 0 {
        lemma_count_before(s, c, i - 1);
    }
}

/// From `i`, at square-bracket depth `depth`: the first index of `wanted` outside brackets.
pub open spec fn top_level_from(s: Seq<char>, wanted: char, i: int, depth: int) -> Option<int>
    decreases s.len() - i,
{
    if i < 0 || i >= s.len() {
        None
    } else if s[i] == wanted && depth == 0 {
        Some(i)
    } else {
        top_level_from(
            s,
            wanted,
            i + 1,
            depth + (if s[i] == '[' {
                1int
            } else if s[i] == ']' {
                -1int
            } else {
                0int
            }),
        )
    }
}

/// The first index of `wanted` in `s` outside square brackets, if any.
pub open spec fn top_level_index(s: Seq<char>, wanted: char) -> Option<int> {
    top_level_from(s, wanted, 0, 0)
}

pub proof fn lemma_top_level_from(s: Seq<char>, wanted: char, i: int, depth: int)
    requires
        0 <= i,
    ensures
        top_level_from(s, wanted, i, depth) matches Some(k) ==> i <= k < s.len() && s[k] == wanted,
    decreases s.len() - i,
{
    if i < s.len() && !(s[i] == wanted && depth == 0) {
        lemma_top_level_from(
            s,
            wanted,
            i + 1,
            depth + (if s[i] == '[' {
                1int
            } else if s[i] == ']' {
                -1int
            } else {
                0int
            }),
        );
    }
}

/// The first position of `wanted` in `value` that is not inside square brackets.
pub fn find_top_level_char(value: &[char], wanted: char) -> (r: Option<usize>)
    ensures
        match r {
            Some(i) => top_level_index(value@, wanted) == Some(i as int),
            None => top_level_index(value@, wanted) is None,
        },
{
    let mut opens: usize = 0;
    let mut closes: usize = 0;
    let mut i: usize = 0;
    while i < value.len()
        invariant
            i <= value@.len(),
            opens <= i,
            closes <= i,
            top_level_index(value@, wanted) == top_level_from(
                value@,
                wanted,
                i as int,
                opens - closes,
            ),
        decreases value@.len() - i,
    {
        let c = value[i];
        if c == wanted && opens == closes {
            return Some(i);
        }
        if c == '[' {
            opens += 1;
        } else if c == ']' {
            closes += 1;
        }
        i += 1;
    }
    None
}

// ---------------------------------------------------------------------------------------
// Balanced parentheses
// ---------------------------------------------------------------------------------------

/// Scanning from `p` at nesting `depth`: where the `close` that ends the group stands.
pub open spec fn group_end(s: Seq<char>, open: char, close: char, p: int, depth: int) -> Option<int>
    decreases s.len() - p,
{
    if p < 0 || p >= s.len() {
        None
    } else if s[p] == open {
        group_end(s, open, close, p + 1, depth + 1)
    } else if s[p] == close {
        if depth == 1 {
            Some(p)
        } else {
            group_end(s, open, close, p + 1, depth - 1)
        }
    } else {
        group_end(s, open, close, p + 1, depth)
    }
}

/// `'c' が必要です`
pub open spec fn err_needed(c: char) -> Seq<char> {
    "'"@ + seq![c] + "' が必要です"@
}

/// `'c' が閉じられていません`
pub open spec fn err_unclosed(c: char) -> Seq<char> {
    "'"@ + seq![c] + "' が閉じられていません"@
}

/// The text inside the group that opens at `start`, and the position after its `close`.
pub open spec fn balanced(s: Seq<char>, start: int, open: char, close: char) -> Result<
    (Seq<char>, int),
    Seq<char>,
> {
    if 0 <= start < s.len() && s[start] == open {
        match group_end(s, open, close, start, 0) {
            Some(q) => Ok((s.subrange(start + 1, q), q + 1)),
            None => Err(err_unclosed(open)),
        }
    } else {
        Err(err_needed(open))
    }
}

pub proof fn lemma_group_end(s: Seq<char>, open: char, close: char, p: int, depth: int)
    requires
        0 <= p,
    ensures
        group_end(s, open, close, p, depth) matches Some(q) ==> p <= q < s.len(),
    decreases s.len() - p,
{
    if p < s.len() {
        if s[p] == open {
            lemma_group_end(s, open, close, p + 1, depth + 1);
        } else if s[p] == close {
            if depth != 1 {
                lemma_group_end(s, open, close, p + 1, depth - 1);
            }
        } else {
            lemma_group_end(s, open, close, p + 1, depth);
        }
    }
}

fn quoted_char_message(c: char, tail: &str) -> (r: String)
    ensures
        r@ == "'"@ + seq![c] + tail@,
{
    let mut r = crate::text::lit("'");
    r.push(c);
    r.append(tail);
    r
}

/// The text between the `open` at `start` and the `close` that balances it, and the
/// position just after that `close`.
pub fn read_balanced_str(value: &[char], start: usize, open: char, close: char) -> (r: Result<
    (Vec<char>, usize),
    String,
>)
    ensures
        match balanced(value@, start as int, open, close) {
            Ok((inner, end)) => r matches Ok(p) && p.0@ == inner && p.1 == end,
            Err(e) => r matches Err(m) && m@ == e,
        },
{
    if start >= value.len() || value[start] != open {
        return Err(quoted_char_message(open, "' が必要です"));
    }
    let mut depth: usize = 0;
    let mut i: usize = start;
    while i < value.len()
        invariant
            start <= i <= value@.len(),
            start < value@.len(),
            value@[start as int] == open,
            i > start ==> depth >= 1,
            depth <= i - start,
            group_end(value@, open, close, start as int, 0) == group_end(
                value@,
                open,
                close,
                i as int,
                depth as int,
            ),
        decreases value@.len() - i,
    {
        let c = value[i];
        if c == open {
            depth += 1;
        } else if c == close {
            if depth == 1 {
                proof {
                    lemma_group_end(value@, open, close, start as int, 0);
                }
                let inner = slice_vec(value, start + 1, i);
                return Ok((inner, i + 1));
            }
            depth -= 1;
        }
        i += 1;
    }
    Err(quoted_char_message(open, "' が閉じられていません"))
}

// ---------------------------------------------------------------------------------------
// Keywords, function definitions and conditions
// ---------------------------------------------------------------------------------------

/// Whether `s` starts with `keyword` followed by nothing, whitespace or `(`.
pub open spec fn keyword_at_start(s: Seq<char>, keyword: Seq<char>) -> bool {
    crate::text::starts_with(s, keyword) && {
        let rest = s.skip(keyword.len() as int);
        rest.len() == 0 || is_ws(rest[0]) || rest[0] == '('
    }
}

/// Whether `header` begins with the word `keyword`: after it comes nothing, whitespace or `(`.
pub fn header_after_keyword_is_valid(header: &[char], keyword: &str) -> (r: bool)
    ensures
        r == keyword_at_start(header@, keyword@),
{
    if !crate::text::starts_with_str(header, keyword) {
        return false;
    }
    let n = keyword.unicode_len();
    if n == header.len() {
        assert(header@.skip(n as int).len() == 0);
        return true;
    }
    assert(header@.skip(n as int)[0] == header@[n as int]);
    crate::text::is_whitespace(header[n]) || header[n] == '('
}

/// What `fun (name)` names: `Ok(None)` when `header` is not such a definition, an error when
/// the name is empty.
pub open spec fn fun_definition(header: Seq<char>) -> Result<Option<Seq<char>>, Seq<char>> {
    if !keyword_at_start(header, "fun"@) {
        Ok(None)
    } else {
        let rest = trim_start(header.skip(3));
        if !(rest.len() > 0 && rest[0] == '(') {
            Ok(None)
        } else {
            match balanced(rest, 0, '(', ')') {
                Err(e) => Err(e),
                Ok((inside, end)) => if trim(rest.skip(end)).len() != 0 {
                    Ok(None)
                } else if trim(inside).len() == 0 {
                    Err("fun の関数名が空です"@)
                } else {
                    Ok(Some(trim(inside)))
                },
            }
        }
    }
}

/// The function that a block header `fun (name)` defines, if it is one.
pub fn parse_fun_definition_header(header: &[char]) -> (r: Result<Option<String>, String>)
    ensures
        match fun_definition(header@) {
            Ok(Some(n)) => r matches Ok(Some(s)) && s@ == n,
            Ok(None) => r matches Ok(None),
            Err(e) => r matches Err(m) && m@ == e,
        },
{
    if !header_after_keyword_is_valid(header, "fun") {
        return Ok(None);
    }
    proof {
        reveal_strlit("fun");
    }
    let after = slice_vec(header, 3, header.len());
    assert(after@ =~= header@.skip(3));
    let rest = crate::text::trim_start_vec(&after);
    if !(rest.len() > 0 && rest[0] == '(') {
        return Ok(None);
    }
    let (inside, end) = read_balanced_str(&rest, 0, '(', ')')?;
    proof {
        lemma_group_end(rest@, '(', ')', 0, 0);
    }
    let tail = slice_vec(&rest, end, rest.len());
    assert(tail@ =~= rest@.skip(end as int));
    let tt = trim_vec(&tail);
    if tt.len() != 0 {
        return Ok(None);
    }
    let name = trim_vec(&inside);
    if name.len() == 0 {
        return Err(crate::text::lit("fun の関数名が空です"));
    }
    Ok(Some(string_of(&name)))
}

/// Where a condition splits: the first `!=`, `=`, `<` or `>` outside parentheses and square
/// brackets, with the operator's width (2 for `!=`, else 1).
pub open spec fn condition_split(s: Seq<char>) -> Option<(int, int)> {
    condition_split_from(s, 0)
}

/// An operator at `i`, if outside brackets: its width.
pub open spec fn operator_at(s: Seq<char>, i: int) -> Option<int> {
    if depth_at(s, '(', ')', i) == 0 && depth_at(s, '[', ']', i) == 0 {
        if i + 1 < s.len() && s[i] == '!' && s[i + 1] == '=' {
            Some(2)
        } else if s[i] == '=' || s[i] == '<' || s[i] == '>' {
            Some(1)
        } else {
            None
        }
    } else {
        None
    }
}

pub open spec fn condition_split_from(s: Seq<char>, i: int) -> Option<(int, int)>
    decreases s.len() - i,
{
    if i < 0 || i >= s.len() {
        None
    } else {
        match operator_at(s, i) {
            Some(w) => Some((i, w)),
            None => condition_split_from(s, i + 1),
        }
    }
}

/// The position and width of the operator that splits the condition `value`, if any.
pub fn split_condition_at(value: &[char]) -> (r: Option<(usize, usize)>)
    ensures
        match r {
            Some((i, w)) => condition_split(value@) == Some((i as int, w as int)),
            None => condition_split(value@) is None,
        },
{
    let mut po: usize = 0;
    let mut pc: usize = 0;
    let mut so: usize = 0;
    let mut sc: usize = 0;
    let mut i: usize = 0;
    while i < value.len()
        invariant
            i <= value@.len(),
            po == count_before(value@, '(', i as int),
            pc == count_before(value@, ')', i as int),
            so == count_before(value@, '[', i as int),
            sc == count_before(value@, ']', i as int),
            po <= i && pc <= i && so <= i && sc <= i,
            condition_split(value@) == condition_split_from(value@, i as int),
        decreases value@.len() - i,
    {
        if po == pc && so == sc {
            if i + 1 < value.len() && value[i] == '!' && value[i + 1] == '=' {
                return Some((i, 2));
            }
            let c = value[i];
            if c == '=' || c == '<' || c == '>' {
                return Some((i, 1));
            }
        }
        let c = value[i];
        if c == '(' {
            po += 1;
        } else if c == ')' {
            pc += 1;
        } else if c == '[' {
            so += 1;
        } else if c == ']' {
            sc += 1;
        }
        i += 1;
    }
    None
}



// ---------------------------------------------------------------------------------------
// Statements and blocks
// ---------------------------------------------------------------------------------------

/// A statement of a script: a line, or a header with a block in braces.
#[derive(Debug)]
pub enum ScriptNode {
    Raw(String),
    Block { header: String, body: Vec<ScriptNode> },
}

/// The value of a `ScriptNode`.
pub enum Stmt {
    Raw(Seq<char>),
    Block { header: Seq<char>, body: Seq<Stmt> },
}

impl View for ScriptNode {
    type V = Stmt;

    open spec fn view(&self) -> Stmt
        decreases self,
    {
        match self {
            ScriptNode::Raw(s) => Stmt::Raw(s@),
            ScriptNode::Block { header, body } => Stmt::Block {
                header: header@,
                body: Seq::new(
                    body@.len(),
                    |i: int|
                        if 0 <= i < body@.len() {
                            body@[i].view()
                        } else {
                            Stmt::Raw(seq![])
                        },
                ),
            },
        }
    }
}

pub open spec fn stmts_view(v: Seq<ScriptNode>) -> Seq<Stmt> {
    v.map_values(|n: ScriptNode| n@)
}

/// From `p`, with square and round nesting `sq` and `pa`, where the statement ends: the
/// first `{`, line feed or `}` outside brackets, or the end of the text.
pub open spec fn stmt_end(cs: Seq<char>, p: int, sq: int, pa: int) -> int
    decreases cs.len() - p,
{
    if p < 0 || p >= cs.len() {
        p
    } else {
        let c = cs[p];
        if sq == 0 && pa == 0 && (c == '{' || c == '\n' || c == '}') {
            p
        } else {
            stmt_end(
                cs,
                p + 1,
                sq + (if c == '[' {
                    1int
                } else if c == ']' {
                    -1int
                } else {
                    0int
                }),
                pa + (if c == '(' {
                    1int
                } else if c == ')' {
                    -1int
                } else {
                    0int
                }),
            )
        }
    }
}

pub proof fn lemma_stmt_end(cs: Seq<char>, p: int, sq: int, pa: int)
    requires
        0 <= p <= cs.len(),
    ensures
        p <= stmt_end(cs, p, sq, pa) <= cs.len(),
    decreases cs.len() - p,
{
    if p < cs.len() {
        let c = cs[p];
        if !(sq == 0 && pa == 0 && (c == '{' || c == '\n' || c == '}')) {
            lemma_stmt_end(
                cs,
                p + 1,
                sq + (if c == '[' {
                    1int
                } else if c == ']' {
                    -1int
                } else {
                    0int
                }),
                pa + (if c == '(' {
                    1int
                } else if c == ')' {
                    -1int
                } else {
                    0int
                }),
            );
        }
    }
}

/// `acc` with the statement `raw` trimmed, unless it is empty.
pub open spec fn push_raw(acc: Seq<Stmt>, raw: Seq<char>) -> Seq<Stmt> {
    if trim(raw).len() > 0 {
        acc.push(Stmt::Raw(trim(raw)))
    } else {
        acc
    }
}

/// The error for a block that the text ends inside; the interpreter (`strict`) and the
/// compiler word it differently.
pub open spec fn err_missing_close(strict: bool) -> Seq<char> {
    if strict {
        "'}' が不足しています"@
    } else {
        "'{' に対応する '}' がありません"@
    }
}

pub open spec fn err_stray_close() -> Seq<char> {
    "対応する '{' がない '}' があります"@
}

pub open spec fn err_empty_header() -> Seq<char> {
    "'{' の前に命令がありません"@
}

/// The statements from `p`, appended to `acc`, and the position after them; with `stop` a
/// `}` ends them. `strict` refuses a block with an empty header.
pub open spec fn program_from(
    cs: Seq<char>,
    p: int,
    stop: bool,
    strict: bool,
    acc: Seq<Stmt>,
) -> Result<(Seq<Stmt>, int), Seq<char>>
    decreases cs.len() - p,
{
    if !(0 <= p <= cs.len()) {
        Err(seq![])
    } else {
        let q = crate::text::ws_end(cs, p);
        proof {
            crate::text::lemma_ws_end(cs, p);
        }
        if q >= cs.len() {
            if stop {
                Err(err_missing_close(strict))
            } else {
                Ok((acc, q))
            }
        } else {
            let e = stmt_end(cs, q, 0, 0);
            proof {
                lemma_stmt_end(cs, q, 0, 0);
            }
            let raw = cs.subrange(q, e);
            if e >= cs.len() {
                if stop {
                    Err(err_missing_close(strict))
                } else {
                    Ok((push_raw(acc, raw), e))
                }
            } else if cs[e] == '{' {
                if strict && trim(raw).len() == 0 {
                    Err(err_empty_header())
                } else {
                    match program_from(cs, e + 1, true, strict, seq![]) {
                        Err(x) => Err(x),
                        Ok((body, r)) => if r <= p || r > cs.len() {
                            Err(seq![])
                        } else {
                            program_from(
                                cs,
                                r,
                                stop,
                                strict,
                                acc.push(Stmt::Block { header: trim(raw), body }),
                            )
                        },
                    }
                }
            } else if cs[e] == '\n' {
                program_from(cs, e + 1, stop, strict, push_raw(acc, raw))
            } else if !stop {
                Err(err_stray_close())
            } else {
                Ok((push_raw(acc, raw), e + 1))
            }
        }
    }
}

pub proof fn lemma_program_pos(cs: Seq<char>, p: int, stop: bool, strict: bool, acc: Seq<Stmt>)
    ensures
        program_from(cs, p, stop, strict, acc) matches Ok((_, q)) ==> p <= q <= cs.len() && (
        stop ==> p < q),
    decreases cs.len() - p,
{
    if 0 <= p <= cs.len() {
        let q = crate::text::ws_end(cs, p);
        crate::text::lemma_ws_end(cs, p);
        if q < cs.len() {
            let e = stmt_end(cs, q, 0, 0);
            lemma_stmt_end(cs, q, 0, 0);
            let raw = cs.subrange(q, e);
            if e < cs.len() {
                if cs[e] == '{' {
                    lemma_program_pos(cs, e + 1, true, strict, seq![]);
                    if let Ok((body, r)) = program_from(cs, e + 1, true, strict, seq![]) {
                        if p < r <= cs.len() {
                            lemma_program_pos(
                                cs,
                                r,
                                stop,
                                strict,
                                acc.push(Stmt::Block { header: trim(raw), body }),
                            );
                        }
                    }
                } else if cs[e] == '\n' {
                    lemma_program_pos(cs, e + 1, stop, strict, push_raw(acc, raw));
                }
            }
        }
    }
}

fn push_raw_vec(nodes: &mut Vec<ScriptNode>, cs: &Vec<char>, lo: usize, hi: usize)
    requires
        lo <= hi <= cs@.len(),
    ensures
        stmts_view(final(nodes)@) == push_raw(stmts_view(old(nodes)@), cs@.subrange(lo as int, hi as int)),
{
    let raw = slice_vec(cs, lo, hi);
    let t = trim_vec(&raw);
    if t.len() > 0 {
        let ghost before = nodes@;
        nodes.push(ScriptNode::Raw(string_of(&t)));
        assert(stmts_view(nodes@) =~= stmts_view(before).push(Stmt::Raw(t@)));
    }
}

/// The statements of `chars` from `*pos`, as `program_from` gives them; `*pos` ends after
/// them.
pub fn parse_statements(chars: &Vec<char>, pos: &mut usize, stop: bool, strict: bool) -> (r:
    Result<Vec<ScriptNode>, String>)
    requires
        *old(pos) <= chars@.len(),
    ensures
        match program_from(chars@, *old(pos) as int, stop, strict, seq![]) {
            Ok((v, q)) => r matches Ok(nodes) && stmts_view(nodes@) == v && *final(pos) == q,
            Err(e) => r matches Err(m) && m@ == e,
        },
    decreases chars@.len() - *old(pos),
{
    let ghost p0 = *pos as int;
    let mut nodes: Vec<ScriptNode> = Vec::new();
    assert(stmts_view(nodes@) =~= Seq::<Stmt>::empty());
    loop
        invariant
            p0 == *old(pos),
            p0 <= *pos <= chars@.len(),
            program_from(chars@, p0, stop, strict, seq![]) == program_from(
                chars@,
                *pos as int,
                stop,
                strict,
                stmts_view(nodes@),
            ),
        decreases chars@.len() - *pos,
    {
        proof {
            crate::text::lemma_ws_end(chars@, *pos as int);
        }
        let ghost p = *pos as int;
        let ghost acc = stmts_view(nodes@);
        while *pos < chars.len() && crate::text::is_whitespace(chars[*pos])
            invariant
                p0 <= p <= *pos <= chars@.len(),
                crate::text::ws_end(chars@, p) == crate::text::ws_end(chars@, *pos as int),
            decreases chars@.len() - *pos,
        {
            *pos += 1;
        }
        let q = *pos;
        assert(crate::text::ws_end(chars@, q as int) == q) by {
            if q < chars@.len() {
                assert(!crate::text::is_ws(chars@[q as int]));
            }
        }
        if q >= chars.len() {
            if stop {
                assert(program_from(chars@, p, stop, strict, acc) == Err::<(Seq<Stmt>, int), Seq<char>>(err_missing_close(strict)));
                return Err(crate::text::lit(
                    if strict {
                        "'}' が不足しています"
                    } else {
                        "'{' に対応する '}' がありません"
                    },
                ));
            }
            assert(program_from(chars@, p, stop, strict, acc) == Ok::<(Seq<Stmt>, int), Seq<char>>((acc, q as int)));
            return Ok(nodes);
        }
        proof {
            lemma_stmt_end(chars@, q as int, 0, 0);
        }
        let mut sq_open: usize = 0;
        let mut sq_close: usize = 0;
        let mut pa_open: usize = 0;
        let mut pa_close: usize = 0;
        let mut e = q;
        while e < chars.len() && !(sq_open == sq_close && pa_open == pa_close && (chars[e] == '{'
            || chars[e] == '\n' || chars[e] == '}'))
            invariant
                p0 <= p <= q <= e <= chars@.len(),
                sq_open <= e - q && sq_close <= e - q && pa_open <= e - q && pa_close <= e - q,
                stmt_end(chars@, q as int, 0, 0) == stmt_end(
                    chars@,
                    e as int,
                    sq_open - sq_close,
                    pa_open - pa_close,
                ),
            decreases chars@.len() - e,
        {
            let c = chars[e];
            if c == '[' {
                sq_open += 1;
            } else if c == ']' {
                sq_close += 1;
            } else if c == '(' {
                pa_open += 1;
            } else if c == ')' {
                pa_close += 1;
            }
            e += 1;
        }
        let ghost raw_text = chars@.subrange(q as int, e as int);
        if e >= chars.len() {
            if stop {
                assert(program_from(chars@, p, stop, strict, acc) == Err::<(Seq<Stmt>, int), Seq<char>>(err_missing_close(strict)));
                return Err(crate::text::lit(
                    if strict {
                        "'}' が不足しています"
                    } else {
                        "'{' に対応する '}' がありません"
                    },
                ));
            }
            push_raw_vec(&mut nodes, chars, q, e);
            *pos = e;
            assert(program_from(chars@, p, stop, strict, acc) == Ok::<(Seq<Stmt>, int), Seq<char>>((push_raw(acc, raw_text), e as int)));
            return Ok(nodes);
        }
        let c = chars[e];
        if c == '{' {
            let raw = slice_vec(chars, q, e);
            let header = trim_vec(&raw);
            if strict && header.len() == 0 {
                assert(program_from(chars@, p, stop, strict, acc) == Err::<(Seq<Stmt>, int), Seq<char>>(err_empty_header()));
                return Err(crate::text::lit("'{' の前に命令がありません"));
            }
            *pos = e + 1;
            assert(e + 1 > p0);
            let body = match parse_statements(chars, pos, true, strict) {
                Ok(b) => b,
                Err(x) => {
                    assert(program_from(chars@, p, stop, strict, acc) == Err::<(Seq<Stmt>, int), Seq<char>>(x@));
                    return Err(x);
                },
            };
            proof {
                lemma_program_pos(chars@, e + 1, true, strict, seq![]);
            }
            let ghost before = nodes@;
            let node = ScriptNode::Block { header: string_of(&header), body };
            assert(node@ == Stmt::Block { header: header@, body: stmts_view(body@) }) by {
                assert(node@->body =~= stmts_view(body@));
            }
            nodes.push(node);
            assert(stmts_view(nodes@) =~= stmts_view(before).push(node@));
        } else if c == '\n' {
            push_raw_vec(&mut nodes, chars, q, e);
            *pos = e + 1;
        } else {
            if !stop {
                assert(program_from(chars@, p, stop, strict, acc) == Err::<(Seq<Stmt>, int), Seq<char>>(err_stray_close()));
                return Err(crate::text::lit("対応する '{' がない '}' があります"));
            }
            push_raw_vec(&mut nodes, chars, q, e);
            *pos = e + 1;
            assert(program_from(chars@, p, stop, strict, acc) == Ok::<(Seq<Stmt>, int), Seq<char>>((push_raw(acc, raw_text), e + 1)));
            return Ok(nodes);
        }
    }
}


/// Whether every text inside a statement is at most `n` characters long.
pub open spec fn stmt_fits(st: Stmt, n: int) -> bool
    decreases st,
{
    match st {
        Stmt::Raw(r) => r.len() <= n,
        Stmt::Block { header, body } => header.len() <= n && forall|i: int|
            0 <= i < body.len() ==> stmt_fits(#[trigger] body[i], n),
    }
}

pub open spec fn stmts_fit(v: Seq<Stmt>, n: int) -> bool {
    forall|i: int| 0 <= i < v.len() ==> stmt_fits(#[trigger] v[i], n)
}

proof fn lemma_trim_len(s: Seq<char>)
    ensures
        trim(s).len() <= s.len(),
{
    crate::text::lemma_trim_start_len(s);
    crate::text::lemma_trim_end_len(trim_start(s));
}

/// Every statement parsed from `cs` holds only texts of `cs`, so none is longer than it.
pub proof fn lemma_program_fits(cs: Seq<char>, p: int, stop: bool, strict: bool, acc: Seq<Stmt>)
    requires
        stmts_fit(acc, cs.len() as int),
    ensures
        program_from(cs, p, stop, strict, acc) matches Ok((v, _)) ==> stmts_fit(v, cs.len() as int),
    decreases cs.len() - p,
{
    if 0 <= p <= cs.len() {
        let q = crate::text::ws_end(cs, p);
        crate::text::lemma_ws_end(cs, p);
        if q < cs.len() {
            let e = stmt_end(cs, q, 0, 0);
            lemma_stmt_end(cs, q, 0, 0);
            let raw = cs.subrange(q, e);
            lemma_trim_len(raw);
            let n = cs.len() as int;
            assert(stmts_fit(push_raw(acc, raw), n)) by {
                if trim(raw).len() > 0 {
                    assert(stmt_fits(Stmt::Raw(trim(raw)), n));
                    assert forall|i: int| 0 <= i < push_raw(acc, raw).len() implies stmt_fits(
                        #[trigger] push_raw(acc, raw)[i],
                        n,
                    ) by {
                        if i < acc.len() {
                            assert(push_raw(acc, raw)[i] == acc[i]);
                        }
                    }
                }
            }
            if e < cs.len() {
                if cs[e] == '{' {
                    lemma_program_fits(cs, e + 1, true, strict, seq![]);
                    lemma_program_pos(cs, e + 1, true, strict, seq![]);
                    if let Ok((body, r)) = program_from(cs, e + 1, true, strict, seq![]) {
                        if p < r <= cs.len() {
                            let b = Stmt::Block { header: trim(raw), body };
                            assert(stmt_fits(b, n));
                            let acc2 = acc.push(b);
                            assert forall|i: int| 0 <= i < acc2.len() implies stmt_fits(
                                #[trigger] acc2[i],
                                n,
                            ) by {
                                if i < acc.len() {
                                    assert(acc2[i] == acc[i]);
                                }
                            }
                            lemma_program_fits(cs, r, stop, strict, acc2);
                        }
                    }
                } else if cs[e] == '\n' {
                    lemma_program_fits(cs, e + 1, stop, strict, push_raw(acc, raw));
                }
            }
        }
    }
}


/// The length of the longest text inside a statement.
pub open spec fn stmt_size(st: Stmt) -> nat
    decreases st, 1int,
{
    match st {
        Stmt::Raw(r) => r.len(),
        Stmt::Block { header, body } => {
            let b = stmts_size(body);
            if header.len() >= b {
                header.len()
            } else {
                b
            }
        },
    }
}

/// The length of the longest text inside a list of statements.
pub open spec fn stmts_size(v: Seq<Stmt>) -> nat
    decreases v, 0int,
{
    if v.len() == 0 {
        0
    } else {
        let a = stmts_size(v.subrange(0, v.len() - 1));
        let b = stmt_size(v[v.len() - 1]);
        if a >= b {
            a
        } else {
            b
        }
    }
}

pub proof fn lemma_size_fits(st: Stmt, n: int)
    requires
        stmt_fits(st, n),
        0 <= n,
    ensures
        stmt_size(st) <= n,
    decreases st, 1int,
{
    if let Stmt::Block { header, body } = st {
        lemma_sizes_fit(body, n);
    }
}

pub proof fn lemma_sizes_fit(v: Seq<Stmt>, n: int)
    requires
        stmts_fit(v, n),
        0 <= n,
    ensures
        stmts_size(v) <= n,
    decreases v, 0int,
{
    if v.len() > 0 {
        assert(stmts_fit(v.subrange(0, v.len() - 1), n)) by {
            assert forall|i: int| 0 <= i < v.len() - 1 implies stmt_fits(
                #[trigger] v.subrange(0, v.len() - 1)[i],
                n,
            ) by {
                assert(v.subrange(0, v.len() - 1)[i] == v[i]);
            }
        }
        lemma_sizes_fit(v.subrange(0, v.len() - 1), n);
        lemma_size_fits(v[v.len() - 1], n);
    }
}

pub proof fn lemma_size_prefix(v: Seq<Stmt>, k: int)
    requires
        0 <= k <= v.len(),
    ensures
        stmts_size(v.subrange(0, k)) <= stmts_size(v),
        k < v.len() ==> stmt_size(v[k]) <= stmts_size(v),
    decreases v.len() - k,
{
    if k < v.len() {
        lemma_size_prefix(v, k + 1);
        let w = v.subrange(0, k + 1);
        assert(w.subrange(0, k) =~= v.subrange(0, k));
        assert(w[k] == v[k]);
        lemma_size_prefix(v.subrange(0, k + 1), k + 1);
    } else {
        assert(v.subrange(0, k) =~= v);
    }
}

} // verus!
