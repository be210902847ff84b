//! The Warp 4 script language as the interpreter reads it: statements, commands and their
//! arguments, conditions, waiting times and the scanner of `calc[...]` expressions.
use vstd::prelude::*;
use crate::syntax4::{balanced, group_end, keyword_at_start, top_level_index, ScriptNode, Stmt};
use crate::text::{chars_of, is_ws, lit, slice_vec, starts_with, string_of, trim, trim_start, trim_vec};

verus! {

broadcast use {crate::text::lemma_concat_assoc, crate::text::lemma_concat_empty};

/// A reader of script statements; comments are removed when it is made.
pub struct Parser {
    pub chars: Vec<char>,
    pub pos: usize,
}

impl Parser {
    pub open spec fn wf(&self) -> bool {
        self.pos <= self.chars@.len()
    }

    /// A reader at the start of `source` without its `#` comments.
    pub fn new(source: &str) -> (r: Self)
        ensures
            r.wf(),
            r.chars@ == crate::syntax4::join_uncommented(crate::text::lines(source@)),
            r.pos == 0,
    {
        let cleaned = crate::syntax4::strip_comments(source);
        Parser { chars: chars_of(cleaned.as_str()), pos: 0 }
    }

    /// The statements from the current position; with `stop_on_brace` a `}` ends them.
    pub fn parse_program(&mut self, stop_on_brace: bool) -> (r: Result<Vec<ScriptNode>, String>)
        requires
            old(self).wf(),
        ensures
            final(self).chars@ == old(self).chars@,
            match crate::syntax4::program_from(
                old(self).chars@,
                old(self).pos as int,
                stop_on_brace,
                true,
                seq![],
            ) {
                Ok((v, q)) => r matches Ok(nodes) && crate::syntax4::stmts_view(nodes@) == v
                    && final(self).pos == q,
                Err(e) => r matches Err(m) && m@ == e,
            },
    {
        crate::syntax4::parse_statements(&self.chars, &mut self.pos, stop_on_brace, true)
    }

    /// Moves past whitespace.
    pub fn skip_whitespace(&mut self)
        requires
            old(self).wf(),
        ensures
            final(self).wf(),
            final(self).chars == old(self).chars,
            final(self).pos == crate::text::ws_end(old(self).chars@, old(self).pos as int),
    {
        proof {
            crate::text::lemma_ws_end(self.chars@, self.pos as int);
        }
        let ghost p = self.pos as int;
        while self.pos < self.chars.len() && crate::text::is_whitespace(self.chars[self.pos])
            invariant
                p <= self.pos <= self.chars@.len(),
                self.chars == old(self).chars,
                p == old(self).pos,
                crate::text::ws_end(self.chars@, p) == crate::text::ws_end(
                    self.chars@,
                    self.pos as int,
                ),
            decreases self.chars@.len() - self.pos,
        {
            self.pos += 1;
        }
    }

    /// The character at the current position.
    pub fn peek(&self) -> (r: Option<char>)
        ensures
            r == (if self.pos < self.chars@.len() {
                Some(self.chars@[self.pos as int])
            } else {
                None
            }),
    {
        if self.pos < self.chars.len() {
            Some(self.chars[self.pos])
        } else {
            None
        }
    }

    /// Whether the whole text has been read.
    pub fn eof(&self) -> (r: bool)
        ensures
            r == (self.pos >= self.chars@.len()),
    {
        self.pos >= self.chars.len()
    }
}

// ---------------------------------------------------------------------------------------
// Conditions
// ---------------------------------------------------------------------------------------

/// How a condition compares its sides.
#[derive(Debug, Clone, Copy, PartialEq, Eq, Structural)]
pub enum CompareOp {
    Eq,
    Ne,
    Lt,
    Gt,
}

/// The comparison that the operator at `i` of width `w` stands for.
pub open spec fn op_at(s: Seq<char>, i: int, w: int) -> CompareOp {
    if w == 2 {
        CompareOp::Ne
    } else if s[i] == '=' {
        CompareOp::Eq
    } else if s[i] == '<' {
        CompareOp::Lt
    } else {
        CompareOp::Gt
    }
}

/// A condition cut at its first operator outside brackets: trimmed sides and the comparison.
pub open spec fn condition_of(s: Seq<char>) -> Option<(Seq<char>, CompareOp, Seq<char>)> {
    match crate::syntax4::condition_split(s) {
        Some((i, w)) => Some((trim(s.take(i)), op_at(s, i, w), trim(s.skip(i + w)))),
        None => None,
    }
}

proof fn lemma_condition_split(s: Seq<char>, i: int)
    requires
        0 <= i,
    ensures
        crate::syntax4::condition_split_from(s, i) matches Some((k, w)) ==> i <= k && k + w <= s.len()
            && (w == 1 || w == 2) && (w == 1 ==> (s[k] == '=' || s[k] == '<' || s[k] == '>')),
    decreases s.len() - i,
{
    if i < s.len() && crate::syntax4::operator_at(s, i) is None {
        lemma_condition_split(s, i + 1);
    }
}

/// The sides and the comparison of a condition.
pub fn split_condition(header: &[char]) -> (r: Option<(String, CompareOp, String)>)
    ensures
        match condition_of(header@) {
            Some((l, o, rt)) => r matches Some(p) && p.0@ == l && p.1 == o && p.2@ == rt,
            None => r is None,
        },
{
    match crate::syntax4::split_condition_at(header) {
        Some((i, w)) => {
            proof {
                lemma_condition_split(header@, 0);
            }
            let n = header.len();
            assert(i + w <= n);
            let left = slice_vec(header, 0, i);
            let right = slice_vec(header, i + w, header.len());
            assert(left@ =~= header@.take(i as int));
            assert(right@ =~= header@.skip(i + w));
            let op = if w == 2 {
                CompareOp::Ne
            } else if header[i] == '=' {
                CompareOp::Eq
            } else if header[i] == '<' {
                CompareOp::Lt
            } else {
                CompareOp::Gt
            };
            Some((string_of(&trim_vec(&left)), op, string_of(&trim_vec(&right))))
        },
        None => None,
    }
}

/// A numeric question that only floating point answers: whether the first text, read as a
/// number, is less than the second (`false` when either is not a number), or whether a text
/// read as a number is finite and not negative.
pub enum Question {
    Less(Seq<char>, Seq<char>),
    NonNegative(Seq<char>),
}

/// What a comparison gives, once `less` has answered for the numeric ones.
pub open spec fn compare_spec(left: Seq<char>, op: CompareOp, right: Seq<char>, less: bool) -> bool {
    match op {
        CompareOp::Eq => trim(left) == trim(right),
        CompareOp::Ne => trim(left) != trim(right),
        CompareOp::Lt => less,
        CompareOp::Gt => less,
    }
}

/// The numeric question that a comparison asks, if any: `<` asks whether the left side is
/// less, `>` whether the right side is.
pub open spec fn compare_question(left: Seq<char>, op: CompareOp, right: Seq<char>) -> Option<
    (Seq<char>, Seq<char>),
> {
    match op {
        CompareOp::Lt => Some((trim(left), trim(right))),
        CompareOp::Gt => Some((trim(right), trim(left))),
        _ => None,
    }
}

/// Compares the sides; `less` is the answer to the numeric question, used for `<` and `>`.
pub fn compare(left: &str, op: CompareOp, right: &str, less: bool) -> (r: bool)
    ensures
        r == compare_spec(left@, op, right@, less),
{
    match op {
        CompareOp::Eq => {
            let a = trim_vec(&chars_of(left));
            let b = trim_vec(&chars_of(right));
            crate::text::eq_chars(&a, &b)
        },
        CompareOp::Ne => {
            let a = trim_vec(&chars_of(left));
            let b = trim_vec(&chars_of(right));
            !crate::text::eq_chars(&a, &b)
        },
        CompareOp::Lt => less,
        CompareOp::Gt => less,
    }
}

// ---------------------------------------------------------------------------------------
// Commands and calls
// ---------------------------------------------------------------------------------------

/// What follows `command` in `stmt` when `stmt` is that command: nothing, or whitespace and
/// the arguments (returned without leading whitespace).
pub open spec fn command_rest(stmt: Seq<char>, command: Seq<char>) -> Option<Seq<char>> {
    if !starts_with(stmt, command) {
        None
    } else {
        let rest = stmt.skip(command.len() as int);
        if rest.len() == 0 || is_ws(rest[0]) {
            Some(trim_start(rest))
        } else {
            None
        }
    }
}

/// The arguments of `command` in `stmt`, if `stmt` is that command.
pub fn strip_command(stmt: &[char], command: &str) -> (r: Option<Vec<char>>)
    ensures
        match command_rest(stmt@, command@) {
            Some(rest) => r matches Some(v) && v@ == rest,
            None => r is None,
        },
{
    if !crate::text::starts_with_str(stmt, command) {
        return None;
    }
    let n = command.unicode_len();
    let rest = slice_vec(stmt, n, stmt.len());
    assert(rest@ =~= stmt@.skip(n as int));
    if rest.len() == 0 || crate::text::is_whitespace(rest[0]) {
        Some(crate::text::trim_start_vec(&rest))
    } else {
        None
    }
}

/// `name (value)` after a command: the name and the value, or the error.
pub open spec fn name_value(rest: Seq<char>, command: Seq<char>) -> Result<
    (Seq<char>, Seq<char>),
    Seq<char>,
> {
    match top_level_index(rest, '(') {
        None => Err(command + " は '"@ + command + " 名前 (値)' の形式で指定してください"@),
        Some(p) => {
            let name = trim(rest.take(p));
            if name.len() == 0 {
                Err(command + " の名前が空です"@)
            } else {
                match balanced(rest, p, '(', ')') {
                    Err(e) => Err(e),
                    Ok((value, end)) => if trim(rest.skip(end)).len() != 0 {
                        Err(command + " の値の後ろに解釈できない文字があります"@)
                    } else {
                        Ok((name, value))
                    },
                }
            }
        },
    }
}

/// Reads `name (value)` after `command`.
pub fn parse_name_value(rest: &[char], command: &str) -> (r: Result<(String, String), String>)
    ensures
        match name_value(rest@, command@) {
            Ok((n, v)) => r matches Ok(p) && p.0@ == n && p.1@ == v,
            Err(e) => r matches Err(m) && m@ == e,
        },
{
    let paren = match crate::syntax4::find_top_level_char(rest, '(') {
        Some(p) => p,
        None => {
            let mut e = lit(command);
            e.append(" は '");
            e.append(command);
            e.append(" 名前 (値)' の形式で指定してください");
            return Err(e);
        },
    };
    proof {
        crate::syntax4::lemma_top_level_from(rest@, '(', 0, 0);
    }
    let head = slice_vec(rest, 0, paren);
    assert(head@ =~= rest@.take(paren as int));
    let name = trim_vec(&head);
    if name.len() == 0 {
        let mut e = lit(command);
        e.append(" の名前が空です");
        return Err(e);
    }
    let (value, end) = crate::syntax4::read_balanced_str(rest, paren, '(', ')')?;
    proof {
        crate::syntax4::lemma_group_end(rest@, '(', ')', paren as int, 0);
    }
    let tail = slice_vec(rest, end, rest.len());
    assert(tail@ =~= rest@.skip(end as int));
    if trim_vec(&tail).len() != 0 {
        let mut e = lit(command);
        e.append(" の値の後ろに解釈できない文字があります");
        return Err(e);
    }
    Ok((string_of(&name), string_of(&value)))
}

/// `name(...)` or `name (...)`: what stands in the parentheses; `Ok(None)` when `stmt` is not
/// such a call, an error when something follows the parentheses.
pub open spec fn call_args(stmt: Seq<char>, name: Seq<char>) -> Result<Option<Seq<char>>, Seq<char>> {
    if !starts_with(stmt, name) {
        Ok(None)
    } else {
        let rest = stmt.skip(name.len() as int);
        if !(rest.len() > 0 && (rest[0] == '(' || is_ws(rest[0]))) {
            Ok(None)
        } else {
            let t = trim_start(rest);
            if !(t.len() > 0 && t[0] == '(') {
                Ok(None)
            } else {
                match balanced(t, 0, '(', ')') {
                    Err(e) => Err(e),
                    Ok((inside, end)) => if trim(t.skip(end)).len() != 0 {
                        Err(name + "(...) の後ろに解釈できない文字があります"@)
                    } else {
                        Ok(Some(inside))
                    },
                }
            }
        }
    }
}

/// What stands in the parentheses of the call `name(...)` in `stmt`, if it is one.
pub fn parse_call(stmt: &[char], name: &str) -> (r: Result<Option<Vec<char>>, String>)
    ensures
        match call_args(stmt@, name@) {
            Ok(Some(a)) => r matches Ok(Some(v)) && v@ == a,
            Ok(None) => r matches Ok(None),
            Err(e) => r matches Err(m) && m@ == e,
        },
{
    if !crate::text::starts_with_str(stmt, name) {
        return Ok(None);
    }
    let n = name.unicode_len();
    let rest = slice_vec(stmt, n, stmt.len());
    assert(rest@ =~= stmt@.skip(n as int));
    if !(rest.len() > 0 && (rest[0] == '(' || crate::text::is_whitespace(rest[0]))) {
        return Ok(None);
    }
    let t = crate::text::trim_start_vec(&rest);
    if !(t.len() > 0 && t[0] == '(') {
        return Ok(None);
    }
    let (inside, end) = crate::syntax4::read_balanced_str(&t, 0, '(', ')')?;
    proof {
        crate::syntax4::lemma_group_end(t@, '(', ')', 0, 0);
    }
    let tail = slice_vec(&t, end, t.len());
    assert(tail@ =~= t@.skip(end as int));
    if trim_vec(&tail).len() != 0 {
        let mut e = lit(name);
        e.append("(...) の後ろに解釈できない文字があります");
        return Err(e);
    }
    Ok(Some(inside))
}

/// The function that `command name` or `command (name)` names; `Ok(None)` when `stmt` is not
/// that command, an error when the name is empty or something follows the parentheses.
pub open spec fn named_call(stmt: Seq<char>, command: Seq<char>) -> Result<Option<Seq<char>>, Seq<char>> {
    if !keyword_at_start(stmt, command) {
        Ok(None)
    } else {
        let rest = trim_start(stmt.skip(command.len() as int));
        if rest.len() > 0 && rest[0] == '(' {
            match balanced(rest, 0, '(', ')') {
                Err(e) => Err(e),
                Ok((inside, end)) => if trim(rest.skip(end)).len() != 0 {
                    Err(command + "(...) の後ろに解釈できない文字があります"@)
                } else if trim(inside).len() == 0 {
                    Err(command + " の関数名が空です"@)
                } else {
                    Ok(Some(trim(inside)))
                },
            }
        } else if trim(rest).len() == 0 {
            Err(command + " の関数名が空です"@)
        } else {
            Ok(Some(trim(rest)))
        }
    }
}

/// The function that `command name` or `command (name)` in `stmt` names, if it is that command.
pub fn parse_named_call(stmt: &[char], command: &str) -> (r: Result<Option<String>, String>)
    ensures
        match named_call(stmt@, command@) {
            Ok(Some(a)) => r matches Ok(Some(v)) && v@ == a,
            Ok(None) => r matches Ok(None),
            Err(e) => r matches Err(m) && m@ == e,
        },
{
    if !crate::syntax4::header_after_keyword_is_valid(stmt, command) {
        return Ok(None);
    }
    let n = command.unicode_len();
    let after = slice_vec(stmt, n, stmt.len());
    assert(after@ =~= stmt@.skip(n as int));
    let rest = crate::text::trim_start_vec(&after);
    if rest.len() > 0 && rest[0] == '(' {
        let (inside, end) = crate::syntax4::read_balanced_str(&rest, 0, '(', ')')?;
        proof {
            crate::syntax4::lemma_group_end(rest@, '(', ')', 0, 0);
        }
        let tail = slice_vec(&rest, end, rest.len());
        assert(tail@ =~= rest@.skip(end as int));
        if trim_vec(&tail).len() != 0 {
            let mut e = lit(command);
            e.append("(...) の後ろに解釈できない文字があります");
            return Err(e);
        }
        let name = trim_vec(&inside);
        if name.len() == 0 {
            let mut e = lit(command);
            e.append(" の関数名が空です");
            return Err(e);
        }
        return Ok(Some(string_of(&name)));
    }
    let name = trim_vec(&rest);
    if name.len() == 0 {
        let mut e = lit(command);
        e.append(" の関数名が空です");
        return Err(e);
    }
    Ok(Some(string_of(&name)))
}

/// `fun name` or `fun (name)`: the function to call.
pub fn parse_fun_call(stmt: &[char]) -> (r: Result<Option<String>, String>)
    ensures
        match named_call(stmt@, "fun"@) {
            Ok(Some(a)) => r matches Ok(Some(v)) && v@ == a,
            Ok(None) => r matches Ok(None),
            Err(e) => r matches Err(m) && m@ == e,
        },
{
    parse_named_call(stmt, "fun")
}

/// `for name` or `for (name)`: the function to call over and over.
pub fn parse_for_call(stmt: &[char]) -> (r: Result<Option<String>, String>)
    ensures
        match named_call(stmt@, "for"@) {
            Ok(Some(a)) => r matches Ok(Some(v)) && v@ == a,
            Ok(None) => r matches Ok(None),
            Err(e) => r matches Err(m) && m@ == e,
        },
{
    parse_named_call(stmt, "for")
}

/// `if cond (statements)` on one line: the condition's parts and the trimmed body; `Ok(None)`
/// when `stmt` is not one.
pub open spec fn inline_if(stmt: Seq<char>) -> Result<
    Option<(Seq<char>, CompareOp, Seq<char>, Seq<char>)>,
    Seq<char>,
> {
    if !keyword_at_start(stmt, "if"@) {
        Ok(None)
    } else {
        let rest = trim_start(stmt.skip(2));
        match top_level_index(rest, '(') {
            None => Ok(None),
            Some(open) => match condition_of(trim(rest.take(open))) {
                None => Ok(None),
                Some((l, o, rt)) => match balanced(rest, open, '(', ')') {
                    Err(e) => Err(e),
                    Ok((body, end)) => if trim(rest.skip(end)).len() != 0 {
                        Ok(None)
                    } else {
                        Ok(Some((l, o, rt, trim(body))))
                    },
                },
            },
        }
    }
}

/// The parts of an inline `if`: the sides, the comparison and the trimmed body.
pub fn parse_inline_if(stmt: &[char]) -> (r: Result<Option<(String, CompareOp, String, String)>, String>)
    ensures
        match inline_if(stmt@) {
            Ok(Some((l, o, rt, b))) => r matches Ok(Some(p)) && p.0@ == l && p.1 == o && p.2@ == rt
                && p.3@ == b,
            Ok(None) => r matches Ok(None),
            Err(e) => r matches Err(m) && m@ == e,
        },
{
    if !crate::syntax4::header_after_keyword_is_valid(stmt, "if") {
        return Ok(None);
    }
    proof {
        reveal_strlit("if");
    }
    let after = slice_vec(stmt, 2, stmt.len());
    assert(after@ =~= stmt@.skip(2));
    let rest = crate::text::trim_start_vec(&after);
    let open = match crate::syntax4::find_top_level_char(&rest, '(') {
        Some(o) => o,
        None => {
            return Ok(None);
        },
    };
    proof {
        crate::syntax4::lemma_top_level_from(rest@, '(', 0, 0);
    }
    let head = slice_vec(&rest, 0, open);
    assert(head@ =~= rest@.take(open as int));
    let cond = trim_vec(&head);
    let (left, op, right) = match split_condition(&cond) {
        Some(parts) => parts,
        None => {
            return Ok(None);
        },
    };
    let (body, end) = crate::syntax4::read_balanced_str(&rest, open, '(', ')')?;
    proof {
        crate::syntax4::lemma_group_end(rest@, '(', ')', open as int, 0);
    }
    let tail = slice_vec(&rest, end, rest.len());
    assert(tail@ =~= rest@.skip(end as int));
    if trim_vec(&tail).len() != 0 {
        return Ok(None);
    }
    Ok(Some((left, op, right, string_of(&trim_vec(&body)))))
}

// ---------------------------------------------------------------------------------------
// Positions, squares and waiting times
// ---------------------------------------------------------------------------------------

/// How many bytes UTF-8 takes for `c`.
pub open spec fn utf8_len(c: char) -> nat {
    if (c as u32) < 0x80 {
        1
    } else if (c as u32) < 0x800 {
        2
    } else if (c as u32) < 0x10000 {
        3
    } else {
        4
    }
}

/// The bytes that the first `k` characters of `s` take in UTF-8.
pub open spec fn byte_offset(s: Seq<char>, k: int) -> nat
    decreases k,
{
    if k <= 0 || k > s.len() {
        0
    } else {
        byte_offset(s, k - 1) + utf8_len(s[k - 1])
    }
}

pub proof fn lemma_byte_offset_mono(s: Seq<char>, i: int, j: int)
    requires
        0 <= i <= j <= s.len(),
    ensures
        byte_offset(s, i) <= byte_offset(s, j),
    decreases j - i,
{
    if i < j {
        lemma_byte_offset_mono(s, i, j - 1);
    }
}

/// The byte index in `s` where its character `char_index` starts, or the byte length of `s`
/// when it has no such character.
pub fn char_index_to_byte(s: &str, char_index: usize) -> (r: usize)
    requires
        byte_offset(s@, s@.len() as int) <= usize::MAX,
    ensures
        r == (if char_index < s@.len() {
            byte_offset(s@, char_index as int)
        } else {
            byte_offset(s@, s@.len() as int)
        }),
{
    let v = chars_of(s);
    let stop = if char_index < v.len() {
        char_index
    } else {
        v.len()
    };
    let mut i: usize = 0;
    let mut b: usize = 0;
    while i < stop
        invariant
            i <= stop <= v@.len(),
            v@ == s@,
            b == byte_offset(v@, i as int),
            byte_offset(v@, v@.len() as int) <= usize::MAX,
        decreases stop - i,
    {
        let n = v[i] as u32;
        proof {
            lemma_byte_offset_mono(v@, i + 1, v@.len() as int);
        }
        let w: usize = if n < 0x80 {
            1
        } else if n < 0x800 {
            2
        } else if n < 0x10000 {
            3
        } else {
            4
        };
        b = b + w;
        i += 1;
    }
    b
}

/// Whether `needle` stands in `chars` at `index`.
pub fn starts_at(chars: &[char], index: usize, needle: &str) -> (r: bool)
    ensures
        r == crate::text::starts_at(chars@, index as int, needle@),
{
    crate::text::starts_at_str(chars, index, needle)
}

/// The `]` that closes the `[` at `open_index`, if it is one and is closed.
pub open spec fn matching_square(chars: Seq<char>, open_index: int) -> Option<int> {
    if 0 <= open_index < chars.len() && chars[open_index] == '[' {
        group_end(chars, '[', ']', open_index, 0)
    } else {
        None
    }
}

/// The position of the `]` that closes the `[` at `open_index`.
pub fn find_matching_square(chars: &[char], open_index: usize) -> (r: Option<usize>)
    ensures
        match r {
            Some(i) => matching_square(chars@, open_index as int) == Some(i as int),
            None => matching_square(chars@, open_index as int) is None,
        },
{
    if open_index >= chars.len() || chars[open_index] != '[' {
        return None;
    }
    let mut depth: usize = 0;
    let mut i = open_index;
    while i < chars.len()
        invariant
            open_index <= i <= chars@.len(),
            i > open_index ==> depth >= 1,
            depth <= i - open_index,
            chars@[open_index as int] == '[',
            open_index < chars@.len(),
            group_end(chars@, '[', ']', open_index as int, 0) == group_end(
                chars@,
                '[',
                ']',
                i as int,
                depth as int,
            ),
        decreases chars@.len() - i,
    {
        let c = chars[i];
        if c == '[' {
            depth += 1;
        } else if c == ']' {
            if depth == 1 {
                return Some(i);
            }
            depth -= 1;
        }
        i += 1;
    }
    None
}

/// A unit of waiting time.
#[derive(Debug, Clone, Copy, PartialEq, Eq, Structural)]
pub enum TimeUnit {
    Nanos,
    Micros,
    Millis,
    Seconds,
    Minutes,
    Hours,
}

/// The unit that a waiting time ends with, tried as `ms`, `us`, `ns`, `s`, `m`, `h`, and the
/// length of its suffix.
pub open spec fn time_unit(text: Seq<char>) -> Option<(TimeUnit, int)> {
    if crate::text::ends_with(text, "ms"@) {
        Some((TimeUnit::Millis, 2))
    } else if crate::text::ends_with(text, "us"@) {
        Some((TimeUnit::Micros, 2))
    } else if crate::text::ends_with(text, "ns"@) {
        Some((TimeUnit::Nanos, 2))
    } else if crate::text::ends_with(text, "s"@) {
        Some((TimeUnit::Seconds, 1))
    } else if crate::text::ends_with(text, "m"@) {
        Some((TimeUnit::Minutes, 1))
    } else if crate::text::ends_with(text, "h"@) {
        Some((TimeUnit::Hours, 1))
    } else {
        None
    }
}

/// A waiting time read as far as text decides it: its number (which must be a float, and is
/// yet to be checked for being finite and not negative) and its unit, or the error.
pub open spec fn duration_parts(text: Seq<char>) -> Result<(Seq<char>, TimeUnit), Seq<char>> {
    match time_unit(text) {
        None => Err("wait の時間 '"@ + text + "' に単位がありません (ns/us/ms/s/m/h)"@),
        Some((unit, n)) => {
            let num = trim(text.take(text.len() - n));
            if crate::text::float_text(num) {
                Ok((num, unit))
            } else {
                Err("wait の時間 '"@ + text + "' を数値として解釈できません"@)
            }
        },
    }
}

/// The error for a waiting time whose number is infinite or negative.
pub open spec fn err_negative_duration(text: Seq<char>) -> Seq<char> {
    "wait の時間 '"@ + text + "' は 0 以上で指定してください"@
}

/// Reads a waiting time as far as text decides it: the number and the unit.
pub fn parse_duration(text: &str) -> (r: Result<(String, TimeUnit), String>)
    ensures
        match duration_parts(text@) {
            Ok((num, unit)) => r matches Ok(p) && p.0@ == num && p.1 == unit,
            Err(e) => r matches Err(m) && m@ == e,
        },
{
    let v = chars_of(text);
    proof {
        reveal_strlit("ms");
        reveal_strlit("us");
        reveal_strlit("ns");
        reveal_strlit("s");
        reveal_strlit("m");
        reveal_strlit("h");
    }
    let (unit, n): (TimeUnit, usize) = if crate::text::ends_with_str(&v, "ms") {
        (TimeUnit::Millis, 2)
    } else if crate::text::ends_with_str(&v, "us") {
        (TimeUnit::Micros, 2)
    } else if crate::text::ends_with_str(&v, "ns") {
        (TimeUnit::Nanos, 2)
    } else if crate::text::ends_with_str(&v, "s") {
        (TimeUnit::Seconds, 1)
    } else if crate::text::ends_with_str(&v, "m") {
        (TimeUnit::Minutes, 1)
    } else if crate::text::ends_with_str(&v, "h") {
        (TimeUnit::Hours, 1)
    } else {
        let mut e = lit("wait の時間 '");
        e.append(text);
        e.append("' に単位がありません (ns/us/ms/s/m/h)");
        return Err(e);
    };
    let head = slice_vec(&v, 0, v.len() - n);
    assert(head@ =~= v@.take(v@.len() - n));
    let num = trim_vec(&head);
    if crate::text::is_float_text(&num) {
        Ok((string_of(&num), unit))
    } else {
        let mut e = lit("wait の時間 '");
        e.append(text);
        e.append("' を数値として解釈できません");
        Err(e)
    }
}

/// A scanner over the text of a `calc[...]` expression.
pub struct CalcParser {
    pub chars: Vec<char>,
    pub pos: usize,
}

impl CalcParser {
    /// A scanner at the start of `s`.
    pub fn new(s: &str) -> (r: Self)
        ensures
            r.chars@ == s@,
            r.pos == 0,
    {
        CalcParser { chars: chars_of(s), pos: 0 }
    }

    /// Moves past whitespace.
    pub fn skip_ws(&mut self)
        ensures
            final(self).chars == old(self).chars,
            final(self).pos == (if old(self).pos <= old(self).chars@.len() {
                crate::text::ws_end(old(self).chars@, old(self).pos as int) as usize
            } else {
                old(self).pos
            }),
    {
        if self.pos > self.chars.len() {
            return;
        }
        proof {
            crate::text::lemma_ws_end(self.chars@, self.pos as int);
        }
        let ghost p = self.pos as int;
        while self.pos < self.chars.len() && crate::text::is_whitespace(self.chars[self.pos])
            invariant
                p <= self.pos <= self.chars@.len(),
                self.chars == old(self).chars,
                p == old(self).pos,
                crate::text::ws_end(self.chars@, p) == crate::text::ws_end(
                    self.chars@,
                    self.pos as int,
                ),
            decreases self.chars@.len() - self.pos,
        {
            self.pos += 1;
        }
    }

    /// The character at the current position.
    pub fn peek(&self) -> (r: Option<char>)
        ensures
            r == (if self.pos < self.chars@.len() {
                Some(self.chars@[self.pos as int])
            } else {
                None
            }),
    {
        if self.pos < self.chars.len() {
            Some(self.chars[self.pos])
        } else {
            None
        }
    }
}

} // verus!
