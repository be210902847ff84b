//! The Warp 4 compiler: scripts compiled to operation lists, and the single HTML page that
//! holds every screen with its script and the browser runtime.
use vstd::prelude::*;
use crate::syntax4::{
    balanced, condition_split, keyword_at_start, program_from, stmt_size, stmts_size,
    stmts_view, top_level_index, ScriptNode, Stmt,
};
use crate::text::{chars_of, is_ws, lit, slice_vec, starts_with, string_of, trim, trim_start, trim_vec};

verus! {

broadcast use {crate::text::lemma_concat_assoc, crate::text::lemma_concat_empty};

/// A compiled script operation.
#[derive(Debug)]
pub enum Op {
    Command { name: String, target: Option<String>, value: Option<String> },
    If { left: String, operator: String, right: String, body: Vec<Op> },
}

/// An optional text in an `OpModel`.
pub enum OptText {
    Absent,
    Present(Seq<char>),
}

/// The value of an `Op`.
pub enum OpModel {
    Command { name: Seq<char>, target: OptText, value: OptText },
    If { left: Seq<char>, operator: Seq<char>, right: Seq<char>, then: Seq<OpModel> },
}

/// The text of an optional `String`.
pub open spec fn opt_text(o: Option<String>) -> OptText {
    match o {
        Some(s) => OptText::Present(s@),
        None => OptText::Absent,
    }
}

impl View for Op {
    type V = OpModel;

    open spec fn view(&self) -> OpModel
        decreases self,
    {
        match self {
            Op::Command { name, target, value } => OpModel::Command {
                name: name@,
                target: opt_text(*target),
                value: opt_text(*value),
            },
            Op::If { left, operator, right, body } => OpModel::If {
                left: left@,
                operator: operator@,
                right: right@,
                then: Seq::new(
                    body@.len(),
                    |i: int|
                        if 0 <= i < body@.len() {
                            body@[i].view()
                        } else {
                            OpModel::Command { name: Seq::empty(), target: OptText::Absent, value: OptText::Absent }
                        },
                ),
            },
        }
    }
}

pub open spec fn ops_view(v: Seq<Op>) -> Seq<OpModel> {
    v.map_values(|o: Op| o@)
}

// ---------------------------------------------------------------------------------------
// Statements
// ---------------------------------------------------------------------------------------

/// A command operation.
pub fn command(name: &str, target: Option<String>, value: Option<String>) -> (r: Op)
    ensures
        r@ == (OpModel::Command { name: name@, target: opt_text(target), value: opt_text(value) }),
{
    Op::Command { name: lit(name), target, value }
}

/// The end of a command's name: the first whitespace or `(` from `i`, or the end.
pub open spec fn command_end(s: Seq<char>, i: int) -> int
    decreases s.len() - i,
{
    if i < 0 || i >= s.len() || is_ws(s[i]) || s[i] == '(' {
        i
    } else {
        command_end(s, i + 1)
    }
}

/// A statement cut into its command name and the rest.
pub open spec fn command_split(stmt: Seq<char>) -> (Seq<char>, Seq<char>) {
    let e = command_end(stmt, 0);
    (stmt.take(e), stmt.skip(e))
}

proof fn lemma_command_end(s: Seq<char>, i: int)
    requires
        0 <= i <= s.len(),
    ensures
        i <= command_end(s, i) <= s.len(),
    decreases s.len() - i,
{
    if i < s.len() && !(is_ws(s[i]) || s[i] == '(') {
        lemma_command_end(s, i + 1);
    }
}

/// A statement's command name (up to the first whitespace or `(`) and the rest.
pub fn split_command(stmt: &[char]) -> (r: (Vec<char>, Vec<char>))
    ensures
        (r.0@, r.1@) == command_split(stmt@),
{
    let mut e: usize = 0;
    while e < stmt.len() && !(crate::text::is_whitespace(stmt[e]) || stmt[e] == '(')
        invariant
            e <= stmt@.len(),
            command_end(stmt@, 0) == command_end(stmt@, e as int),
        decreases stmt@.len() - e,
    {
        e += 1;
    }
    let a = slice_vec(stmt, 0, e);
    let b = slice_vec(stmt, e, stmt.len());
    assert(a@ =~= stmt@.take(e as int));
    assert(b@ =~= stmt@.skip(e as int));
    (a, b)
}

/// What `ID (value)` gives: the ID and the value, or the error.
pub open spec fn target_value(rest: Seq<char>) -> Result<(Seq<char>, Seq<char>), Seq<char>> {
    match top_level_index(rest, '(') {
        None => Err("命令は '名前 (値)' の形式で指定してください"@),
        Some(open) => {
            let target = trim(rest.take(open));
            if target.len() == 0 {
                Err("命令の名前またはIDが空です"@)
            } else {
                match balanced(rest, open, '(', ')') {
                    Err(e) => Err(e),
                    Ok((value, end)) => if trim(rest.skip(end)).len() != 0 {
                        Err("値の後ろに解釈できない文字があります"@)
                    } else {
                        Ok((target, value))
                    },
                }
            }
        },
    }
}

/// Reads `ID (value)`: the target ID and the value in parentheses.
pub fn parse_target_value(rest: &[char]) -> (r: Result<(String, String), String>)
    ensures
        match target_value(rest@) {
            Ok((t, v)) => r matches Ok(p) && p.0@ == t && p.1@ == v,
            Err(e) => r matches Err(m) && m@ == e,
        },
{
    let open = match crate::syntax4::find_top_level_char(rest, '(') {
        Some(o) => o,
        None => {
            return Err(lit("命令は '名前 (値)' の形式で指定してください"));
        },
    };
    proof {
        crate::syntax4::lemma_top_level_from(rest@, '(', 0, 0);
    }
    assert(top_level_index(rest@, '(') == Some(open as int));
    let head = slice_vec(rest, 0, open);
    assert(head@ =~= rest@.take(open as int));
    let target = trim_vec(&head);
    if target.len() == 0 {
        return Err(lit("命令の名前またはIDが空です"));
    }
    let (value, end) = crate::syntax4::read_balanced_str(rest, open, '(', ')')?;
    proof {
        crate::syntax4::lemma_group_end(rest@, '(', ')', open as int, 0);
    }
    let tail = slice_vec(rest, end, rest.len());
    assert(tail@ =~= rest@.skip(end as int));
    let tt = trim_vec(&tail);
    if tt.len() != 0 {
        return Err(lit("値の後ろに解釈できない文字があります"));
    }
    Ok((string_of(&target), string_of(&value)))
}

/// Whether `value` begins with the word `keyword`.
pub fn keyword_boundary(value: &[char], keyword: &str) -> (r: bool)
    ensures
        r == keyword_at_start(value@, keyword@),
{
    crate::syntax4::header_after_keyword_is_valid(value, keyword)
}

/// The function that a top-level block header `fun (name)` defines, if it is one.
pub fn parse_fun_definition(header: &[char]) -> (r: Result<Option<String>, String>)
    ensures
        match crate::syntax4::fun_definition(header@) {
            Ok(Some(n)) => r matches Ok(Some(s)) && s@ == n,
            Ok(None) => r matches Ok(None),
            Err(e) => r matches Err(m) && m@ == e,
        },
{
    crate::syntax4::parse_fun_definition_header(header)
}

/// A condition cut at its operator: the trimmed left side, the operator, the trimmed right.
pub open spec fn condition_parts(value: Seq<char>) -> Option<(Seq<char>, Seq<char>, Seq<char>)> {
    match condition_split(value) {
        Some((i, w)) => Some((trim(value.take(i)), value.subrange(i, i + w), trim(value.skip(i + w)))),
        None => None,
    }
}

proof fn lemma_condition_split(s: Seq<char>, i: int)
    requires
        0 <= i,
    ensures
        crate::syntax4::condition_split_from(s, i) matches Some((k, w)) ==> i <= k && k + w <= s.len()
            && (w == 1 || w == 2),
    decreases s.len() - i,
{
    if i < s.len() && crate::syntax4::operator_at(s, i) is None {
        lemma_condition_split(s, i + 1);
    }
}

/// The left side, operator (`!=`, `=`, `<` or `>`) and right side of a condition.
pub fn split_condition(value: &[char]) -> (r: Option<(String, String, String)>)
    ensures
        match condition_parts(value@) {
            Some((l, o, rt)) => r matches Some(p) && p.0@ == l && p.1@ == o && p.2@ == rt,
            None => r is None,
        },
{
    match crate::syntax4::split_condition_at(value) {
        Some((i, w)) => {
            proof {
                lemma_condition_split(value@, 0);
            }
            assert(condition_split(value@) == Some((i as int, w as int)));
            let n = value.len();
            assert(i + w <= n);
            let left = slice_vec(value, 0, i);
            let op = slice_vec(value, i, i + w);
            let right = slice_vec(value, i + w, value.len());
            assert(left@ =~= value@.take(i as int));
            assert(right@ =~= value@.skip(i + w));
            let l = trim_vec(&left);
            let rt = trim_vec(&right);
            Some((string_of(&l), string_of(&op), string_of(&rt)))
        },
        None => None,
    }
}


// ---------------------------------------------------------------------------------------
// Compiling statements
// ---------------------------------------------------------------------------------------

/// `command` as a value.
pub open spec fn cmd(name: Seq<char>, target: OptText, value: OptText) -> OpModel {
    OpModel::Command { name, target, value }
}

/// A statement that is neither `break` nor an inline `if`: a command name, then nothing,
/// `(value)`, `ID (value)` for the commands that set something, or a bare value.
pub open spec fn plain_command(stmt: Seq<char>) -> Result<OpModel, Seq<char>> {
    let (name, rest) = command_split(stmt);
    let r = trim_start(rest);
    if name.len() == 0 {
        Err("命令を解析できません: "@ + stmt)
    } else if trim(rest).len() == 0 {
        Ok(cmd(name, OptText::Absent, OptText::Absent))
    } else if r.len() > 0 && r[0] == '(' {
        match balanced(r, 0, '(', ')') {
            Err(e) => Err(e),
            Ok((value, end)) => if trim(r.skip(end)).len() != 0 {
                Err("命令の後ろに文字があります: "@ + stmt)
            } else {
                Ok(cmd(name, OptText::Absent, OptText::Present(value)))
            },
        }
    } else if name == "var.set"@ || name == "var.edit"@ || name == "const.set"@ || starts_with(
        name,
        "WarpUI."@,
    ) {
        match target_value(r) {
            Err(e) => Err(e),
            Ok((t, v)) => Ok(cmd(name, OptText::Present(t), OptText::Present(v))),
        }
    } else {
        Ok(cmd(name, OptText::Absent, OptText::Present(trim(rest))))
    }
}

/// The compiled form of one statement line.
pub open spec fn compile_raw_spec(raw: Seq<char>) -> Result<OpModel, Seq<char>>
    decreases raw.len(), 2int, 0int,
{
    let stmt = trim(raw);
    proof {
        crate::text::lemma_trim_start_len(raw);
        crate::text::lemma_trim_end_len(trim_start(raw));
    }
    if stmt.len() == 0 {
        Err("空の命令です"@)
    } else if stmt == "break"@ {
        Ok(cmd("break"@, OptText::Absent, OptText::Absent))
    } else {
        match inline_if_spec(stmt) {
            Err(e) => Err(e),
            Ok(Some(op)) => Ok(op),
            Ok(None) => plain_command(stmt),
        }
    }
}

/// The parts of `if cond (body)` on one line: the text after `if`, where `(` opens the body,
/// and the condition's parts.
pub open spec fn inline_if_head(stmt: Seq<char>) -> Option<(Seq<char>, int, (Seq<char>, Seq<char>, Seq<char>))> {
    if !keyword_at_start(stmt, "if"@) {
        None
    } else {
        let rest = trim_start(stmt.skip(2));
        match top_level_index(rest, '(') {
            None => None,
            Some(open) => match condition_parts(trim(rest.take(open))) {
                None => None,
                Some(parts) => Some((rest, open, parts)),
            },
        }
    }
}

/// `if cond (statements)` on one line, compiled; `Ok(None)` when the line is not one.
pub open spec fn inline_if_spec(stmt: Seq<char>) -> Result<Option<OpModel>, Seq<char>>
    decreases stmt.len(), 1int, 0int,
{
    match inline_if_head(stmt) {
        None => Ok(None),
        Some((rest, open, (l, o, rt))) => match balanced(rest, open, '(', ')') {
            Err(e) => Err(e),
            Ok((body, end)) => if trim(rest.skip(end)).len() != 0 {
                Ok(None)
            } else {
                match program_from(body, 0, false, false, seq![]) {
                    Err(e) => Err(e),
                    Ok((nodes, _)) => {
                        proof {
                            lemma_inline_body_size(stmt, rest, open, body, nodes);
                        }
                        match compile_ops_spec(nodes) {
                            Err(e) => Err(e),
                            Ok(ops) => Ok(
                                Some(OpModel::If { left: l, operator: o, right: rt, then: ops }),
                            ),
                        }
                    },
                }
            },
        },
    }
}

/// The statements of an inline `if` body are shorter than the line.
pub proof fn lemma_inline_body_size(
    stmt: Seq<char>,
    rest: Seq<char>,
    open: int,
    body: Seq<char>,
    nodes: Seq<Stmt>,
)
    requires
        inline_if_head(stmt) matches Some((r, o, _)) && r == rest && o == open,
        balanced(rest, open, '(', ')') matches Ok((b, _)) && b == body,
        program_from(body, 0, false, false, seq![]) matches Ok((v, _)) && v == nodes,
    ensures
        stmts_size(nodes) < stmt.len(),
{
    reveal_strlit("if");
    assert(stmt.len() >= 2);
    crate::text::lemma_trim_start_len(stmt.skip(2));
    assert(rest.len() <= stmt.len() - 2);
    crate::syntax4::lemma_top_level_from(rest, '(', 0, 0);
    crate::syntax4::lemma_group_end(rest, '(', ')', open, 0);
    crate::syntax4::lemma_group_end(rest, '(', ')', open + 1, 1);
    let q = crate::syntax4::group_end(rest, '(', ')', open, 0)->0;
    assert(body == rest.subrange(open + 1, q));
    assert(body.len() < rest.len());
    crate::syntax4::lemma_program_fits(body, 0, false, false, seq![]);
    crate::syntax4::lemma_sizes_fit(nodes, body.len() as int);
}

/// One statement of a block body compiled: a line, or an `if` block.
pub open spec fn compile_stmt_spec(st: Stmt) -> Result<OpModel, Seq<char>>
    decreases stmt_size(st), 3int, stmt_weight(st),
{
    match st {
        Stmt::Raw(r) => compile_raw_spec(r),
        Stmt::Block { header, body } => {
            proof {
                lemma_block_size(header, body);
                lemma_weights_positive(body);
            }
            if !keyword_at_start(header, "if"@) {
                Err("対応していないブロックです: "@ + header)
            } else {
                match condition_parts(trim(header.skip(2))) {
                    None => Err("if の条件を解析できません: "@ + header),
                    Some((l, o, rt)) => match compile_ops_spec(body) {
                        Err(e) => Err(e),
                        Ok(ops) => Ok(OpModel::If { left: l, operator: o, right: rt, then: ops }),
                    },
                }
            }
        },
    }
}

/// How many statements and statement lists a statement holds, itself included.
pub open spec fn stmt_weight(st: Stmt) -> int
    decreases st, 1int,
{
    match st {
        Stmt::Raw(_) => 1,
        Stmt::Block { header, body } => 1 + stmts_weight(body),
    }
}

/// How many statements and statement lists a list holds, itself included.
pub open spec fn stmts_weight(v: Seq<Stmt>) -> int
    decreases v, 0int,
{
    if v.len() == 0 {
        1
    } else {
        stmts_weight(v.subrange(0, v.len() - 1)) + stmt_weight(v[v.len() - 1])
    }
}

pub proof fn lemma_weight_positive(st: Stmt)
    ensures
        stmt_weight(st) >= 1,
    decreases st, 1int,
{
    if let Stmt::Block { header, body } = st {
        lemma_weights_positive(body);
    }
}

pub proof fn lemma_weights_positive(v: Seq<Stmt>)
    ensures
        stmts_weight(v) >= 1,
    decreases v, 0int,
{
    if v.len() > 0 {
        lemma_weights_positive(v.subrange(0, v.len() - 1));
        lemma_weight_positive(v[v.len() - 1]);
    }
}

pub proof fn lemma_block_size(header: Seq<char>, body: Seq<Stmt>)
    ensures
        stmts_size(body) <= stmt_size(Stmt::Block { header, body }),
{
}

/// Statements compiled in order, or the first error.
pub open spec fn compile_ops_spec(nodes: Seq<Stmt>) -> Result<Seq<OpModel>, Seq<char>>
    decreases stmts_size(nodes), 3int, stmts_weight(nodes),
{
    if nodes.len() == 0 {
        Ok(seq![])
    } else {
        proof {
            crate::syntax4::lemma_size_prefix(nodes, nodes.len() - 1);
            lemma_weight_positive(nodes[nodes.len() - 1]);
            lemma_weights_positive(nodes.subrange(0, nodes.len() - 1));
        }
        match compile_ops_spec(nodes.subrange(0, nodes.len() - 1)) {
            Err(e) => Err(e),
            Ok(ops) => match compile_stmt_spec(nodes[nodes.len() - 1]) {
                Err(e) => Err(e),
                Ok(op) => Ok(ops.push(op)),
            },
        }
    }
}


/// The value of an `if` operation holds the values of its body.
pub proof fn lemma_if_view(op: Op)
    requires
        op is If,
    ensures
        op@ == (OpModel::If {
            left: op->left@,
            operator: op->operator@,
            right: op->right@,
            then: ops_view(op->body@),
        }),
{
    match op {
        Op::If { left, operator, right, body } => {
            assert(op@->then =~= ops_view(body@));
        },
        _ => {},
    }
}

/// The statements from `nodes[..k]` compiled; an error there is the error of the whole list.
proof fn lemma_ops_error(nodes: Seq<Stmt>, k: int)
    requires
        0 <= k <= nodes.len(),
        compile_ops_spec(nodes.subrange(0, k)) is Err,
    ensures
        compile_ops_spec(nodes) == compile_ops_spec(nodes.subrange(0, k)),
    decreases nodes.len() - k,
{
    if k == nodes.len() {
        assert(nodes.subrange(0, k) =~= nodes);
    } else {
        let w = nodes.subrange(0, k + 1);
        assert(w.subrange(0, k) =~= nodes.subrange(0, k));
        lemma_ops_error(nodes, k + 1);
    }
}

/// Compiles one statement line.
pub fn compile_raw(raw: &str) -> (r: Result<Op, String>)
    ensures
        match compile_raw_spec(raw@) {
            Ok(op) => r matches Ok(o) && o@ == op,
            Err(e) => r matches Err(m) && m@ == e,
        },
    decreases raw@.len(), 2int, 0int,
{
    let v = chars_of(raw);
    let stmt = trim_vec(&v);
    proof {
        crate::text::lemma_trim_start_len(raw@);
        crate::text::lemma_trim_end_len(trim_start(raw@));
    }
    if stmt.len() == 0 {
        return Err(lit("空の命令です"));
    }
    if crate::text::eq_str(&stmt, "break") {
        return Ok(command("break", None, None));
    }
    let stmt_text = string_of(&stmt);
    match parse_inline_if(stmt_text.as_str())? {
        Some(op) => {
            return Ok(op);
        },
        None => {},
    }
    let (name, rest) = split_command(&stmt);
    if name.len() == 0 {
        let mut e = lit("命令を解析できません: ");
        crate::text::push_chars(&mut e, &stmt);
        return Err(e);
    }
    let name_text = string_of(&name);
    let rt = trim_vec(&rest);
    if rt.len() == 0 {
        return Ok(Op::Command { name: name_text, target: None, value: None });
    }
    let r = crate::text::trim_start_vec(&rest);
    if r.len() > 0 && r[0] == '(' {
        let (value, end) = crate::syntax4::read_balanced_str(&r, 0, '(', ')')?;
        proof {
            crate::syntax4::lemma_group_end(r@, '(', ')', 0, 0);
        }
        let tail = slice_vec(&r, end, r.len());
        assert(tail@ =~= r@.skip(end as int));
        let tt = trim_vec(&tail);
        if tt.len() != 0 {
            let mut e = lit("命令の後ろに文字があります: ");
            crate::text::push_chars(&mut e, &stmt);
            return Err(e);
        }
        return Ok(Op::Command { name: name_text, target: None, value: Some(string_of(&value)) });
    }
    if crate::text::eq_str(&name, "var.set") || crate::text::eq_str(&name, "var.edit")
        || crate::text::eq_str(&name, "const.set") || crate::text::starts_with_str(
        &name,
        "WarpUI.",
    ) {
        let (t, val) = parse_target_value(&r)?;
        return Ok(Op::Command { name: name_text, target: Some(t), value: Some(val) });
    }
    Ok(Op::Command { name: name_text, target: None, value: Some(string_of(&rt)) })
}

/// `if cond (statements)` on one line, compiled; `Ok(None)` when `stmt` is not one.
pub fn parse_inline_if(stmt: &str) -> (r: Result<Option<Op>, String>)
    ensures
        match inline_if_spec(stmt@) {
            Ok(Some(op)) => r matches Ok(Some(o)) && o@ == op,
            Ok(None) => r matches Ok(None),
            Err(e) => r matches Err(m) && m@ == e,
        },
    decreases stmt@.len(), 1int, 0int,
{
    let sv = chars_of(stmt);
    if !keyword_boundary(&sv, "if") {
        return Ok(None);
    }
    proof {
        reveal_strlit("if");
    }
    let after = slice_vec(&sv, 2, sv.len());
    assert(after@ =~= stmt@.skip(2));
    let rest = crate::text::trim_start_vec(&after);
    let open = match crate::syntax4::find_top_level_char(&rest, '(') {
        Some(o) => o,
        None => {
            return Ok(None);
        },
    };
    proof {
        crate::syntax4::lemma_top_level_from(rest@, '(', 0, 0);
    }
    let head = slice_vec(&rest, 0, open);
    assert(head@ =~= rest@.take(open as int));
    let cond = trim_vec(&head);
    let (left, operator, right) = match split_condition(&cond) {
        Some(parts) => parts,
        None => {
            return Ok(None);
        },
    };
    let (body, end) = crate::syntax4::read_balanced_str(&rest, open, '(', ')')?;
    proof {
        crate::syntax4::lemma_group_end(rest@, '(', ')', open as int, 0);
    }
    let tail = slice_vec(&rest, end, rest.len());
    assert(tail@ =~= rest@.skip(end as int));
    let tt = trim_vec(&tail);
    if tt.len() != 0 {
        return Ok(None);
    }
    let body_text = string_of(&body);
    let mut parser = ScriptParser::new(body_text.as_str());
    let nodes = parser.parse_program(false)?;
    proof {
        lemma_inline_body_size(stmt@, rest@, open as int, body@, stmts_view(nodes@));
    }
    let ops = compile_ops(&nodes)?;
    let ghost bv = ops@;
    let op = Op::If { left, operator, right, body: ops };
    proof {
        lemma_if_view(op);
    }
    Ok(Some(op))
}

/// Compiles one statement of a block body.
fn compile_node(node: &ScriptNode) -> (r: Result<Op, String>)
    ensures
        match compile_stmt_spec(node@) {
            Ok(op) => r matches Ok(o) && o@ == op,
            Err(e) => r matches Err(m) && m@ == e,
        },
    decreases stmt_size(node@), 3int, crate::warp4::stmt_weight(node@),
{
    match node {
        ScriptNode::Raw(raw) => compile_raw(raw.as_str()),
        ScriptNode::Block { header, body } => {
            proof {
                assert(node@->body =~= stmts_view(body@));
                lemma_block_size(header@, stmts_view(body@));
                lemma_weights_positive(stmts_view(body@));
            }
            let hv = chars_of(header.as_str());
            if !keyword_boundary(&hv, "if") {
                let mut e = lit("対応していないブロックです: ");
                e.append(header.as_str());
                return Err(e);
            }
            proof {
                reveal_strlit("if");
            }
            let after = slice_vec(&hv, 2, hv.len());
            assert(after@ =~= header@.skip(2));
            let cond = trim_vec(&after);
            let (left, operator, right) = match split_condition(&cond) {
                Some(parts) => parts,
                None => {
                    let mut e = lit("if の条件を解析できません: ");
                    e.append(header.as_str());
                    return Err(e);
                },
            };
            let ops = compile_ops(body)?;
            let op = Op::If { left, operator, right, body: ops };
            proof {
                lemma_if_view(op);
            }
            Ok(op)
        },
    }
}

/// Compiles the statements of a block body in order, or gives the first error.
pub fn compile_ops(nodes: &Vec<ScriptNode>) -> (r: Result<Vec<Op>, String>)
    ensures
        match compile_ops_spec(stmts_view(nodes@)) {
            Ok(ops) => r matches Ok(v) && ops_view(v@) == ops,
            Err(e) => r matches Err(m) && m@ == e,
        },
    decreases stmts_size(stmts_view(nodes@)), 3int, stmts_weight(stmts_view(nodes@)),
{
    let ghost all = stmts_view(nodes@);
    let mut out: Vec<Op> = Vec::new();
    let mut i: usize = 0;
    assert(all.subrange(0, 0) =~= Seq::<Stmt>::empty());
    assert(ops_view(out@) =~= Seq::<OpModel>::empty());
    while i < nodes.len()
        invariant
            i <= nodes@.len(),
            all == stmts_view(nodes@),
            compile_ops_spec(all.subrange(0, i as int)) == Ok::<Seq<OpModel>, Seq<char>>(
                ops_view(out@),
            ),
        decreases nodes@.len() - i,
    {
        let ghost w = all.subrange(0, i + 1);
        assert(w.subrange(0, i as int) =~= all.subrange(0, i as int));
        assert(w[i as int] == nodes@[i as int]@);
        proof {
            crate::syntax4::lemma_size_prefix(all, i as int);
            lemma_weight_positive(all[i as int]);
            lemma_weights_prefix(all, i as int);
        }
        match compile_node(&nodes[i]) {
            Ok(op) => {
                let ghost before = out@;
                out.push(op);
                assert(ops_view(out@) =~= ops_view(before).push(op@));
            },
            Err(e) => {
                proof {
                    lemma_ops_error(all, i + 1);
                }
                return Err(e);
            },
        }
        i += 1;
    }
    assert(all.subrange(0, i as int) =~= all);
    Ok(out)
}

pub proof fn lemma_weights_prefix(v: Seq<Stmt>, k: int)
    requires
        0 <= k < v.len(),
    ensures
        stmt_weight(v[k]) < stmts_weight(v),
    decreases v.len() - k,
{
    lemma_weights_positive(v.subrange(0, v.len() - 1));
    if k < v.len() - 1 {
        let w = v.subrange(0, v.len() - 1);
        assert(w[k] == v[k]);
        lemma_weights_prefix(w, k);
        lemma_weight_positive(v[v.len() - 1]);
    }
}

// ---------------------------------------------------------------------------------------
// The script parser
// ---------------------------------------------------------------------------------------

/// A reader of script statements.
pub struct ScriptParser {
    pub chars: Vec<char>,
    pub pos: usize,
}

impl ScriptParser {
    pub open spec fn wf(&self) -> bool {
        self.pos <= self.chars@.len()
    }

    /// A reader at the start of `source`.
    pub fn new(source: &str) -> (r: Self)
        ensures
            r.wf(),
            r.chars@ == source@,
            r.pos == 0,
    {
        ScriptParser { chars: chars_of(source), pos: 0 }
    }

    /// The statements from the current position; with `stop_on_brace` a `}` ends them.
    pub fn parse_program(&mut self, stop_on_brace: bool) -> (r: Result<Vec<ScriptNode>, String>)
        requires
            old(self).wf(),
        ensures
            final(self).chars@ == old(self).chars@,
            match program_from(old(self).chars@, old(self).pos as int, stop_on_brace, false, seq![]) {
                Ok((v, q)) => r matches Ok(nodes) && stmts_view(nodes@) == v && final(self).pos == q,
                Err(e) => r matches Err(m) && m@ == e,
            },
    {
        crate::syntax4::parse_statements(&self.chars, &mut self.pos, stop_on_brace, false)
    }

    /// The character at the current position.
    pub fn peek(&self) -> (r: Option<char>)
        ensures
            r == (if self.pos < self.chars@.len() {
                Some(self.chars@[self.pos as int])
            } else {
                None
            }),
    {
        if self.pos < self.chars.len() {
            Some(self.chars[self.pos])
        } else {
            None
        }
    }

    /// Whether the whole text has been read.
    pub fn eof(&self) -> (r: bool)
        ensures
            r == (self.pos >= self.chars@.len()),
    {
        self.pos >= self.chars.len()
    }
}


// ---------------------------------------------------------------------------------------
// Named operation lists, kept in ascending order of their names
// ---------------------------------------------------------------------------------------

/// The value of a table entry.
pub open spec fn entry_view(e: (String, Vec<Op>)) -> (Seq<char>, Seq<OpModel>) {
    (e.0@, ops_view(e.1@))
}

/// The first entry of `t` for `k`, if any.
pub open spec fn key_index(t: Seq<(Seq<char>, Seq<OpModel>)>, k: Seq<char>) -> Option<int>
    decreases t.len(),
{
    if t.len() == 0 {
        None
    } else {
        match key_index(t.drop_last(), k) {
            Some(i) => Some(i),
            None => if t.last().0 == k {
                Some(t.len() - 1)
            } else {
                None
            },
        }
    }
}

/// Where a new key goes: after every key before it.
pub open spec fn insert_pos(t: Seq<(Seq<char>, Seq<OpModel>)>, k: Seq<char>) -> int
    decreases t.len(),
{
    if t.len() == 0 {
        0
    } else if crate::names::lex_lt(t.last().0, k) {
        t.len() as int
    } else {
        insert_pos(t.drop_last(), k)
    }
}

/// Whether the keys of `t` are strictly ascending.
pub open spec fn keys_ascending(t: Seq<(Seq<char>, Seq<OpModel>)>) -> bool {
    forall|i: int, j: int|
        0 <= i < j < t.len() ==> crate::names::lex_lt(#[trigger] t[i].0, #[trigger] t[j].0)
}

/// `t` with `k` mapped to `v`: an entry for `k` is replaced, else one is added in order.
pub open spec fn table_insert(
    t: Seq<(Seq<char>, Seq<OpModel>)>,
    k: Seq<char>,
    v: Seq<OpModel>,
) -> Seq<(Seq<char>, Seq<OpModel>)> {
    match key_index(t, k) {
        Some(i) => t.update(i, (k, v)),
        None => t.insert(insert_pos(t, k), (k, v)),
    }
}

pub proof fn lemma_key_index(t: Seq<(Seq<char>, Seq<OpModel>)>, k: Seq<char>)
    ensures
        key_index(t, k) matches Some(i) ==> 0 <= i < t.len() && t[i].0 == k,
        key_index(t, k) is None ==> forall|i: int| 0 <= i < t.len() ==> t[i].0 != k,
    decreases t.len(),
{
    if t.len() > 0 {
        lemma_key_index(t.drop_last(), k);
        if key_index(t.drop_last(), k) is None {
            assert forall|i: int| 0 <= i < t.len() - 1 implies t[i].0 != k by {
                assert(t.drop_last()[i] == t[i]);
            }
        } else {
            let i = key_index(t.drop_last(), k)->0;
            assert(t.drop_last()[i] == t[i]);
        }
    }
}

pub proof fn lemma_insert_pos(t: Seq<(Seq<char>, Seq<OpModel>)>, k: Seq<char>)
    requires
        keys_ascending(t),
        forall|i: int| 0 <= i < t.len() ==> t[i].0 != k,
    ensures
        0 <= insert_pos(t, k) <= t.len(),
        forall|i: int| 0 <= i < insert_pos(t, k) ==> crate::names::lex_lt(#[trigger] t[i].0, k),
        forall|i: int| insert_pos(t, k) <= i < t.len() ==> crate::names::lex_lt(k, #[trigger] t[i].0),
    decreases t.len(),
{
    if t.len() > 0 {
        let d = t.drop_last();
        assert forall|i: int, j: int| 0 <= i < j < d.len() implies crate::names::lex_lt(
            #[trigger] d[i].0,
            #[trigger] d[j].0,
        ) by {
            assert(d[i] == t[i] && d[j] == t[j]);
        }
        lemma_insert_pos(d, k);
        crate::names::lemma_lex_total(t.last().0, k);
        if crate::names::lex_lt(t.last().0, k) {
            assert forall|i: int| 0 <= i < t.len() implies crate::names::lex_lt(#[trigger] t[i].0, k) by {
                if i < t.len() - 1 {
                    assert(crate::names::lex_lt(t[i].0, t[t.len() - 1].0));
                    crate::names::lemma_lex_transitive(t[i].0, t.last().0, k);
                }
            }
        } else {
            assert forall|i: int| 0 <= i < insert_pos(t, k) implies crate::names::lex_lt(
                #[trigger] t[i].0,
                k,
            ) by {
                assert(d[i] == t[i]);
            }
            assert forall|i: int| insert_pos(t, k) <= i < t.len() implies crate::names::lex_lt(
                k,
                #[trigger] t[i].0,
            ) by {
                if i < t.len() - 1 {
                    assert(d[i] == t[i]);
                }
            }
        }
    }
}

/// Operation lists by name, walked in ascending order of the names.
pub struct OpTable {
    entries: Vec<(String, Vec<Op>)>,
}

impl View for OpTable {
    type V = Seq<(Seq<char>, Seq<OpModel>)>;

    closed spec fn view(&self) -> Seq<(Seq<char>, Seq<OpModel>)> {
        self.entries@.map_values(|e: (String, Vec<Op>)| entry_view(e))
    }
}

impl OpTable {
    pub closed spec fn wf(&self) -> bool {
        keys_ascending(self@)
    }

    /// An empty table.
    pub fn new() -> (r: Self)
        ensures
            r.wf(),
            r@ == Seq::<(Seq<char>, Seq<OpModel>)>::empty(),
    {
        let r = OpTable { entries: Vec::new() };
        assert(r@ =~= Seq::<(Seq<char>, Seq<OpModel>)>::empty());
        r
    }

    /// The number of entries.
    pub fn len(&self) -> (r: usize)
        ensures
            r == self@.len(),
    {
        self.entries.len()
    }

    /// The entry at `i` in ascending order of names.
    pub fn get(&self, i: usize) -> (r: &(String, Vec<Op>))
        requires
            i < self@.len(),
        ensures
            entry_view(*r) == self@[i as int],
    {
        &self.entries[i]
    }

    /// Maps `key` to `ops`; answers whether `key` had an entry before, which is replaced.
    pub fn insert(&mut self, key: String, ops: Vec<Op>) -> (existed: bool)
        requires
            old(self).wf(),
        ensures
            final(self).wf(),
            existed == key_index(old(self)@, key@) is Some,
            final(self)@ == table_insert(old(self)@, key@, ops_view(ops@)),
    {
        let kv = chars_of(key.as_str());
        let ghost t = self@;
        proof {
            lemma_key_index(t, key@);
        }
        let mut i: usize = 0;
        while i < self.entries.len()
            invariant
                i <= self.entries@.len(),
                self@ == t,
                t == old(self)@,
                keys_ascending(t),
                kv@ == key@,
                forall|k: int| 0 <= k < i ==> t[k].0 != key@,
            decreases self.entries@.len() - i,
        {
            let v = chars_of(self.entries[i].0.as_str());
            assert(v@ == t[i as int].0);
            if crate::text::eq_chars(&v, &kv) {
                assert(key_index(t, key@) == Some(i as int)) by {
                    lemma_key_index_first(t, key@, i as int);
                }
                let ghost ov = ops_view(ops@);
                self.entries.set(i, (key, ops));
                proof {
                    assert(self@ =~= t.update(i as int, (key@, ov)));
                    assert forall|a: int, b: int| 0 <= a < b < self@.len() implies crate::names::lex_lt(
                        #[trigger] self@[a].0,
                        #[trigger] self@[b].0,
                    ) by {
                        assert(crate::names::lex_lt(t[a].0, t[b].0));
                    }
                }
                return true;
            }
            i += 1;
        }
        assert(key_index(t, key@) is None);
        proof {
            lemma_insert_pos(t, key@);
        }
        let p = self.position(&kv);
        let ghost ov = ops_view(ops@);
        self.entries.insert(p, (key, ops));
        proof {
            assert(self@ =~= t.insert(p as int, (key@, ov)));
            assert forall|a: int, b: int| 0 <= a < b < self@.len() implies crate::names::lex_lt(
                #[trigger] self@[a].0,
                #[trigger] self@[b].0,
            ) by {
                if a < p && b == p {
                } else if a == p && b > p {
                } else if a < p && b > p {
                    assert(crate::names::lex_lt(t[a].0, t[b - 1].0));
                } else if b < p {
                    assert(crate::names::lex_lt(t[a].0, t[b].0));
                } else {
                    assert(crate::names::lex_lt(t[a - 1].0, t[b - 1].0));
                }
            }
        }
        false
    }

    /// The place where a new `key` goes.
    fn position(&self, key: &Vec<char>) -> (r: usize)
        requires
            self.wf(),
            forall|i: int| 0 <= i < self@.len() ==> self@[i].0 != key@,
        ensures
            r == insert_pos(self@, key@),
    {
        let mut i = self.entries.len();
        proof {
            assert(self@.take(i as int) =~= self@);
        }
        while i > 0
            invariant
                i <= self@.len(),
                self@.len() == self.entries@.len(),
                insert_pos(self@, key@) == insert_pos(self@.take(i as int), key@),
            decreases i,
        {
            let v = chars_of(self.entries[i - 1].0.as_str());
            assert(v@ == self@[i - 1].0);
            assert(self@.take(i as int).drop_last() =~= self@.take(i - 1));
            if crate::names::chars_lt(&v, key) {
                return i;
            }
            i -= 1;
        }
        i
    }
}

proof fn lemma_key_index_first(t: Seq<(Seq<char>, Seq<OpModel>)>, k: Seq<char>, i: int)
    requires
        0 <= i < t.len(),
        t[i].0 == k,
        forall|j: int| 0 <= j < i ==> t[j].0 != k,
    ensures
        key_index(t, k) == Some(i),
    decreases t.len(),
{
    if i < t.len() - 1 {
        assert(t.drop_last()[i] == t[i]);
        assert forall|j: int| 0 <= j < i implies t.drop_last()[j].0 != k by {
            assert(t.drop_last()[j] == t[j]);
        }
        lemma_key_index_first(t.drop_last(), k, i);
    } else {
        lemma_key_index(t.drop_last(), k);
        if key_index(t.drop_last(), k) is Some {
            let j = key_index(t.drop_last(), k)->0;
            assert(t.drop_last()[j] == t[j]);
        }
    }
}


// ---------------------------------------------------------------------------------------
// Whole scripts
// ---------------------------------------------------------------------------------------

/// A compiled script: operations run when the screen opens, click handlers by element ID,
/// and functions by name.
pub struct ScriptProgram {
    pub init: Vec<Op>,
    pub events: OpTable,
    pub functions: OpTable,
}

/// The value of a `ScriptProgram`.
pub struct ProgramModel {
    pub init: Seq<OpModel>,
    pub events: Seq<(Seq<char>, Seq<OpModel>)>,
    pub functions: Seq<(Seq<char>, Seq<OpModel>)>,
}

impl View for ScriptProgram {
    type V = ProgramModel;

    open spec fn view(&self) -> ProgramModel {
        ProgramModel { init: ops_view(self.init@), events: self.events@, functions: self.functions@ }
    }
}

impl ScriptProgram {
    pub open spec fn wf(&self) -> bool {
        self.events.wf() && self.functions.wf()
    }

    /// A program with nothing in it.
    pub fn new() -> (r: Self)
        ensures
            r.wf(),
            r@ == (ProgramModel { init: seq![], events: seq![], functions: seq![] }),
    {
        let r = ScriptProgram { init: Vec::new(), events: OpTable::new(), functions: OpTable::new() };
        assert(ops_view(r.init@) =~= Seq::<OpModel>::empty());
        r
    }
}

/// One top-level statement added to a program: a line to the start-up operations, a
/// `fun (name)` block to the functions (a name only once), a `WarpUI.OnClick id` block to
/// the handlers (a later one for an ID replaces an earlier one).
pub open spec fn program_step(p: ProgramModel, st: Stmt) -> Result<ProgramModel, Seq<char>> {
    match st {
        Stmt::Raw(raw) => match compile_raw_spec(raw) {
            Err(e) => Err(e),
            Ok(op) => Ok(ProgramModel { init: p.init.push(op), ..p }),
        },
        Stmt::Block { header, body } => {
            let h = trim(header);
            match crate::syntax4::fun_definition(h) {
                Err(e) => Err(e),
                Ok(Some(name)) => match compile_ops_spec(body) {
                    Err(e) => Err(e),
                    Ok(ops) => if key_index(p.functions, name) is Some {
                        Err("関数 '"@ + name + "' は重複定義できません"@)
                    } else {
                        Ok(ProgramModel { functions: table_insert(p.functions, name, ops), ..p })
                    },
                },
                Ok(None) => if starts_with(h, "WarpUI.OnClick"@) {
                    let target = trim(h.skip(14));
                    if target.len() == 0 {
                        Err("WarpUI.OnClick のIDが空です"@)
                    } else {
                        match compile_ops_spec(body) {
                            Err(e) => Err(e),
                            Ok(ops) => Ok(
                                ProgramModel { events: table_insert(p.events, target, ops), ..p },
                            ),
                        }
                    }
                } else {
                    Err("トップレベルで対応していないブロックです: "@ + h)
                },
            }
        },
    }
}

/// The first `k` top-level statements added in order, or the first error.
pub open spec fn program_upto(nodes: Seq<Stmt>, k: int) -> Result<ProgramModel, Seq<char>>
    decreases k,
{
    if k <= 0 || k > nodes.len() {
        Ok(ProgramModel { init: seq![], events: seq![], functions: seq![] })
    } else {
        match program_upto(nodes, k - 1) {
            Err(e) => Err(e),
            Ok(p) => program_step(p, nodes[k - 1]),
        }
    }
}

/// What a script's text compiles to, or the first error.
pub open spec fn compile_script_spec(source: Seq<char>) -> Result<ProgramModel, Seq<char>> {
    match program_from(source, 0, false, false, seq![]) {
        Err(e) => Err(e),
        Ok((nodes, _)) => program_upto(nodes, nodes.len() as int),
    }
}

proof fn lemma_program_error(nodes: Seq<Stmt>, k: int)
    requires
        0 < k <= nodes.len(),
        program_upto(nodes, k) is Err,
    ensures
        program_upto(nodes, nodes.len() as int) == program_upto(nodes, k),
    decreases nodes.len() - k,
{
    if k < nodes.len() {
        lemma_program_error(nodes, k + 1);
    }
}

/// Compiles a script's text (comments already removed).
pub fn compile_script(source: &str) -> (r: Result<ScriptProgram, String>)
    ensures
        match compile_script_spec(source@) {
            Ok(p) => r matches Ok(prog) && prog.wf() && prog@ == p,
            Err(e) => r matches Err(m) && m@ == e,
        },
{
    let mut parser = ScriptParser::new(source);
    let nodes = parser.parse_program(false)?;
    let ghost ns = stmts_view(nodes@);
    let mut program = ScriptProgram::new();
    let mut i: usize = 0;
    while i < nodes.len()
        invariant
            i <= nodes@.len(),
            ns == stmts_view(nodes@),
            compile_script_spec(source@) == program_upto(ns, ns.len() as int),
            program.wf(),
            program_upto(ns, i as int) == Ok::<ProgramModel, Seq<char>>(program@),
        decreases nodes@.len() - i,
    {
        let node = &nodes[i];
        assert(ns[i as int] == node@);
        match node {
            ScriptNode::Raw(raw) => {
                match compile_raw(raw.as_str()) {
                    Ok(op) => {
                        let ghost before = program.init@;
                        program.init.push(op);
                        assert(ops_view(program.init@) =~= ops_view(before).push(op@));
                    },
                    Err(e) => {
                        proof {
                            lemma_program_error(ns, i + 1);
                        }
                        return Err(e);
                    },
                }
            },
            ScriptNode::Block { header, body } => {
                assert(node@->body =~= stmts_view(body@));
                let hv0 = chars_of(header.as_str());
                let h = trim_vec(&hv0);
                let step: Result<(), String> = match crate::syntax4::parse_fun_definition_header(&h) {
                    Err(e) => Err(e),
                    Ok(Some(name)) => match compile_ops(body) {
                        Err(e) => Err(e),
                        Ok(ops) => {
                            let name_copy = name.clone();
                            if program.functions.insert(name, ops) {
                                let mut e = lit("関数 '");
                                e.append(name_copy.as_str());
                                e.append("' は重複定義できません");
                                Err(e)
                            } else {
                                Ok(())
                            }
                        },
                    },
                    Ok(None) => {
                        if crate::text::starts_with_str(&h, "WarpUI.OnClick") {
                            proof {
                                reveal_strlit("WarpUI.OnClick");
                            }
                            let after = slice_vec(&h, 14, h.len());
                            assert(after@ =~= h@.skip(14));
                            let target = trim_vec(&after);
                            if target.len() == 0 {
                                Err(lit("WarpUI.OnClick のIDが空です"))
                            } else {
                                match compile_ops(body) {
                                    Err(e) => Err(e),
                                    Ok(ops) => {
                                        program.events.insert(string_of(&target), ops);
                                        Ok(())
                                    },
                                }
                            }
                        } else {
                            let mut e = lit("トップレベルで対応していないブロックです: ");
                            crate::text::push_chars(&mut e, &h);
                            Err(e)
                        }
                    },
                };
                match step {
                    Ok(()) => {},
                    Err(e) => {
                        proof {
                            lemma_program_error(ns, i + 1);
                        }
                        return Err(e);
                    },
                }
            },
        }
        i += 1;
    }
    Ok(program)
}


} // verus!
