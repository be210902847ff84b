//! The Warp 4 script interpreter. A run is a function of the program, the answers known to
//! the numeric questions that only floating point settles, and a budget of steps: it gives
//! the effects (lines printed, waits) in order and how it stopped, finished, failed, with a
//! question to answer first, or out of steps. Whoever runs it answers the question or grants
//! more steps and runs it again; a run with more answers or steps repeats the earlier effects.
use vstd::prelude::*;
use crate::script4::{CompareOp, TimeUnit};
use crate::syntax4::{stmts_view, ScriptNode, Stmt};
use crate::text::{chars_of, lit, slice_vec, string_of, trim, trim_vec};

verus! {

broadcast use {crate::text::lemma_concat_assoc, crate::text::lemma_concat_empty};

// ---------------------------------------------------------------------------------------
// Copies of statements
// ---------------------------------------------------------------------------------------

pub proof fn lemma_block_view(n: ScriptNode)
    requires
        n is Block,
    ensures
        n@ == (Stmt::Block { header: n->header@, body: stmts_view(n->body@) }),
{
    assert(n@->body =~= stmts_view(n->body@));
}

/// A copy of a statement.
pub fn clone_node(n: &ScriptNode) -> (r: ScriptNode)
    ensures
        r@ == n@,
    decreases n, 1int,
{
    match n {
        ScriptNode::Raw(s) => ScriptNode::Raw(s.clone()),
        ScriptNode::Block { header, body } => {
            proof {
                lemma_block_view(*n);
            }
            let r = ScriptNode::Block { header: header.clone(), body: clone_nodes(body) };
            proof {
                lemma_block_view(r);
            }
            r
        },
    }
}

/// A copy of a list of statements.
pub fn clone_nodes(v: &Vec<ScriptNode>) -> (r: Vec<ScriptNode>)
    ensures
        stmts_view(r@) == stmts_view(v@),
    decreases v, 0int,
{
    let mut r: Vec<ScriptNode> = Vec::new();
    let mut i: usize = 0;
    while i < v.len()
        invariant
            i <= v@.len(),
            r@.len() == i,
            forall|k: int| 0 <= k < i ==> #[trigger] r@[k]@ == v@[k]@,
        decreases v@.len() - i,
    {
        let c = clone_node(&v[i]);
        r.push(c);
        i += 1;
    }
    assert(stmts_view(r@) =~= stmts_view(v@));
    r
}

// ---------------------------------------------------------------------------------------
// Lists keyed by name
// ---------------------------------------------------------------------------------------

/// The first entry of `s` for `k`.
pub open spec fn key_pos<V>(s: Seq<(Seq<char>, V)>, k: Seq<char>) -> Option<int>
    decreases s.len(),
{
    if s.len() == 0 {
        None
    } else {
        match key_pos(s.drop_last(), k) {
            Some(i) => Some(i),
            None => if s.last().0 == k {
                Some(s.len() - 1)
            } else {
                None
            },
        }
    }
}

/// The value for `k`.
pub open spec fn lookup<V>(s: Seq<(Seq<char>, V)>, k: Seq<char>) -> Option<V> {
    match key_pos(s, k) {
        Some(i) => Some(s[i].1),
        None => None,
    }
}

/// `s` with `k` set to `v`: its entry replaced, or a new one at the end.
pub open spec fn put<V>(s: Seq<(Seq<char>, V)>, k: Seq<char>, v: V) -> Seq<(Seq<char>, V)> {
    match key_pos(s, k) {
        Some(i) => s.update(i, (k, v)),
        None => s.push((k, v)),
    }
}

pub proof fn lemma_key_pos<V>(s: Seq<(Seq<char>, V)>, k: Seq<char>)
    ensures
        key_pos(s, k) matches Some(i) ==> 0 <= i < s.len() && s[i].0 == k && forall|j: int|
            0 <= j < i ==> s[j].0 != k,
        key_pos(s, k) is None ==> forall|j: int| 0 <= j < s.len() ==> s[j].0 != k,
    decreases s.len(),
{
    if s.len() > 0 {
        lemma_key_pos(s.drop_last(), k);
        assert forall|j: int| 0 <= j < s.len() - 1 implies s.drop_last()[j] == s[j] by {}
    }
}

/// Where `k` stands in `entries`, the key compared as text.
fn find_key<V>(entries: &Vec<(String, V)>, k: &[char]) -> (r: Option<usize>)
    ensures
        match r {
            Some(i) => key_pos(entries@.map_values(|e: (String, V)| (e.0@, e.1)), k@) == Some(
                i as int,
            ),
            None => key_pos(entries@.map_values(|e: (String, V)| (e.0@, e.1)), k@) is None,
        },
{
    let ghost s = entries@.map_values(|e: (String, V)| (e.0@, e.1));
    proof {
        lemma_key_pos(s, k@);
    }
    let mut i: usize = 0;
    while i < entries.len()
        invariant
            i <= entries@.len(),
            s == entries@.map_values(|e: (String, V)| (e.0@, e.1)),
            forall|j: int| 0 <= j < i ==> s[j].0 != k@,
        decreases entries@.len() - i,
    {
        let v = chars_of(entries[i].0.as_str());
        if crate::text::eq_chars(&v, k) {
            proof {
                lemma_key_pos(s, k@);
                if key_pos(s, k@) != Some(i as int) {
                    if key_pos(s, k@) is None {
                        assert(s[i as int].0 == k@);
                    }
                }
            }
            return Some(i);
        }
        i += 1;
    }
    None
}


/// The entries of a list keyed by `String`, as values.
pub open spec fn keyed<V>(v: Seq<(String, V)>) -> Seq<(Seq<char>, V)> {
    v.map_values(|e: (String, V)| (e.0@, e.1))
}

/// The entries of a list of texts keyed by `String`, as values.
pub open spec fn text_pairs(v: Seq<(String, String)>) -> Seq<(Seq<char>, Seq<char>)> {
    v.map_values(|e: (String, String)| (e.0@, e.1@))
}

// ---------------------------------------------------------------------------------------
// Effects, questions and how a run stops
// ---------------------------------------------------------------------------------------

/// Outside work that a run asks for, in order.
#[derive(Debug)]
pub enum Effect {
    /// Print a line.
    Print(String),
    /// Wait for the time that the number (a float text) gives in the unit.
    Wait(String, TimeUnit),
}

pub enum EffectModel {
    Print(Seq<char>),
    Wait(Seq<char>, TimeUnit),
}

impl View for Effect {
    type V = EffectModel;

    open spec fn view(&self) -> EffectModel {
        match self {
            Effect::Print(s) => EffectModel::Print(s@),
            Effect::Wait(n, u) => EffectModel::Wait(n@, *u),
        }
    }
}

/// A question that only floating point can answer.
#[derive(Debug)]
pub enum Query {
    /// The result of `calc[...]` on this expression, formatted, or its error.
    Calc(String),
    /// Whether the first text, read as a number, is less than the second (`false` when
    /// either is not a number).
    Less(String, String),
    /// Whether this float text is finite and not negative.
    NonNegative(String),
}

pub enum QueryModel {
    Calc(Seq<char>),
    Less(Seq<char>, Seq<char>),
    NonNegative(Seq<char>),
}

impl View for Query {
    type V = QueryModel;

    open spec fn view(&self) -> QueryModel {
        match self {
            Query::Calc(e) => QueryModel::Calc(e@),
            Query::Less(x, y) => QueryModel::Less(x@, y@),
            Query::NonNegative(n) => QueryModel::NonNegative(n@),
        }
    }
}

/// Why a run stopped before the end of the program.
#[derive(Debug)]
pub enum Stop {
    /// The program failed with this error.
    Failed(String),
    /// The run needs the answer to this question.
    Needs(Query),
    /// The run used up its steps.
    OutOfFuel,
}

pub enum StopModel {
    Failed(Seq<char>),
    Needs(QueryModel),
    OutOfFuel,
}

impl View for Stop {
    type V = StopModel;

    open spec fn view(&self) -> StopModel {
        match self {
            Stop::Failed(m) => StopModel::Failed(m@),
            Stop::Needs(q) => StopModel::Needs(q@),
            Stop::OutOfFuel => StopModel::OutOfFuel,
        }
    }
}

/// Whether a `break` ends the enclosing loop.
#[derive(Debug, Clone, Copy, PartialEq, Eq, Structural)]
pub enum Signal {
    Normal,
    Break,
}

/// The answers known so far.
pub struct Answers {
    pub calc: Vec<(String, Result<String, String>)>,
    pub less: Vec<(String, String, bool)>,
    pub non_negative: Vec<(String, bool)>,
}

pub struct AnswersModel {
    pub calc: Seq<(Seq<char>, Result<Seq<char>, Seq<char>>)>,
    pub less: Seq<(Seq<char>, Seq<char>, bool)>,
    pub non_negative: Seq<(Seq<char>, bool)>,
}

pub open spec fn result_text(r: Result<String, String>) -> Result<Seq<char>, Seq<char>> {
    match r {
        Ok(s) => Ok(s@),
        Err(e) => Err(e@),
    }
}

impl View for Answers {
    type V = AnswersModel;

    open spec fn view(&self) -> AnswersModel {
        AnswersModel {
            calc: self.calc@.map_values(|e: (String, Result<String, String>)| (e.0@, result_text(e.1))),
            less: self.less@.map_values(|e: (String, String, bool)| (e.0@, e.1@, e.2)),
            non_negative: self.non_negative@.map_values(|e: (String, bool)| (e.0@, e.1)),
        }
    }
}

/// The first answer for whether `x` is less than `y`.
pub open spec fn less_answer(s: Seq<(Seq<char>, Seq<char>, bool)>, x: Seq<char>, y: Seq<char>) -> Option<bool>
    decreases s.len(),
{
    if s.len() == 0 {
        None
    } else if s[0].0 == x && s[0].1 == y {
        Some(s[0].2)
    } else {
        less_answer(s.drop_first(), x, y)
    }
}

impl Answers {
    /// No answers.
    pub fn new() -> (r: Self)
        ensures
            r@ == (AnswersModel { calc: seq![], less: seq![], non_negative: seq![] }),
    {
        let r = Answers { calc: Vec::new(), less: Vec::new(), non_negative: Vec::new() };
        assert(r@.calc =~= Seq::<(Seq<char>, Result<Seq<char>, Seq<char>>)>::empty());
        assert(r@.less =~= Seq::<(Seq<char>, Seq<char>, bool)>::empty());
        assert(r@.non_negative =~= Seq::<(Seq<char>, bool)>::empty());
        r
    }

    /// The answer for `calc[...]` on `e`.
    pub fn calc_answer(&self, e: &[char]) -> (r: Option<Result<String, String>>)
        ensures
            match lookup(self@.calc, e@) {
                Some(x) => r matches Some(y) && result_text(y) == x,
                None => r is None,
            },
    {
        let ghost s = self@.calc;
        let mut i: usize = 0;
        proof {
            lemma_key_pos(s, e@);
        }
        while i < self.calc.len()
            invariant
                i <= self.calc@.len(),
                s == self@.calc,
                forall|j: int| 0 <= j < i ==> s[j].0 != e@,
            decreases self.calc@.len() - i,
        {
            let k = chars_of(self.calc[i].0.as_str());
            if crate::text::eq_chars(&k, e) {
                assert(s[i as int].0 == e@);
                assert(key_pos(s, e@) == Some(i as int)) by {
                    lemma_key_pos(s, e@);
                }
                let r = match &self.calc[i].1 {
                    Ok(v) => Ok(v.clone()),
                    Err(m) => Err(m.clone()),
                };
                return Some(r);
            }
            i += 1;
        }
        None
    }

    /// The answer for whether `x` is less than `y`.
    pub fn less_answer(&self, x: &[char], y: &[char]) -> (r: Option<bool>)
        ensures
            r == less_answer(self@.less, x@, y@),
    {
        let ghost s = self@.less;
        let mut i: usize = 0;
        assert(s.skip(0) =~= s);
        while i < self.less.len()
            invariant
                i <= self.less@.len(),
                s == self@.less,
                less_answer(s, x@, y@) == less_answer(s.skip(i as int), x@, y@),
            decreases self.less@.len() - i,
        {
            assert(s.skip(i as int).drop_first() =~= s.skip(i + 1));
            let a = chars_of(self.less[i].0.as_str());
            let b = chars_of(self.less[i].1.as_str());
            if crate::text::eq_chars(&a, x) && crate::text::eq_chars(&b, y) {
                return Some(self.less[i].2);
            }
            i += 1;
        }
        None
    }

    /// The answer for whether the float text `n` is finite and not negative.
    pub fn non_negative_answer(&self, n: &[char]) -> (r: Option<bool>)
        ensures
            r == lookup(self@.non_negative, n@),
    {
        let ghost s = self@.non_negative;
        let mut i: usize = 0;
        proof {
            lemma_key_pos(s, n@);
        }
        while i < self.non_negative.len()
            invariant
                i <= self.non_negative@.len(),
                s == self@.non_negative,
                forall|j: int| 0 <= j < i ==> s[j].0 != n@,
            decreases self.non_negative@.len() - i,
        {
            let k = chars_of(self.non_negative[i].0.as_str());
            if crate::text::eq_chars(&k, n) {
                assert(s[i as int].0 == n@);
                assert(key_pos(s, n@) == Some(i as int)) by {
                    lemma_key_pos(s, n@);
                }
                return Some(self.non_negative[i].1);
            }
            i += 1;
        }
        None
    }
}


// ---------------------------------------------------------------------------------------
// The meaning of a run
// ---------------------------------------------------------------------------------------

/// The interpreter's state as values.
pub struct StateModel {
    pub vars: Seq<(Seq<char>, Seq<char>)>,
    pub consts: Seq<(Seq<char>, Seq<char>)>,
    pub functions: Seq<(Seq<char>, Seq<Stmt>)>,
    pub hoisted: Seq<Seq<char>>,
    pub effects: Seq<EffectModel>,
    pub fuel: nat,
}

/// What expansion reads: the variables, the constants and the answers.
pub struct Env {
    pub vars: Seq<(Seq<char>, Seq<char>)>,
    pub consts: Seq<(Seq<char>, Seq<char>)>,
    pub answers: AnswersModel,
}

pub open spec fn env_of(st: StateModel, a: AnswersModel) -> Env {
    Env { vars: st.vars, consts: st.consts, answers: a }
}

pub open spec fn with_fuel(st: StateModel, f: nat) -> StateModel {
    StateModel { fuel: f, ..st }
}

pub open spec fn failed(m: Seq<char>) -> StopModel {
    StopModel::Failed(m)
}

pub open spec fn err_expand_limit() -> Seq<char> {
    "展開回数が上限を超えました。循環参照の可能性があります"@
}

/// Which substitution starts at `i`: 1 for `var[`, 2 for `const[`, 3 for `calc[`, else 0.
pub open spec fn kind_at(s: Seq<char>, i: int) -> int {
    if crate::text::starts_at(s, i, "var["@) {
        1
    } else if crate::text::starts_at(s, i, "const["@) {
        2
    } else if crate::text::starts_at(s, i, "calc["@) {
        3
    } else {
        0
    }
}

/// The name of a substitution kind.
pub open spec fn kind_name(kind: int) -> Seq<char> {
    if kind == 1 {
        "var"@
    } else if kind == 2 {
        "const"@
    } else {
        "calc"@
    }
}

/// `input` expanded until nothing more changes (at most 256 passes); `fuel` bounds the work,
/// the fuel left is returned.
pub open spec fn expand_all_s(e: Env, input: Seq<char>, fuel: nat) -> (nat, Result<Seq<char>, StopModel>)
    decreases fuel, 0int,
{
    if fuel == 0 {
        (0, Err(StopModel::OutOfFuel))
    } else {
        expand_loop_s(e, input, 256, (fuel - 1) as nat)
    }
}

/// Passes over `current`, at most `passes` more.
pub open spec fn expand_loop_s(e: Env, current: Seq<char>, passes: nat, fuel: nat) -> (
    nat,
    Result<Seq<char>, StopModel>,
)
    decreases fuel, 0int,
{
    if passes == 0 {
        (fuel, Err(failed(err_expand_limit())))
    } else if fuel == 0 {
        (0, Err(StopModel::OutOfFuel))
    } else {
        let (f2, r) = expand_scan_s(e, current, 0, seq![], false, (fuel - 1) as nat);
        match r {
            Err(x) => (f2, Err(x)),
            Ok((next, changed)) => if !changed || next == current {
                (f2, Ok(next))
            } else if f2 >= fuel {
                (f2, Err(StopModel::OutOfFuel))
            } else {
                expand_loop_s(e, next, (passes - 1) as nat, f2)
            },
        }
    }
}

/// One pass from `i`: each `var[...]`, `const[...]` whose name is set and each `calc[...]`
/// replaced by its value (the inside expanded first); `changed` when one was.
pub open spec fn expand_scan_s(
    e: Env,
    s: Seq<char>,
    i: int,
    out: Seq<char>,
    changed: bool,
    fuel: nat,
) -> (nat, Result<(Seq<char>, bool), StopModel>)
    decreases fuel, s.len() - i,
{
    if i < 0 || i >= s.len() {
        (fuel, Ok((out, changed)))
    } else {
        let kind = kind_at(s, i);
        if kind == 0 {
            expand_scan_s(e, s, i + 1, out.push(s[i]), changed, fuel)
        } else {
            let open = i + kind_name(kind).len();
            match crate::script4::matching_square(s, open) {
                None => (fuel, Err(failed(kind_name(kind) + "[ ... ] の ']' が不足しています"@))),
                Some(close) => if fuel == 0 {
                    (0, Err(StopModel::OutOfFuel))
                } else if !(open < close) {
                    (fuel, Err(StopModel::OutOfFuel))
                } else {
                    let (f2, r) = expand_all_s(e, s.subrange(open + 1, close), (fuel - 1) as nat);
                    match r {
                        Err(x) => (f2, Err(x)),
                        Ok(inner) => {
                            let piece: Result<(Seq<char>, bool), StopModel> = if kind == 3 {
                                match lookup(e.answers.calc, inner) {
                                    None => Err(StopModel::Needs(QueryModel::Calc(inner))),
                                    Some(Err(m)) => Err(failed(m)),
                                    Some(Ok(v)) => Ok((v, true)),
                                }
                            } else {
                                match lookup(
                                    if kind == 1 {
                                        e.vars
                                    } else {
                                        e.consts
                                    },
                                    trim(inner),
                                ) {
                                    Some(v) => Ok((v, true)),
                                    None => Ok((s.subrange(i, close + 1), false)),
                                }
                            };
                            match piece {
                                Err(x) => (f2, Err(x)),
                                Ok((text, ch)) => if f2 >= fuel {
                                    (f2, Err(StopModel::OutOfFuel))
                                } else {
                                    expand_scan_s(e, s, close + 1, out + text, changed || ch, f2)
                                },
                            }
                        },
                    }
                },
            }
        }
    }
}

/// The depth inside `for` loops one level further in.
pub open spec fn next_depth(d: usize) -> usize {
    if d < usize::MAX {
        (d + 1) as usize
    } else {
        d
    }
}

/// The value of a condition, or the numeric question it needs answered first.
pub open spec fn decide(a: AnswersModel, l: Seq<char>, op: CompareOp, r: Seq<char>) -> Result<
    bool,
    QueryModel,
> {
    match crate::script4::compare_question(l, op, r) {
        None => Ok(crate::script4::compare_spec(l, op, r, false)),
        Some((x, y)) => match less_answer(a.less, x, y) {
            None => Err(QueryModel::Less(x, y)),
            Some(b) => Ok(crate::script4::compare_spec(l, op, r, b)),
        },
    }
}

/// The statements of an inline body: its text without comments, parsed.
pub open spec fn inline_program(body: Seq<char>) -> Result<(Seq<Stmt>, int), Seq<char>> {
    crate::syntax4::program_from(
        crate::syntax4::join_uncommented(crate::text::lines(body)),
        0,
        false,
        true,
        seq![],
    )
}

/// `nodes` from `i` run in order at loop depth `depth`; a `break` ends them.
pub open spec fn exec_nodes_s(
    a: AnswersModel,
    st: StateModel,
    nodes: Seq<Stmt>,
    i: int,
    depth: usize,
) -> (StateModel, Result<Signal, StopModel>)
    decreases st.fuel, 5int,
{
    if i < 0 || i >= nodes.len() {
        (st, Ok(Signal::Normal))
    } else if st.fuel == 0 {
        (st, Err(StopModel::OutOfFuel))
    } else {
        let (st2, r) = exec_node_s(a, with_fuel(st, (st.fuel - 1) as nat), nodes[i], depth);
        match r {
            Err(x) => (st2, Err(x)),
            Ok(Signal::Break) => (st2, Ok(Signal::Break)),
            Ok(Signal::Normal) => if st2.fuel >= st.fuel {
                (st2, Err(StopModel::OutOfFuel))
            } else {
                exec_nodes_s(a, st2, nodes, i + 1, depth)
            },
        }
    }
}

/// One statement run.
pub open spec fn exec_node_s(a: AnswersModel, st: StateModel, node: Stmt, depth: usize) -> (
    StateModel,
    Result<Signal, StopModel>,
)
    decreases st.fuel, 4int,
{
    match node {
        Stmt::Raw(raw) => exec_raw_s(a, st, raw, depth),
        Stmt::Block { header, body } => exec_block_s(a, st, header, body, depth),
    }
}

/// A block run: a function definition, or an `if`.
pub open spec fn exec_block_s(
    a: AnswersModel,
    st: StateModel,
    header: Seq<char>,
    body: Seq<Stmt>,
    depth: usize,
) -> (StateModel, Result<Signal, StopModel>)
    decreases st.fuel, 3int,
{
    let (f2, r) = expand_all_s(env_of(st, a), header, st.fuel);
    let st1 = with_fuel(st, f2);
    match r {
        Err(x) => (st1, Err(x)),
        Ok(expanded) => {
            let h = trim(expanded);
            match crate::syntax4::fun_definition(h) {
                Err(m) => (st1, Err(failed(m))),
                Ok(Some(name)) => if st1.hoisted.contains(name) {
                    (StateModel { hoisted: remove_name(st1.hoisted, name), ..st1 }, Ok(Signal::Normal))
                } else if lookup(st1.functions, name) is Some {
                    (st1, Err(failed("関数 '"@ + name + "' は重複定義できません"@)))
                } else {
                    (
                        StateModel { functions: put(st1.functions, name, body), ..st1 },
                        Ok(Signal::Normal),
                    )
                },
                Ok(None) => if crate::text::starts_with(h, "if"@) {
                    if !crate::syntax4::keyword_at_start(h, "if"@) {
                        (st1, Err(failed("不明なブロック命令です: "@ + h)))
                    } else {
                        let cond = trim(h.skip(2));
                        match crate::script4::condition_of(cond) {
                            None => (st1, Err(failed("if の条件を解析できません: "@ + cond))),
                            Some((l, op, rt)) => match decide(a, l, op, rt) {
                                Err(q) => (st1, Err(StopModel::Needs(q))),
                                Ok(false) => (st1, Ok(Signal::Normal)),
                                Ok(true) => if f2 >= st.fuel {
                                    (st1, Err(StopModel::OutOfFuel))
                                } else {
                                    exec_nodes_s(a, st1, body, 0, depth)
                                },
                            },
                        }
                    }
                } else {
                    (st1, Err(failed("不明なブロック命令です: "@ + h)))
                },
            }
        },
    }
}

/// `names` without the first `name`.
pub open spec fn remove_name(names: Seq<Seq<char>>, name: Seq<char>) -> Seq<Seq<char>> {
    match crate::text::first_index(names, name) {
        Some(i) => names.remove(i),
        None => names,
    }
}

/// `names` with `name` added unless it is there.
pub open spec fn insert_name(names: Seq<Seq<char>>, name: Seq<char>) -> Seq<Seq<char>> {
    if names.contains(name) {
        names
    } else {
        names.push(name)
    }
}

/// A statement line run.
pub open spec fn exec_raw_s(a: AnswersModel, st: StateModel, raw: Seq<char>, depth: usize) -> (
    StateModel,
    Result<Signal, StopModel>,
)
    decreases st.fuel, 3int,
{
    let (f2, r) = expand_all_s(env_of(st, a), raw, st.fuel);
    let st1 = with_fuel(st, f2);
    match r {
        Err(x) => (st1, Err(x)),
        Ok(expanded) => {
            let stmt = trim(expanded);
            if stmt.len() == 0 {
                (st1, Ok(Signal::Normal))
            } else if stmt == "break"@ {
                (
                    st1,
                    Ok(
                        if depth > 0 {
                            Signal::Break
                        } else {
                            Signal::Normal
                        },
                    ),
                )
            } else {
                exec_command_s(a, st.fuel, st1, stmt, depth)
            }
        },
    }
}

/// A statement with its substitutions done: a setting, `print`, `wait`, an inline `if`, `fun`
/// or `for`. `fuel0` is the fuel before the statement, `st1` the state after its expansion.
pub open spec fn exec_command_s(
    a: AnswersModel,
    fuel0: nat,
    st1: StateModel,
    stmt: Seq<char>,
    depth: usize,
) -> (StateModel, Result<Signal, StopModel>)
    decreases fuel0, 2int,
{
    match crate::script4::command_rest(stmt, "var.set"@) {
        Some(rest) => match crate::script4::name_value(rest, "var.set"@) {
            Err(m) => (st1, Err(failed(m))),
            Ok((n, v)) => (
                if lookup(st1.vars, n) is Some {
                    st1
                } else {
                    StateModel { vars: put(st1.vars, n, v), ..st1 }
                },
                Ok(Signal::Normal),
            ),
        },
        None => match crate::script4::command_rest(stmt, "var.edit"@) {
            Some(rest) => match crate::script4::name_value(rest, "var.edit"@) {
                Err(m) => (st1, Err(failed(m))),
                Ok((n, v)) => (
                    if lookup(st1.vars, n) is Some {
                        StateModel { vars: put(st1.vars, n, v), ..st1 }
                    } else {
                        st1
                    },
                    Ok(Signal::Normal),
                ),
            },
            None => match crate::script4::command_rest(stmt, "const.set"@) {
                Some(rest) => match crate::script4::name_value(rest, "const.set"@) {
                    Err(m) => (st1, Err(failed(m))),
                    Ok((n, v)) => (
                        if lookup(st1.consts, n) is Some {
                            st1
                        } else {
                            StateModel { consts: put(st1.consts, n, v), ..st1 }
                        },
                        Ok(Signal::Normal),
                    ),
                },
                None => exec_output_s(a, fuel0, st1, stmt, depth),
            },
        },
    }
}

/// `print`, `wait`, an inline `if`, `fun` or `for`.
pub open spec fn exec_output_s(
    a: AnswersModel,
    fuel0: nat,
    st1: StateModel,
    stmt: Seq<char>,
    depth: usize,
) -> (StateModel, Result<Signal, StopModel>)
    decreases fuel0, 1int,
{
    match crate::script4::call_args(stmt, "print"@) {
        Err(m) => (st1, Err(failed(m))),
        Ok(Some(c)) => (
            StateModel { effects: st1.effects.push(EffectModel::Print(c)), ..st1 },
            Ok(Signal::Normal),
        ),
        Ok(None) => match crate::script4::call_args(stmt, "wait"@) {
            Err(m) => (st1, Err(failed(m))),
            Ok(Some(c)) => {
                let text = trim(c);
                match crate::script4::duration_parts(text) {
                    Err(m) => (st1, Err(failed(m))),
                    Ok((num, unit)) => match lookup(a.non_negative, num) {
                        None => (st1, Err(StopModel::Needs(QueryModel::NonNegative(num)))),
                        Some(false) => (
                            st1,
                            Err(failed(crate::script4::err_negative_duration(text))),
                        ),
                        Some(true) => (
                            StateModel {
                                effects: st1.effects.push(EffectModel::Wait(num, unit)),
                                ..st1
                            },
                            Ok(Signal::Normal),
                        ),
                    },
                }
            },
            Ok(None) => exec_flow_s(a, fuel0, st1, stmt, depth),
        },
    }
}

/// An inline `if`, `fun` or `for`.
pub open spec fn exec_flow_s(
    a: AnswersModel,
    fuel0: nat,
    st1: StateModel,
    stmt: Seq<char>,
    depth: usize,
) -> (StateModel, Result<Signal, StopModel>)
    decreases fuel0, 0int,
{
    if st1.fuel >= fuel0 {
        (st1, Err(StopModel::OutOfFuel))
    } else {
        match crate::script4::inline_if(stmt) {
            Err(m) => (st1, Err(failed(m))),
            Ok(Some((l, op, rt, body))) => match decide(a, l, op, rt) {
                Err(q) => (st1, Err(StopModel::Needs(q))),
                Ok(false) => (st1, Ok(Signal::Normal)),
                Ok(true) => match inline_program(body) {
                    Err(m) => (st1, Err(failed(m))),
                    Ok((nodes, _)) => exec_nodes_s(a, st1, nodes, 0, depth),
                },
            },
            Ok(None) => match crate::script4::named_call(stmt, "fun"@) {
                Err(m) => (st1, Err(failed(m))),
                Ok(Some(name)) => call_function_s(a, st1, name, depth),
                Ok(None) => match crate::script4::named_call(stmt, "for"@) {
                    Err(m) => (st1, Err(failed(m))),
                    Ok(Some(name)) => for_loop_s(a, st1, name, depth),
                    Ok(None) => (st1, Err(failed("不明な命令です: "@ + stmt))),
                },
            },
        }
    }
}

/// The function named `name` (after expansion) run.
pub open spec fn call_function_s(a: AnswersModel, st: StateModel, name: Seq<char>, depth: usize) -> (
    StateModel,
    Result<Signal, StopModel>,
)
    decreases st.fuel, 0int,
{
    let (f2, r) = expand_all_s(env_of(st, a), name, st.fuel);
    let st1 = with_fuel(st, f2);
    match r {
        Err(x) => (st1, Err(x)),
        Ok(x) => {
            let n = trim(x);
            match lookup(st1.functions, n) {
                None => (st1, Err(failed("関数 '"@ + n + "' は定義されていません"@))),
                Some(body) => if f2 >= st.fuel {
                    (st1, Err(StopModel::OutOfFuel))
                } else {
                    exec_nodes_s(a, st1, body, 0, depth)
                },
            }
        },
    }
}

/// The function `name` run over and over, one loop level deeper, until it breaks.
pub open spec fn for_loop_s(a: AnswersModel, st: StateModel, name: Seq<char>, depth: usize) -> (
    StateModel,
    Result<Signal, StopModel>,
)
    decreases st.fuel, 0int,
{
    if st.fuel == 0 {
        (st, Err(StopModel::OutOfFuel))
    } else {
        let (st2, r) = call_function_s(a, with_fuel(st, (st.fuel - 1) as nat), name, next_depth(depth));
        match r {
            Err(x) => (st2, Err(x)),
            Ok(Signal::Break) => (st2, Ok(Signal::Normal)),
            Ok(Signal::Normal) => if st2.fuel >= st.fuel {
                (st2, Err(StopModel::OutOfFuel))
            } else {
                for_loop_s(a, st2, name, depth)
            },
        }
    }
}


/// Whether `s` contains `pat`.
pub open spec fn contains_text(s: Seq<char>, pat: Seq<char>) -> bool {
    crate::text::find_from(s, pat, 0) is Some
}

/// The top-level `fun (name)` blocks from `i` on registered ahead of the run, except those
/// whose header holds a substitution, which register when they run.
pub open spec fn hoist_from(st: StateModel, nodes: Seq<Stmt>, i: int) -> Result<StateModel, Seq<char>>
    decreases nodes.len() - i,
{
    if i < 0 || i >= nodes.len() {
        Ok(st)
    } else {
        match nodes[i] {
            Stmt::Raw(_) => hoist_from(st, nodes, i + 1),
            Stmt::Block { header, body } => if contains_text(header, "var["@) || contains_text(
                header,
                "const["@,
            ) || contains_text(header, "calc["@) {
                hoist_from(st, nodes, i + 1)
            } else {
                match crate::syntax4::fun_definition(header) {
                    Err(m) => Err(m),
                    Ok(None) => hoist_from(st, nodes, i + 1),
                    Ok(Some(name)) => if lookup(st.functions, name) is Some {
                        Err("関数 '"@ + name + "' は重複定義できません"@)
                    } else {
                        hoist_from(
                            StateModel {
                                functions: put(st.functions, name, body),
                                hoisted: insert_name(st.hoisted, name),
                                ..st
                            },
                            nodes,
                            i + 1,
                        )
                    },
                }
            },
        }
    }
}

/// A whole run of `nodes` with `fuel` steps: the functions registered ahead, then the
/// statements in order at loop depth 0.
pub open spec fn run_s(a: AnswersModel, st: StateModel, nodes: Seq<Stmt>) -> (
    StateModel,
    Result<(), StopModel>,
) {
    match hoist_from(st, nodes, 0) {
        Err(m) => (st, Err(failed(m))),
        Ok(st1) => {
            let (st2, r) = exec_nodes_s(a, st1, nodes, 0, 0);
            (
                st2,
                match r {
                    Err(x) => Err(x),
                    Ok(_) => Ok(()),
                },
            )
        },
    }
}

/// A fresh state with `fuel` steps.
pub open spec fn fresh(fuel: nat) -> StateModel {
    StateModel { vars: seq![], consts: seq![], functions: seq![], hoisted: seq![], effects: seq![], fuel }
}

// ---------------------------------------------------------------------------------------
// The interpreter
// ---------------------------------------------------------------------------------------

pub open spec fn fun_entries(v: Seq<(String, Vec<ScriptNode>)>) -> Seq<(Seq<char>, Seq<Stmt>)> {
    v.map_values(|e: (String, Vec<ScriptNode>)| (e.0@, stmts_view(e.1@)))
}

pub open spec fn effects_view(v: Seq<Effect>) -> Seq<EffectModel> {
    v.map_values(|e: Effect| e@)
}

/// A run of a script: its variables, constants, functions, the effects so far, the steps
/// left and the answers it knows.
pub struct Interpreter {
    vars: Vec<(String, String)>,
    consts: Vec<(String, String)>,
    functions: Vec<(String, Vec<ScriptNode>)>,
    hoisted: Vec<String>,
    effects: Vec<Effect>,
    fuel: u64,
    answers: Answers,
}

impl View for Interpreter {
    type V = StateModel;

    closed spec fn view(&self) -> StateModel {
        StateModel {
            vars: text_pairs(self.vars@),
            consts: text_pairs(self.consts@),
            functions: fun_entries(self.functions@),
            hoisted: crate::warp3::strings_view(self.hoisted@),
            effects: effects_view(self.effects@),
            fuel: self.fuel as nat,
        }
    }
}

pub proof fn lemma_key_pos_same_keys<V, W>(s: Seq<(Seq<char>, V)>, t: Seq<(Seq<char>, W)>, k: Seq<char>)
    requires
        s.len() == t.len(),
        forall|i: int| 0 <= i < s.len() ==> s[i].0 == t[i].0,
    ensures
        key_pos(s, k) == key_pos(t, k),
    decreases s.len(),
{
    if s.len() > 0 {
        assert forall|i: int| 0 <= i < s.len() - 1 implies s.drop_last()[i].0 == t.drop_last()[i].0 by {
            assert(s.drop_last()[i] == s[i]);
            assert(t.drop_last()[i] == t[i]);
        }
        lemma_key_pos_same_keys(s.drop_last(), t.drop_last(), k);
    }
}

/// The value of `k` among text pairs.
fn get_text(entries: &Vec<(String, String)>, k: &[char]) -> (r: Option<String>)
    ensures
        match lookup(text_pairs(entries@), k@) {
            Some(v) => r matches Some(s) && s@ == v,
            None => r is None,
        },
{
    let f = find_key(entries, k);
    proof {
        lemma_key_pos_same_keys(keyed(entries@), text_pairs(entries@), k@);
        lemma_key_pos(text_pairs(entries@), k@);
    }
    match f {
        Some(i) => Some(entries[i].1.clone()),
        None => None,
    }
}

/// Sets `k` to `v` among text pairs.
fn put_text(entries: &mut Vec<(String, String)>, k: String, v: String)
    ensures
        text_pairs(final(entries)@) == put(text_pairs(old(entries)@), k@, v@),
{
    let kv = chars_of(k.as_str());
    let f = find_key(entries, &kv);
    proof {
        lemma_key_pos_same_keys(keyed(old(entries)@), text_pairs(old(entries)@), k@);
        lemma_key_pos(text_pairs(old(entries)@), k@);
    }
    let ghost kk = k@;
    let ghost vv = v@;
    match f {
        Some(i) => {
            entries.set(i, (k, v));
            assert(text_pairs(entries@) =~= text_pairs(old(entries)@).update(i as int, (kk, vv)));
        },
        None => {
            entries.push((k, v));
            assert(text_pairs(entries@) =~= text_pairs(old(entries)@).push((kk, vv)));
        },
    }
}

/// A copy of the body of the function `k`.
fn get_function(entries: &Vec<(String, Vec<ScriptNode>)>, k: &[char]) -> (r: Option<Vec<ScriptNode>>)
    ensures
        match lookup(fun_entries(entries@), k@) {
            Some(v) => r matches Some(b) && stmts_view(b@) == v,
            None => r is None,
        },
{
    let f = find_key(entries, k);
    proof {
        lemma_key_pos_same_keys(keyed(entries@), fun_entries(entries@), k@);
        lemma_key_pos(fun_entries(entries@), k@);
    }
    match f {
        Some(i) => Some(clone_nodes(&entries[i].1)),
        None => None,
    }
}

/// Registers the function `k`.
fn put_function(entries: &mut Vec<(String, Vec<ScriptNode>)>, k: String, body: Vec<ScriptNode>)
    ensures
        fun_entries(final(entries)@) == put(fun_entries(old(entries)@), k@, stmts_view(body@)),
{
    let kv = chars_of(k.as_str());
    let f = find_key(entries, &kv);
    proof {
        lemma_key_pos_same_keys(keyed(old(entries)@), fun_entries(old(entries)@), k@);
        lemma_key_pos(fun_entries(old(entries)@), k@);
    }
    let ghost kk = k@;
    let ghost bb = stmts_view(body@);
    match f {
        Some(i) => {
            entries.set(i, (k, body));
            assert(fun_entries(entries@) =~= fun_entries(old(entries)@).update(i as int, (kk, bb)));
        },
        None => {
            entries.push((k, body));
            assert(fun_entries(entries@) =~= fun_entries(old(entries)@).push((kk, bb)));
        },
    }
}

/// Where `name` stands among `names`.
fn find_name(names: &Vec<String>, name: &[char]) -> (r: Option<usize>)
    ensures
        match r {
            Some(i) => crate::text::first_index(crate::warp3::strings_view(names@), name@) == Some(
                i as int,
            ),
            None => crate::text::first_index(crate::warp3::strings_view(names@), name@) is None,
        },
{
    let ghost s = crate::warp3::strings_view(names@);
    let mut i: usize = 0;
    assert(s.skip(0) =~= s);
    while i < names.len()
        invariant
            i <= names@.len(),
            s == crate::warp3::strings_view(names@),
            crate::text::first_index(s, name@) == (match crate::text::first_index(
                s.skip(i as int),
                name@,
            ) {
                Some(j) => Some(j + i),
                None => None,
            }),
        decreases names@.len() - i,
    {
        assert(s.skip(i as int).drop_first() =~= s.skip(i + 1));
        let v = chars_of(names[i].as_str());
        if crate::text::eq_chars(&v, name) {
            return Some(i);
        }
        i += 1;
    }
    None
}

pub proof fn lemma_first_index<A>(s: Seq<A>, x: A)
    ensures
        crate::text::first_index(s, x) matches Some(i) ==> 0 <= i < s.len() && s[i] == x,
        crate::text::first_index(s, x) is None <==> !s.contains(x),
    decreases s.len(),
{
    if s.len() > 0 {
        lemma_first_index(s.drop_first(), x);
        if s[0] != x && s.drop_first().contains(x) {
            let j = choose|j: int| 0 <= j < s.drop_first().len() && s.drop_first()[j] == x;
            assert(s[j + 1] == x);
        }
        if s[0] != x && s.contains(x) {
            let j = choose|j: int| 0 <= j < s.len() && s[j] == x;
            assert(s.drop_first()[j - 1] == x);
        }
    }
}


/// The result of expansion as values.
pub open spec fn text_result(r: Result<String, Stop>) -> Result<Seq<char>, StopModel> {
    match r {
        Ok(s) => Ok(s@),
        Err(x) => Err(x@),
    }
}

pub open spec fn pass_result(r: Result<(String, bool), Stop>) -> Result<(Seq<char>, bool), StopModel> {
    match r {
        Ok((s, b)) => Ok((s@, b)),
        Err(x) => Err(x@),
    }
}

pub open spec fn signal_result(r: Result<Signal, Stop>) -> Result<Signal, StopModel> {
    match r {
        Ok(s) => Ok(s),
        Err(x) => Err(x@),
    }
}

impl Interpreter {
    /// The answers this run knows.
    pub closed spec fn answers_model(&self) -> AnswersModel {
        self.answers@
    }

    /// A run that knows `answers` and may take `fuel` steps.
    pub fn new(answers: Answers, fuel: u64) -> (r: Self)
        ensures
            r@ == fresh(fuel as nat),
            r.answers_model() == answers@,
    {
        let r = Interpreter {
            vars: Vec::new(),
            consts: Vec::new(),
            functions: Vec::new(),
            hoisted: Vec::new(),
            effects: Vec::new(),
            fuel,
            answers,
        };
        assert(r@ =~= fresh(fuel as nat)) by {
            assert(text_pairs(r.vars@) =~= Seq::<(Seq<char>, Seq<char>)>::empty());
            assert(text_pairs(r.consts@) =~= Seq::<(Seq<char>, Seq<char>)>::empty());
            assert(fun_entries(r.functions@) =~= Seq::<(Seq<char>, Seq<Stmt>)>::empty());
            assert(crate::warp3::strings_view(r.hoisted@) =~= Seq::<Seq<char>>::empty());
            assert(effects_view(r.effects@) =~= Seq::<EffectModel>::empty());
        }
        r
    }

    /// The effects of the run so far, in order.
    pub fn effects(&self) -> (r: &Vec<Effect>)
        ensures
            effects_view(r@) == self@.effects,
    {
        &self.effects
    }

    /// `input` with its substitutions done until nothing changes.
    pub fn expand_all(&mut self, input: &str) -> (r: Result<String, Stop>)
        ensures
            final(self).answers_model() == old(self).answers_model(),
            final(self)@ == with_fuel(
                old(self)@,
                expand_all_s(env_of(old(self)@, old(self).answers_model()), input@, old(self)@.fuel).0,
            ),
            text_result(r) == expand_all_s(
                env_of(old(self)@, old(self).answers_model()),
                input@,
                old(self)@.fuel,
            ).1,
        decreases old(self)@.fuel, 0int,
    {
        if self.fuel == 0 {
            return Err(Stop::OutOfFuel);
        }
        self.fuel = self.fuel - 1;
        self.expand_loop(crate::text::lit(input), 256)
    }

    fn expand_loop(&mut self, current: String, passes: u32) -> (r: Result<String, Stop>)
        ensures
            final(self).answers_model() == old(self).answers_model(),
            final(self)@ == with_fuel(
                old(self)@,
                expand_loop_s(
                    env_of(old(self)@, old(self).answers_model()),
                    current@,
                    passes as nat,
                    old(self)@.fuel,
                ).0,
            ),
            text_result(r) == expand_loop_s(
                env_of(old(self)@, old(self).answers_model()),
                current@,
                passes as nat,
                old(self)@.fuel,
            ).1,
        decreases old(self)@.fuel, 0int,
    {
        if passes == 0 {
            return Err(Stop::Failed(crate::text::lit("展開回数が上限を超えました。循環参照の可能性があります")));
        }
        if self.fuel == 0 {
            return Err(Stop::OutOfFuel);
        }
        let before = self.fuel;
        self.fuel = self.fuel - 1;
        let (next, changed) = self.expand_pass(current.as_str())?;
        if !changed || next == current {
            return Ok(next);
        }
        if self.fuel >= before {
            return Err(Stop::OutOfFuel);
        }
        self.expand_loop(next, passes - 1)
    }

    /// One pass over `input`: each `var[...]`, `const[...]` that is set and `calc[...]`
    /// replaced by its value; `true` when something was.
    pub fn expand_pass(&mut self, input: &str) -> (r: Result<(String, bool), Stop>)
        ensures
            final(self).answers_model() == old(self).answers_model(),
            final(self)@ == with_fuel(
                old(self)@,
                expand_scan_s(
                    env_of(old(self)@, old(self).answers_model()),
                    input@,
                    0,
                    seq![],
                    false,
                    old(self)@.fuel,
                ).0,
            ),
            pass_result(r) == expand_scan_s(
                env_of(old(self)@, old(self).answers_model()),
                input@,
                0,
                seq![],
                false,
                old(self)@.fuel,
            ).1,
        decreases old(self)@.fuel, 1int,
    {
        let ghost e = env_of(old(self)@, old(self).answers_model());
        let ghost st0 = old(self)@;
        let chars = chars_of(input);
        let mut out = String::new();
        let mut changed = false;
        let mut i: usize = 0;
        while i < chars.len()
            invariant
                i <= chars@.len(),
                chars@ == input@,
                e == env_of(self@, self.answers_model()),
                self.answers_model() == old(self).answers_model(),
                self@ == with_fuel(st0, self@.fuel),
                self@.fuel <= st0.fuel,
                st0 == old(self)@,
                e == env_of(old(self)@, old(self).answers_model()),
                expand_scan_s(e, input@, 0, seq![], false, st0.fuel) == expand_scan_s(
                    e,
                    input@,
                    i as int,
                    out@,
                    changed,
                    self@.fuel,
                ),
            decreases chars@.len() - i, 
        {
            let kind: usize = if crate::text::starts_at_str(&chars, i, "var[") {
                1
            } else if crate::text::starts_at_str(&chars, i, "const[") {
                2
            } else if crate::text::starts_at_str(&chars, i, "calc[") {
                3
            } else {
                0
            };
            if kind == 0 {
                out.push(chars[i]);
                i += 1;
                continue;
            }
            proof {
                reveal_strlit("var");
                reveal_strlit("const");
                reveal_strlit("calc");
                reveal_strlit("var[");
                reveal_strlit("const[");
                reveal_strlit("calc[");
            }
            let n = chars.len();
            assert(i + 3 < n);
            let name: &str = if kind == 1 {
                "var"
            } else if kind == 2 {
                "const"
            } else {
                "calc"
            };
            let open = i + name.unicode_len();
            proof {
                reveal_strlit("var[");
                reveal_strlit("const[");
                reveal_strlit("calc[");
            }
            let close = match crate::script4::find_matching_square(&chars, open) {
                Some(c) => c,
                None => {
                    let mut m = crate::text::lit(name);
                    m.append("[ ... ] の ']' が不足しています");
                    return Err(Stop::Failed(m));
                },
            };
            if self.fuel == 0 {
                return Err(Stop::OutOfFuel);
            }
            if !(open < close) {
                return Err(Stop::OutOfFuel);
            }
            proof {
                crate::syntax4::lemma_group_end(chars@, '[', ']', open as int, 0);
            }
            let before = self.fuel;
            self.fuel = self.fuel - 1;
            let inner_chars = slice_vec(&chars, open + 1, close);
            let inner_text = string_of(&inner_chars);
            let inner = self.expand_all(inner_text.as_str())?;
            let iv = chars_of(inner.as_str());
            let (text, ch): (String, bool) = if kind == 3 {
                match self.answers.calc_answer(&iv) {
                    None => {
                        return Err(Stop::Needs(Query::Calc(inner)));
                    },
                    Some(Err(m)) => {
                        return Err(Stop::Failed(m));
                    },
                    Some(Ok(v)) => (v, true),
                }
            } else {
                let key = trim_vec(&iv);
                let found = if kind == 1 {
                    get_text(&self.vars, &key)
                } else {
                    get_text(&self.consts, &key)
                };
                match found {
                    Some(v) => (v, true),
                    None => (string_of(&slice_vec(&chars, i, close + 1)), false),
                }
            };
            if self.fuel >= before {
                return Err(Stop::OutOfFuel);
            }
            out.append(text.as_str());
            changed = changed || ch;
            i = close + 1;
        }
        Ok((out, changed))
    }
}


impl Interpreter {
    /// The value of a condition, or the numeric question to answer first.
    fn decide(&self, l: &String, op: CompareOp, r: &String) -> (res: Result<bool, Query>)
        ensures
            match decide(self.answers_model(), l@, op, r@) {
                Ok(b) => res == Ok::<bool, Query>(b),
                Err(q) => res matches Err(x) && x@ == q,
            },
    {
        let lt = trim_vec(&chars_of(l.as_str()));
        let rt = trim_vec(&chars_of(r.as_str()));
        match op {
            CompareOp::Lt => match self.answers.less_answer(&lt, &rt) {
                None => Err(Query::Less(string_of(&lt), string_of(&rt))),
                Some(b) => Ok(crate::script4::compare(l.as_str(), op, r.as_str(), b)),
            },
            CompareOp::Gt => match self.answers.less_answer(&rt, &lt) {
                None => Err(Query::Less(string_of(&rt), string_of(&lt))),
                Some(b) => Ok(crate::script4::compare(l.as_str(), op, r.as_str(), b)),
            },
            _ => Ok(crate::script4::compare(l.as_str(), op, r.as_str(), false)),
        }
    }

    /// Runs `nodes` in order at loop depth `loop_depth`; a `break` ends them.
    pub fn exec_nodes(&mut self, nodes: &Vec<ScriptNode>, loop_depth: usize) -> (r: Result<Signal, Stop>)
        ensures
            final(self).answers_model() == old(self).answers_model(),
            (final(self)@, signal_result(r)) == exec_nodes_s(
                old(self).answers_model(),
                old(self)@,
                stmts_view(nodes@),
                0,
                loop_depth,
            ),
        decreases old(self)@.fuel, 5int,
    {
        let ghost a = old(self).answers_model();
        let ghost ns = stmts_view(nodes@);
        let mut i: usize = 0;
        while i < nodes.len()
            invariant
                i <= nodes@.len(),
                ns == stmts_view(nodes@),
                a == old(self).answers_model(),
                self.answers_model() == a,
                self@.fuel <= old(self)@.fuel,
                exec_nodes_s(a, old(self)@, ns, 0, loop_depth) == exec_nodes_s(
                    a,
                    self@,
                    ns,
                    i as int,
                    loop_depth,
                ),
            decreases nodes@.len() - i,
        {
            if self.fuel == 0 {
                return Err(Stop::OutOfFuel);
            }
            let before = self.fuel;
            self.fuel = self.fuel - 1;
            assert(ns[i as int] == nodes@[i as int]@);
            match self.exec_node(&nodes[i], loop_depth) {
                Err(x) => {
                    return Err(x);
                },
                Ok(Signal::Break) => {
                    return Ok(Signal::Break);
                },
                Ok(Signal::Normal) => {},
            }
            if self.fuel >= before {
                return Err(Stop::OutOfFuel);
            }
            i += 1;
        }
        Ok(Signal::Normal)
    }

    fn exec_node(&mut self, node: &ScriptNode, loop_depth: usize) -> (r: Result<Signal, Stop>)
        ensures
            final(self).answers_model() == old(self).answers_model(),
            (final(self)@, signal_result(r)) == exec_node_s(
                old(self).answers_model(),
                old(self)@,
                node@,
                loop_depth,
            ),
        decreases old(self)@.fuel, 4int,
    {
        match node {
            ScriptNode::Raw(raw) => self.exec_raw(raw.as_str(), loop_depth),
            ScriptNode::Block { header, body } => {
                proof {
                    lemma_block_view(*node);
                }
                self.exec_block(header.as_str(), body, loop_depth)
            },
        }
    }

    /// Runs a block: registers a function, or runs an `if` body when its condition holds.
    pub fn exec_block(&mut self, header: &str, body: &Vec<ScriptNode>, loop_depth: usize) -> (r:
        Result<Signal, Stop>)
        ensures
            final(self).answers_model() == old(self).answers_model(),
            (final(self)@, signal_result(r)) == exec_block_s(
                old(self).answers_model(),
                old(self)@,
                header@,
                stmts_view(body@),
                loop_depth,
            ),
        decreases old(self)@.fuel, 3int,
    {
        let fuel0 = self.fuel;
        let expanded = self.expand_all(header)?;
        let hv = trim_vec(&chars_of(expanded.as_str()));
        match crate::syntax4::parse_fun_definition_header(&hv) {
            Err(m) => Err(Stop::Failed(m)),
            Ok(Some(name)) => {
                let nv = chars_of(name.as_str());
                proof {
                    lemma_first_index(self@.hoisted, name@);
                }
                match find_name(&self.hoisted, &nv) {
                    Some(i) => {
                        let ghost before = self.hoisted@;
                        self.hoisted.remove(i);
                        assert(crate::warp3::strings_view(self.hoisted@) =~= crate::warp3::strings_view(
                            before,
                        ).remove(i as int));
                        Ok(Signal::Normal)
                    },
                    None => {
                        let found = find_key(&self.functions, &nv);
                        proof {
                            lemma_key_pos_same_keys(keyed(self.functions@), fun_entries(self.functions@), name@);
                        }
                        if found.is_some() {
                            let mut m = lit("関数 '");
                            m.append(name.as_str());
                            m.append("' は重複定義できません");
                            Err(Stop::Failed(m))
                        } else {
                            let copy = clone_nodes(body);
                            put_function(&mut self.functions, name, copy);
                            Ok(Signal::Normal)
                        }
                    },
                }
            },
            Ok(None) => {
                proof {
                    reveal_strlit("if");
                }
                if crate::text::starts_with_str(&hv, "if") {
                    if !crate::syntax4::header_after_keyword_is_valid(&hv, "if") {
                        let mut m = lit("不明なブロック命令です: ");
                        crate::text::push_chars(&mut m, &hv);
                        return Err(Stop::Failed(m));
                    }
                    let after = slice_vec(&hv, 2, hv.len());
                    assert(after@ =~= hv@.skip(2));
                    let cond = trim_vec(&after);
                    match crate::script4::split_condition(&cond) {
                        None => {
                            let mut m = lit("if の条件を解析できません: ");
                            crate::text::push_chars(&mut m, &cond);
                            Err(Stop::Failed(m))
                        },
                        Some((l, op, rt)) => match self.decide(&l, op, &rt) {
                            Err(q) => Err(Stop::Needs(q)),
                            Ok(false) => Ok(Signal::Normal),
                            Ok(true) => {
                                if self.fuel >= fuel0 {
                                    return Err(Stop::OutOfFuel);
                                }
                                self.exec_nodes(body, loop_depth)
                            },
                        },
                    }
                } else {
                    let mut m = lit("不明なブロック命令です: ");
                    crate::text::push_chars(&mut m, &hv);
                    Err(Stop::Failed(m))
                }
            },
        }
    }

    /// Runs one statement line.
    pub fn exec_raw(&mut self, raw: &str, loop_depth: usize) -> (r: Result<Signal, Stop>)
        ensures
            final(self).answers_model() == old(self).answers_model(),
            (final(self)@, signal_result(r)) == exec_raw_s(
                old(self).answers_model(),
                old(self)@,
                raw@,
                loop_depth,
            ),
        decreases old(self)@.fuel, 3int,
    {
        let fuel0 = self.fuel;
        let expanded = self.expand_all(raw)?;
        let stmt = trim_vec(&chars_of(expanded.as_str()));
        if stmt.len() == 0 {
            return Ok(Signal::Normal);
        }
        if crate::text::eq_str(&stmt, "break") {
            return Ok(
                if loop_depth > 0 {
                    Signal::Break
                } else {
                    Signal::Normal
                },
            );
        }
        self.exec_command(&stmt, loop_depth, fuel0)
    }

    fn exec_command(&mut self, stmt: &Vec<char>, loop_depth: usize, fuel0: u64) -> (r: Result<
        Signal,
        Stop,
    >)
        ensures
            final(self).answers_model() == old(self).answers_model(),
            (final(self)@, signal_result(r)) == exec_command_s(
                old(self).answers_model(),
                fuel0 as nat,
                old(self)@,
                stmt@,
                loop_depth,
            ),
        decreases fuel0, 2int,
    {
        match crate::script4::strip_command(stmt, "var.set") {
            Some(rest) => {
                return match crate::script4::parse_name_value(&rest, "var.set") {
                    Err(m) => Err(Stop::Failed(m)),
                    Ok((n, v)) => {
                        let nv = chars_of(n.as_str());
                        if get_text(&self.vars, &nv).is_none() {
                            put_text(&mut self.vars, n, v);
                        }
                        Ok(Signal::Normal)
                    },
                };
            },
            None => {},
        }
        match crate::script4::strip_command(stmt, "var.edit") {
            Some(rest) => {
                return match crate::script4::parse_name_value(&rest, "var.edit") {
                    Err(m) => Err(Stop::Failed(m)),
                    Ok((n, v)) => {
                        let nv = chars_of(n.as_str());
                        if get_text(&self.vars, &nv).is_some() {
                            put_text(&mut self.vars, n, v);
                        }
                        Ok(Signal::Normal)
                    },
                };
            },
            None => {},
        }
        match crate::script4::strip_command(stmt, "const.set") {
            Some(rest) => {
                return match crate::script4::parse_name_value(&rest, "const.set") {
                    Err(m) => Err(Stop::Failed(m)),
                    Ok((n, v)) => {
                        let nv = chars_of(n.as_str());
                        if get_text(&self.consts, &nv).is_none() {
                            put_text(&mut self.consts, n, v);
                        }
                        Ok(Signal::Normal)
                    },
                };
            },
            None => {},
        }
        self.exec_output(stmt, loop_depth, fuel0)
    }

    fn exec_output(&mut self, stmt: &Vec<char>, loop_depth: usize, fuel0: u64) -> (r: Result<
        Signal,
        Stop,
    >)
        ensures
            final(self).answers_model() == old(self).answers_model(),
            (final(self)@, signal_result(r)) == exec_output_s(
                old(self).answers_model(),
                fuel0 as nat,
                old(self)@,
                stmt@,
                loop_depth,
            ),
        decreases fuel0, 1int,
    {
        match crate::script4::parse_call(stmt, "print") {
            Err(m) => {
                return Err(Stop::Failed(m));
            },
            Ok(Some(c)) => {
                let ghost before = self.effects@;
                self.effects.push(Effect::Print(string_of(&c)));
                assert(effects_view(self.effects@) =~= effects_view(before).push(
                    EffectModel::Print(c@),
                ));
                return Ok(Signal::Normal);
            },
            Ok(None) => {},
        }
        match crate::script4::parse_call(stmt, "wait") {
            Err(m) => {
                return Err(Stop::Failed(m));
            },
            Ok(Some(c)) => {
                let text = string_of(&trim_vec(&c));
                return match crate::script4::parse_duration(text.as_str()) {
                    Err(m) => Err(Stop::Failed(m)),
                    Ok((num, unit)) => {
                        let nv = chars_of(num.as_str());
                        match self.answers.non_negative_answer(&nv) {
                            None => Err(Stop::Needs(Query::NonNegative(num))),
                            Some(false) => {
                                let mut m = lit("wait の時間 '");
                                m.append(text.as_str());
                                m.append("' は 0 以上で指定してください");
                                Err(Stop::Failed(m))
                            },
                            Some(true) => {
                                let ghost before = self.effects@;
                                let ghost nn = num@;
                                self.effects.push(Effect::Wait(num, unit));
                                assert(effects_view(self.effects@) =~= effects_view(before).push(
                                    EffectModel::Wait(nn, unit),
                                ));
                                Ok(Signal::Normal)
                            },
                        }
                    },
                };
            },
            Ok(None) => {},
        }
        self.exec_flow(stmt, loop_depth, fuel0)
    }

    fn exec_flow(&mut self, stmt: &Vec<char>, loop_depth: usize, fuel0: u64) -> (r: Result<
        Signal,
        Stop,
    >)
        ensures
            final(self).answers_model() == old(self).answers_model(),
            (final(self)@, signal_result(r)) == exec_flow_s(
                old(self).answers_model(),
                fuel0 as nat,
                old(self)@,
                stmt@,
                loop_depth,
            ),
        decreases fuel0, 0int,
    {
        if self.fuel >= fuel0 {
            return Err(Stop::OutOfFuel);
        }
        match crate::script4::parse_inline_if(stmt) {
            Err(m) => {
                return Err(Stop::Failed(m));
            },
            Ok(Some((l, op, rt, body))) => {
                return match self.decide(&l, op, &rt) {
                    Err(q) => Err(Stop::Needs(q)),
                    Ok(false) => Ok(Signal::Normal),
                    Ok(true) => {
                        let mut parser = crate::script4::Parser::new(body.as_str());
                        match parser.parse_program(false) {
                            Err(m) => Err(Stop::Failed(m)),
                            Ok(nodes) => self.exec_nodes(&nodes, loop_depth),
                        }
                    },
                };
            },
            Ok(None) => {},
        }
        match crate::script4::parse_fun_call(stmt) {
            Err(m) => {
                return Err(Stop::Failed(m));
            },
            Ok(Some(name)) => {
                return self.call_function(name.as_str(), loop_depth);
            },
            Ok(None) => {},
        }
        match crate::script4::parse_for_call(stmt) {
            Err(m) => Err(Stop::Failed(m)),
            Ok(Some(name)) => self.run_for(name.as_str(), loop_depth),
            Ok(None) => {
                let mut m = lit("不明な命令です: ");
                crate::text::push_chars(&mut m, stmt);
                Err(Stop::Failed(m))
            },
        }
    }

    /// Runs the function `name` (its name expanded first).
    pub fn call_function(&mut self, name: &str, loop_depth: usize) -> (r: Result<Signal, Stop>)
        ensures
            final(self).answers_model() == old(self).answers_model(),
            (final(self)@, signal_result(r)) == call_function_s(
                old(self).answers_model(),
                old(self)@,
                name@,
                loop_depth,
            ),
        decreases old(self)@.fuel, 0int,
    {
        let fuel0 = self.fuel;
        let x = self.expand_all(name)?;
        let n = trim_vec(&chars_of(x.as_str()));
        match get_function(&self.functions, &n) {
            None => {
                let mut m = lit("関数 '");
                crate::text::push_chars(&mut m, &n);
                m.append("' は定義されていません");
                Err(Stop::Failed(m))
            },
            Some(body) => {
                if self.fuel >= fuel0 {
                    return Err(Stop::OutOfFuel);
                }
                self.exec_nodes(&body, loop_depth)
            },
        }
    }

    /// Runs the function `name` over and over, one loop level deeper, until it breaks.
    fn run_for(&mut self, name: &str, loop_depth: usize) -> (r: Result<Signal, Stop>)
        ensures
            final(self).answers_model() == old(self).answers_model(),
            (final(self)@, signal_result(r)) == for_loop_s(
                old(self).answers_model(),
                old(self)@,
                name@,
                loop_depth,
            ),
        decreases old(self)@.fuel, 0int,
    {
        if self.fuel == 0 {
            return Err(Stop::OutOfFuel);
        }
        let before = self.fuel;
        self.fuel = self.fuel - 1;
        let deeper = if loop_depth < usize::MAX {
            loop_depth + 1
        } else {
            loop_depth
        };
        match self.call_function(name, deeper) {
            Err(x) => Err(x),
            Ok(Signal::Break) => Ok(Signal::Normal),
            Ok(Signal::Normal) => {
                if self.fuel >= before {
                    return Err(Stop::OutOfFuel);
                }
                self.run_for(name, loop_depth)
            },
        }
    }
}


impl Interpreter {
    /// Registers the top-level `fun (name)` blocks ahead of the run, except those whose
    /// header holds a substitution.
    pub fn hoist_top_level_functions(&mut self, nodes: &Vec<ScriptNode>) -> (r: Result<(), String>)
        ensures
            final(self).answers_model() == old(self).answers_model(),
            final(self)@.effects == old(self)@.effects,
            match hoist_from(old(self)@, stmts_view(nodes@), 0) {
                Ok(st) => r is Ok && final(self)@ == st,
                Err(m) => r matches Err(e) && e@ == m,
            },
    {
        let ghost ns = stmts_view(nodes@);
        let mut i: usize = 0;
        while i < nodes.len()
            invariant
                i <= nodes@.len(),
                ns == stmts_view(nodes@),
                self.answers_model() == old(self).answers_model(),
                self@.effects == old(self)@.effects,
                hoist_from(old(self)@, ns, 0) == hoist_from(self@, ns, i as int),
            decreases nodes@.len() - i,
        {
            let node = &nodes[i];
            assert(ns[i as int] == node@);
            match node {
                ScriptNode::Raw(_) => {},
                ScriptNode::Block { header, body } => {
                    proof {
                        lemma_block_view(*node);
                    }
                    let hv = chars_of(header.as_str());
                    let dynamic = crate::text::split_once_str_vec(&hv, "var[").is_some()
                        || crate::text::split_once_str_vec(&hv, "const[").is_some()
                        || crate::text::split_once_str_vec(&hv, "calc[").is_some();
                    if !dynamic {
                        match crate::syntax4::parse_fun_definition_header(&hv) {
                            Err(m) => {
                                return Err(m);
                            },
                            Ok(None) => {},
                            Ok(Some(name)) => {
                                let nv = chars_of(name.as_str());
                                let found = find_key(&self.functions, &nv);
                                proof {
                                    lemma_key_pos_same_keys(
                                        keyed(self.functions@),
                                        fun_entries(self.functions@),
                                        name@,
                                    );
                                }
                                if found.is_some() {
                                    let mut m = lit("関数 '");
                                    m.append(name.as_str());
                                    m.append("' は重複定義できません");
                                    return Err(m);
                                }
                                let copy = clone_nodes(body);
                                let name2 = name.clone();
                                put_function(&mut self.functions, name, copy);
                                proof {
                                    lemma_first_index(self@.hoisted, name2@);
                                }
                                if find_name(&self.hoisted, &nv).is_none() {
                                    let ghost before = self.hoisted@;
                                    self.hoisted.push(name2);
                                    assert(crate::warp3::strings_view(self.hoisted@) =~= crate::warp3::strings_view(
                                        before,
                                    ).push(nv@));
                                }
                            },
                        }
                    }
                },
            }
            i += 1;
        }
        Ok(())
    }

    /// Runs a program: its functions registered ahead, then its statements in order. The
    /// effects of the run are those of `run_s`, and so is how it ends.
    pub fn run(&mut self, nodes: &Vec<ScriptNode>) -> (r: Result<(), Stop>)
        ensures
            final(self).answers_model() == old(self).answers_model(),
            final(self)@.effects == run_s(old(self).answers_model(), old(self)@, stmts_view(nodes@)).0.effects,
            match run_s(old(self).answers_model(), old(self)@, stmts_view(nodes@)).1 {
                Ok(()) => r is Ok,
                Err(x) => r matches Err(y) && y@ == x,
            },
    {
        match self.hoist_top_level_functions(nodes) {
            Err(m) => {
                return Err(Stop::Failed(m));
            },
            Ok(()) => {},
        }
        match self.exec_nodes(nodes, 0) {
            Err(x) => Err(x),
            Ok(_) => Ok(()),
        }
    }
}

} // verus!
