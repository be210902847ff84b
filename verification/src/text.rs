//! Character-level text handling shared by the compilers and the interpreter:
//! whitespace, trimming, prefixes, line splitting and decimal numbers.
use vstd::prelude::*;

verus! {

pub assume_specification[ String::push ](s: &mut String, ch: char)
    ensures
        final(s)@ == old(s)@.push(ch),
;

/// The characters of `s`, in order.
pub fn chars_of(s: &str) -> (res: Vec<char>)
    ensures
        res@ == s@,
{
    let mut res: Vec<char> = Vec::new();
    for c in it: s.chars()
        invariant
            res@ == it.seq().take(it.index() as int),
            it.seq() == s@,
    {
        res.push(c);
    }
    res
}

/// A `String` holding exactly the characters `v`.
pub fn string_of(v: &[char]) -> (res: String)
    ensures
        res@ == v@,
{
    let mut res = String::new();
    let mut i: usize = 0;
    while i < v.len()
        invariant
            i <= v@.len(),
            res@ == v@.take(i as int),
        decreases v@.len() - i,
    {
        res.push(v[i]);
        assert(v@.take(i as int + 1) =~= v@.take(i as int).push(v@[i as int]));
        i += 1;
    }
    assert(v@.take(v@.len() as int) =~= v@);
    res
}

/// Appends the characters `v` to `out`.
pub fn push_chars(out: &mut String, v: &[char])
    ensures
        final(out)@ == old(out)@ + v@,
{
    let mut i: usize = 0;
    while i < v.len()
        invariant
            i <= v@.len(),
            out@ == old(out)@ + v@.take(i as int),
        decreases v@.len() - i,
    {
        out.push(v[i]);
        assert(v@.take(i as int + 1) =~= v@.take(i as int).push(v@[i as int]));
        i += 1;
    }
    assert(v@.take(v@.len() as int) =~= v@);
}

/// The characters `v[lo..hi]` as a new vector.
pub fn slice_vec(v: &[char], lo: usize, hi: usize) -> (res: Vec<char>)
    requires
        lo <= hi <= v@.len(),
    ensures
        res@ == v@.subrange(lo as int, hi as int),
{
    let mut res: Vec<char> = Vec::new();
    let mut i: usize = lo;
    while i < hi
        invariant
            lo <= i <= hi <= v@.len(),
            res@ == v@.subrange(lo as int, i as int),
        decreases hi - i,
    {
        res.push(v[i]);
        assert(v@.subrange(lo as int, i as int + 1) =~= v@.subrange(lo as int, i as int).push(
            v@[i as int],
        ));
        i += 1;
    }
    res
}

/// Unicode `White_Space`, the property that `char::is_whitespace` tests.
pub open spec fn is_ws(c: char) -> bool {
    ||| ('\u{9}' <= c && c <= '\u{d}')
    ||| c == ' '
    ||| c == '\u{85}'
    ||| c == '\u{a0}'
    ||| c == '\u{1680}'
    ||| ('\u{2000}' <= c && c <= '\u{200a}')
    ||| c == '\u{2028}'
    ||| c == '\u{2029}'
    ||| c == '\u{202f}'
    ||| c == '\u{205f}'
    ||| c == '\u{3000}'
}

/// Whether `c` is whitespace in the sense of Unicode `White_Space`.
pub fn is_whitespace(c: char) -> (res: bool)
    ensures
        res == is_ws(c),
{
    ('\u{9}' <= c && c <= '\u{d}') || c == ' ' || c == '\u{85}' || c == '\u{a0}' || c
        == '\u{1680}' || ('\u{2000}' <= c && c <= '\u{200a}') || c == '\u{2028}' || c
        == '\u{2029}' || c == '\u{202f}' || c == '\u{205f}' || c == '\u{3000}'
}

/// `s` without its leading whitespace.
pub open spec fn trim_start(s: Seq<char>) -> Seq<char>
    decreases s.len(),
{
    if s.len() > 0 && is_ws(s[0]) {
        trim_start(s.drop_first())
    } else {
        s
    }
}

/// `s` without its trailing whitespace.
pub open spec fn trim_end(s: Seq<char>) -> Seq<char>
    decreases s.len(),
{
    if s.len() > 0 && is_ws(s.last()) {
        trim_end(s.drop_last())
    } else {
        s
    }
}

/// `s` without leading and trailing whitespace, as `str::trim` gives it.
pub open spec fn trim(s: Seq<char>) -> Seq<char> {
    trim_end(trim_start(s))
}

/// The index of the first character of `s` that is not whitespace, or `s.len()`.
pub fn trim_start_index(v: &[char]) -> (i: usize)
    ensures
        i <= v@.len(),
        trim_start(v@) == v@.skip(i as int),
{
    let mut i: usize = 0;
    assert(v@.skip(0) =~= v@);
    while i < v.len() && is_whitespace(v[i])
        invariant
            i <= v@.len(),
            trim_start(v@) == trim_start(v@.skip(i as int)),
        decreases v@.len() - i,
    {
        assert(v@.skip(i as int).drop_first() =~= v@.skip(i as int + 1));
        i += 1;
    }
    i
}

/// The end of `v[..hi]` once its trailing whitespace is removed.
pub fn trim_end_index(v: &[char], hi: usize) -> (j: usize)
    requires
        hi <= v@.len(),
    ensures
        j <= hi,
        trim_end(v@.take(hi as int)) == v@.take(j as int),
{
    let mut j: usize = hi;
    while j > 0 && is_whitespace(v[j - 1])
        invariant
            j <= hi <= v@.len(),
            trim_end(v@.take(hi as int)) == trim_end(v@.take(j as int)),
        decreases j,
    {
        assert(v@.take(j as int).drop_last() =~= v@.take(j as int - 1));
        j -= 1;
    }
    j
}

/// The bounds `(lo, hi)` such that `v[lo..hi]` is `v` trimmed.
pub fn trim_bounds(v: &[char]) -> (r: (usize, usize))
    ensures
        r.0 <= r.1 <= v@.len(),
        trim(v@) == v@.subrange(r.0 as int, r.1 as int),
        trim_start(v@) == v@.skip(r.0 as int),
{
    let lo = trim_start_index(v);
    let ghost t = v@.skip(lo as int);
    let mut j: usize = v.len();
    assert(t.take(t.len() as int) =~= t);
    while j > lo && is_whitespace(v[j - 1])
        invariant
            lo <= j <= v@.len(),
            t == v@.skip(lo as int),
            trim_end(t) == trim_end(t.take(j - lo)),
        decreases j,
    {
        assert(t.take(j - lo).drop_last() =~= t.take(j - lo - 1));
        j -= 1;
    }
    assert(t.take(j - lo) =~= v@.subrange(lo as int, j as int));
    (lo, j)
}

/// `v` without leading and trailing whitespace.
pub fn trim_vec(v: &[char]) -> (res: Vec<char>)
    ensures
        res@ == trim(v@),
{
    let (lo, hi) = trim_bounds(v);
    slice_vec(v, lo, hi)
}

/// `v` without leading whitespace.
pub fn trim_start_vec(v: &[char]) -> (res: Vec<char>)
    ensures
        res@ == trim_start(v@),
{
    let lo = trim_start_index(v);
    slice_vec(v, lo, v.len())
}

/// Whether `s` begins with `p`.
pub open spec fn starts_with(s: Seq<char>, p: Seq<char>) -> bool {
    p.len() <= s.len() && s.take(p.len() as int) == p
}

/// Whether `s` ends with `p`.
pub open spec fn ends_with(s: Seq<char>, p: Seq<char>) -> bool {
    p.len() <= s.len() && s.skip(s.len() - p.len()) == p
}

/// Whether `s[at..]` begins with `p`.
pub open spec fn starts_at(s: Seq<char>, at: int, p: Seq<char>) -> bool {
    0 <= at && at + p.len() <= s.len() && s.subrange(at, at + p.len()) == p
}

/// Whether `v[at..]` begins with `lit`.
pub fn starts_at_str(v: &[char], at: usize, lit: &str) -> (res: bool)
    ensures
        res == starts_at(v@, at as int, lit@),
{
    let n = lit.unicode_len();
    if n > v.len() || at > v.len() - n {
        return false;
    }
    let mut i: usize = 0;
    while i < n
        invariant
            n == lit@.len(),
            at + n <= v@.len(),
            i <= n,
            forall|k: int| 0 <= k < i ==> v@[at + k] == lit@[k],
        decreases n - i,
    {
        assert(at + i < v.len());
        if v[at + i] != lit.get_char(i) {
            assert(v@.subrange(at as int, at + n)[i as int] != lit@[i as int]);
            return false;
        }
        i += 1;
    }
    assert(v@.subrange(at as int, at + n) =~= lit@);
    true
}

/// Whether `v` begins with `lit`.
pub fn starts_with_str(v: &[char], lit: &str) -> (res: bool)
    ensures
        res == starts_with(v@, lit@),
{
    let r = starts_at_str(v, 0, lit);
    assert(v@.take(lit@.len() as int) =~= v@.subrange(0, lit@.len() as int));
    r
}

/// Whether `v` ends with `lit`.
pub fn ends_with_str(v: &[char], lit: &str) -> (res: bool)
    ensures
        res == ends_with(v@, lit@),
{
    let n = lit.unicode_len();
    if n > v.len() {
        return false;
    }
    let r = starts_at_str(v, v.len() - n, lit);
    assert(v@.skip(v@.len() - n) =~= v@.subrange(v@.len() - n, v@.len() as int));
    r
}

/// Whether `v` is exactly `lit`.
pub fn eq_str(v: &[char], lit: &str) -> (res: bool)
    ensures
        res == (v@ == lit@),
{
    let n = lit.unicode_len();
    if n != v.len() {
        return false;
    }
    let r = starts_at_str(v, 0, lit);
    assert(v@.subrange(0, n as int) =~= v@);
    r
}

/// Whether `v` is exactly `w`.
pub fn eq_chars(v: &[char], w: &[char]) -> (res: bool)
    ensures
        res == (v@ == w@),
{
    if v.len() != w.len() {
        return false;
    }
    let mut i: usize = 0;
    while i < v.len()
        invariant
            v@.len() == w@.len(),
            i <= v@.len(),
            forall|k: int| 0 <= k < i ==> v@[k] == w@[k],
        decreases v@.len() - i,
    {
        if v[i] != w[i] {
            return false;
        }
        i += 1;
    }
    assert(v@ =~= w@);
    true
}

/// The first index at or after `from` where `s` holds `c`, if any.
pub open spec fn index_of_from(s: Seq<char>, c: char, from: int) -> Option<int>
    decreases s.len() - from,
{
    if from < 0 || from >= s.len() {
        None
    } else if s[from] == c {
        Some(from)
    } else {
        index_of_from(s, c, from + 1)
    }
}

/// The first index where `s` holds `c`, if any.
pub open spec fn index_of(s: Seq<char>, c: char) -> Option<int> {
    index_of_from(s, c, 0)
}

pub proof fn lemma_index_of_from(s: Seq<char>, c: char, from: int)
    requires
        0 <= from,
    ensures
        index_of_from(s, c, from) matches Some(i) ==> from <= i < s.len() && s[i] == c && (
        forall|k: int| from <= k < i ==> s[k] != c),
        index_of_from(s, c, from) is None ==> forall|k: int| from <= k < s.len() ==> s[k] != c,
    decreases s.len() - from,
{
    if from < s.len() && s[from] != c {
        lemma_index_of_from(s, c, from + 1);
    }
}

/// The first index at or after `from` where `v` holds `c`.
pub fn find_char_from(v: &[char], c: char, from: usize) -> (res: Option<usize>)
    ensures
        res matches Some(i) ==> index_of_from(v@, c, from as int) == Some(i as int),
        res is None ==> index_of_from(v@, c, from as int) is None,
{
    let mut i = from;
    while i < v.len()
        invariant
            from <= i,
            index_of_from(v@, c, from as int) == index_of_from(v@, c, i as int),
        decreases v@.len() - i,
    {
        if v[i] == c {
            return Some(i);
        }
        i += 1;
    }
    None
}

/// The first index where `v` holds `c`.
pub fn find_char(v: &[char], c: char) -> (res: Option<usize>)
    ensures
        res matches Some(i) ==> index_of(v@, c) == Some(i as int),
        res is None ==> index_of(v@, c) is None,
{
    find_char_from(v, c, 0)
}

/// `str::split_once` on a single character: the text before and after the first `c`.
pub open spec fn split_once(s: Seq<char>, c: char) -> Option<(Seq<char>, Seq<char>)> {
    match index_of(s, c) {
        Some(i) => Some((s.take(i), s.skip(i + 1))),
        None => None,
    }
}

/// The text before and after the first `c` of `v`.
pub fn split_once_vec(v: &[char], c: char) -> (res: Option<(Vec<char>, Vec<char>)>)
    ensures
        res matches Some(p) ==> split_once(v@, c) == Some((p.0@, p.1@)),
        res is None ==> split_once(v@, c) is None,
{
    match find_char(v, c) {
        Some(i) => {
            proof {
                lemma_index_of_from(v@, c, 0);
                assert(i < v.len());
            }
            let a = slice_vec(v, 0, i);
            let b = slice_vec(v, i + 1, v.len());
            assert(a@ =~= v@.take(i as int));
            assert(b@ =~= v@.skip(i + 1));
            Some((a, b))
        },
        None => None,
    }
}

/// One line of `str::lines`: the text up to a line feed, without a `\r` before it.
pub open spec fn strip_cr(line: Seq<char>) -> Seq<char> {
    if line.len() > 0 && line.last() == '\r' {
        line.drop_last()
    } else {
        line
    }
}

/// The lines of `s` as `str::lines` yields them.
pub open spec fn lines(s: Seq<char>) -> Seq<Seq<char>>
    decreases s.len(),
{
    if s.len() == 0 {
        seq![]
    } else {
        match index_of(s, '\n') {
            Some(i) => {
                if 0 <= i < s.len() {
                    seq![strip_cr(s.take(i))] + lines(s.skip(i + 1))
                } else {
                    seq![]
                }
            },
            None => seq![s],
        }
    }
}

proof fn lemma_index_of_shift(s: Seq<char>, c: char, start: int, i: int)
    requires
        0 <= start <= i,
        index_of_from(s, c, start) == Some(i),
    ensures
        index_of(s.skip(start), c) == Some(i - start),
    decreases i - start,
{
    lemma_index_of_from(s, c, start);
    lemma_index_of_from(s.skip(start), c, 0);
    let t = s.skip(start);
    if index_of(t, c) is None {
        assert(t[i - start] == c);
    } else {
        let j = index_of(t, c)->0;
        if j < i - start {
            assert(s[start + j] == c);
        } else if j > i - start {
            assert(t[i - start] == c);
        }
    }
}

proof fn lemma_index_of_shift_none(s: Seq<char>, c: char, start: int)
    requires
        0 <= start <= s.len(),
        index_of_from(s, c, start) is None,
    ensures
        index_of(s.skip(start), c) is None,
{
    lemma_index_of_from(s, c, start);
    lemma_index_of_from(s.skip(start), c, 0);
    if index_of(s.skip(start), c) is Some {
        let j = index_of(s.skip(start), c)->0;
        assert(s[start + j] == c);
    }
}

/// `v` cut into lines as `str::lines` does it.
pub fn lines_vec(v: &[char]) -> (res: Vec<Vec<char>>)
    ensures
        res@.len() == lines(v@).len(),
        forall|k: int| 0 <= k < res@.len() ==> #[trigger] res@[k]@ == lines(v@)[k],
{
    let mut res: Vec<Vec<char>> = Vec::new();
    let mut start: usize = 0;
    let ghost views: Seq<Seq<char>> = seq![];
    assert(v@.skip(0) =~= v@);
    while start < v.len()
        invariant
            start <= v@.len(),
            views.len() == res@.len(),
            forall|k: int| 0 <= k < res@.len() ==> #[trigger] res@[k]@ == views[k],
            lines(v@) == views + lines(v@.skip(start as int)),
        decreases v@.len() - start,
    {
        let ghost rest = v@.skip(start as int);
        match find_char_from(v, '\n', start) {
            Some(i) => {
                proof {
                    lemma_index_of_from(v@, '\n', start as int);
                    lemma_index_of_shift(v@, '\n', start as int, i as int);
                    assert(rest.take(i - start) =~= v@.subrange(start as int, i as int));
                    assert(rest.skip(i - start + 1) =~= v@.skip(i + 1));
                }
                let mut line = slice_vec(v, start, i);
                if line.len() > 0 && line[line.len() - 1] == '\r' {
                    line.pop();
                }
                assert(line@ == strip_cr(v@.subrange(start as int, i as int)));
                proof {
                    views = views.push(line@);
                    assert(lines(rest) == seq![line@] + lines(v@.skip(i + 1)));
                }
                res.push(line);
                start = i + 1;
            },
            None => {
                proof {
                    lemma_index_of_shift_none(v@, '\n', start as int);
                }
                let line = slice_vec(v, start, v.len());
                assert(line@ =~= rest);
                proof {
                    views = views.push(line@);
                    assert(v@.skip(v@.len() as int) =~= Seq::<char>::empty());
                }
                res.push(line);
                start = v.len();
            },
        }
    }
    assert(v@.skip(start as int) =~= Seq::<char>::empty());
    assert(lines(v@) =~= views);
    res
}

/// The decimal digit for `d < 10`.
pub open spec fn digit_char(d: nat) -> char {
    if d == 0 {
        '0'
    } else if d == 1 {
        '1'
    } else if d == 2 {
        '2'
    } else if d == 3 {
        '3'
    } else if d == 4 {
        '4'
    } else if d == 5 {
        '5'
    } else if d == 6 {
        '6'
    } else if d == 7 {
        '7'
    } else if d == 8 {
        '8'
    } else {
        '9'
    }
}

/// `n` written in decimal, as `format!("{}", n)` writes it.
pub open spec fn decimal(n: nat) -> Seq<char>
    decreases n,
{
    if n < 10 {
        seq![digit_char(n)]
    } else {
        decimal(n / 10).push(digit_char(n % 10))
    }
}

pub fn digit(d: u64) -> (c: char)
    requires
        d < 10,
    ensures
        c == digit_char(d as nat),
{
    if d == 0 {
        '0'
    } else if d == 1 {
        '1'
    } else if d == 2 {
        '2'
    } else if d == 3 {
        '3'
    } else if d == 4 {
        '4'
    } else if d == 5 {
        '5'
    } else if d == 6 {
        '6'
    } else if d == 7 {
        '7'
    } else if d == 8 {
        '8'
    } else {
        '9'
    }
}

/// `n` written in decimal.
pub fn decimal_vec(n: u64) -> (res: Vec<char>)
    ensures
        res@ == decimal(n as nat),
    decreases n,
{
    if n < 10 {
        let mut v = Vec::new();
        v.push(digit(n));
        v
    } else {
        let mut v = decimal_vec(n / 10);
        v.push(digit(n % 10));
        v
    }
}

/// Appends `n` in decimal to `out`.
pub fn push_decimal(out: &mut String, n: u64)
    ensures
        final(out)@ == old(out)@ + decimal(n as nat),
{
    let v = decimal_vec(n);
    push_chars(out, &v);
}


/// Concatenation regroups to the right.
pub broadcast proof fn lemma_concat_assoc(a: Seq<char>, b: Seq<char>, c: Seq<char>)
    ensures
        #[trigger] ((a + b) + c) == a + (b + c),
{
    assert(((a + b) + c) =~= a + (b + c));
}

/// Appending nothing leaves a text unchanged.
pub broadcast proof fn lemma_concat_empty(a: Seq<char>)
    ensures
        #[trigger] (a + Seq::<char>::empty()) == a,
        #[trigger] (Seq::<char>::empty() + a) == a,
{
    assert(a + Seq::<char>::empty() =~= a);
    assert(Seq::<char>::empty() + a =~= a);
}

/// A `String` holding the characters of the literal `s`.
pub fn lit(s: &str) -> (r: String)
    ensures
        r@ == s@,
{
    let mut r = String::new();
    r.append(s);
    r
}

/// What `char::is_alphanumeric` returns for a character outside ASCII (Unicode `Alphabetic`
/// or `Numeric`).
pub uninterp spec fn unicode_alphanumeric(c: char) -> bool;

/// An ASCII letter or digit.
pub open spec fn ascii_alphanumeric(c: char) -> bool {
    ('a' <= c <= 'z') || ('A' <= c <= 'Z') || ('0' <= c <= '9')
}

/// What `char::is_alphanumeric` says of `c`: among ASCII characters exactly the letters and
/// digits, elsewhere Unicode's table.
pub open spec fn alphanumeric(c: char) -> bool {
    if (c as u32) < 128 {
        ascii_alphanumeric(c)
    } else {
        unicode_alphanumeric(c)
    }
}

/// `char::is_alphanumeric`, true for characters that are alphabetic or numeric. The contract
/// claims that among ASCII characters these are exactly the letters and the digits, and
/// that elsewhere the answer is a function of `c`; Unicode's table itself is not restated.
#[verifier::external_body]
pub(crate) fn is_alphanumeric(c: char) -> (r: bool)
    ensures
        (c as u32) < 128 ==> r == ascii_alphanumeric(c),
        (c as u32) >= 128 ==> r == unicode_alphanumeric(c),
{
    c.is_alphanumeric()
}

/// What `format!("{:?}", o)` writes for an optional character.
pub uninterp spec fn option_char_debug(o: Option<char>) -> Seq<char>;

/// `<Option<char> as Debug>::fmt` through `format!`. The contract claims the text is a
/// function of `o` with the outer shape std writes: `None`, or `Some('` and `')` around the
/// character's escaped form; how the character is escaped is left to the named result.
#[verifier::external_body]
pub(crate) fn debug_option_char(o: Option<char>) -> (r: String)
    ensures
        r@ == option_char_debug(o),
        o is None ==> r@ == "None"@,
        o is Some ==> r@.len() >= 9 && r@.take(6) == "Some('"@ && r@.skip(r@.len() - 2) == "')"@,
{
    format!("{:?}", o)
}


/// The texts `f(c)` for each character `c` of `s`, joined in order.
pub open spec fn flat_map(s: Seq<char>, f: spec_fn(char) -> Seq<char>) -> Seq<char>
    decreases s.len(),
{
    if s.len() == 0 {
        seq![]
    } else {
        flat_map(s.drop_last(), f) + f(s.last())
    }
}

/// `flat_map` over one more character.
pub proof fn lemma_flat_map_push(s: Seq<char>, f: spec_fn(char) -> Seq<char>, i: int)
    requires
        0 <= i < s.len(),
    ensures
        flat_map(s.take(i + 1), f) == flat_map(s.take(i), f) + f(s[i]),
{
    assert(s.take(i + 1).drop_last() =~= s.take(i));
}

/// `flat_map` over a concatenation.
pub proof fn lemma_flat_map_concat(a: Seq<char>, b: Seq<char>, f: spec_fn(char) -> Seq<char>)
    ensures
        flat_map(a + b, f) == flat_map(a, f) + flat_map(b, f),
    decreases b.len(),
{
    if b.len() == 0 {
        assert(a + b =~= a);
        assert(flat_map(a, f) + Seq::<char>::empty() =~= flat_map(a, f));
    } else {
        assert((a + b).drop_last() =~= a + b.drop_last());
        lemma_flat_map_concat(a, b.drop_last(), f);
        assert(flat_map(a, f) + flat_map(b.drop_last(), f) + f(b.last()) =~= flat_map(a, f) + (
        flat_map(b.drop_last(), f) + f(b.last())));
    }
}


// ---------------------------------------------------------------------------------------
// Words
// ---------------------------------------------------------------------------------------

/// The first position at or after `p` whose character is not whitespace, or the end.
pub open spec fn ws_end(s: Seq<char>, p: int) -> int
    decreases s.len() - p,
{
    if 0 <= p < s.len() && is_ws(s[p]) {
        ws_end(s, p + 1)
    } else {
        p
    }
}

/// The first position at or after `p` whose character is whitespace, or the end.
pub open spec fn word_end(s: Seq<char>, p: int) -> int
    decreases s.len() - p,
{
    if 0 <= p < s.len() && !is_ws(s[p]) {
        word_end(s, p + 1)
    } else {
        p
    }
}

pub proof fn lemma_ws_end(s: Seq<char>, p: int)
    requires
        0 <= p <= s.len(),
    ensures
        p <= ws_end(s, p) <= s.len(),
        forall|k: int| p <= k < ws_end(s, p) ==> is_ws(#[trigger] s[k]),
        ws_end(s, p) < s.len() ==> !is_ws(s[ws_end(s, p)]),
    decreases s.len() - p,
{
    if p < s.len() && is_ws(s[p]) {
        lemma_ws_end(s, p + 1);
    }
}

pub proof fn lemma_word_end(s: Seq<char>, p: int)
    requires
        0 <= p <= s.len(),
    ensures
        p <= word_end(s, p) <= s.len(),
        forall|k: int| p <= k < word_end(s, p) ==> !is_ws(#[trigger] s[k]),
        word_end(s, p) < s.len() ==> is_ws(s[word_end(s, p)]),
    decreases s.len() - p,
{
    if p < s.len() && !is_ws(s[p]) {
        lemma_word_end(s, p + 1);
    }
}

/// The whitespace-separated words of `s[p..]`, as `str::split_whitespace` yields them.
pub open spec fn words_from(s: Seq<char>, p: int) -> Seq<Seq<char>>
    decreases s.len() - p,
{
    if 0 <= p <= s.len() {
        let q = ws_end(s, p);
        proof {
            lemma_ws_end(s, p);
        }
        if q >= s.len() {
            seq![]
        } else {
            let e = word_end(s, q);
            proof {
                lemma_word_end(s, q);
            }
            seq![s.subrange(q, e)] + words_from(s, e)
        }
    } else {
        seq![]
    }
}

/// The whitespace-separated words of `s`.
pub open spec fn words(s: Seq<char>) -> Seq<Seq<char>> {
    words_from(s, 0)
}

/// The whitespace-separated words of `v`.
pub fn split_whitespace_vec(v: &[char]) -> (r: Vec<Vec<char>>)
    ensures
        r@.len() == words(v@).len(),
        forall|k: int| 0 <= k < r@.len() ==> #[trigger] r@[k]@ == words(v@)[k],
{
    let mut r: Vec<Vec<char>> = Vec::new();
    let ghost done: Seq<Seq<char>> = seq![];
    let mut p: usize = 0;
    while p < v.len()
        invariant
            p <= v@.len(),
            r@.len() == done.len(),
            forall|k: int| 0 <= k < r@.len() ==> #[trigger] r@[k]@ == done[k],
            words(v@) == done + words_from(v@, p as int),
        decreases v@.len() - p,
    {
        proof {
            lemma_ws_end(v@, p as int);
        }
        let mut q = p;
        while q < v.len() && is_whitespace(v[q])
            invariant
                p <= q <= v@.len(),
                ws_end(v@, p as int) == ws_end(v@, q as int),
            decreases v@.len() - q,
        {
            q += 1;
        }
        if q >= v.len() {
            assert(words_from(v@, p as int) =~= Seq::<Seq<char>>::empty());
            p = q;
        } else {
            proof {
                lemma_word_end(v@, q as int);
            }
            let mut e = q;
            while e < v.len() && !is_whitespace(v[e])
                invariant
                    q <= e <= v@.len(),
                    word_end(v@, q as int) == word_end(v@, e as int),
                decreases v@.len() - e,
            {
                e += 1;
            }
            let w = slice_vec(v, q, e);
            proof {
                done = done.push(w@);
                assert(words_from(v@, p as int) == seq![w@] + words_from(v@, e as int));
            }
            r.push(w);
            p = e;
        }
    }
    proof {
        assert(words_from(v@, p as int) =~= Seq::<Seq<char>>::empty());
        assert(words(v@) =~= done);
    }
    r
}

// ---------------------------------------------------------------------------------------
// Numbers as `str::parse` reads them
// ---------------------------------------------------------------------------------------

/// An ASCII decimal digit.
pub open spec fn is_digit(c: char) -> bool {
    '0' <= c && c <= '9'
}

/// Whether every character of `s` is a decimal digit.
pub open spec fn all_digits(s: Seq<char>) -> bool {
    forall|i: int| 0 <= i < s.len() ==> is_digit(#[trigger] s[i])
}

/// The value of the decimal digits `s`.
pub open spec fn digits_value(s: Seq<char>) -> nat
    decreases s.len(),
{
    if s.len() == 0 {
        0
    } else {
        digits_value(s.drop_last()) * 10 + ((s.last() as int) - ('0' as int)) as nat
    }
}

/// What `s.parse::<u64>()` gives: an optional `+` and then at least one digit, with a
/// value that fits; `None` for any other text.
pub open spec fn u64_text(s: Seq<char>) -> Option<nat> {
    let d = if s.len() > 0 && s[0] == '+' {
        s.drop_first()
    } else {
        s
    };
    if d.len() > 0 && all_digits(d) && digits_value(d) <= u64::MAX {
        Some(digits_value(d))
    } else {
        None
    }
}

proof fn lemma_digits_grow(s: Seq<char>, i: int)
    requires
        0 <= i <= s.len(),
        all_digits(s),
    ensures
        digits_value(s.take(i)) <= digits_value(s),
    decreases s.len() - i,
{
    if i < s.len() {
        lemma_digits_grow(s, i + 1);
        assert(s.take(i + 1).drop_last() =~= s.take(i));
        assert(is_digit(s[i]));
    } else {
        assert(s.take(i) =~= s);
    }
}

/// `v` read as `str::parse::<u64>` reads it.
pub fn parse_u64(v: &[char]) -> (r: Option<u64>)
    ensures
        match u64_text(v@) {
            Some(n) => r == Some(n as u64),
            None => r is None,
        },
{
    let start: usize = if v.len() > 0 && v[0] == '+' {
        1
    } else {
        0
    };
    let ghost d = if v@.len() > 0 && v@[0] == '+' {
        v@.drop_first()
    } else {
        v@
    };
    assert(d =~= v@.skip(start as int));
    assert(u64_text(v@) == (if d.len() > 0 && all_digits(d) && digits_value(d) <= u64::MAX {
        Some(digits_value(d))
    } else {
        None
    }));
    if start >= v.len() {
        return None;
    }
    let mut value: u64 = 0;
    let mut i: usize = start;
    assert(d.take(0) =~= Seq::<char>::empty());
    while i < v.len()
        invariant
            start <= i <= v@.len(),
            start < v@.len(),
            d == v@.skip(start as int),
            u64_text(v@) == (if d.len() > 0 && all_digits(d) && digits_value(d) <= u64::MAX {
                Some(digits_value(d))
            } else {
                None
            }),
            all_digits(d.take(i - start)),
            value == digits_value(d.take(i - start)),
        decreases v@.len() - i,
    {
        let c = v[i];
        assert(d[i - start] == c);
        if !('0' <= c && c <= '9') {
            assert(!is_digit(d[i - start]));
            assert(!all_digits(d));
            assert(u64_text(v@) is None);
            return None;
        }
        assert(d.take(i - start + 1).drop_last() =~= d.take(i - start));
        let digit = (c as u32 - '0' as u32) as u64;
        if value > (u64::MAX - digit) / 10 {
            proof {
                assert(value * 10 + digit > u64::MAX) by (nonlinear_arith)
                    requires
                        value > (u64::MAX - digit) / 10,
                        digit <= 9,
                ;
                if all_digits(d) {
                    lemma_digits_grow(d, i - start + 1);
                }
                assert(u64_text(v@) is None);
            }
            return None;
        }
        assert(value * 10 + digit <= u64::MAX) by (nonlinear_arith)
            requires
                value <= (u64::MAX - digit) / 10,
                digit <= 9,
        ;
        value = value * 10 + digit;
        i += 1;
    }
    assert(d.take(i - start) =~= d);
    Some(value)
}

/// Whether `s` spells the lowercase ASCII word `w` in any mix of cases.
pub open spec fn ascii_caseless_eq(s: Seq<char>, w: Seq<char>) -> bool {
    s.len() == w.len() && forall|i: int|
        0 <= i < s.len() ==> (#[trigger] s[i] == w[i] || 'a' <= w[i] && w[i] <= 'z' && (s[i] as u32)
            == (w[i] as u32) - 32)
}

/// The part of a float text before its exponent: digits with at most one `.`, at least one
/// digit in all.
pub open spec fn float_mantissa(m: Seq<char>) -> bool {
    match index_of(m, '.') {
        None => m.len() > 0 && all_digits(m),
        Some(d) => all_digits(m.take(d)) && all_digits(m.skip(d + 1)) && (d > 0 || m.len() > d
            + 1),
    }
}

/// An exponent after `e`: an optional sign and at least one digit.
pub open spec fn float_exponent(x: Seq<char>) -> bool {
    let d = if x.len() > 0 && (x[0] == '+' || x[0] == '-') {
        x.drop_first()
    } else {
        x
    };
    d.len() > 0 && all_digits(d)
}

/// The first `e` or `E` of `s`, if any.
pub open spec fn exp_index(s: Seq<char>) -> Option<int> {
    match (index_of(s, 'e'), index_of(s, 'E')) {
        (Some(a), Some(b)) => Some(if a < b { a } else { b }),
        (Some(a), None) => Some(a),
        (None, Some(b)) => Some(b),
        (None, None) => None,
    }
}

/// A number: a mantissa and an optional exponent.
pub open spec fn float_number(b: Seq<char>) -> bool {
    match exp_index(b) {
        None => float_mantissa(b),
        Some(e) => float_mantissa(b.take(e)) && float_exponent(b.skip(e + 1)),
    }
}

/// Whether `s.parse::<f64>()` succeeds: the grammar that `f64`'s `FromStr` documents, an
/// optional sign and then `inf`, `infinity`, `nan` (in any case) or a decimal number with
/// an optional exponent.
pub open spec fn float_text(s: Seq<char>) -> bool {
    let b = if s.len() > 0 && (s[0] == '+' || s[0] == '-') {
        s.drop_first()
    } else {
        s
    };
    ascii_caseless_eq(b, "inf"@) || ascii_caseless_eq(b, "infinity"@) || ascii_caseless_eq(
        b,
        "nan"@,
    ) || float_number(b)
}


/// Whether `v[lo..hi]` is all digits.
pub fn digits_between(v: &[char], lo: usize, hi: usize) -> (r: bool)
    requires
        lo <= hi <= v@.len(),
    ensures
        r == all_digits(v@.subrange(lo as int, hi as int)),
{
    let mut i = lo;
    while i < hi
        invariant
            lo <= i <= hi <= v@.len(),
            all_digits(v@.subrange(lo as int, i as int)),
        decreases hi - i,
    {
        if !('0' <= v[i] && v[i] <= '9') {
            assert(v@.subrange(lo as int, hi as int)[i - lo] == v@[i as int]);
            return false;
        }
        assert forall|k: int| 0 <= k < i + 1 - lo implies is_digit(
            #[trigger] v@.subrange(lo as int, i + 1)[k],
        ) by {
            if k < i - lo {
                assert(v@.subrange(lo as int, i + 1)[k] == v@.subrange(lo as int, i as int)[k]);
            }
        }
        i += 1;
    }
    true
}

/// Whether `v[lo..hi]` spells the lowercase ASCII word `w` in any mix of cases.
pub(crate) fn caseless_between(v: &[char], lo: usize, hi: usize, w: &str) -> (r: bool)
    requires
        lo <= hi <= v@.len(),
    ensures
        r == ascii_caseless_eq(v@.subrange(lo as int, hi as int), w@),
{
    let n = w.unicode_len();
    if hi - lo != n {
        return false;
    }
    let mut i: usize = 0;
    while i < n
        invariant
            n == w@.len(),
            lo + n == hi <= v@.len(),
            i <= n,
            forall|k: int|
                0 <= k < i ==> (#[trigger] v@[lo + k] == w@[k] || 'a' <= w@[k] && w@[k] <= 'z' && (
                v@[lo + k] as u32) == (w@[k] as u32) - 32),
        decreases n - i,
    {
        let a = v[lo + i];
        let b = w.get_char(i);
        let av = a as u32;
        let bv = b as u32;
        let same = a == b || ('a' <= b && b <= 'z' && bv >= 32 && av == bv - 32);
        if !same {
            assert(v@.subrange(lo as int, hi as int)[i as int] == a);
            return false;
        }
        i += 1;
    }
    assert forall|k: int| 0 <= k < n implies #[trigger] v@.subrange(lo as int, hi as int)[k] == v@[lo
        + k] by {}
    true
}

/// Whether `v[lo..hi]` is a float mantissa.
fn mantissa_between(v: &[char], lo: usize, hi: usize) -> (r: bool)
    requires
        lo <= hi <= v@.len(),
    ensures
        r == float_mantissa(v@.subrange(lo as int, hi as int)),
{
    let m = slice_vec(v, lo, hi);
    match find_char(&m, '.') {
        None => m.len() > 0 && digits_between(&m, 0, m.len()) && {
            assert(m@.subrange(0, m@.len() as int) =~= m@);
            true
        },
        Some(d) => {
            proof {
                lemma_index_of_from(m@, '.', 0);
            }
            let a = digits_between(&m, 0, d);
            let b = digits_between(&m, d + 1, m.len());
            assert(m@.subrange(0, d as int) =~= m@.take(d as int));
            assert(m@.subrange(d + 1, m@.len() as int) =~= m@.skip(d + 1));
            a && b && (d > 0 || m.len() > d + 1)
        },
    }
}

/// Whether `v` is text that `str::parse::<f64>` accepts.
pub fn is_float_text(v: &[char]) -> (r: bool)
    ensures
        r == float_text(v@),
{
    let lo: usize = if v.len() > 0 && (v[0] == '+' || v[0] == '-') {
        1
    } else {
        0
    };
    let n = v.len();
    let ghost b = if v@.len() > 0 && (v@[0] == '+' || v@[0] == '-') {
        v@.drop_first()
    } else {
        v@
    };
    assert(b =~= v@.subrange(lo as int, n as int));
    if caseless_between(v, lo, n, "inf") || caseless_between(v, lo, n, "infinity")
        || caseless_between(v, lo, n, "nan") {
        return true;
    }
    let bv = slice_vec(v, lo, n);
    let e1 = find_char(&bv, 'e');
    let e2 = find_char(&bv, 'E');
    let e: Option<usize> = match (e1, e2) {
        (Some(a), Some(c)) => Some(
            if a < c {
                a
            } else {
                c
            },
        ),
        (Some(a), None) => Some(a),
        (None, Some(c)) => Some(c),
        (None, None) => None,
    };
    assert(e matches Some(k) ==> exp_index(b) == Some(k as int));
    assert(e is None ==> exp_index(b) is None);
    match e {
        None => {
            let r = mantissa_between(&bv, 0, bv.len());
            assert(bv@.subrange(0, bv@.len() as int) =~= bv@);
            r
        },
        Some(k) => {
            proof {
                lemma_index_of_from(bv@, 'e', 0);
                lemma_index_of_from(bv@, 'E', 0);
            }
            let m = mantissa_between(&bv, 0, k);
            assert(bv@.subrange(0, k as int) =~= bv@.take(k as int));
            let x = slice_vec(&bv, k + 1, bv.len());
            assert(x@ =~= bv@.skip(k + 1));
            let xs: usize = if x.len() > 0 && (x[0] == '+' || x[0] == '-') {
                1
            } else {
                0
            };
            let ghost xd = if x@.len() > 0 && (x@[0] == '+' || x@[0] == '-') {
                x@.drop_first()
            } else {
                x@
            };
            assert(xd =~= x@.subrange(xs as int, x@.len() as int));
            let ex = xs < x.len() && digits_between(&x, xs, x.len());
            m && ex
        },
    }
}


pub proof fn lemma_trim_start_len(s: Seq<char>)
    ensures
        trim_start(s).len() <= s.len(),
    decreases s.len(),
{
    if s.len() > 0 && is_ws(s[0]) {
        lemma_trim_start_len(s.drop_first());
    }
}

pub proof fn lemma_trim_end_len(s: Seq<char>)
    ensures
        trim_end(s).len() <= s.len(),
    decreases s.len(),
{
    if s.len() > 0 && is_ws(s.last()) {
        lemma_trim_end_len(s.drop_last());
    }
}

/// The first position at or after `from` where `s` continues with `pat`, if any.
pub open spec fn find_from(s: Seq<char>, pat: Seq<char>, from: int) -> Option<int>
    decreases s.len() + 1 - from,
{
    if from < 0 || from + pat.len() > s.len() {
        None
    } else if starts_at(s, from, pat) {
        Some(from)
    } else {
        find_from(s, pat, from + 1)
    }
}

/// `str::split_once` on a text pattern: what comes before and after its first occurrence.
pub open spec fn split_once_str(s: Seq<char>, pat: Seq<char>) -> Option<(Seq<char>, Seq<char>)> {
    match find_from(s, pat, 0) {
        Some(i) => Some((s.take(i), s.skip(i + pat.len()))),
        None => None,
    }
}

pub proof fn lemma_find_from(s: Seq<char>, pat: Seq<char>, from: int)
    requires
        0 <= from,
    ensures
        find_from(s, pat, from) matches Some(i) ==> from <= i && i + pat.len() <= s.len(),
    decreases s.len() + 1 - from,
{
    if from + pat.len() <= s.len() && !starts_at(s, from, pat) {
        lemma_find_from(s, pat, from + 1);
    }
}

/// The text of `v` before and after the first occurrence of `pat`.
pub fn split_once_str_vec(v: &[char], pat: &str) -> (r: Option<(Vec<char>, Vec<char>)>)
    ensures
        match split_once_str(v@, pat@) {
            Some((a, b)) => r matches Some(p) && p.0@ == a && p.1@ == b,
            None => r is None,
        },
{
    let n = pat.unicode_len();
    if n == 0 {
        assert(starts_at(v@, 0, pat@)) by {
            assert(v@.subrange(0, 0) =~= pat@);
        }
        let b = slice_vec(v, 0, v.len());
        assert(b@ =~= v@.skip(0));
        assert(v@.take(0) =~= Seq::<char>::empty());
        return Some((Vec::new(), b));
    }
    let mut i: usize = 0;
    while i <= v.len() && n <= v.len() - i
        invariant
            n == pat@.len(),
            n >= 1,
            i <= v@.len(),
            find_from(v@, pat@, 0) == find_from(v@, pat@, i as int),
        decreases v@.len() + 1 - i,
    {
        if starts_at_str(v, i, pat) {
            let a = slice_vec(v, 0, i);
            let b = slice_vec(v, i + n, v.len());
            assert(a@ =~= v@.take(i as int));
            assert(b@ =~= v@.skip(i + n));
            return Some((a, b));
        }
        i += 1;
    }
    None
}


/// The first index of `x` in `s`.
pub open spec fn first_index<A>(s: Seq<A>, x: A) -> Option<int>
    decreases s.len(),
{
    if s.len() == 0 {
        None
    } else if s[0] == x {
        Some(0)
    } else {
        match first_index(s.drop_first(), x) {
            Some(i) => Some(i + 1),
            None => None,
        }
    }
}

} // verus!
