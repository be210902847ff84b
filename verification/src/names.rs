//! A set of names kept in ascending order, as a `BTreeSet<String>` keeps and walks them.
use vstd::prelude::*;

verus! {

/// Whether `a` comes before `b`: character by character by code point, a proper prefix
/// first. This is the order of `String`'s `Ord`, whose UTF-8 bytes keep code-point order.
pub open spec fn lex_lt(a: Seq<char>, b: Seq<char>) -> bool
    decreases a.len(),
{
    if b.len() == 0 {
        false
    } else if a.len() == 0 {
        true
    } else if a[0] != b[0] {
        (a[0] as int) < (b[0] as int)
    } else {
        lex_lt(a.drop_first(), b.drop_first())
    }
}

pub proof fn lemma_lex_irreflexive(a: Seq<char>)
    ensures
        !lex_lt(a, a),
    decreases a.len(),
{
    if a.len() > 0 {
        lemma_lex_irreflexive(a.drop_first());
    }
}

pub proof fn lemma_lex_transitive(a: Seq<char>, b: Seq<char>, c: Seq<char>)
    requires
        lex_lt(a, b),
        lex_lt(b, c),
    ensures
        lex_lt(a, c),
    decreases a.len(),
{
    if a.len() > 0 && b.len() > 0 && c.len() > 0 && a[0] == b[0] && b[0] == c[0] {
        lemma_lex_transitive(a.drop_first(), b.drop_first(), c.drop_first());
    }
}

pub proof fn lemma_lex_total(a: Seq<char>, b: Seq<char>)
    ensures
        lex_lt(a, b) || lex_lt(b, a) || a == b,
    decreases a.len(),
{
    if a.len() > 0 && b.len() > 0 && a[0] == b[0] {
        lemma_lex_total(a.drop_first(), b.drop_first());
        if a.drop_first() == b.drop_first() {
            assert(a =~= seq![a[0]] + a.drop_first());
            assert(b =~= seq![b[0]] + b.drop_first());
        }
    } else if a.len() == 0 && b.len() == 0 {
        assert(a =~= b);
    } else if a.len() > 0 && b.len() > 0 {
        assert((a[0] as int) != (b[0] as int));
    }
}

/// Whether `s` is strictly ascending.
pub open spec fn ascending(s: Seq<Seq<char>>) -> bool {
    forall|i: int, j: int| 0 <= i < j < s.len() ==> lex_lt(#[trigger] s[i], #[trigger] s[j])
}

/// Whether `a` comes before `b`.
pub fn chars_lt(a: &[char], b: &[char]) -> (r: bool)
    ensures
        r == lex_lt(a@, b@),
{
    let mut i: usize = 0;
    assert(a@.skip(0) =~= a@);
    assert(b@.skip(0) =~= b@);
    while i < a.len() && i < b.len()
        invariant
            i <= a@.len(),
            i <= b@.len(),
            a@.take(i as int) == b@.take(i as int),
            lex_lt(a@, b@) == lex_lt(a@.skip(i as int), b@.skip(i as int)),
        decreases a@.len() - i,
    {
        assert(a@.skip(i as int)[0] == a@[i as int]);
        assert(b@.skip(i as int)[0] == b@[i as int]);
        if a[i] != b[i] {
            return a[i] < b[i];
        }
        assert(a@.skip(i as int).drop_first() =~= a@.skip(i + 1));
        assert(b@.skip(i as int).drop_first() =~= b@.skip(i + 1));
        assert(a@.take(i + 1) =~= a@.take(i as int).push(a@[i as int]));
        assert(b@.take(i + 1) =~= b@.take(i as int).push(b@[i as int]));
        i += 1;
    }
    i < b.len()
}

/// A set of names walked in ascending order.
pub struct NameSet {
    items: Vec<String>,
}

impl View for NameSet {
    type V = Seq<Seq<char>>;

    /// The names, in ascending order.
    closed spec fn view(&self) -> Seq<Seq<char>> {
        crate::warp3::strings_view(self.items@)
    }
}

impl NameSet {
    /// Every name once, in ascending order.
    pub open spec fn wf(&self) -> bool {
        ascending(self@)
    }

    pub fn new() -> (r: Self)
        ensures
            r.wf(),
            r@ == Seq::<Seq<char>>::empty(),
    {
        let r = NameSet { items: Vec::new() };
        assert(r@ =~= Seq::<Seq<char>>::empty());
        r
    }

    /// The number of names.
    pub fn len(&self) -> (r: usize)
        ensures
            r == self@.len(),
    {
        self.items.len()
    }

    /// The name at `i` in ascending order.
    pub fn get(&self, i: usize) -> (r: &String)
        requires
            i < self@.len(),
        ensures
            r@ == self@[i as int],
    {
        &self.items[i]
    }

    /// The names in ascending order.
    pub fn to_vec(&self) -> (r: Vec<String>)
        ensures
            crate::warp3::strings_view(r@) == self@,
    {
        let mut r: Vec<String> = Vec::new();
        let mut i: usize = 0;
        while i < self.items.len()
            invariant
                i <= self.items@.len(),
                r@.len() == i,
                self@ == crate::warp3::strings_view(self.items@),
                forall|k: int| 0 <= k < i ==> #[trigger] r@[k]@ == self@[k],
            decreases self.items@.len() - i,
        {
            let c = self.items[i].clone();
            r.push(c);
            i += 1;
        }
        assert(crate::warp3::strings_view(r@) =~= self@);
        r
    }

    /// Whether `name` is in the set.
    pub fn contains(&self, name: &[char]) -> (r: bool)
        ensures
            r == self@.contains(name@),
    {
        let mut i: usize = 0;
        while i < self.items.len()
            invariant
                i <= self.items@.len(),
                forall|k: int| 0 <= k < i ==> self@[k] != name@,
            decreases self.items@.len() - i,
        {
            let v = crate::text::chars_of(self.items[i].as_str());
            if crate::text::eq_chars(&v, name) {
                assert(self@[i as int] == name@);
                return true;
            }
            i += 1;
        }
        false
    }

    /// Adds `name`, keeping the names ascending; a name already there is not added twice.
    pub fn insert(&mut self, name: String)
        requires
            old(self).wf(),
        ensures
            final(self).wf(),
            final(self)@.to_set() == old(self)@.to_set().insert(name@),
            old(self)@.contains(name@) ==> final(self)@ == old(self)@,
    {
        let nv = crate::text::chars_of(name.as_str());
        let mut i: usize = 0;
        let mut stop = false;
        while i < self.items.len() && !stop
            invariant
                i <= self.items@.len(),
                ascending(self@),
                self@ == old(self)@,
                nv@ == name@,
                forall|k: int| 0 <= k < i ==> lex_lt(#[trigger] self@[k], name@),
                stop ==> i < self.items@.len() && lex_lt(name@, self@[i as int]),
            decreases self.items@.len() - i, if stop { 0int } else { 1int },
        {
            let v = crate::text::chars_of(self.items[i].as_str());
            assert(v@ == self@[i as int]);
            if !chars_lt(&v, &nv) {
                proof {
                    lemma_lex_total(v@, nv@);
                }
                if crate::text::eq_chars(&v, &nv) {
                    assert(self@.contains(name@));
                    assert(self@.to_set().insert(name@) =~= self@.to_set());
                    return;
                }
                stop = true;
            } else {
                i += 1;
            }
        }
        proof {
            if old(self)@.contains(name@) {
                let k = choose|k: int| 0 <= k < old(self)@.len() && old(self)@[k] == name@;
                lemma_lex_irreflexive(name@);
                if k > i {
                    assert(lex_lt(self@[i as int], self@[k]));
                    lemma_lex_transitive(name@, self@[i as int], self@[k]);
                }
            }
        }
        let ghost before = self@;
        self.items.insert(i, name);
        proof {
            assert(self@ =~= before.insert(i as int, name@));
            assert forall|a: int, b: int| 0 <= a < b < self@.len() implies lex_lt(
                #[trigger] self@[a],
                #[trigger] self@[b],
            ) by {
                if a < i && b == i {
                } else if a == i && b > i {
                    if b - 1 > i {
                        assert(lex_lt(before[i as int], before[b - 1]));
                        lemma_lex_transitive(name@, before[i as int], before[b - 1]);
                    }
                } else if a < i && b > i {
                } else {
                }
            }
            assert forall|x: Seq<char>| #[trigger] self@.to_set().contains(x) == before.to_set().insert(
                name@,
            ).contains(x) by {
                if self@.contains(x) {
                    let k = choose|k: int| 0 <= k < self@.len() && self@[k] == x;
                    if k < i {
                        assert(before[k] == x);
                    } else if k > i {
                        assert(before[k - 1] == x);
                    }
                }
                if before.contains(x) {
                    let k = choose|k: int| 0 <= k < before.len() && before[k] == x;
                    if k < i {
                        assert(self@[k] == x);
                    } else {
                        assert(self@[k + 1] == x);
                    }
                }
                if x == name@ {
                    assert(self@[i as int] == x);
                }
            }
            assert(self@.to_set() =~= before.to_set().insert(name@));
        }
    }
}

} // verus!
