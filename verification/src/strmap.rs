//! A map with text keys, kept in key order.
use vstd::prelude::*;
use crate::text::chars_of;

verus! {

/// Is `a` before `b` in the order of their characters?
pub open spec fn lex_lt(a: Seq<char>, b: Seq<char>) -> bool
    decreases a.len(),
{
    if b.len() == 0 {
        false
    } else if a.len() == 0 {
        true
    } else if a[0] != b[0] {
        a[0] < b[0]
    } else {
        lex_lt(a.drop_first(), b.drop_first())
    }
}

/// No text is before itself.
pub proof fn lemma_lex_irreflexive(a: Seq<char>)
    ensures
        !lex_lt(a, a),
    decreases a.len(),
{
    if a.len() > 0 {
        lemma_lex_irreflexive(a.drop_first());
    }
}

/// The order of texts is transitive.
pub proof fn lemma_lex_transitive(a: Seq<char>, b: Seq<char>, c: Seq<char>)
    requires
        lex_lt(a, b),
        lex_lt(b, c),
    ensures
        lex_lt(a, c),
    decreases a.len(),
{
    if a.len() > 0 && b.len() > 0 && c.len() > 0 && a[0] == b[0] && b[0] == c[0] {
        lemma_lex_transitive(a.drop_first(), b.drop_first(), c.drop_first());
    }
}

/// Of two different texts one is before the other.
pub proof fn lemma_lex_total(a: Seq<char>, b: Seq<char>)
    ensures
        lex_lt(a, b) || a == b || lex_lt(b, a),
    decreases a.len(),
{
    if a.len() > 0 && b.len() > 0 && a[0] == b[0] {
        lemma_lex_total(a.drop_first(), b.drop_first());
        if a.drop_first() == b.drop_first() {
            assert(a =~= seq![a[0]] + a.drop_first());
            assert(b =~= seq![b[0]] + b.drop_first());
        }
    } else if a.len() == 0 && b.len() == 0 {
        assert(a =~= b);
    }
}

/// Is `a` before `b` in the order of their characters?
pub fn before(a: &str, b: &str) -> (r: bool)
    ensures
        r == lex_lt(a@, b@),
{
    let x = chars_of(a);
    let y = chars_of(b);
    let mut i: usize = 0;
    proof {
        assert(x@.skip(0) =~= x@);
        assert(y@.skip(0) =~= y@);
    }
    while i < x.len() && i < y.len()
        invariant
            i <= x.len(),
            i <= y.len(),
            x@ == a@,
            y@ == b@,
            lex_lt(x@.skip(i as int), y@.skip(i as int)) == lex_lt(a@, b@),
        decreases x.len() - i,
    {
        if x[i] != y[i] {
            return x[i] < y[i];
        }
        proof {
            assert(x@.skip(i as int).drop_first() =~= x@.skip(i + 1));
            assert(y@.skip(i as int).drop_first() =~= y@.skip(i + 1));
        }
        i = i + 1;
    }
    i < y.len()
}

/// A map from texts to values. Its entries stand in strict key order, so no
/// key occurs twice.
pub struct StrMap<T> {
    pub entries: Vec<(String, T)>,
}

impl<T: View> View for StrMap<T> {
    type V = Map<Seq<char>, T::V>;

    open spec fn view(&self) -> Map<Seq<char>, T::V> {
        pairs_map(self.pairs())
    }
}

/// The map that a row of key-value pairs stands for; a later pair wins.
pub open spec fn pairs_map<U>(s: Seq<(Seq<char>, U)>) -> Map<Seq<char>, U>
    decreases s.len(),
{
    if s.len() == 0 {
        Map::empty()
    } else {
        pairs_map(s.drop_last()).insert(s.last().0, s.last().1)
    }
}

/// Keys in strict order.
pub open spec fn keys_sorted<U>(s: Seq<(Seq<char>, U)>) -> bool {
    forall|i: int, j: int| 0 <= i < j < s.len() ==> lex_lt(#[trigger] s[i].0, #[trigger] s[j].0)
}

/// In a row of pairs with distinct keys, every pair is in the map, and the
/// map has no other keys.
pub proof fn lemma_pairs_map<U>(s: Seq<(Seq<char>, U)>)
    requires
        keys_sorted(s),
    ensures
        forall|i: int|
            0 <= i < s.len() ==> pairs_map(s).contains_key(#[trigger] s[i].0) && pairs_map(s)[s[i].0]
                == s[i].1,
        forall|k: Seq<char>| #[trigger]
            pairs_map(s).contains_key(k) ==> exists|i: int| 0 <= i < s.len() && s[i].0 == k,
    decreases s.len(),
{
    if s.len() > 0 {
        let t = s.drop_last();
        lemma_pairs_map(t);
        assert forall|i: int| 0 <= i < s.len() implies pairs_map(s).contains_key(#[trigger] s[i].0)
            && pairs_map(s)[s[i].0] == s[i].1 by {
            if i < s.len() - 1 {
                assert(t[i] == s[i]);
                lemma_lex_irreflexive(s[i].0);
                assert(lex_lt(s[i].0, s[s.len() - 1].0));
            }
        }
        assert forall|k: Seq<char>| #[trigger] pairs_map(s).contains_key(k) implies exists|i: int|
            0 <= i < s.len() && s[i].0 == k by {
            if k != s.last().0 {
                assert(pairs_map(t).contains_key(k));
                let i = choose|i: int| 0 <= i < t.len() && t[i].0 == k;
                assert(s[i].0 == k);
            } else {
                assert(s[s.len() - 1].0 == k);
            }
        }
    }
}

impl<T: View> StrMap<T> {
    /// The entries as pairs of key and value, in key order.
    pub open spec fn pairs(&self) -> Seq<(Seq<char>, T::V)> {
        self.entries@.map_values(|e: (String, T)| (e.0@, e.1@))
    }

    /// Strict key order.
    pub open spec fn wf(&self) -> bool {
        keys_sorted(self.pairs())
    }

    /// The empty map.
    pub fn new() -> (r: Self)
        ensures
            r.wf(),
            r@ == Map::<Seq<char>, T::V>::empty(),
            r.pairs() == Seq::<(Seq<char>, T::V)>::empty(),
    {
        let r = StrMap { entries: Vec::new() };
        proof {
            assert(r.pairs() =~= Seq::<(Seq<char>, T::V)>::empty());
        }
        r
    }

    /// Where `key` stands, or where it would be put.
    fn slot(&self, key: &str) -> (p: usize)
        requires
            self.wf(),
        ensures
            p <= self.entries.len(),
            forall|i: int| 0 <= i < p ==> lex_lt(#[trigger] self.pairs()[i].0, key@),
            forall|i: int| p <= i < self.entries.len() ==> !lex_lt(#[trigger] self.pairs()[i].0, key@),
    {
        let mut p: usize = 0;
        while p < self.entries.len() && before(self.entries[p].0.as_str(), key)
            invariant
                p <= self.entries.len(),
                forall|i: int| 0 <= i < p ==> lex_lt(#[trigger] self.pairs()[i].0, key@),
            decreases self.entries.len() - p,
        {
            p = p + 1;
        }
        proof {
            assert forall|i: int| p <= i < self.entries.len() implies !lex_lt(
                #[trigger] self.pairs()[i].0,
                key@,
            ) by {
                if i > p && lex_lt(self.pairs()[i].0, key@) {
                    lemma_lex_transitive(self.pairs()[p as int].0, self.pairs()[i].0, key@);
                    assert(lex_lt(self.entries@[p as int].0@, key@));
                } else if i == p {
                    assert(self.pairs()[i].0 == self.entries@[p as int].0@);
                }
            }
        }
        p
    }

    /// The position of `key` among the entries.
    pub fn position(&self, key: &str) -> (r: Option<usize>)
        requires
            self.wf(),
        ensures
            match r {
                Some(i) => i < self.entries.len() && self.entries@[i as int].0@ == key@
                    && self@.contains_key(key@) && self@[key@] == self.entries@[i as int].1@,
                None => !self@.contains_key(key@),
            },
    {
        let p = self.slot(key);
        proof {
            lemma_pairs_map(self.pairs());
        }
        if p < self.entries.len() && !before(key, self.entries[p].0.as_str()) {
            proof {
                lemma_lex_total(key@, self.pairs()[p as int].0);
                assert(self.pairs()[p as int].0 == self.entries@[p as int].0@);
            }
            Some(p)
        } else {
            proof {
                if self@.contains_key(key@) {
                    let i = choose|i: int| 0 <= i < self.pairs().len() && self.pairs()[i].0 == key@;
                    lemma_lex_irreflexive(key@);
                    if i > p {
                        assert(lex_lt(self.pairs()[p as int].0, self.pairs()[i].0));
                    }
                    assert(self.pairs()[p as int].0 == self.entries@[p as int].0@);
                }
            }
            None
        }
    }

    /// The value of `key`.
    pub fn get(&self, key: &str) -> (r: Option<&T>)
        requires
            self.wf(),
        ensures
            match r {
                Some(v) => self@.contains_key(key@) && v@ == self@[key@],
                None => !self@.contains_key(key@),
            },
    {
        match self.position(key) {
            Some(i) => Some(&self.entries[i].1),
            None => None,
        }
    }

    /// Sets the value of `key`.
    pub fn insert(&mut self, key: String, value: T)
        requires
            old(self).wf(),
        ensures
            final(self).wf(),
            final(self)@ == old(self)@.insert(key@, value@),
    {
        let ghost s0 = self.pairs();
        let ghost k = key@;
        let ghost v = value@;
        let p = self.slot(key.as_str());
        let found: bool = match self.position(key.as_str()) {
            Some(i) => true,
            None => false,
        };
        proof {
            lemma_pairs_map(s0);
            if found {
                let i = choose|i: int| 0 <= i < s0.len() && s0[i].0 == k;
                lemma_lex_irreflexive(k);
                if i > p {
                    assert(lex_lt(s0[p as int].0, s0[i].0));
                }
                assert(i == p);
            }
        }
        if found {
            let _ = self.entries.remove(p);
        }
        self.entries.insert(p, (key, value));
        proof {
            let s1 = self.pairs();
            let tail = if found {
                p + 1
            } else {
                p as int
            };
            assert(s1 =~= s0.take(p as int) + seq![(k, v)] + s0.skip(tail));
            assert forall|i: int, j: int| 0 <= i < j < s1.len() implies lex_lt(
                #[trigger] s1[i].0,
                #[trigger] s1[j].0,
            ) by {
                let jj = if j > p {
                    j - 1 + (tail - p)
                } else {
                    j
                };
                let ii = if i > p {
                    i - 1 + (tail - p)
                } else {
                    i
                };
                if j == p {
                    assert(lex_lt(s0[i].0, k));
                } else if i == p {
                    assert(s1[j] == s0[jj]);
                    lemma_lex_total(k, s0[jj].0);
                    if found {
                        assert(lex_lt(s0[p as int].0, s0[jj].0));
                    }
                } else {
                    assert(s1[i] == s0[ii]);
                    assert(s1[j] == s0[jj]);
                }
            }
            lemma_pairs_map(s1);
            let m1 = pairs_map(s1);
            let m0 = pairs_map(s0).insert(k, v);
            assert forall|x: Seq<char>|
                #![trigger m1.dom().contains(x)]
                #![trigger m0.dom().contains(x)]
                m1.dom().contains(x) == m0.dom().contains(x) && (m1.dom().contains(x) ==> m1[x]
                    == m0[x]) by {
                if m1.contains_key(x) {
                    let i = choose|i: int| 0 <= i < s1.len() && s1[i].0 == x;
                    let ii = if i > p {
                        i - 1 + (tail - p)
                    } else {
                        i
                    };
                    if i != p {
                        assert(s1[i] == s0[ii]);
                        if x == k {
                            lemma_lex_irreflexive(k);
                            assert(s1[p as int].0 == k);
                            if i < p {
                                assert(lex_lt(s1[i].0, s1[p as int].0));
                            } else {
                                assert(lex_lt(s1[p as int].0, s1[i].0));
                            }
                        }
                    } else {
                        assert(s1[i] == (k, v));
                    }
                }
                if m0.contains_key(x) {
                    if x == k {
                        assert(s1[p as int] == (k, v));
                    } else {
                        let i = choose|i: int| 0 <= i < s0.len() && s0[i].0 == x;
                        if i < p {
                            assert(s1[i] == s0[i]);
                        } else {
                            assert(s1[i + 1 - (tail - p)] == s0[i]);
                        }
                    }
                }
            }
            assert(m1 =~= m0);
        }
    }

    /// Removes `key`, handing out its value.
    pub fn remove(&mut self, key: &str) -> (r: Option<T>)
        requires
            old(self).wf(),
        ensures
            final(self).wf(),
            final(self)@ == old(self)@.remove(key@),
            match r {
                Some(v) => old(self)@.contains_key(key@) && v@ == old(self)@[key@],
                None => !old(self)@.contains_key(key@),
            },
    {
        let ghost s0 = self.pairs();
        proof {
            lemma_pairs_map(s0);
        }
        match self.position(key) {
            Some(p) => {
                let e = self.entries.remove(p);
                proof {
                    let s1 = self.pairs();
                    assert(s1 =~= s0.remove(p as int));
                    assert(s0[p as int].0 == key@);
                    assert forall|i: int, j: int| 0 <= i < j < s1.len() implies lex_lt(
                        #[trigger] s1[i].0,
                        #[trigger] s1[j].0,
                    ) by {
                        let ii = if i < p {
                            i
                        } else {
                            i + 1
                        };
                        let jj = if j < p {
                            j
                        } else {
                            j + 1
                        };
                        assert(s1[i] == s0[ii] && s1[j] == s0[jj]);
                    }
                    lemma_pairs_map(s1);
                    let m1 = pairs_map(s1);
                    let m0 = pairs_map(s0).remove(key@);
                    assert forall|x: Seq<char>|
                        #![trigger m1.dom().contains(x)]
                        #![trigger m0.dom().contains(x)]
                        m1.dom().contains(x) == m0.dom().contains(x) && (m1.dom().contains(x)
                            ==> m1[x] == m0[x]) by {
                        if m1.contains_key(x) {
                            let i = choose|i: int| 0 <= i < s1.len() && s1[i].0 == x;
                            let ii = if i < p {
                                i
                            } else {
                                i + 1
                            };
                            assert(s1[i] == s0[ii]);
                            if x == key@ {
                                lemma_lex_irreflexive(x);
                                if ii < p {
                                    assert(lex_lt(s0[ii].0, s0[p as int].0));
                                } else {
                                    assert(lex_lt(s0[p as int].0, s0[ii].0));
                                }
                            }
                        }
                        if m0.contains_key(x) {
                            let i = choose|i: int| 0 <= i < s0.len() && s0[i].0 == x;
                            if i < p {
                                assert(s1[i] == s0[i]);
                            } else {
                                assert(s1[i - 1] == s0[i]);
                            }
                        }
                    }
                    assert(m1 =~= m0);
                }
                Some(e.1)
            },
            None => {
                proof {
                    assert(self@.remove(key@) =~= self@);
                }
                None
            },
        }
    }
}

} // verus!
