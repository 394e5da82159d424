//! A map keyed by names, held as a vector in ascending order of its keys, so that walking
//! it gives the same order whatever the order of insertion was.

use vstd::prelude::*;
use crate::text::{
    lemma_text_lt_irreflexive,
    lemma_text_lt_total,
    lemma_text_lt_transitive,
    precedes,
    text_lt,
};

verus! {

/// Whether the texts of `s` stand in strictly ascending order.
pub open spec fn ascending(s: Seq<Seq<char>>) -> bool {
    forall|i: int, j: int| 0 <= i < j < s.len() ==> text_lt(#[trigger] s[i], #[trigger] s[j])
}

/// In an ascending sequence no text stands twice.
pub proof fn lemma_ascending_distinct(s: Seq<Seq<char>>, i: int, j: int)
    requires
        ascending(s),
        0 <= i < s.len(),
        0 <= j < s.len(),
        s[i] == s[j],
    ensures
        i == j,
{
    lemma_text_lt_irreflexive(s[i]);
    if i < j {
        assert(text_lt(s[i], s[j]));
    } else if j < i {
        assert(text_lt(s[j], s[i]));
    }
}

/// In an ascending sequence each text is found at its own position.
pub proof fn lemma_ascending_index_of(s: Seq<Seq<char>>, i: int)
    requires
        ascending(s),
        0 <= i < s.len(),
    ensures
        s.contains(s[i]),
        s.index_of(s[i]) == i,
{
    assert(s.contains(s[i]));
    let j = s.index_of(s[i]);
    lemma_ascending_distinct(s, i, j);
}

/// An ascending sequence is determined by the texts that it holds.
pub proof fn lemma_ascending_unique(a: Seq<Seq<char>>, b: Seq<Seq<char>>)
    requires
        ascending(a),
        ascending(b),
        a.to_set() == b.to_set(),
    ensures
        a == b,
    decreases a.len(),
{
    if a.len() == 0 || b.len() == 0 {
        if a.len() > 0 {
            assert(a.contains(a[0]));
            assert(b.to_set().contains(a[0]));
        }
        if b.len() > 0 {
            assert(b.contains(b[0]));
            assert(a.to_set().contains(b[0]));
        }
        assert(a =~= b);
    } else {
        let x = a.last();
        let y = b.last();
        assert(a.contains(x));
        assert(b.to_set().contains(x));
        let j = b.index_of(x);
        assert(b.contains(y));
        assert(a.to_set().contains(y));
        let i = a.index_of(y);
        if j < b.len() - 1 {
            assert(text_lt(b[j], b[b.len() - 1]));
            if i < a.len() - 1 {
                assert(text_lt(a[i], a[a.len() - 1]));
                lemma_text_lt_transitive(x, y, x);
            }
            lemma_text_lt_irreflexive(x);
        }
        assert(x == y);
        let a2 = a.drop_last();
        let b2 = b.drop_last();
        assert forall|p: int, q: int| 0 <= p < q < a2.len() implies text_lt(
            #[trigger] a2[p],
            #[trigger] a2[q],
        ) by {
            assert(text_lt(a[p], a[q]));
        }
        assert forall|p: int, q: int| 0 <= p < q < b2.len() implies text_lt(
            #[trigger] b2[p],
            #[trigger] b2[q],
        ) by {
            assert(text_lt(b[p], b[q]));
        }
        assert forall|t: Seq<char>| a2.to_set().contains(t) <==> b2.to_set().contains(t) by {
            if a2.contains(t) {
                let p = a2.index_of(t);
                assert(a[p] == t);
                assert(a.contains(t));
                lemma_ascending_distinct_from_last(a, p);
                assert(b.to_set().contains(t));
                let q = b.index_of(t);
                assert(b2[q] == t);
            }
            if b2.contains(t) {
                let p = b2.index_of(t);
                assert(b[p] == t);
                assert(b.contains(t));
                lemma_ascending_distinct_from_last(b, p);
                assert(a.to_set().contains(t));
                let q = a.index_of(t);
                assert(a2[q] == t);
            }
        }
        assert(a2.to_set() =~= b2.to_set());
        lemma_ascending_unique(a2, b2);
        assert(a =~= a2.push(x));
        assert(b =~= b2.push(y));
    }
}

/// In an ascending sequence the texts before the last differ from the last.
proof fn lemma_ascending_distinct_from_last(s: Seq<Seq<char>>, p: int)
    requires
        ascending(s),
        0 <= p < s.len() - 1,
    ensures
        s[p] != s.last(),
{
    if s[p] == s.last() {
        lemma_ascending_distinct(s, p, s.len() - 1);
    }
}

/// A map from names to values of type `V`.
pub struct NameMap<V> {
    keys: Vec<String>,
    values: Vec<V>,
}

impl<V> NameMap<V> {
    /// The keys, in ascending order.
    pub closed spec fn keys(&self) -> Seq<Seq<char>> {
        Seq::new(self.keys@.len(), |i: int| self.keys@[i]@)
    }

    /// The values, each at the position of its key.
    pub closed spec fn values(&self) -> Seq<V> {
        self.values@
    }

    /// Every key has its value, and the keys ascend.
    pub open spec fn wf(&self) -> bool {
        &&& self.keys().len() == self.values().len()
        &&& ascending(self.keys())
    }

    /// The mapping that this map stands for.
    pub open spec fn map(&self) -> Map<Seq<char>, V> {
        Map::new(
            |k: Seq<char>| self.keys().contains(k),
            |k: Seq<char>| self.values()[self.keys().index_of(k)],
        )
    }

    /// The key at each position is mapped to the value at that position.
    pub proof fn lemma_entry(&self, i: int)
        requires
            self.wf(),
            0 <= i < self.keys().len(),
        ensures
            self.map().contains_key(self.keys()[i]),
            self.map()[self.keys()[i]] == self.values()[i],
    {
        lemma_ascending_index_of(self.keys(), i);
    }

    /// A map without entries.
    pub fn new() -> (m: Self)
        ensures
            m.wf(),
            m.keys() == Seq::<Seq<char>>::empty(),
            m.map() == Map::<Seq<char>, V>::empty(),
    {
        let m = NameMap { keys: Vec::new(), values: Vec::new() };
        assert(m.keys() =~= Seq::<Seq<char>>::empty());
        assert(m.map() =~= Map::<Seq<char>, V>::empty());
        m
    }

    /// The number of entries.
    pub fn len(&self) -> (n: usize)
        ensures
            n == self.keys().len(),
    {
        self.keys.len()
    }

    /// The key at position `i`.
    pub fn key(&self, i: usize) -> (k: &String)
        requires
            i < self.keys().len(),
        ensures
            k@ == self.keys()[i as int],
    {
        &self.keys[i]
    }

    /// The value at position `i`.
    pub fn value(&self, i: usize) -> (v: &V)
        requires
            self.wf(),
            i < self.keys().len(),
        ensures
            *v == self.values()[i as int],
            *v == self.map()[self.keys()[i as int]],
    {
        proof {
            self.lemma_entry(i as int);
        }
        &self.values[i]
    }

    /// The position of `key`, if the map holds it.
    pub fn position(&self, key: &str) -> (r: Option<usize>)
        requires
            self.wf(),
        ensures
            match r {
                Some(i) => i < self.keys().len() && self.keys()[i as int] == key@,
                None => !self.keys().contains(key@),
            },
            r is Some <==> self.map().contains_key(key@),
    {
        let wanted = key.to_owned();
        let mut i: usize = 0;
        while i < self.keys.len()
            invariant
                i <= self.keys.len(),
                wanted@ == key@,
                forall|j: int| 0 <= j < i ==> self.keys()[j] != key@,
            decreases self.keys.len() - i,
        {
            if self.keys[i] == wanted {
                assert(self.keys()[i as int] == key@);
                return Some(i);
            }
            i += 1;
        }
        None
    }

    /// The value that `key` is mapped to, if any.
    pub fn get(&self, key: &str) -> (r: Option<&V>)
        requires
            self.wf(),
        ensures
            match r {
                Some(v) => self.map().contains_key(key@) && *v == self.map()[key@],
                None => !self.map().contains_key(key@),
            },
    {
        match self.position(key) {
            Some(i) => Some(self.value(i)),
            None => None,
        }
    }

    /// Maps `key` to `value`, in place of what it was mapped to before, if anything.
    pub fn insert(&mut self, key: String, value: V)
        requires
            old(self).wf(),
        ensures
            final(self).wf(),
            final(self).map() == old(self).map().insert(key@, value),
    {
        let ghost before = *self;
        let mut p: usize = 0;
        while p < self.keys.len() && precedes(self.keys[p].as_str(), key.as_str())
            invariant
                *self == before,
                p <= self.keys.len(),
                forall|j: int| 0 <= j < p ==> text_lt(#[trigger] self.keys()[j], key@),
            decreases self.keys.len() - p,
        {
            p += 1;
        }
        let ghost ks = before.keys();
        if p < self.keys.len() && self.keys[p] == key {
            self.values.set(p, value);
            proof {
                assert(self.keys() =~= ks);
                assert(ks[p as int] == key@);
                assert(ks.contains(key@));
                assert forall|k: Seq<char>| #[trigger]
                    self.map().contains_key(k) implies self.map()[k] == before.map().insert(
                    key@,
                    value,
                )[k] by {
                    let i = self.keys().index_of(k);
                    if k == key@ {
                        lemma_ascending_distinct(ks, i, p as int);
                    }
                }
                assert(self.map() =~= before.map().insert(key@, value));
            }
        } else {
            self.keys.insert(p, key);
            self.values.insert(p, value);
            proof {
                let ns = self.keys();
                assert(ns.len() == ks.len() + 1);
                assert(forall|j: int| 0 <= j < p ==> ns[j] == ks[j]);
                assert(ns[p as int] == key@);
                assert(forall|j: int| p < j < ns.len() ==> ns[j] == ks[j - 1]);
                if (p as int) < ks.len() {
                    lemma_text_lt_total(ks[p as int], key@);
                    assert(text_lt(key@, ks[p as int]));
                    assert forall|j: int| p < j < ks.len() implies text_lt(key@, ks[j]) by {
                        assert(text_lt(ks[p as int], ks[j]));
                        lemma_text_lt_transitive(key@, ks[p as int], ks[j]);
                    }
                }
                assert forall|i: int, j: int| 0 <= i < j < ns.len() implies text_lt(
                    #[trigger] ns[i],
                    #[trigger] ns[j],
                ) by {
                    if j < p {
                        assert(text_lt(ks[i], ks[j]));
                    } else if j == p {
                        assert(text_lt(ks[i], key@));
                    } else if i < p {
                        assert(text_lt(ks[i], ks[j - 1]));
                    } else if i == p {
                        assert(text_lt(key@, ks[j - 1]));
                    } else {
                        assert(text_lt(ks[i - 1], ks[j - 1]));
                    }
                }
                assert(!ks.contains(key@)) by {
                    if ks.contains(key@) {
                        let i = ks.index_of(key@);
                        lemma_text_lt_irreflexive(key@);
                        if i < p {
                            assert(text_lt(ks[i], key@));
                        } else if i == p {
                        } else {
                            assert(text_lt(key@, ks[i]));
                        }
                    }
                }
                let goal = before.map().insert(key@, value);
                assert forall|k: Seq<char>| self.map().contains_key(k) <==> goal.contains_key(
                    k,
                ) by {
                    if ns.contains(k) {
                        let i = ns.index_of(k);
                        if i < p {
                            assert(ks[i] == k);
                        } else if i > p {
                            assert(ks[i - 1] == k);
                        }
                    }
                    if ks.contains(k) {
                        let i = ks.index_of(k);
                        if i < p {
                            assert(ns[i] == k);
                        } else {
                            assert(ns[i + 1] == k);
                        }
                    }
                    if k == key@ {
                        assert(ns[p as int] == k);
                    }
                }
                assert forall|k: Seq<char>| #[trigger]
                    self.map().contains_key(k) implies self.map()[k] == goal[k] by {
                    let i = ns.index_of(k);
                    if i < p {
                        lemma_ascending_index_of(ks, i);
                    } else if i == p {
                    } else {
                        lemma_ascending_index_of(ks, i - 1);
                    }
                }
                assert(self.map() =~= goal);
            }
        }
    }

    /// Takes the entry of `key` out of the map and returns its value, if there is one.
    pub fn remove(&mut self, key: &str) -> (r: Option<V>)
        requires
            old(self).wf(),
        ensures
            final(self).wf(),
            final(self).map() == old(self).map().remove(key@),
            match r {
                Some(v) => old(self).map().contains_key(key@) && v == old(self).map()[key@],
                None => !old(self).map().contains_key(key@),
            },
    {
        let ghost before = *self;
        let ghost ks = before.keys();
        match self.position(key) {
            None => {
                assert(self.map() =~= before.map().remove(key@));
                None
            },
            Some(p) => {
                proof {
                    before.lemma_entry(p as int);
                }
                let _ = self.keys.remove(p);
                let v = self.values.remove(p);
                proof {
                    let ns = self.keys();
                    assert(ns.len() == ks.len() - 1);
                    assert(forall|j: int| 0 <= j < p ==> ns[j] == ks[j]);
                    assert(forall|j: int| p <= j < ns.len() ==> ns[j] == ks[j + 1]);
                    assert forall|i: int, j: int| 0 <= i < j < ns.len() implies text_lt(
                        #[trigger] ns[i],
                        #[trigger] ns[j],
                    ) by {
                        let a = if i < p { i } else { i + 1 };
                        let b = if j < p { j } else { j + 1 };
                        assert(text_lt(ks[a], ks[b]));
                    }
                    let goal = before.map().remove(key@);
                    assert forall|k: Seq<char>| self.map().contains_key(k) <==> goal.contains_key(
                        k,
                    ) by {
                        if ns.contains(k) {
                            let i = ns.index_of(k);
                            let a = if i < p { i } else { i + 1 };
                            assert(ks[a] == k);
                            if k == key@ {
                                lemma_ascending_distinct(ks, a, p as int);
                            }
                        }
                        if ks.contains(k) && k != key@ {
                            let a = ks.index_of(k);
                            if a < p {
                                assert(ns[a] == k);
                            } else {
                                assert(ns[a - 1] == k);
                            }
                        }
                    }
                    assert forall|k: Seq<char>| #[trigger]
                        self.map().contains_key(k) implies self.map()[k] == goal[k] by {
                        let i = ns.index_of(k);
                        let a = if i < p { i } else { i + 1 };
                        lemma_ascending_index_of(ks, a);
                    }
                    assert(self.map() =~= goal);
                }
                Some(v)
            },
        }
    }
}

} // verus!
