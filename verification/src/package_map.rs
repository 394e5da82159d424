//! A map keyed by package identifiers, held as a vector in ascending order of its keys.

use vstd::prelude::*;
use crate::model::PackageId;

verus! {

/// Whether the identifiers of `s` stand in strictly ascending order.
pub open spec fn ascending_ids(s: Seq<PackageId>) -> bool {
    forall|i: int, j: int| 0 <= i < j < s.len() ==> (#[trigger] s[i]).0 < (#[trigger] s[j]).0
}

/// In an ascending sequence each identifier is found at its own position.
pub proof fn lemma_ascending_ids_index_of(s: Seq<PackageId>, i: int)
    requires
        ascending_ids(s),
        0 <= i < s.len(),
    ensures
        s.contains(s[i]),
        s.index_of(s[i]) == i,
{
    assert(s.contains(s[i]));
    let j = s.index_of(s[i]);
    if i < j {
        assert(s[i].0 < s[j].0);
    } else if j < i {
        assert(s[j].0 < s[i].0);
    }
}

/// An ascending sequence is determined by the identifiers that it holds.
pub proof fn lemma_ascending_ids_unique(a: Seq<PackageId>, b: Seq<PackageId>)
    requires
        ascending_ids(a),
        ascending_ids(b),
        a.to_set() == b.to_set(),
    ensures
        a == b,
    decreases a.len(),
{
    if a.len() == 0 || b.len() == 0 {
        if a.len() > 0 {
            assert(a.contains(a[0]));
            assert(b.to_set().contains(a[0]));
        }
        if b.len() > 0 {
            assert(b.contains(b[0]));
            assert(a.to_set().contains(b[0]));
        }
        assert(a =~= b);
    } else {
        let x = a.last();
        let y = b.last();
        assert(a.contains(x));
        assert(b.to_set().contains(x));
        let j = b.index_of(x);
        assert(b.contains(y));
        assert(a.to_set().contains(y));
        let i = a.index_of(y);
        if j < b.len() - 1 {
            assert(b[j].0 < b[b.len() - 1].0);
            if i < a.len() - 1 {
                assert(a[i].0 < a[a.len() - 1].0);
            }
        }
        assert(x == y);
        let a2 = a.drop_last();
        let b2 = b.drop_last();
        assert forall|p: int, q: int| 0 <= p < q < a2.len() implies (#[trigger] a2[p]).0 < (
        #[trigger] a2[q]).0 by {
            assert(a[p].0 < a[q].0);
        }
        assert forall|p: int, q: int| 0 <= p < q < b2.len() implies (#[trigger] b2[p]).0 < (
        #[trigger] b2[q]).0 by {
            assert(b[p].0 < b[q].0);
        }
        assert forall|t: PackageId| a2.to_set().contains(t) <==> b2.to_set().contains(t) by {
            if a2.contains(t) {
                let p = a2.index_of(t);
                assert(a[p] == t);
                assert(a.contains(t));
                assert(a[p].0 < a[a.len() - 1].0);
                assert(b.to_set().contains(t));
                let q = b.index_of(t);
                assert(b2[q] == t);
            }
            if b2.contains(t) {
                let p = b2.index_of(t);
                assert(b[p] == t);
                assert(b.contains(t));
                assert(b[p].0 < b[b.len() - 1].0);
                assert(a.to_set().contains(t));
                let q = a.index_of(t);
                assert(a2[q] == t);
            }
        }
        assert(a2.to_set() =~= b2.to_set());
        lemma_ascending_ids_unique(a2, b2);
        assert(a =~= a2.push(x));
        assert(b =~= b2.push(y));
    }
}

/// A map from packages to values of type `V`.
pub struct PackageMap<V> {
    ids: Vec<PackageId>,
    values: Vec<V>,
}

impl<V> PackageMap<V> {
    /// The keys, in ascending order.
    pub closed spec fn ids(&self) -> Seq<PackageId> {
        self.ids@
    }

    /// The values, each at the position of its key.
    pub closed spec fn values(&self) -> Seq<V> {
        self.values@
    }

    /// Every key has its value, and the keys ascend.
    pub open spec fn wf(&self) -> bool {
        &&& self.ids().len() == self.values().len()
        &&& ascending_ids(self.ids())
    }

    /// The mapping that this map stands for.
    pub open spec fn map(&self) -> Map<PackageId, V> {
        Map::new(
            |k: PackageId| self.ids().contains(k),
            |k: PackageId| self.values()[self.ids().index_of(k)],
        )
    }

    /// The key at each position is mapped to the value at that position.
    pub proof fn lemma_entry(&self, i: int)
        requires
            self.wf(),
            0 <= i < self.ids().len(),
        ensures
            self.map().contains_key(self.ids()[i]),
            self.map()[self.ids()[i]] == self.values()[i],
    {
        lemma_ascending_ids_index_of(self.ids(), i);
    }

    /// A map without entries.
    pub fn new() -> (m: Self)
        ensures
            m.wf(),
            m.ids() == Seq::<PackageId>::empty(),
            m.map() == Map::<PackageId, V>::empty(),
    {
        let m = PackageMap { ids: Vec::new(), values: Vec::new() };
        assert(m.map() =~= Map::<PackageId, V>::empty());
        m
    }

    /// The number of entries.
    pub fn len(&self) -> (n: usize)
        ensures
            n == self.ids().len(),
    {
        self.ids.len()
    }

    /// The key at position `i`.
    pub fn id(&self, i: usize) -> (k: PackageId)
        requires
            i < self.ids().len(),
        ensures
            k == self.ids()[i as int],
    {
        self.ids[i]
    }

    /// The value at position `i`.
    pub fn value(&self, i: usize) -> (v: &V)
        requires
            self.wf(),
            i < self.ids().len(),
        ensures
            *v == self.values()[i as int],
            *v == self.map()[self.ids()[i as int]],
    {
        proof {
            self.lemma_entry(i as int);
        }
        &self.values[i]
    }

    /// The position of `id`, if the map holds it.
    pub fn position(&self, id: PackageId) -> (r: Option<usize>)
        requires
            self.wf(),
        ensures
            match r {
                Some(i) => i < self.ids().len() && self.ids()[i as int] == id,
                None => !self.ids().contains(id),
            },
            r is Some <==> self.map().contains_key(id),
    {
        let mut i: usize = 0;
        while i < self.ids.len()
            invariant
                i <= self.ids.len(),
                forall|j: int| 0 <= j < i ==> self.ids()[j] != id,
            decreases self.ids.len() - i,
        {
            if self.ids[i].0 == id.0 {
                return Some(i);
            }
            i += 1;
        }
        None
    }

    /// The value that `id` is mapped to, if any.
    pub fn get(&self, id: PackageId) -> (r: Option<&V>)
        requires
            self.wf(),
        ensures
            match r {
                Some(v) => self.map().contains_key(id) && *v == self.map()[id],
                None => !self.map().contains_key(id),
            },
    {
        match self.position(id) {
            Some(i) => Some(self.value(i)),
            None => None,
        }
    }

    /// Maps `id` to `value`, in place of what it was mapped to before, if anything.
    pub fn insert(&mut self, id: PackageId, value: V)
        requires
            old(self).wf(),
        ensures
            final(self).wf(),
            final(self).map() == old(self).map().insert(id, value),
    {
        let ghost before = *self;
        let mut p: usize = 0;
        while p < self.ids.len() && self.ids[p].0 < id.0
            invariant
                *self == before,
                p <= self.ids.len(),
                forall|j: int| 0 <= j < p ==> (#[trigger] self.ids()[j]).0 < id.0,
            decreases self.ids.len() - p,
        {
            p += 1;
        }
        let ghost ks = before.ids();
        if p < self.ids.len() && self.ids[p].0 == id.0 {
            self.values.set(p, value);
            proof {
                assert(ks[p as int] == id);
                assert(ks.contains(id));
                assert forall|k: PackageId| #[trigger]
                    self.map().contains_key(k) implies self.map()[k] == before.map().insert(
                    id,
                    value,
                )[k] by {
                    let i = self.ids().index_of(k);
                    if k == id {
                        lemma_ascending_ids_index_of(ks, p as int);
                    }
                }
                assert(self.map() =~= before.map().insert(id, value));
            }
        } else {
            self.ids.insert(p, id);
            self.values.insert(p, value);
            proof {
                let ns = self.ids();
                assert(ns.len() == ks.len() + 1);
                assert(forall|j: int| 0 <= j < p ==> ns[j] == ks[j]);
                assert(ns[p as int] == id);
                assert(forall|j: int| p < j < ns.len() ==> ns[j] == ks[j - 1]);
                assert forall|j: int| p <= j < ks.len() implies id.0 < (#[trigger] ks[j]).0 by {
                    if j > p {
                        assert(ks[p as int].0 < ks[j].0);
                    }
                }
                assert forall|i: int, j: int| 0 <= i < j < ns.len() implies (#[trigger] ns[i]).0
                    < (#[trigger] ns[j]).0 by {
                    if j < p {
                        assert(ks[i].0 < ks[j].0);
                    } else if j == p {
                        assert(ks[i].0 < id.0);
                    } else if i < p {
                        assert(ks[i].0 < ks[j - 1].0);
                    } else if i == p {
                        assert(id.0 < ks[j - 1].0);
                    } else {
                        assert(ks[i - 1].0 < ks[j - 1].0);
                    }
                }
                assert(!ks.contains(id)) by {
                    if ks.contains(id) {
                        let i = ks.index_of(id);
                        if i < p {
                            assert(ks[i].0 < id.0);
                        } else {
                            assert(id.0 < ks[i].0);
                        }
                    }
                }
                let goal = before.map().insert(id, value);
                assert forall|k: PackageId| self.map().contains_key(k) <==> goal.contains_key(
                    k,
                ) by {
                    if ns.contains(k) {
                        let i = ns.index_of(k);
                        if i < p {
                            assert(ks[i] == k);
                        } else if i > p {
                            assert(ks[i - 1] == k);
                        }
                    }
                    if ks.contains(k) {
                        let i = ks.index_of(k);
                        if i < p {
                            assert(ns[i] == k);
                        } else {
                            assert(ns[i + 1] == k);
                        }
                    }
                    if k == id {
                        assert(ns[p as int] == k);
                    }
                }
                assert forall|k: PackageId| #[trigger]
                    self.map().contains_key(k) implies self.map()[k] == goal[k] by {
                    let i = ns.index_of(k);
                    if i < p {
                        lemma_ascending_ids_index_of(ks, i);
                    } else if i == p {
                    } else {
                        lemma_ascending_ids_index_of(ks, i - 1);
                    }
                }
                assert(self.map() =~= goal);
            }
        }
    }

    /// Takes the entry of `id` out of the map and returns its value, if there is one.
    pub fn remove(&mut self, id: PackageId) -> (r: Option<V>)
        requires
            old(self).wf(),
        ensures
            final(self).wf(),
            final(self).map() == old(self).map().remove(id),
            match r {
                Some(v) => old(self).map().contains_key(id) && v == old(self).map()[id],
                None => !old(self).map().contains_key(id),
            },
    {
        let ghost before = *self;
        let ghost ks = before.ids();
        match self.position(id) {
            None => {
                assert(self.map() =~= before.map().remove(id));
                None
            },
            Some(p) => {
                proof {
                    before.lemma_entry(p as int);
                }
                let _ = self.ids.remove(p);
                let v = self.values.remove(p);
                proof {
                    let ns = self.ids();
                    assert(ns.len() == ks.len() - 1);
                    assert(forall|j: int| 0 <= j < p ==> ns[j] == ks[j]);
                    assert(forall|j: int| p <= j < ns.len() ==> ns[j] == ks[j + 1]);
                    assert forall|i: int, j: int| 0 <= i < j < ns.len() implies (
                    #[trigger] ns[i]).0 < (#[trigger] ns[j]).0 by {
                        let a = if i < p { i } else { i + 1 };
                        let b = if j < p { j } else { j + 1 };
                        assert(ks[a].0 < ks[b].0);
                    }
                    let goal = before.map().remove(id);
                    assert forall|k: PackageId| self.map().contains_key(k) <==> goal.contains_key(
                        k,
                    ) by {
                        if ns.contains(k) {
                            let i = ns.index_of(k);
                            let a = if i < p { i } else { i + 1 };
                            assert(ks[a] == k);
                            if k == id {
                                lemma_ascending_ids_index_of(ks, a);
                                lemma_ascending_ids_index_of(ks, p as int);
                            }
                        }
                        if ks.contains(k) && k != id {
                            let a = ks.index_of(k);
                            if a < p {
                                assert(ns[a] == k);
                            } else {
                                assert(ns[a - 1] == k);
                            }
                        }
                    }
                    assert forall|k: PackageId| #[trigger]
                        self.map().contains_key(k) implies self.map()[k] == goal[k] by {
                        let i = ns.index_of(k);
                        let a = if i < p { i } else { i + 1 };
                        lemma_ascending_ids_index_of(ks, a);
                    }
                    assert(self.map() =~= goal);
                }
                Some(v)
            },
        }
    }
}

} // verus!
