//! A set of names that is walked in ascending order.

use vstd::prelude::*;
use crate::name_map::{ascending, lemma_ascending_distinct, lemma_ascending_unique, NameMap};
use crate::text::lemma_prefix_grows;

verus! {

/// A set of names.
pub struct NameSet {
    inner: NameMap<()>,
}

impl View for NameSet {
    type V = Set<Seq<char>>;

    /// The names that the set holds.
    open spec fn view(&self) -> Set<Seq<char>> {
        self.names().to_set()
    }
}

impl NameSet {
    /// The names of the set, in ascending order.
    pub closed spec fn names(&self) -> Seq<Seq<char>> {
        self.inner.keys()
    }

    /// The names ascend, so that none stands twice.
    pub closed spec fn wf(&self) -> bool {
        self.inner.wf()
    }

    /// The names of a well-formed set ascend.
    pub proof fn lemma_ascending(&self)
        requires
            self.wf(),
        ensures
            ascending(self.names()),
    {
    }

    /// The order in which a set is walked is determined by the names that it holds.
    pub proof fn lemma_names_unique(&self, other: &NameSet)
        requires
            self.wf(),
            other.wf(),
            self@ == other@,
        ensures
            self.names() == other.names(),
    {
        lemma_ascending_unique(self.names(), other.names());
    }

    /// A set with two names or more holds two different names, and the other way round.
    pub proof fn lemma_several(&self)
        requires
            self.wf(),
        ensures
            self.names().len() > 1 <==> several(self@),
    {
        let s = self.names();
        if s.len() > 1 {
            lemma_ascending_distinct_pair(s);
            assert(s.contains(s[0]));
            assert(s.contains(s[1]));
            assert(self@.contains(s[0]) && self@.contains(s[1]) && s[0] != s[1]);
        }
        if several(self@) {
            let (a, b) = choose|a: Seq<char>, b: Seq<char>|
                a != b && self@.contains(a) && self@.contains(b);
            let i = s.index_of(a);
            let j = s.index_of(b);
            assert(i != j);
        }
    }

    /// The empty set.
    pub fn new() -> (s: Self)
        ensures
            s.wf(),
            s@ == Set::<Seq<char>>::empty(),
            s.names() == Seq::<Seq<char>>::empty(),
    {
        let s = NameSet { inner: NameMap::new() };
        assert(s@ =~= Set::<Seq<char>>::empty());
        s
    }

    /// The number of names.
    pub fn len(&self) -> (n: usize)
        ensures
            n == self.names().len(),
    {
        self.inner.len()
    }

    /// Whether the set holds no name.
    pub fn is_empty(&self) -> (r: bool)
        ensures
            r == (self.names().len() == 0),
            r == (self@ == Set::<Seq<char>>::empty()),
    {
        let r = self.inner.len() == 0;
        proof {
            if r {
                assert(self@ =~= Set::<Seq<char>>::empty());
            } else {
                assert(self.names().contains(self.names()[0]));
                assert(self@.contains(self.names()[0]));
            }
        }
        r
    }

    /// The name at position `i` of the ascending order.
    pub fn name(&self, i: usize) -> (n: &String)
        requires
            i < self.names().len(),
        ensures
            n@ == self.names()[i as int],
            self@.contains(n@),
    {
        assert(self.names().contains(self.names()[i as int]));
        self.inner.key(i)
    }

    /// Whether the set holds `name`.
    pub fn contains(&self, name: &str) -> (r: bool)
        requires
            self.wf(),
        ensures
            r == self@.contains(name@),
    {
        self.inner.position(name).is_some()
    }

    /// Adds `name` to the set.
    pub fn insert(&mut self, name: String)
        requires
            old(self).wf(),
        ensures
            final(self).wf(),
            final(self)@ == old(self)@.insert(name@),
    {
        let ghost before = *self;
        self.inner.insert(name, ());
        proof {
            assert forall|k: Seq<char>| self@.contains(k) <==> before@.insert(name@).contains(
                k,
            ) by {
                assert(self.inner.map().contains_key(k) <==> before.inner.map().insert(
                    name@,
                    (),
                ).contains_key(k));
            }
            assert(self@ =~= before@.insert(name@));
        }
    }

    /// Adds every name of `other` to the set.
    pub fn insert_all(&mut self, other: &NameSet)
        requires
            old(self).wf(),
        ensures
            final(self).wf(),
            final(self)@ == old(self)@.union(other@),
    {
        let ghost before = *self;
        let ghost all = other.names();
        let mut i: usize = 0;
        while i < other.len()
            invariant
                self.wf(),
                all == other.names(),
                i <= all.len(),
                self@ == before@.union(all.take(i as int).to_set()),
            decreases all.len() - i,
        {
            self.insert(other.name(i).clone());
            proof {
                lemma_prefix_grows(all, i as int);
                assert(self@ =~= before@.union(all.take(i + 1).to_set()));
            }
            i += 1;
        }
        proof {
            assert(all.take(i as int) =~= all);
            assert(self@ =~= before@.union(other@));
        }
    }
}

/// Whether a set holds two different names.
pub open spec fn several(s: Set<Seq<char>>) -> bool {
    exists|a: Seq<char>, b: Seq<char>| a != b && s.contains(a) && s.contains(b)
}

/// The first two texts of an ascending sequence differ.
proof fn lemma_ascending_distinct_pair(s: Seq<Seq<char>>)
    requires
        ascending(s),
        s.len() > 1,
    ensures
        s[0] != s[1],
{
    if s[0] == s[1] {
        lemma_ascending_distinct(s, 0, 1);
    }
}

} // verus!
