//! A small association table keyed by node id, viewed as a `Map<u64, V>`.
//!
//! The leader keeps one such table per class of peers (voters, non-voters,
//! replication metrics). Keys are kept duplicate-free, and the table offers
//! positional access so that callers can walk all entries with verified
//! loops.

use vstd::prelude::*;

verus! {

/// The map described by an association list, later entries taking precedence.
pub open spec fn assoc_map<V>(s: Seq<(u64, V)>) -> Map<u64, V>
    decreases s.len(),
{
    if s.len() == 0 {
        Map::empty()
    } else {
        assoc_map(s.drop_last()).insert(s.last().0, s.last().1)
    }
}

/// No key occurs twice.
pub open spec fn distinct_keys<V>(s: Seq<(u64, V)>) -> bool {
    forall|i: int, j: int| 0 <= i < j < s.len() ==> (#[trigger] s[i]).0 != (#[trigger] s[j]).0
}

proof fn lemma_assoc_map_contains<V>(s: Seq<(u64, V)>, k: u64)
    ensures
        assoc_map(s).contains_key(k) <==> exists|i: int|
            0 <= i < s.len() && (#[trigger] s[i]).0 == k,
    decreases s.len(),
{
    if s.len() > 0 {
        lemma_assoc_map_contains(s.drop_last(), k);
        if s.last().0 == k {
            assert((s[s.len() - 1]).0 == k);
        } else {
            assert(forall|i: int| 0 <= i < s.len() - 1 ==> s.drop_last()[i] == #[trigger] s[i]);
        }
    }
}

proof fn lemma_assoc_map_index<V>(s: Seq<(u64, V)>, i: int)
    requires
        distinct_keys(s),
        0 <= i < s.len(),
    ensures
        assoc_map(s).contains_key(s[i].0),
        assoc_map(s)[s[i].0] == s[i].1,
    decreases s.len(),
{
    if i < s.len() - 1 {
        assert(forall|a: int| 0 <= a < s.len() - 1 ==> s.drop_last()[a] == #[trigger] s[a]);
        assert(distinct_keys(s.drop_last()));
        lemma_assoc_map_index(s.drop_last(), i);
        assert(s[i].0 != s.last().0);
    }
}

proof fn lemma_assoc_map_remove<V>(s: Seq<(u64, V)>, i: int)
    requires
        distinct_keys(s),
        0 <= i < s.len(),
    ensures
        assoc_map(s.remove(i)) =~= assoc_map(s).remove(s[i].0),
    decreases s.len(),
{
    assert(forall|a: int| 0 <= a < s.len() - 1 ==> s.drop_last()[a] == #[trigger] s[a]);
    assert(distinct_keys(s.drop_last()));
    if i == s.len() - 1 {
        assert(s.remove(i) =~= s.drop_last());
        lemma_assoc_map_contains(s.drop_last(), s[i].0);
        assert(!assoc_map(s.drop_last()).contains_key(s[i].0));
        assert(assoc_map(s.drop_last()).insert(s[i].0, s[i].1).remove(s[i].0) =~= assoc_map(
            s.drop_last(),
        ));
    } else {
        assert(s.remove(i).drop_last() =~= s.drop_last().remove(i));
        assert(s.remove(i).last() == s.last());
        lemma_assoc_map_remove(s.drop_last(), i);
        assert(s.drop_last()[i] == s[i]);
        assert(s[i].0 != s.last().0);
        assert(assoc_map(s.remove(i)) =~= assoc_map(s.drop_last()).remove(s[i].0).insert(
            s.last().0,
            s.last().1,
        ));
    }
}

/// Per-node records, keyed by node id, with no key held twice.
pub struct NodeTable<V> {
    entries: Vec<(u64, V)>,
}

impl<V> View for NodeTable<V> {
    type V = Map<u64, V>;

    closed spec fn view(&self) -> Map<u64, V> {
        assoc_map(self.entries@)
    }
}

impl<V> NodeTable<V> {
    /// The node ids present, in the table's own walking order.
    pub closed spec fn key_list(&self) -> Seq<u64> {
        self.entries@.map_values(|e: (u64, V)| e.0)
    }

    /// No node id is held twice. Holds of every table; exported through
    /// `use_type_invariant`.
    #[verifier::type_invariant]
    pub open spec fn wf(self) -> bool {
        forall|i: int, j: int|
            0 <= i < j < self.key_list().len() ==> self.key_list()[i] != self.key_list()[j]
    }

    proof fn lemma_wf_distinct(&self)
        requires
            self.wf(),
        ensures
            distinct_keys(self.entries@),
    {
        assert(forall|i: int|
            0 <= i < self.entries@.len() ==> self.key_list()[i] == (#[trigger] self.entries@[i]).0);
    }

    /// Every key of the map view is on the key list exactly once, and the
    /// other way round.
    pub proof fn lemma_keys(&self)
        requires
            self.wf(),
        ensures
            forall|k: u64| self@.contains_key(k) <==> self.key_list().contains(k),
            self@.dom().finite(),
    {
        self.lemma_wf_distinct();
        assert forall|k: u64| self@.contains_key(k) <==> self.key_list().contains(k) by {
            lemma_assoc_map_contains(self.entries@, k);
            if self@.contains_key(k) {
                let i = choose|i: int| 0 <= i < self.entries@.len() && (#[trigger] self.entries@[i]).0 == k;
                assert(self.key_list()[i] == k);
                assert(self.key_list().contains(k));
            }
            if self.key_list().contains(k) {
                let i = choose|i: int|
                    0 <= i < self.key_list().len() && self.key_list()[i] == k;
                assert((self.entries@[i]).0 == k);
            }
        }
        lemma_assoc_dom_finite(self.entries@);
    }

    /// An empty table.
    pub fn new() -> (r: NodeTable<V>)
        ensures
            r@ == Map::<u64, V>::empty(),
            r.key_list() == Seq::<u64>::empty(),
    {
        let r = NodeTable { entries: Vec::new() };
        proof {
            assert(r.key_list() =~= Seq::<u64>::empty());
        }
        r
    }

    /// How many nodes are in the table.
    pub fn len(&self) -> (r: usize)
        ensures
            r == self.key_list().len(),
    {
        self.entries.len()
    }

    /// The node id at walking position `i`.
    pub fn key_at(&self, i: usize) -> (r: u64)
        requires
            i < self.key_list().len(),
        ensures
            r == self.key_list()[i as int],
            self@.contains_key(r),
            self@[r] == self.record_at(i as int),
    {
        proof {
            use_type_invariant(self);
            self.lemma_wf_distinct();
            lemma_assoc_map_index(self.entries@, i as int);
        }
        self.entries[i].0
    }

    /// The record at walking position `i`, as a specification value.
    pub closed spec fn record_at(&self, i: int) -> V {
        self.entries@[i].1
    }

    /// The record at walking position `i`.
    pub fn value_at(&self, i: usize) -> (r: &V)
        requires
            i < self.key_list().len(),
        ensures
            self@.contains_key(self.key_list()[i as int]),
            *r == self@[self.key_list()[i as int]],
            *r == self.record_at(i as int),
    {
        proof {
            use_type_invariant(self);
            self.lemma_wf_distinct();
            lemma_assoc_map_index(self.entries@, i as int);
        }
        &self.entries[i].1
    }

    /// The walking position of node `k`, if it is in the table.
    fn index_of(&self, k: u64) -> (r: Option<usize>)
        ensures
            match r {
                Some(i) => i < self.key_list().len() && self.key_list()[i as int] == k
                    && self@.contains_key(k) && self@[k] == self.record_at(i as int),
                None => !self@.contains_key(k),
            },
    {
        proof {
            use_type_invariant(self);
            self.lemma_wf_distinct();
        }
        let n = self.entries.len();
        let mut i: usize = 0;
        while i < n
            invariant
                n == self.entries@.len(),
                0 <= i <= n,
                distinct_keys(self.entries@),
                forall|a: int| 0 <= a < i ==> (#[trigger] self.entries@[a]).0 != k,
            decreases n - i,
        {
            if self.entries[i].0 == k {
                proof {
                    lemma_assoc_map_index(self.entries@, i as int);
                }
                return Some(i);
            }
            i += 1;
        }
        proof {
            lemma_assoc_map_contains(self.entries@, k);
        }
        None
    }

    /// Look a node's record up.
    pub fn get(&self, k: u64) -> (r: Option<&V>)
        ensures
            match r {
                Some(v) => self@.contains_key(k) && *v == self@[k],
                None => !self@.contains_key(k),
            },
    {
        match self.index_of(k) {
            Some(i) => Some(self.value_at(i)),
            None => None,
        }
    }

    /// Whether a node is in the table.
    pub fn contains_key(&self, k: u64) -> (r: bool)
        ensures
            r == self@.contains_key(k),
    {
        self.index_of(k).is_some()
    }

    /// Put a node's record in, replacing any record the node already had.
    pub fn insert(&mut self, k: u64, v: V)
        ensures
            final(self)@ == old(self)@.insert(k, v),
    {
        proof {
            use_type_invariant(&*self);
            self.lemma_wf_distinct();
        }
        let ghost orig = self.entries@;
        let found = self.index_of(k);
        let mut entries = Vec::new();
        std::mem::swap(&mut entries, &mut self.entries);
        match found {
            Some(i) => {
                proof {
                    lemma_assoc_map_remove(orig, i as int);
                }
                entries.remove(i);
                let ghost removed = entries@;
                entries.push((k, v));
                proof {
                    assert(forall|a: int|
                        0 <= a < removed.len() ==> removed[a] == (if a < i {
                            orig[a]
                        } else {
                            orig[a + 1]
                        }));
                    assert(distinct_keys(removed));
                    assert(forall|a: int| 0 <= a < removed.len() ==> (#[trigger] removed[a]).0 != k);
                    assert(entries@.drop_last() =~= removed);
                    assert(distinct_keys(entries@));
                    assert(assoc_map(entries@) =~= assoc_map(orig).insert(k, v));
                }
            },
            None => {
                proof {
                    lemma_assoc_map_contains(orig, k);
                }
                entries.push((k, v));
                proof {
                    assert(entries@.drop_last() =~= orig);
                    assert(forall|a: int| 0 <= a < orig.len() ==> (#[trigger] orig[a]).0 != k);
                    assert(distinct_keys(entries@));
                }
            },
        }
        std::mem::swap(&mut entries, &mut self.entries);
    }

    /// Take a node's record out, handing it back if the node was there.
    pub fn remove(&mut self, k: u64) -> (r: Option<V>)
        ensures
            final(self)@ == old(self)@.remove(k),
            r == if old(self)@.contains_key(k) {
                Some(old(self)@[k])
            } else {
                None::<V>
            },
            !old(self)@.contains_key(k) ==> *final(self) == *old(self),
            final(self).key_list().len() <= old(self).key_list().len(),
    {
        proof {
            use_type_invariant(&*self);
            self.lemma_wf_distinct();
        }
        let ghost orig = self.entries@;
        let found = self.index_of(k);
        match found {
            Some(i) => {
                proof {
                    lemma_assoc_map_index(orig, i as int);
                    lemma_assoc_map_remove(orig, i as int);
                }
                let mut entries = Vec::new();
                std::mem::swap(&mut entries, &mut self.entries);
                let e = entries.remove(i);
                proof {
                    assert(forall|a: int|
                        0 <= a < entries@.len() ==> entries@[a] == (if a < i {
                            orig[a]
                        } else {
                            orig[a + 1]
                        }));
                    assert(distinct_keys(entries@));
                }
                std::mem::swap(&mut entries, &mut self.entries);
                Some(e.1)
            },
            None => {
                proof {
                    assert(self@ =~= old(self)@.remove(k));
                }
                None
            },
        }
    }
}

proof fn lemma_assoc_dom_finite<V>(s: Seq<(u64, V)>)
    ensures
        assoc_map(s).dom().finite(),
    decreases s.len(),
{
    if s.len() > 0 {
        lemma_assoc_dom_finite(s.drop_last());
    }
}

} // verus!
