//! A small association map keyed by client id strings, viewed as a
//! `Map<Seq<char>, V>`. The in-memory state machine keeps its per-client
//! tables in this form.

use vstd::prelude::*;

verus! {

/// The map described by an association list, later entries taking
/// precedence; keys are compared by their character content.
pub open spec fn str_assoc_map<V>(s: Seq<(String, V)>) -> Map<Seq<char>, V>
    decreases s.len(),
{
    if s.len() == 0 {
        Map::empty()
    } else {
        str_assoc_map(s.drop_last()).insert(s.last().0@, s.last().1)
    }
}

/// No key content occurs twice.
pub open spec fn distinct_str_keys<V>(s: Seq<(String, V)>) -> bool {
    forall|i: int, j: int| 0 <= i < j < s.len() ==> (#[trigger] s[i]).0@ != (#[trigger] s[j]).0@
}

proof fn lemma_str_assoc_map_contains<V>(s: Seq<(String, V)>, k: Seq<char>)
    ensures
        str_assoc_map(s).contains_key(k) <==> exists|i: int|
            0 <= i < s.len() && (#[trigger] s[i]).0@ == k,
    decreases s.len(),
{
    if s.len() > 0 {
        lemma_str_assoc_map_contains(s.drop_last(), k);
        if s.last().0@ == k {
            assert((s[s.len() - 1]).0@ == k);
        } else {
            assert(forall|i: int| 0 <= i < s.len() - 1 ==> s.drop_last()[i] == #[trigger] s[i]);
        }
    }
}

proof fn lemma_str_assoc_map_index<V>(s: Seq<(String, V)>, i: int)
    requires
        distinct_str_keys(s),
        0 <= i < s.len(),
    ensures
        str_assoc_map(s).contains_key(s[i].0@),
        str_assoc_map(s)[s[i].0@] == s[i].1,
    decreases s.len(),
{
    if i < s.len() - 1 {
        assert(forall|a: int| 0 <= a < s.len() - 1 ==> s.drop_last()[a] == #[trigger] s[a]);
        assert(distinct_str_keys(s.drop_last()));
        lemma_str_assoc_map_index(s.drop_last(), i);
        assert(s[i].0@ != s.last().0@);
    }
}

proof fn lemma_str_assoc_map_remove<V>(s: Seq<(String, V)>, i: int)
    requires
        distinct_str_keys(s),
        0 <= i < s.len(),
    ensures
        str_assoc_map(s.remove(i)) =~= str_assoc_map(s).remove(s[i].0@),
    decreases s.len(),
{
    assert(forall|a: int| 0 <= a < s.len() - 1 ==> s.drop_last()[a] == #[trigger] s[a]);
    assert(distinct_str_keys(s.drop_last()));
    if i == s.len() - 1 {
        assert(s.remove(i) =~= s.drop_last());
        lemma_str_assoc_map_contains(s.drop_last(), s[i].0@);
        assert(!str_assoc_map(s.drop_last()).contains_key(s[i].0@));
        assert(str_assoc_map(s.drop_last()).insert(s[i].0@, s[i].1).remove(s[i].0@)
            =~= str_assoc_map(s.drop_last()));
    } else {
        assert(s.remove(i).drop_last() =~= s.drop_last().remove(i));
        assert(s.remove(i).last() == s.last());
        lemma_str_assoc_map_remove(s.drop_last(), i);
        assert(s.drop_last()[i] == s[i]);
        assert(s[i].0@ != s.last().0@);
        assert(str_assoc_map(s.remove(i)) =~= str_assoc_map(s.drop_last()).remove(
            s[i].0@,
        ).insert(s.last().0@, s.last().1));
    }
}

/// Per-client records keyed by a client id string, with no key content held
/// twice.
pub struct StrMap<V> {
    entries: Vec<(String, V)>,
}

impl<V> View for StrMap<V> {
    type V = Map<Seq<char>, V>;

    closed spec fn view(&self) -> Map<Seq<char>, V> {
        str_assoc_map(self.entries@)
    }
}

impl<V> StrMap<V> {
    /// The key contents present, in the map's own walking order.
    pub closed spec fn key_list(&self) -> Seq<Seq<char>> {
        self.entries@.map_values(|e: (String, V)| e.0@)
    }

    /// No key content is held twice. Holds of every map; exported through
    /// `use_type_invariant`.
    #[verifier::type_invariant]
    pub open spec fn wf(self) -> bool {
        forall|i: int, j: int|
            0 <= i < j < self.key_list().len() ==> self.key_list()[i] != self.key_list()[j]
    }

    proof fn lemma_wf_distinct(&self)
        requires
            self.wf(),
        ensures
            distinct_str_keys(self.entries@),
    {
        assert(forall|i: int|
            0 <= i < self.entries@.len() ==> self.key_list()[i] == (
            #[trigger] self.entries@[i]).0@);
    }

    /// An empty map.
    pub fn new() -> (r: StrMap<V>)
        ensures
            r@ == Map::<Seq<char>, V>::empty(),
            r.key_list() == Seq::<Seq<char>>::empty(),
    {
        let r = StrMap { entries: Vec::new() };
        proof {
            assert(r.key_list() =~= Seq::<Seq<char>>::empty());
        }
        r
    }

    /// How many clients are in the map.
    pub fn len(&self) -> (r: usize)
        ensures
            r == self.key_list().len(),
    {
        self.entries.len()
    }

    /// The key at walking position `i`.
    pub fn key_at(&self, i: usize) -> (r: &String)
        requires
            i < self.key_list().len(),
        ensures
            r@ == self.key_list()[i as int],
            self@.contains_key(r@),
    {
        proof {
            use_type_invariant(self);
            self.lemma_wf_distinct();
            lemma_str_assoc_map_index(self.entries@, i as int);
        }
        &self.entries[i].0
    }

    /// The record at walking position `i`.
    pub fn value_at(&self, i: usize) -> (r: &V)
        requires
            i < self.key_list().len(),
        ensures
            self@.contains_key(self.key_list()[i as int]),
            *r == self@[self.key_list()[i as int]],
    {
        proof {
            use_type_invariant(self);
            self.lemma_wf_distinct();
            lemma_str_assoc_map_index(self.entries@, i as int);
        }
        &self.entries[i].1
    }

    /// The walking position of key `k`, if its content is in the map.
    fn index_of(&self, k: &String) -> (r: Option<usize>)
        ensures
            match r {
                Some(i) => i < self.entries@.len() && self@.contains_key(k@) && self@[k@]
                    == self.entries@[i as int].1 && self.entries@[i as int].0@ == k@,
                None => !self@.contains_key(k@),
            },
    {
        proof {
            use_type_invariant(self);
            self.lemma_wf_distinct();
        }
        let n = self.entries.len();
        let mut i: usize = 0;
        while i < n
            invariant
                n == self.entries@.len(),
                0 <= i <= n,
                distinct_str_keys(self.entries@),
                forall|a: int| 0 <= a < i ==> (#[trigger] self.entries@[a]).0@ != k@,
            decreases n - i,
        {
            if self.entries[i].0 == *k {
                proof {
                    lemma_str_assoc_map_index(self.entries@, i as int);
                }
                return Some(i);
            }
            i += 1;
        }
        proof {
            lemma_str_assoc_map_contains(self.entries@, k@);
        }
        None
    }

    /// Look a client's record up.
    pub fn get(&self, k: &String) -> (r: Option<&V>)
        ensures
            match r {
                Some(v) => self@.contains_key(k@) && *v == self@[k@],
                None => !self@.contains_key(k@),
            },
    {
        proof {
            use_type_invariant(self);
            self.lemma_wf_distinct();
        }
        match self.index_of(k) {
            Some(i) => {
                proof {
                    lemma_str_assoc_map_index(self.entries@, i as int);
                }
                Some(&self.entries[i].1)
            },
            None => None,
        }
    }

    /// Put a client's record in, handing back the record the client had
    /// before, if any.
    pub fn insert(&mut self, k: String, v: V) -> (r: Option<V>)
        ensures
            final(self)@ == old(self)@.insert(k@, v),
            r == if old(self)@.contains_key(k@) {
                Some(old(self)@[k@])
            } else {
                None::<V>
            },
    {
        proof {
            use_type_invariant(&*self);
            self.lemma_wf_distinct();
        }
        let ghost orig = self.entries@;
        let found = self.index_of(&k);
        let mut entries = Vec::new();
        std::mem::swap(&mut entries, &mut self.entries);
        let result;
        match found {
            Some(i) => {
                proof {
                    lemma_str_assoc_map_remove(orig, i as int);
                }
                let e = entries.remove(i);
                let ghost removed = entries@;
                entries.push((k, v));
                result = Some(e.1);
                proof {
                    assert(forall|a: int|
                        0 <= a < removed.len() ==> removed[a] == (if a < i {
                            orig[a]
                        } else {
                            orig[a + 1]
                        }));
                    assert(distinct_str_keys(removed));
                    assert(forall|a: int|
                        0 <= a < removed.len() ==> (#[trigger] removed[a]).0@ != orig[i as int].0@);
                    assert(entries@.drop_last() =~= removed);
                    assert(distinct_str_keys(entries@));
                    assert(str_assoc_map(entries@) =~= str_assoc_map(orig).insert(
                        orig[i as int].0@,
                        v,
                    ));
                }
            },
            None => {
                proof {
                    lemma_str_assoc_map_contains(orig, k@);
                }
                entries.push((k, v));
                result = None;
                proof {
                    assert(entries@.drop_last() =~= orig);
                    assert(forall|a: int| 0 <= a < orig.len() ==> (#[trigger] orig[a]).0@ != k@);
                    assert(distinct_str_keys(entries@));
                }
            },
        }
        std::mem::swap(&mut entries, &mut self.entries);
        result
    }
}

} // verus!
