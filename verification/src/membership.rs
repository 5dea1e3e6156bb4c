//! Cluster membership: a duplicate-free set of node ids, and the membership
//! configuration with its optional joint-consensus second voter set.

use vstd::prelude::*;
use vstd::seq_lib::seq_to_set_is_finite;

verus! {

/// A set of node ids, viewed as a `Set<u64>`, with positional access so that
/// verified loops can walk the members in a fixed order.
pub struct NodeSet {
    ids: Vec<u64>,
}

impl View for NodeSet {
    type V = Set<u64>;

    closed spec fn view(&self) -> Set<u64> {
        self.ids@.to_set()
    }
}

impl NodeSet {
    /// The node ids, in the set's own walking order.
    pub closed spec fn id_list(&self) -> Seq<u64> {
        self.ids@
    }

    /// No node id is held twice. Holds of every set; exported through
    /// `use_type_invariant`.
    #[verifier::type_invariant]
    pub open spec fn wf(self) -> bool {
        forall|i: int, j: int|
            0 <= i < j < self.id_list().len() ==> self.id_list()[i] != self.id_list()[j]
    }

    proof fn lemma_wf_distinct(&self)
        requires
            self.wf(),
        ensures
            forall|a: int, b: int| 0 <= a < b < self.ids@.len() ==> self.ids@[a] != self.ids@[b],
            self.ids@.no_duplicates(),
    {
        assert forall|a: int, b: int| 0 <= a < b < self.ids@.len() implies self.ids@[a]
            != self.ids@[b] by {
            assert(self.id_list()[a] != self.id_list()[b]);
        }
        assert forall|a: int, b: int|
            0 <= a < self.ids@.len() && 0 <= b < self.ids@.len() && a != b implies self.ids@[a]
            != self.ids@[b] by {
            if a < b {
                assert(self.id_list()[a] != self.id_list()[b]);
            } else {
                assert(self.id_list()[b] != self.id_list()[a]);
            }
        }
    }

    /// The walking order lists exactly the members of the set, each once.
    pub proof fn lemma_ids(&self)
        requires
            self.wf(),
        ensures
            forall|id: u64| self@.contains(id) <==> self.id_list().contains(id),
            self@.finite(),
            self@.len() == self.id_list().len(),
    {
        broadcast use seq_to_set_is_finite;

        self.lemma_wf_distinct();
        self.ids@.unique_seq_to_set();
    }

    /// The empty set.
    pub fn new() -> (r: NodeSet)
        ensures
            r@ == Set::<u64>::empty(),
            r.id_list() == Seq::<u64>::empty(),
    {
        let r = NodeSet { ids: Vec::new() };
        proof {
            assert(r@ =~= Set::<u64>::empty());
        }
        r
    }

    /// The set holding `id` alone.
    pub fn singleton(id: u64) -> (r: NodeSet)
        ensures
            r@ == Set::<u64>::empty().insert(id),
            r.id_list() == seq![id],
    {
        let mut ids = Vec::new();
        ids.push(id);
        let r = NodeSet { ids };
        proof {
            assert(r.id_list() =~= seq![id]);
            assert forall|x: u64|
                r.ids@.to_set().contains(x) <==> Set::<u64>::empty().insert(id).contains(x) by {
                if r.ids@.contains(x) {
                    let a = choose|a: int| 0 <= a < r.ids@.len() && r.ids@[a] == x;
                    assert(x == id);
                }
                if x == id {
                    assert(r.ids@[0] == id);
                    assert(r.ids@.contains(id));
                }
            }
            assert(r@ =~= Set::<u64>::empty().insert(id));
        }
        r
    }

    /// How many nodes are in the set.
    pub fn len(&self) -> (r: usize)
        ensures
            r == self.id_list().len(),
            r == self@.len(),
    {
        proof {
            use_type_invariant(self);
            self.lemma_ids();
        }
        self.ids.len()
    }

    /// Whether the set is empty.
    pub fn is_empty(&self) -> (r: bool)
        ensures
            r == (self.id_list().len() == 0),
            r ==> self@ =~= Set::<u64>::empty(),
    {
        proof {
            if self.ids@.len() == 0 {
                assert(self@ =~= Set::<u64>::empty());
            }
        }
        self.ids.len() == 0
    }

    /// The node id at walking position `i`.
    pub fn id_at(&self, i: usize) -> (r: u64)
        requires
            i < self.id_list().len(),
        ensures
            r == self.id_list()[i as int],
            self@.contains(r),
    {
        proof {
            assert(self.ids@.contains(self.ids@[i as int]));
        }
        self.ids[i]
    }

    /// Whether `id` is a member.
    pub fn contains(&self, id: u64) -> (r: bool)
        ensures
            r == self@.contains(id),
    {
        let n = self.ids.len();
        let mut i: usize = 0;
        while i < n
            invariant
                n == self.ids@.len(),
                0 <= i <= n,
                forall|a: int| 0 <= a < i ==> self.ids@[a] != id,
            decreases n - i,
        {
            if self.ids[i] == id {
                proof {
                    assert(self.ids@.contains(id));
                }
                return true;
            }
            i += 1;
        }
        proof {
            assert(!self.ids@.contains(id));
        }
        false
    }

    /// Add a member.
    pub fn insert(&mut self, id: u64)
        ensures
            final(self)@ == old(self)@.insert(id),
    {
        proof {
            use_type_invariant(&*self);
            self.lemma_wf_distinct();
        }
        if !self.contains(id) {
            let ghost orig = self.ids@;
            let mut ids = Vec::new();
            std::mem::swap(&mut ids, &mut self.ids);
            ids.push(id);
            proof {
                assert(!orig.contains(id));
                assert forall|a: int| 0 <= a < orig.len() implies #[trigger] orig[a] != id by {
                    assert(orig[a] == id ==> orig.contains(id));
                }
                assert(forall|a: int| 0 <= a < orig.len() ==> ids@[a] == #[trigger] orig[a]);
                assert forall|a: int, b: int| 0 <= a < b < ids@.len() implies ids@[a] != ids@[b] by {
                    if b < orig.len() {
                        assert(orig[a] != orig[b]);
                    } else {
                        assert(ids@[b] == id);
                        assert(orig[a] != id);
                    }
                }
                assert forall|x: u64|
                    ids@.to_set().contains(x) <==> orig.to_set().insert(id).contains(x) by {
                    if ids@.contains(x) {
                        let a = choose|a: int| 0 <= a < ids@.len() && ids@[a] == x;
                        if a < orig.len() {
                            assert(orig[a] == x);
                            assert(orig.contains(x));
                        } else {
                            assert(x == id);
                        }
                    }
                    if orig.contains(x) {
                        let a = choose|a: int| 0 <= a < orig.len() && orig[a] == x;
                        assert(ids@[a] == x);
                        assert(ids@.contains(x));
                    }
                    if x == id {
                        assert(ids@[orig.len() as int] == id);
                        assert(ids@.contains(id));
                    }
                }
                assert(ids@.to_set() =~= orig.to_set().insert(id));
            }
            std::mem::swap(&mut ids, &mut self.ids);
        } else {
            proof {
                assert(self@ =~= old(self)@.insert(id));
            }
        }
    }

    /// Drop a member.
    pub fn remove(&mut self, id: u64)
        ensures
            final(self)@ == old(self)@.remove(id),
    {
        proof {
            use_type_invariant(&*self);
            self.lemma_wf_distinct();
        }
        let ghost orig = self.ids@;
        let n = self.ids.len();
        let mut i: usize = 0;
        while i < n
            invariant
                n == self.ids@.len(),
                self.ids@ == orig,
                old(self).ids@ == orig,
                forall|a: int, b: int| 0 <= a < b < orig.len() ==> orig[a] != orig[b],
                0 <= i <= n,
                forall|a: int| 0 <= a < i ==> orig[a] != id,
            decreases n - i,
        {
            if self.ids[i] == id {
                let mut ids = Vec::new();
                std::mem::swap(&mut ids, &mut self.ids);
                ids.remove(i);
                proof {
                    assert(forall|a: int|
                        0 <= a < ids@.len() ==> ids@[a] == (if a < i {
                            orig[a]
                        } else {
                            orig[a + 1]
                        }));
                    assert forall|a: int, b: int| 0 <= a < b < ids@.len() implies ids@[a]
                        != ids@[b] by {
                        let aa = if a < i { a } else { a + 1 };
                        let bb = if b < i { b } else { b + 1 };
                        assert(orig[aa] != orig[bb]);
                    }
                    assert forall|x: u64| ids@.to_set().contains(x) <==> orig.to_set().remove(
                        id,
                    ).contains(x) by {
                        if ids@.contains(x) {
                            let a = choose|a: int| 0 <= a < ids@.len() && ids@[a] == x;
                            let aa = if a < i { a } else { a + 1 };
                            assert(orig[aa] == x);
                            assert(orig.contains(x));
                            if aa < i {
                                assert(orig[aa] != orig[i as int]);
                            } else {
                                assert(orig[i as int] != orig[aa]);
                            }
                            assert(x != id);
                        }
                        if orig.contains(x) && x != id {
                            let a = choose|a: int| 0 <= a < orig.len() && orig[a] == x;
                            if a < i {
                                assert(ids@[a] == x);
                            } else {
                                assert(a != i);
                                assert(ids@[a - 1] == x);
                            }
                            assert(ids@.contains(x));
                        }
                    }
                    assert(ids@.to_set() =~= orig.to_set().remove(id));
                }
                std::mem::swap(&mut ids, &mut self.ids);
                proof {
                    assert(old(self)@ == orig.to_set());
                    assert(self.ids@.to_set() == orig.to_set().remove(id));
                    assert(self@ == old(self)@.remove(id));
                }
                return ;
            }
            i += 1;
        }
        proof {
            if orig.contains(id) {
                let a = choose|a: int| 0 <= a < orig.len() && orig[a] == id;
                assert(orig[a] == id);
                assert(false);
            }
            assert(self@ =~= old(self)@.remove(id));
        }
    }
}

impl Clone for NodeSet {
    /// A clone holds the same members in the same order.
    fn clone(&self) -> (r: Self)
        ensures
            r@ == self@,
            r.id_list() == self.id_list(),
    {
        proof {
            use_type_invariant(self);
            self.lemma_wf_distinct();
        }
        let ids = self.ids.clone();
        proof {
            assert(ids@ =~= self.ids@);
            assert(ids@ == self.ids@);
        }
        let r = NodeSet { ids };
        proof {
            assert(r@ =~= self@);
        }
        r
    }
}

/// The cluster's voting configuration: the voter set, and, while a
/// joint-consensus change is underway, the voter set being moved to.
pub struct MembershipConfig {
    /// All members of the current configuration.
    pub members: NodeSet,
    /// All members of the configuration being moved to during joint
    /// consensus, if one is.
    pub members_after_consensus: Option<NodeSet>,
}

impl MembershipConfig {
    /// Whether a joint-consensus change is underway.
    pub open spec fn spec_is_in_joint_consensus(&self) -> bool {
        self.members_after_consensus is Some
    }

    /// The initial configuration of a single-node cluster.
    pub fn new_initial(id: u64) -> (r: MembershipConfig)
        ensures
            r.members@ == Set::<u64>::empty().insert(id),
            r.members_after_consensus is None,
    {
        MembershipConfig { members: NodeSet::singleton(id), members_after_consensus: None }
    }

    /// Whether a joint-consensus change is underway.
    pub fn is_in_joint_consensus(&self) -> (r: bool)
        ensures
            r == self.spec_is_in_joint_consensus(),
    {
        self.members_after_consensus.is_some()
    }
}

impl Clone for MembershipConfig {
    /// A clone holds the same voter sets.
    fn clone(&self) -> (r: Self)
        ensures
            r.members@ == self.members@,
            r.members.id_list() == self.members.id_list(),
            r.members_after_consensus is Some <==> self.members_after_consensus is Some,
            r.members_after_consensus is Some ==> r.members_after_consensus->Some_0@
                == self.members_after_consensus->Some_0@
                && r.members_after_consensus->Some_0.id_list()
                == self.members_after_consensus->Some_0.id_list(),
    {
        MembershipConfig {
            members: self.members.clone(),
            members_after_consensus: match &self.members_after_consensus {
                Some(m) => Some(m.clone()),
                None => None,
            },
        }
    }
}

/// A membership configuration together with the log position that put it in
/// effect.
pub struct EffectiveMembership {
    pub log_id: crate::raft_types::LogId,
    pub membership: MembershipConfig,
}

impl Clone for EffectiveMembership {
    /// A clone carries the same log position and the same voter sets.
    fn clone(&self) -> (r: Self)
        ensures
            r.log_id == self.log_id,
            r.membership.members@ == self.membership.members@,
            r.membership.members_after_consensus is Some <==> self.membership.members_after_consensus is Some,
            r.membership.members_after_consensus is Some ==> r.membership.members_after_consensus->Some_0@
                == self.membership.members_after_consensus->Some_0@,
    {
        EffectiveMembership { log_id: self.log_id, membership: self.membership.clone() }
    }
}

} // verus!
