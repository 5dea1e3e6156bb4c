//! The in-memory log and state-machine store the leader drives: its data
//! model, the log keyed by entry index, and the per-client state machine
//! with serial-number deduplication.

use vstd::prelude::*;
use vstd::string::StringExecFns;
use crate::membership::{EffectiveMembership, MembershipConfig};
use crate::raft_types::LogId;
use crate::strmap::StrMap;
use crate::text::dec_uint;
use crate::text::u64_to_dec;

verus! {

/// The durably persisted part of a node's state.
#[derive(Clone, Copy, Debug)]
pub struct HardState {
    /// The highest term this node has seen.
    pub current_term: u64,
    /// The candidate this node voted for in `current_term`, if any.
    pub voted_for: Option<u64>,
}

/// A client request: an update to one client's status record, answered with
/// the status previously recorded for that client.
pub struct ClientRequest {
    /// The id of the client sending the request.
    pub client: String,
    /// The serial number of this request, for at-most-once application.
    pub serial: u64,
    /// The new status to record for the client.
    pub status: String,
}

impl View for ClientRequest {
    type V = (Seq<char>, u64, Seq<char>);

    open spec fn view(&self) -> (Seq<char>, u64, Seq<char>) {
        (self.client@, self.serial, self.status@)
    }
}

impl Clone for ClientRequest {
    /// A clone carries the same client, serial and status.
    fn clone(&self) -> (r: Self)
        ensures
            r@ == self@,
    {
        ClientRequest {
            client: self.client.clone(),
            serial: self.serial,
            status: self.status.clone(),
        }
    }
}

/// The answer to a client request: the status previously recorded for the
/// client, if any.
pub struct ClientResponse(pub Option<String>);

impl View for ClientResponse {
    type V = Option<Seq<char>>;

    open spec fn view(&self) -> Option<Seq<char>> {
        match self.0 {
            Some(ref s) => Some(s@),
            None => None,
        }
    }
}

impl Clone for ClientResponse {
    /// A clone carries the same answer.
    fn clone(&self) -> (r: Self)
        ensures
            r@ == self@,
    {
        ClientResponse(
            match &self.0 {
                Some(s) => Some(s.clone()),
                None => None,
            },
        )
    }
}

/// What a log entry carries.
pub enum EntryPayload {
    /// An empty entry, as appended by a fresh leader.
    Blank,
    /// A client request.
    Normal(ClientRequest),
    /// A membership configuration entry.
    Membership(MembershipConfig),
}

/// One entry of the replicated log.
pub struct Entry {
    pub log_id: LogId,
    pub payload: EntryPayload,
}

/// The identity and bytes of a snapshot.
pub struct SnapshotMeta {
    /// The last log position the snapshot covers.
    pub last_log_id: LogId,
    /// The snapshot's unique id.
    pub snapshot_id: String,
}

impl Clone for SnapshotMeta {
    /// A clone carries the same position and id.
    fn clone(&self) -> (r: Self)
        ensures
            r.last_log_id == self.last_log_id,
            r.snapshot_id@ == self.snapshot_id@,
    {
        SnapshotMeta { last_log_id: self.last_log_id, snapshot_id: self.snapshot_id.clone() }
    }
}

/// A snapshot of the state machine: its identity and its serialized bytes.
pub struct MemStoreSnapshot {
    pub meta: SnapshotMeta,
    /// The serialized state machine at the time of the snapshot.
    pub data: Vec<u8>,
}

/// What applying a snapshot did to the state machine.
#[derive(Clone, Copy, Debug)]
pub struct StateMachineChanges {
    pub last_applied: Option<LogId>,
    pub is_snapshot: bool,
}

/// The position of the first entry whose index is at least `idx`, or the
/// length when every entry lies below it. On a log sorted by index this is
/// where the half-open range starting at `idx` begins.
pub open spec fn lower_bound(s: Seq<Entry>, idx: u64) -> int
    decreases s.len(),
{
    if s.len() == 0 {
        0
    } else if s[0].log_id.index >= idx {
        0
    } else {
        1 + lower_bound(s.drop_first(), idx)
    }
}

proof fn lemma_lower_bound_props(s: Seq<Entry>, idx: u64)
    ensures
        0 <= lower_bound(s, idx) <= s.len(),
        forall|j: int| 0 <= j < lower_bound(s, idx) ==> s[j].log_id.index < idx,
        lower_bound(s, idx) < s.len() ==> s[lower_bound(s, idx)].log_id.index >= idx,
    decreases s.len(),
{
    if s.len() > 0 && s[0].log_id.index < idx {
        lemma_lower_bound_props(s.drop_first(), idx);
        assert(forall|j: int| 0 <= j < s.len() - 1 ==> s.drop_first()[j] == s[j + 1]);
        assert forall|j: int| 0 <= j < lower_bound(s, idx) implies s[j].log_id.index < idx by {
            if j > 0 {
                assert(s.drop_first()[j - 1].log_id.index < idx);
            }
        }
    }
}

proof fn lemma_lower_bound_monotone(s: Seq<Entry>, a: u64, b: u64)
    requires
        a <= b,
    ensures
        lower_bound(s, a) <= lower_bound(s, b),
    decreases s.len(),
{
    lemma_lower_bound_props(s, b);
    if s.len() > 0 && s[0].log_id.index < a {
        lemma_lower_bound_monotone(s.drop_first(), a, b);
    }
}

/// The log after writing `e`: in place of the entry sharing its index, or
/// inserted at its sorted position.
pub open spec fn spec_upsert(s: Seq<Entry>, e: Entry) -> Seq<Entry> {
    let p = lower_bound(s, e.log_id.index);
    if p < s.len() && s[p].log_id.index == e.log_id.index {
        s.update(p, e)
    } else {
        s.insert(p, e)
    }
}

/// The log after writing each entry of `es` in order.
pub open spec fn spec_upsert_all(s: Seq<Entry>, es: Seq<Entry>) -> Seq<Entry>
    decreases es.len(),
{
    if es.len() == 0 {
        s
    } else {
        spec_upsert_all(spec_upsert(s, es[0]), es.drop_first())
    }
}

/// The replicated log, keyed by entry index: entries are held in strictly
/// ascending index order, so a half-open index range is a contiguous run.
pub struct MemLog {
    entries: Vec<Entry>,
}

impl MemLog {
    /// The entries, in ascending index order.
    pub closed spec fn log_list(&self) -> Seq<Entry> {
        self.entries@
    }

    /// Entry indexes ascend strictly. Holds of every log; exported through
    /// `use_type_invariant`.
    #[verifier::type_invariant]
    pub open spec fn wf(self) -> bool {
        forall|i: int, j: int|
            0 <= i < j < self.log_list().len() ==> self.log_list()[i].log_id.index
                < self.log_list()[j].log_id.index
    }

    /// An empty log.
    pub fn new() -> (r: MemLog)
        ensures
            r.log_list() == Seq::<Entry>::empty(),
    {
        MemLog { entries: Vec::new() }
    }

    /// How many entries the log holds.
    pub fn len(&self) -> (r: usize)
        ensures
            r == self.log_list().len(),
    {
        self.entries.len()
    }

    /// The entry at position `i` in index order.
    pub fn entry_at(&self, i: usize) -> (r: &Entry)
        requires
            i < self.log_list().len(),
        ensures
            *r == self.log_list()[i as int],
    {
        &self.entries[i]
    }

    /// The first entry, if the log is not empty.
    pub fn first(&self) -> (r: Option<&Entry>)
        ensures
            match r {
                Some(e) => self.log_list().len() > 0 && *e == self.log_list()[0],
                None => self.log_list().len() == 0,
            },
    {
        if self.entries.len() == 0 {
            None
        } else {
            Some(&self.entries[0])
        }
    }

    /// The last entry, if the log is not empty.
    pub fn last(&self) -> (r: Option<&Entry>)
        ensures
            match r {
                Some(e) => self.log_list().len() > 0 && *e == self.log_list().last(),
                None => self.log_list().len() == 0,
            },
    {
        let n = self.entries.len();
        if n == 0 {
            None
        } else {
            Some(&self.entries[n - 1])
        }
    }

    /// The position of the first entry whose index is at least `idx`.
    fn position_of(&self, idx: u64) -> (r: usize)
        ensures
            r == lower_bound(self.log_list(), idx),
    {
        proof {
            use_type_invariant(self);
            lemma_lower_bound_props(self.entries@, idx);
        }
        let n = self.entries.len();
        let mut p: usize = 0;
        while p < n && self.entries[p].log_id.index < idx
            invariant
                n == self.entries@.len(),
                0 <= p <= n,
                forall|j: int| 0 <= j < p ==> self.entries@[j].log_id.index < idx,
                lower_bound(self.entries@, idx) <= self.entries@.len(),
                forall|j: int|
                    0 <= j < lower_bound(self.entries@, idx) ==> self.entries@[j].log_id.index
                        < idx,
                lower_bound(self.entries@, idx) < self.entries@.len() ==> self.entries@[lower_bound(
                    self.entries@,
                    idx,
                )].log_id.index >= idx,
            decreases n - p,
        {
            p += 1;
        }
        proof {
            let lb = lower_bound(self.entries@, idx);
            if p < lb {
                assert(self.entries@[p as int].log_id.index < idx);
                assert(false);
            }
            if lb < p {
                assert(self.entries@[lb].log_id.index < idx);
                assert(false);
            }
        }
        p
    }

    /// Look the entry with index `idx` up.
    pub fn get(&self, idx: u64) -> (r: Option<&Entry>)
        ensures
            match r {
                Some(e) => self.log_list().contains(*e) && e.log_id.index == idx,
                None => forall|i: int|
                    0 <= i < self.log_list().len() ==> self.log_list()[i].log_id.index != idx,
            },
    {
        proof {
            use_type_invariant(self);
            lemma_lower_bound_props(self.entries@, idx);
        }
        let p = self.position_of(idx);
        if p < self.entries.len() && self.entries[p].log_id.index == idx {
            proof {
                assert(self.log_list().contains(self.log_list()[p as int]));
            }
            Some(&self.entries[p])
        } else {
            proof {
                let lb = lower_bound(self.entries@, idx);
                assert forall|i: int|
                    0 <= i < self.log_list().len() implies self.log_list()[i].log_id.index
                    != idx by {
                    if i >= lb && lb < self.entries@.len() {
                        if i > lb {
                            assert(self.entries@[lb].log_id.index < self.entries@[i].log_id.index);
                        }
                    }
                }
            }
            None
        }
    }

    /// The entries with index in `start .. end`, in index order.
    pub fn range(&self, start: u64, end: u64) -> (r: Vec<&Entry>)
        requires
            start <= end,
        ensures
            ({
                let lo = lower_bound(self.log_list(), start);
                let hi = lower_bound(self.log_list(), end);
                &&& r@.len() == hi - lo
                &&& forall|k: int| 0 <= k < r@.len() ==> *r@[k] == self.log_list()[lo + k]
            }),
    {
        proof {
            use_type_invariant(self);
            lemma_lower_bound_props(self.entries@, start);
            lemma_lower_bound_props(self.entries@, end);
            lemma_lower_bound_monotone(self.entries@, start, end);
        }
        let lo = self.position_of(start);
        let n = self.entries.len();
        let mut r: Vec<&Entry> = Vec::new();
        let mut p: usize = lo;
        while p < n && self.entries[p].log_id.index < end
            invariant
                n == self.entries@.len(),
                lo == lower_bound(self.entries@, start),
                lo <= p <= n,
                forall|j: int| lo <= j < p ==> self.entries@[j].log_id.index < end,
                forall|j: int| 0 <= j < lo ==> self.entries@[j].log_id.index < start,
                start <= end,
                r@.len() == p - lo,
                forall|k: int| 0 <= k < r@.len() ==> *(#[trigger] r@[k]) == self.entries@[lo + k],
            decreases n - p,
        {
            r.push(&self.entries[p]);
            p += 1;
        }
        proof {
            let hi = lower_bound(self.entries@, end);
            if p < hi {
                assert(self.entries@[p as int].log_id.index < end);
                assert(false);
            }
            if hi < p {
                if hi < lo {
                    assert(false);
                } else {
                    assert(self.entries@[hi].log_id.index < end);
                    assert(false);
                }
            }
        }
        r
    }

    /// Write `e` into the log: in place of the entry sharing its index, or
    /// at its sorted position.
    pub fn upsert(&mut self, e: Entry)
        ensures
            final(self).log_list() == spec_upsert(old(self).log_list(), e),
    {
        proof {
            use_type_invariant(&*self);
            lemma_lower_bound_props(self.entries@, e.log_id.index);
        }
        let ghost orig = self.entries@;
        let idx = e.log_id.index;
        let p = self.position_of(idx);
        let mut entries = Vec::new();
        std::mem::swap(&mut entries, &mut self.entries);
        if p < entries.len() && entries[p].log_id.index == idx {
            let ghost lb = lower_bound(orig, idx);
            entries.remove(p);
            entries.insert(p, e);
            proof {
                assert(entries@ =~= orig.update(lb, e));
                assert forall|i: int, j: int|
                    0 <= i < j < entries@.len() implies entries@[i].log_id.index
                    < entries@[j].log_id.index by {
                    assert(orig[i].log_id.index < orig[j].log_id.index);
                }
            }
        } else {
            entries.insert(p, e);
            proof {
                let lb = lower_bound(orig, idx);
                assert(forall|k: int|
                    0 <= k < entries@.len() ==> entries@[k] == (if k < lb {
                        orig[k]
                    } else if k == lb {
                        e
                    } else {
                        orig[k - 1]
                    }));
                assert forall|i: int, j: int|
                    0 <= i < j < entries@.len() implies entries@[i].log_id.index
                    < entries@[j].log_id.index by {
                    if j < lb {
                        assert(orig[i].log_id.index < orig[j].log_id.index);
                    } else if i == lb {
                        // the inserted entry against a later one
                        assert(orig[lb].log_id.index >= idx);
                        assert(orig[lb].log_id.index != idx);
                        if j - 1 > lb {
                            assert(orig[lb].log_id.index < orig[j - 1].log_id.index);
                        }
                    } else if j == lb {
                        assert(orig[i].log_id.index < idx);
                    } else if i < lb {
                        assert(orig[i].log_id.index < orig[j - 1].log_id.index);
                    } else {
                        assert(orig[i - 1].log_id.index < orig[j - 1].log_id.index);
                    }
                }
            }
        }
        std::mem::swap(&mut entries, &mut self.entries);
    }

    /// Drop every entry with index in `start .. end`.
    pub fn delete_range(&mut self, start: u64, end: u64)
        requires
            start <= end,
        ensures
            final(self).log_list() == old(self).log_list().take(
                lower_bound(old(self).log_list(), start),
            ) + old(self).log_list().skip(lower_bound(old(self).log_list(), end)),
    {
        proof {
            use_type_invariant(&*self);
            lemma_lower_bound_props(self.entries@, start);
            lemma_lower_bound_props(self.entries@, end);
            lemma_lower_bound_monotone(self.entries@, start, end);
        }
        let ghost orig = self.entries@;
        let lo = self.position_of(start);
        let hi = self.position_of(end);
        let mut entries = Vec::new();
        std::mem::swap(&mut entries, &mut self.entries);
        let mut tail = entries.split_off(hi);
        entries.truncate(lo);
        entries.append(&mut tail);
        proof {
            assert(entries@ =~= orig.take(lower_bound(orig, start)) + orig.skip(
                lower_bound(orig, end),
            ));
            let lb0 = lower_bound(orig, start);
            let lb1 = lower_bound(orig, end);
            assert forall|i: int, j: int|
                0 <= i < j < entries@.len() implies entries@[i].log_id.index
                < entries@[j].log_id.index by {
                let ii = if i < lb0 {
                    i
                } else {
                    i - lb0 + lb1
                };
                let jj = if j < lb0 {
                    j
                } else {
                    j - lb0 + lb1
                };
                assert(entries@[i] == orig[ii]);
                assert(entries@[j] == orig[jj]);
                assert(orig[ii].log_id.index < orig[jj].log_id.index);
            }
        }
        std::mem::swap(&mut entries, &mut self.entries);
    }
}

/// Ordering of log positions: lexicographic by `(term, index)`.
pub open spec fn log_id_le(a: LogId, b: LogId) -> bool {
    a.term < b.term || (a.term == b.term && a.index <= b.index)
}

/// The larger of two log positions in `(term, index)` order.
pub open spec fn log_id_max(a: LogId, b: LogId) -> LogId {
    if log_id_le(a, b) {
        b
    } else {
        a
    }
}

/// The smaller of two log positions in `(term, index)` order.
pub open spec fn log_id_min(a: LogId, b: LogId) -> LogId {
    if log_id_le(a, b) {
        a
    } else {
        b
    }
}

/// The state the node must recover into on startup.
pub struct InitialState {
    /// The last position in the log, or in the state machine if it is
    /// further ahead.
    pub last_log_id: LogId,
    /// The last position applied to the state machine.
    pub last_applied: LogId,
    /// The persisted hard state.
    pub hard_state: HardState,
    /// The last membership configuration in effect.
    pub last_membership: EffectiveMembership,
}

impl InitialState {
    /// The pristine state of a new single-node cluster.
    pub fn new_initial(id: u64) -> (r: InitialState)
        ensures
            r.last_log_id == (LogId { term: 0, index: 0 }),
            r.last_applied == (LogId { term: 0, index: 0 }),
            r.hard_state == (HardState { current_term: 0, voted_for: None }),
            r.last_membership.log_id == (LogId { term: 0, index: 0 }),
            r.last_membership.membership.members@ == Set::<u64>::empty().insert(id),
            r.last_membership.membership.members_after_consensus is None,
    {
        InitialState {
            last_log_id: LogId { term: 0, index: 0 },
            last_applied: LogId { term: 0, index: 0 },
            hard_state: HardState { current_term: 0, voted_for: None },
            last_membership: EffectiveMembership {
                log_id: LogId { term: 0, index: 0 },
                membership: MembershipConfig::new_initial(id),
            },
        }
    }
}

/// The state machine: per-client status records, with serial-number
/// deduplication, and the last position and membership applied.
pub struct MemStoreStateMachine {
    /// The last log position applied.
    pub last_applied_log: LogId,
    /// The last membership configuration applied, if any.
    pub last_membership: Option<EffectiveMembership>,
    /// Per client: the serial of its last applied request, with the answer
    /// given then.
    pub client_serial_responses: StrMap<(u64, Option<String>)>,
    /// Per client: its current status.
    pub client_status: StrMap<String>,
}

impl MemStoreStateMachine {
    /// An empty state machine at position `(0, 0)`.
    pub fn new() -> (r: MemStoreStateMachine)
        ensures
            r.last_applied_log == (LogId { term: 0, index: 0 }),
            r.last_membership is None,
            r.client_serial_responses@ == Map::<Seq<char>, (u64, Option<String>)>::empty(),
            r.client_status@ == Map::<Seq<char>, String>::empty(),
    {
        MemStoreStateMachine {
            last_applied_log: LogId { term: 0, index: 0 },
            last_membership: None,
            client_serial_responses: StrMap::new(),
            client_status: StrMap::new(),
        }
    }
}

impl Default for MemStoreStateMachine {
    /// An empty state machine at position `(0, 0)`.
    fn default() -> (r: MemStoreStateMachine)
        ensures
            r.last_applied_log == (LogId { term: 0, index: 0 }),
            r.last_membership is None,
            r.client_serial_responses@ == Map::<Seq<char>, (u64, Option<String>)>::empty(),
            r.client_status@ == Map::<Seq<char>, String>::empty(),
    {
        MemStoreStateMachine::new()
    }
}

/// The character content of an optional string.
pub open spec fn ostr_view(o: Option<String>) -> Option<Seq<char>> {
    match o {
        Some(s) => Some(s@),
        None => None,
    }
}

/// The serial table by character content alone.
pub open spec fn serials_view(m: Map<Seq<char>, (u64, Option<String>)>) -> Map<
    Seq<char>,
    (u64, Option<Seq<char>>),
> {
    m.map_values(|v: (u64, Option<String>)| (v.0, ostr_view(v.1)))
}

/// The status table by character content alone.
pub open spec fn status_view(m: Map<Seq<char>, String>) -> Map<Seq<char>, Seq<char>> {
    m.map_values(|s: String| s@)
}

/// One entry applied to the per-client tables: a request whose serial was
/// already applied is answered again with the stored answer and changes
/// nothing; a new request records its status, remembers the previous one as
/// the answer, and updates the serial table. Blank and membership entries
/// answer with no status.
pub open spec fn sm_step(
    serials: Map<Seq<char>, (u64, Option<Seq<char>>)>,
    status: Map<Seq<char>, Seq<char>>,
    e: Entry,
) -> (Map<Seq<char>, (u64, Option<Seq<char>>)>, Map<Seq<char>, Seq<char>>, Option<Seq<char>>) {
    match e.payload {
        EntryPayload::Blank => (serials, status, None),
        EntryPayload::Membership(_) => (serials, status, None),
        EntryPayload::Normal(req) => {
            if serials.contains_key(req.client@) && serials[req.client@].0 == req.serial {
                (serials, status, serials[req.client@].1)
            } else {
                let previous = if status.contains_key(req.client@) {
                    Some(status[req.client@])
                } else {
                    None
                };
                (
                    serials.insert(req.client@, (req.serial, previous)),
                    status.insert(req.client@, req.status@),
                    previous,
                )
            }
        },
    }
}

/// The entries applied in order, with the answer to each.
pub open spec fn sm_apply(
    serials: Map<Seq<char>, (u64, Option<Seq<char>>)>,
    status: Map<Seq<char>, Seq<char>>,
    es: Seq<Entry>,
) -> (Map<Seq<char>, (u64, Option<Seq<char>>)>, Map<Seq<char>, Seq<char>>, Seq<Option<Seq<char>>>)
    decreases es.len(),
{
    if es.len() == 0 {
        (serials, status, Seq::empty())
    } else {
        let first = sm_step(serials, status, es[0]);
        let rest = sm_apply(first.0, first.1, es.drop_first());
        (rest.0, rest.1, seq![first.2] + rest.2)
    }
}

proof fn lemma_sm_apply_push(
    serials: Map<Seq<char>, (u64, Option<Seq<char>>)>,
    status: Map<Seq<char>, Seq<char>>,
    es: Seq<Entry>,
    e: Entry,
)
    ensures
        ({
            let whole = sm_apply(serials, status, es.push(e));
            let prefix = sm_apply(serials, status, es);
            let step = sm_step(prefix.0, prefix.1, e);
            whole.0 == step.0 && whole.1 == step.1 && whole.2 == prefix.2.push(step.2)
        }),
    decreases es.len(),
{
    if es.len() == 0 {
        assert(es.push(e)[0] == e);
        assert(es.push(e).drop_first() =~= Seq::<Entry>::empty());
        let step = sm_step(serials, status, e);
        assert(sm_apply(step.0, step.1, Seq::<Entry>::empty()) == (
            step.0,
            step.1,
            Seq::<Option<Seq<char>>>::empty(),
        ));
        assert(sm_apply(serials, status, es) == (
            serials,
            status,
            Seq::<Option<Seq<char>>>::empty(),
        ));
        assert(seq![step.2] + Seq::<Option<Seq<char>>>::empty() =~= Seq::<
            Option<Seq<char>>,
        >::empty().push(step.2));
    } else {
        assert(es.push(e)[0] == es[0]);
        assert(es.push(e).drop_first() =~= es.drop_first().push(e));
        let first = sm_step(serials, status, es[0]);
        lemma_sm_apply_push(first.0, first.1, es.drop_first(), e);
        let inner_whole = sm_apply(first.0, first.1, es.drop_first().push(e));
        let inner_prefix = sm_apply(first.0, first.1, es.drop_first());
        let prefix = sm_apply(serials, status, es);
        let whole = sm_apply(serials, status, es.push(e));
        assert(whole == (inner_whole.0, inner_whole.1, seq![first.2] + inner_whole.2));
        assert(prefix == (inner_prefix.0, inner_prefix.1, seq![first.2] + inner_prefix.2));
        assert(whole.2 =~= prefix.2.push(sm_step(prefix.0, prefix.1, e).2));
    }
}

/// The last membership entry among `es`, if any carries one.
pub open spec fn last_membership_entry(es: Seq<Entry>) -> Option<Entry>
    decreases es.len(),
{
    if es.len() == 0 {
        None
    } else if es.last().payload is Membership {
        Some(es.last())
    } else {
        last_membership_entry(es.drop_last())
    }
}

/// The most recent membership entry at or below `upto` (every entry, when
/// no bound is given), scanning the log from its end.
pub open spec fn found_membership_log(s: Seq<Entry>, upto: Option<u64>) -> Option<Entry>
    decreases s.len(),
{
    if s.len() == 0 {
        None
    } else if (match upto {
        Some(u) => s.last().log_id.index > u,
        None => false,
    }) {
        found_membership_log(s.drop_last(), upto)
    } else if s.last().payload is Membership {
        Some(s.last())
    } else {
        found_membership_log(s.drop_last(), upto)
    }
}

proof fn lemma_found_membership_is_membership(s: Seq<Entry>, upto: Option<u64>)
    ensures
        match found_membership_log(s, upto) {
            Some(e) => e.payload is Membership,
            None => true,
        },
    decreases s.len(),
{
    if s.len() > 0 {
        lemma_found_membership_is_membership(s.drop_last(), upto);
    }
}

/// Whether the first optional index lies strictly past the second, a
/// missing index lying below every present one.
pub open spec fn opt_index_gt(a: Option<u64>, b: Option<u64>) -> bool {
    match (a, b) {
        (Some(x), Some(y)) => x > y,
        (Some(x), None) => true,
        _ => false,
    }
}

/// The two configurations hold the same voter sets.
pub open spec fn mc_view_eq(a: MembershipConfig, b: MembershipConfig) -> bool {
    &&& a.members@ == b.members@
    &&& (a.members_after_consensus is Some <==> b.members_after_consensus is Some)
    &&& (a.members_after_consensus is Some ==> a.members_after_consensus->Some_0@
        == b.members_after_consensus->Some_0@)
}

/// `r` records position `lid` with the voter sets of `m`.
pub open spec fn em_like(r: EffectiveMembership, lid: LogId, m: MembershipConfig) -> bool {
    r.log_id == lid && mc_view_eq(r.membership, m)
}

/// What [`MemStore::get_membership_from_log`] returns: the membership entry
/// in the log at or below `upto`, or the one the state machine holds if it
/// is more recent, or the initial single-node configuration when neither
/// exists.
pub open spec fn membership_from_log_post(s: MemStore, upto: Option<u64>, r: EffectiveMembership) -> bool {
    let m_log = found_membership_log(s.log.log_list(), upto);
    let log_idx = match m_log {
        Some(e) => Some(e.log_id.index),
        None => None::<u64>,
    };
    let sm_idx = match s.sm.last_membership {
        Some(em) => Some(em.log_id.index),
        None => None::<u64>,
    };
    if opt_index_gt(log_idx, sm_idx) {
        match m_log {
            Some(e) => match e.payload {
                EntryPayload::Membership(cfg) => em_like(r, e.log_id, cfg),
                _ => false,
            },
            None => false,
        }
    } else {
        match s.sm.last_membership {
            Some(em) => em_like(r, em.log_id, em.membership),
            None => {
                &&& r.log_id == (LogId { term: 0, index: 0 })
                &&& r.membership.members@ == Set::<u64>::empty().insert(s.id)
                &&& r.membership.members_after_consensus is None
            },
        }
    }
}

/// An in-memory store: the replicated log, the state machine, the persisted
/// hard state, and the current snapshot.
pub struct MemStore {
    /// The id of the node this store belongs to.
    pub id: u64,
    /// The replicated log.
    pub log: MemLog,
    /// The state machine.
    pub sm: MemStoreStateMachine,
    /// The persisted hard state, once one was saved.
    pub hs: Option<HardState>,
    /// How many snapshots were taken, for unique snapshot ids.
    pub snapshot_idx: u64,
    /// The current snapshot, once one was taken.
    pub current_snapshot: Option<MemStoreSnapshot>,
}

fn clone_ostr(o: &Option<String>) -> (r: Option<String>)
    ensures
        ostr_view(r) == ostr_view(*o),
{
    match o {
        Some(s) => Some(s.clone()),
        None => None,
    }
}

fn render_snapshot_id(term: u64, index: u64, idx: u64) -> (r: String)
    ensures
        r@ == dec_uint(term as int) + seq!['-'] + dec_uint(index as int) + seq!['-'] + dec_uint(
            idx as int,
        ),
{
    proof {
        reveal_strlit("-");
    }
    let mut s = u64_to_dec(term);
    s.append("-");
    let s2 = u64_to_dec(index);
    s.append(s2.as_str());
    s.append("-");
    let s3 = u64_to_dec(idx);
    s.append(s3.as_str());
    proof {
        assert(s@ =~= dec_uint(term as int) + seq!['-'] + dec_uint(index as int) + seq!['-']
            + dec_uint(idx as int));
    }
    s
}

impl MemStore {
    /// A fresh store for node `id`, its log holding the blank zero entry.
    pub fn new(id: u64) -> (r: MemStore)
        ensures
            r.id == id,
            r.log.log_list().len() == 1,
            r.log.log_list()[0].log_id == (LogId { term: 0, index: 0 }),
            r.log.log_list()[0].payload is Blank,
            r.sm.last_applied_log == (LogId { term: 0, index: 0 }),
            r.sm.last_membership is None,
            r.sm.client_serial_responses@ == Map::<Seq<char>, (u64, Option<String>)>::empty(),
            r.sm.client_status@ == Map::<Seq<char>, String>::empty(),
            r.hs is None,
            r.snapshot_idx == 0,
            r.current_snapshot is None,
    {
        let mut log = MemLog::new();
        log.upsert(Entry { log_id: LogId { term: 0, index: 0 }, payload: EntryPayload::Blank });
        proof {
            assert(log.log_list() =~= Seq::<Entry>::empty().insert(
                0,
                Entry { log_id: LogId { term: 0, index: 0 }, payload: EntryPayload::Blank },
            ));
        }
        MemStore {
            id,
            log,
            sm: MemStoreStateMachine::new(),
            hs: None,
            snapshot_idx: 0,
            current_snapshot: None,
        }
    }

    /// A store rebuilt from existing state.
    pub fn new_with_state(
        id: u64,
        log: MemLog,
        sm: MemStoreStateMachine,
        hs: Option<HardState>,
        current_snapshot: Option<MemStoreSnapshot>,
    ) -> (r: MemStore)
        ensures
            r.id == id,
            r.log == log,
            r.sm == sm,
            r.hs == hs,
            r.snapshot_idx == 0,
            r.current_snapshot == current_snapshot,
    {
        MemStore { id, log, sm, hs, snapshot_idx: 0, current_snapshot }
    }

    /// The state machine, for inspection.
    pub fn get_state_machine(&self) -> (r: &MemStoreStateMachine)
        ensures
            *r == self.sm,
    {
        &self.sm
    }

    /// The most recent membership configuration at or below `upto`: the
    /// log's if it is newest, else the state machine's, else the initial
    /// single-node configuration.
    pub fn get_membership_from_log(&self, upto: Option<u64>) -> (r: EffectiveMembership)
        ensures
            membership_from_log_post(*self, upto, r),
    {
        let n = self.log.len();
        let mut k = n;
        let mut found: Option<&Entry> = None;
        proof {
            assert(self.log.log_list().take(n as int) =~= self.log.log_list());
        }
        while k > 0 && found.is_none()
            invariant
                n == self.log.log_list().len(),
                0 <= k <= n,
                match found {
                    Some(e) => found_membership_log(self.log.log_list(), upto) == Some(*e),
                    None => found_membership_log(self.log.log_list(), upto)
                        == found_membership_log(self.log.log_list().take(k as int), upto),
                },
            decreases k,
        {
            k = k - 1;
            let e = self.log.entry_at(k);
            let skip = match upto {
                Some(u) => e.log_id.index > u,
                None => false,
            };
            proof {
                assert(self.log.log_list().take(k + 1).drop_last() =~= self.log.log_list().take(
                    k as int,
                ));
                assert(self.log.log_list().take(k + 1).last() == self.log.log_list()[k as int]);
            }
            if !skip {
                let is_membership = match &e.payload {
                    EntryPayload::Membership(_) => true,
                    _ => false,
                };
                if is_membership {
                    found = Some(e);
                }
            }
        }
        proof {
            if found is None {
                assert(self.log.log_list().take(0) =~= Seq::<Entry>::empty());
            }
        }
        let log_index: Option<u64> = match found {
            Some(e) => Some(e.log_id.index),
            None => None,
        };
        let sm_index: Option<u64> = match &self.sm.last_membership {
            Some(em) => Some(em.log_id.index),
            None => None,
        };
        let use_log = match (log_index, sm_index) {
            (Some(x), Some(y)) => x > y,
            (Some(_), None) => true,
            _ => false,
        };
        proof {
            lemma_found_membership_is_membership(self.log.log_list(), upto);
        }
        if use_log {
            match found {
                Some(e) => match &e.payload {
                    EntryPayload::Membership(cfg) => EffectiveMembership {
                        log_id: e.log_id,
                        membership: cfg.clone(),
                    },
                    _ => unreached(),
                },
                None => unreached(),
            }
        } else {
            match &self.sm.last_membership {
                Some(em) => em.clone(),
                None => EffectiveMembership {
                    log_id: LogId { term: 0, index: 0 },
                    membership: MembershipConfig::new_initial(self.id),
                },
            }
        }
    }

    /// The membership configuration currently in effect.
    pub fn get_membership_config(&self) -> (r: EffectiveMembership)
        ensures
            membership_from_log_post(*self, None, r),
    {
        self.get_membership_from_log(None)
    }

    /// The state to recover into on startup. The first call persists the
    /// pristine hard state of a new node; later calls read the saved one
    /// and take the further of the log's and the state machine's last
    /// positions.
    pub fn get_initial_state(&mut self) -> (r: InitialState)
        ensures
            match old(self).hs {
                Some(inner) => {
                    &&& *final(self) == *old(self)
                    &&& r.hard_state == inner
                    &&& r.last_applied == old(self).sm.last_applied_log
                    &&& r.last_log_id == log_id_max(
                        if old(self).log.log_list().len() > 0 {
                            old(self).log.log_list().last().log_id
                        } else {
                            LogId { term: 0, index: 0 }
                        },
                        old(self).sm.last_applied_log,
                    )
                    &&& membership_from_log_post(*old(self), None, r.last_membership)
                },
                None => {
                    &&& *final(self) == (MemStore {
                        hs: Some(HardState { current_term: 0, voted_for: None }),
                        ..*old(self)
                    })
                    &&& r.hard_state == (HardState { current_term: 0, voted_for: None })
                    &&& r.last_log_id == (LogId { term: 0, index: 0 })
                    &&& r.last_applied == (LogId { term: 0, index: 0 })
                    &&& r.last_membership.log_id == (LogId { term: 0, index: 0 })
                    &&& r.last_membership.membership.members@ == Set::<u64>::empty().insert(
                        old(self).id,
                    )
                    &&& r.last_membership.membership.members_after_consensus is None
                },
            },
    {
        let membership = self.get_membership_from_log(None);
        match self.hs {
            Some(inner) => {
                let last_in_log = match self.log.last() {
                    Some(e) => e.log_id,
                    None => LogId { term: 0, index: 0 },
                };
                let last_applied = self.sm.last_applied_log;
                let le = last_in_log.term < last_applied.term || (last_in_log.term
                    == last_applied.term && last_in_log.index <= last_applied.index);
                let last_log_id = if le {
                    last_applied
                } else {
                    last_in_log
                };
                InitialState {
                    last_log_id,
                    last_applied,
                    hard_state: inner,
                    last_membership: membership,
                }
            },
            None => {
                let new = InitialState::new_initial(self.id);
                self.hs = Some(new.hard_state);
                new
            },
        }
    }

    /// Persist the hard state.
    pub fn save_hard_state(&mut self, hs: &HardState)
        ensures
            *final(self) == (MemStore { hs: Some(*hs), ..*old(self) }),
    {
        self.hs = Some(*hs);
    }

    /// The persisted hard state, if one was saved.
    pub fn read_hard_state(&self) -> (r: Option<HardState>)
        ensures
            r == self.hs,
    {
        self.hs
    }

    /// The log entries with index in `start .. end`, in index order.
    pub fn get_log_entries(&self, start: u64, end: u64) -> (r: Vec<&Entry>)
        requires
            start <= end,
        ensures
            ({
                let lo = lower_bound(self.log.log_list(), start);
                let hi = lower_bound(self.log.log_list(), end);
                &&& r@.len() == hi - lo
                &&& forall|k: int| 0 <= k < r@.len() ==> *r@[k] == self.log.log_list()[lo + k]
            }),
    {
        self.log.range(start, end)
    }

    /// The log entries with index in `start .. end`, in index order.
    pub fn try_get_log_entries(&self, start: u64, end: u64) -> (r: Vec<&Entry>)
        requires
            start <= end,
        ensures
            ({
                let lo = lower_bound(self.log.log_list(), start);
                let hi = lower_bound(self.log.log_list(), end);
                &&& r@.len() == hi - lo
                &&& forall|k: int| 0 <= k < r@.len() ==> *r@[k] == self.log.log_list()[lo + k]
            }),
    {
        self.log.range(start, end)
    }

    /// The log entry with index `log_index`, if the log holds one.
    pub fn try_get_log_entry(&self, log_index: u64) -> (r: Option<&Entry>)
        ensures
            match r {
                Some(e) => self.log.log_list().contains(*e) && e.log_id.index == log_index,
                None => forall|i: int|
                    0 <= i < self.log.log_list().len() ==> self.log.log_list()[i].log_id.index
                        != log_index,
            },
    {
        self.log.get(log_index)
    }

    /// The position of the first entry in the log, if it holds one.
    pub fn first_id_in_log(&self) -> (r: Option<LogId>)
        ensures
            r == if self.log.log_list().len() > 0 {
                Some(self.log.log_list()[0].log_id)
            } else {
                None::<LogId>
            },
    {
        match self.log.first() {
            Some(e) => Some(e.log_id),
            None => None,
        }
    }

    /// The first log position this store still knows of: the log's first
    /// entry, or the state machine's last applied position if it lies
    /// earlier or the log is empty.
    pub fn first_known_log_id(&self) -> (r: LogId)
        ensures
            r == if self.log.log_list().len() > 0 {
                log_id_min(self.log.log_list()[0].log_id, self.sm.last_applied_log)
            } else {
                self.sm.last_applied_log
            },
    {
        let last_applied = self.sm.last_applied_log;
        match self.log.first() {
            Some(e) => {
                let x = e.log_id;
                let le = x.term < last_applied.term || (x.term == last_applied.term && x.index
                    <= last_applied.index);
                if le {
                    x
                } else {
                    last_applied
                }
            },
            None => last_applied,
        }
    }

    /// The position of the last entry in the log, or `(0, 0)` when the log
    /// is empty.
    pub fn last_id_in_log(&self) -> (r: LogId)
        ensures
            r == if self.log.log_list().len() > 0 {
                self.log.log_list().last().log_id
            } else {
                LogId { term: 0, index: 0 }
            },
    {
        match self.log.last() {
            Some(e) => e.log_id,
            None => LogId { term: 0, index: 0 },
        }
    }

    /// The state machine's last applied position and the membership it
    /// holds.
    pub fn last_applied_state(&self) -> (r: (LogId, Option<EffectiveMembership>))
        ensures
            r.0 == self.sm.last_applied_log,
            match self.sm.last_membership {
                Some(em) => r.1 is Some && em_like(r.1->Some_0, em.log_id, em.membership),
                None => r.1 is None,
            },
    {
        let m = match &self.sm.last_membership {
            Some(em) => Some(em.clone()),
            None => None,
        };
        (self.sm.last_applied_log, m)
    }

    /// Drop every log entry with index in `start .. end`.
    pub fn delete_logs_from(&mut self, start: u64, end: u64)
        requires
            start <= end,
        ensures
            final(self).log.log_list() == old(self).log.log_list().take(
                lower_bound(old(self).log.log_list(), start),
            ) + old(self).log.log_list().skip(lower_bound(old(self).log.log_list(), end)),
            *final(self) == (MemStore { log: final(self).log, ..*old(self) }),
    {
        self.log.delete_range(start, end);
    }

    /// Write the entries into the log in order, each keyed by its index.
    pub fn append_to_log(&mut self, entries: Vec<Entry>)
        ensures
            final(self).log.log_list() == spec_upsert_all(old(self).log.log_list(), entries@),
            *final(self) == (MemStore { log: final(self).log, ..*old(self) }),
    {
        let ghost all = entries@;
        let mut entries = entries;
        proof {
            assert(all.skip(0) =~= all);
            assert(all.take(0) =~= Seq::<Entry>::empty());
        }
        while entries.len() > 0
            invariant
                entries@.len() <= all.len(),
                entries@ == all.skip(all.len() - entries@.len()),
                self.log.log_list() == spec_upsert_all(
                    old(self).log.log_list(),
                    all.take(all.len() - entries@.len()),
                ),
                *self == (MemStore { log: self.log, ..*old(self) }),
            decreases entries@.len(),
        {
            let ghost k = all.len() - entries@.len();
            let ghost before = entries@;
            let e = entries.remove(0);
            proof {
                assert(before == all.skip(k));
                assert(all.skip(k)[0] == all[k]);
                assert(e == all[k]);
                assert(entries@ =~= before.skip(1));
                assert forall|j: int| 0 <= j < entries@.len() implies entries@[j] == all.skip(
                    k + 1,
                )[j] by {
                    assert(entries@[j] == before[j + 1]);
                    assert(before[j + 1] == all[k + 1 + j]);
                }
                assert(entries@ =~= all.skip(k + 1));
                lemma_upsert_all_take_step(old(self).log.log_list(), all, k);
            }
            self.log.upsert(e);
        }
        proof {
            assert(all.take(all.len() as int) =~= all);
        }
    }

    /// Apply the entries to the state machine in order, answering each with
    /// the client's previously recorded status. A request whose serial was
    /// already applied is answered again with the stored answer and changes
    /// nothing else; membership entries update the recorded membership.
    pub fn apply_to_state_machine(&mut self, entries: &Vec<Entry>) -> (r: Vec<ClientResponse>)
        ensures
            ({
                let fold = sm_apply(
                    serials_view(old(self).sm.client_serial_responses@),
                    status_view(old(self).sm.client_status@),
                    entries@,
                );
                &&& serials_view(final(self).sm.client_serial_responses@) == fold.0
                &&& status_view(final(self).sm.client_status@) == fold.1
                &&& r@.len() == entries@.len()
                &&& r@.map_values(|c: ClientResponse| c@) == fold.2
            }),
            final(self).sm.last_applied_log == if entries@.len() > 0 {
                entries@.last().log_id
            } else {
                old(self).sm.last_applied_log
            },
            match last_membership_entry(entries@) {
                Some(e) => match e.payload {
                    EntryPayload::Membership(cfg) => final(self).sm.last_membership is Some
                        && em_like(final(self).sm.last_membership->Some_0, e.log_id, cfg),
                    _ => false,
                },
                None => final(self).sm.last_membership == old(self).sm.last_membership,
            },
            *final(self) == (MemStore { sm: final(self).sm, ..*old(self) }),
    {
        let ghost s0 = serials_view(old(self).sm.client_serial_responses@);
        let ghost st0 = status_view(old(self).sm.client_status@);
        let n = entries.len();
        let mut res: Vec<ClientResponse> = Vec::new();
        let mut i: usize = 0;
        while i < n
            invariant
                n == entries@.len(),
                0 <= i <= n,
                s0 == serials_view(old(self).sm.client_serial_responses@),
                st0 == status_view(old(self).sm.client_status@),
                res@.len() == i,
                serials_view(self.sm.client_serial_responses@) == sm_apply(
                    s0,
                    st0,
                    entries@.take(i as int),
                ).0,
                status_view(self.sm.client_status@) == sm_apply(s0, st0, entries@.take(i as int)).1,
                res@.map_values(|c: ClientResponse| c@) == sm_apply(
                    s0,
                    st0,
                    entries@.take(i as int),
                ).2,
                self.sm.last_applied_log == if i > 0 {
                    entries@[i - 1].log_id
                } else {
                    old(self).sm.last_applied_log
                },
                match last_membership_entry(entries@.take(i as int)) {
                    Some(e) => match e.payload {
                        EntryPayload::Membership(cfg) => self.sm.last_membership is Some
                            && em_like(self.sm.last_membership->Some_0, e.log_id, cfg),
                        _ => false,
                    },
                    None => self.sm.last_membership == old(self).sm.last_membership,
                },
                *self == (MemStore { sm: self.sm, ..*old(self) }),
            decreases n - i,
        {
            let entry = &entries[i];
            let ghost fold_i = sm_apply(s0, st0, entries@.take(i as int));
            proof {
                assert(entries@.take(i + 1) =~= entries@.take(i as int).push(entries@[i as int]));
                lemma_sm_apply_push(s0, st0, entries@.take(i as int), entries@[i as int]);
                assert(entries@.take(i + 1).drop_last() =~= entries@.take(i as int));
                assert(entries@.take(i + 1).last() == entries@[i as int]);
            }
            self.sm.last_applied_log = entry.log_id;
            match &entry.payload {
                EntryPayload::Blank => {
                    res.push(ClientResponse(None));
                },
                EntryPayload::Normal(data) => {
                    let mut dup: Option<Option<String>> = None;
                    match self.sm.client_serial_responses.get(&data.client) {
                        Some(pair) => {
                            if pair.0 == data.serial {
                                dup = Some(clone_ostr(&pair.1));
                            }
                        },
                        None => {},
                    }
                    match dup {
                        Some(r0) => {
                            proof {
                                assert(serials_view(self.sm.client_serial_responses@).contains_key(
                                    data.client@,
                                ));
                            }
                            res.push(ClientResponse(r0));
                        },
                        None => {
                            let previous = self.sm.client_status.insert(
                                data.client.clone(),
                                data.status.clone(),
                            );
                            let prev2 = clone_ostr(&previous);
                            let _old_serial = self.sm.client_serial_responses.insert(
                                data.client.clone(),
                                (data.serial, prev2),
                            );
                            proof {
                                assert(serials_view(self.sm.client_serial_responses@)
                                    =~= sm_apply(s0, st0, entries@.take(i + 1)).0);
                                assert(status_view(self.sm.client_status@) =~= sm_apply(
                                    s0,
                                    st0,
                                    entries@.take(i + 1),
                                ).1);
                            }
                            res.push(ClientResponse(previous));
                        },
                    }
                },
                EntryPayload::Membership(mem) => {
                    self.sm.last_membership = Some(
                        EffectiveMembership { log_id: entry.log_id, membership: mem.clone() },
                    );
                    res.push(ClientResponse(None));
                },
            }
            proof {
                assert(res@.map_values(|c: ClientResponse| c@) =~= sm_apply(
                    s0,
                    st0,
                    entries@.take(i + 1),
                ).2);
            }
            i += 1;
        }
        proof {
            assert(entries@.take(n as int) =~= entries@);
            if n > 0 {
                assert(entries@[n - 1] == entries@.last());
            }
        }
        res
    }

    /// Record a freshly built snapshot: bump the snapshot counter, name the
    /// snapshot after the applied position and the counter, store it, and
    /// hand it back. The caller supplies the serialized state machine.
    pub fn do_log_compaction(&mut self, sm_bytes: Vec<u8>) -> (r: MemStoreSnapshot)
        requires
            old(self).snapshot_idx < u64::MAX,
        ensures
            final(self).snapshot_idx == old(self).snapshot_idx + 1,
            r.meta.last_log_id == old(self).sm.last_applied_log,
            r.meta.snapshot_id@ == dec_uint(old(self).sm.last_applied_log.term as int) + seq!['-']
                + dec_uint(old(self).sm.last_applied_log.index as int) + seq!['-'] + dec_uint(
                old(self).snapshot_idx + 1,
            ),
            r.data@ == sm_bytes@,
            match final(self).current_snapshot {
                Some(s) => s.meta.last_log_id == r.meta.last_log_id && s.meta.snapshot_id@
                    == r.meta.snapshot_id@ && s.data@ == sm_bytes@,
                None => false,
            },
            *final(self) == (MemStore {
                snapshot_idx: final(self).snapshot_idx,
                current_snapshot: final(self).current_snapshot,
                ..*old(self)
            }),
    {
        self.snapshot_idx = self.snapshot_idx + 1;
        let last_applied_log = self.sm.last_applied_log;
        let snapshot_id = render_snapshot_id(
            last_applied_log.term,
            last_applied_log.index,
            self.snapshot_idx,
        );
        let meta = SnapshotMeta { last_log_id: last_applied_log, snapshot_id };
        let data_stored = sm_bytes.clone();
        proof {
            assert(data_stored@ =~= sm_bytes@);
        }
        self.current_snapshot = Some(MemStoreSnapshot { meta: meta.clone(), data: data_stored });
        MemStoreSnapshot { meta, data: sm_bytes }
    }

    /// Install a snapshot received from the leader: the decoded state
    /// machine replaces the current one, the snapshot becomes the store's
    /// current snapshot, and the change is reported.
    pub fn finalize_snapshot_installation(
        &mut self,
        meta: SnapshotMeta,
        new_sm: MemStoreStateMachine,
        data: Vec<u8>,
    ) -> (r: StateMachineChanges)
        ensures
            final(self).sm == new_sm,
            match final(self).current_snapshot {
                Some(s) => s.meta == meta && s.data == data,
                None => false,
            },
            r == (StateMachineChanges { last_applied: Some(meta.last_log_id), is_snapshot: true }),
            *final(self) == (MemStore {
                sm: final(self).sm,
                current_snapshot: final(self).current_snapshot,
                ..*old(self)
            }),
    {
        let last_log_id = meta.last_log_id;
        self.sm = new_sm;
        self.current_snapshot = Some(MemStoreSnapshot { meta, data });
        StateMachineChanges { last_applied: Some(last_log_id), is_snapshot: true }
    }

    /// The current snapshot, if one was taken.
    pub fn get_current_snapshot(&self) -> (r: Option<&MemStoreSnapshot>)
        ensures
            r is Some <==> self.current_snapshot is Some,
            r is Some ==> *r->Some_0 == self.current_snapshot->Some_0,
    {
        self.current_snapshot.as_ref()
    }
}

proof fn lemma_upsert_all_take_step(s: Seq<Entry>, all: Seq<Entry>, k: int)
    requires
        0 <= k < all.len(),
    ensures
        spec_upsert_all(s, all.take(k + 1)) == spec_upsert(spec_upsert_all(s, all.take(k)), all[k]),
    decreases all.take(k).len(),
{
    lemma_upsert_all_push(s, all.take(k), all[k]);
    assert(all.take(k + 1) =~= all.take(k).push(all[k]));
}

proof fn lemma_upsert_all_push(s: Seq<Entry>, es: Seq<Entry>, e: Entry)
    ensures
        spec_upsert_all(s, es.push(e)) == spec_upsert(spec_upsert_all(s, es), e),
    decreases es.len(),
{
    if es.len() == 0 {
        assert(es.push(e)[0] == e);
        assert(es.push(e).drop_first() =~= Seq::<Entry>::empty());
        assert(spec_upsert_all(spec_upsert(s, e), Seq::<Entry>::empty()) == spec_upsert(s, e));
        assert(spec_upsert_all(s, Seq::<Entry>::empty()) == s);
    } else {
        assert(es.push(e)[0] == es[0]);
        assert(es.push(e).drop_first() =~= es.drop_first().push(e));
        lemma_upsert_all_push(spec_upsert(s, es[0]), es.drop_first(), e);
    }
}

} // verus!
