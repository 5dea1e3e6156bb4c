//! The leader's replication core: per-peer match tracking, the
//! replication-event dispatcher, commit-index advancement under uniform and
//! joint consensus, non-voter catch-up gating, snapshot dispatch decisions,
//! and the queue of client requests awaiting commit.
//!
//! Every handler is a verified state transition. Work that only the
//! surrounding runtime can do — persisting hard state, appending log
//! entries, applying committed requests, building snapshots — is handed back
//! as a [`LeaderEffect`] for the caller to perform.

use vstd::prelude::*;
use crate::channel::{broadcast_subscribe, oneshot_send, unbounded_send};
use crate::membership::{MembershipConfig, NodeSet};
use crate::quorum::calculate_new_commit_index;
use crate::quorum::geq_count;
use crate::quorum::lemma_commit_index_majority;
use crate::quorum::lemma_commit_index_term_matches;
use crate::quorum::lemma_geq_count_monotone;
use crate::quorum::lemma_commit_index_monotonic;
use crate::quorum::lemma_new_commit_index_idempotent;
use crate::quorum::new_commit_index;
use crate::quorum::snapshot_is_within_half_of_threshold;
use crate::quorum::spec_majority;
use crate::quorum::within_half_of_threshold;
use crate::raft_types::LogId;
use crate::replication::ChangeConfigError;
use crate::replication::CurrentSnapshotData;
use crate::replication::NonVoterReplicationState;
use crate::replication::RaftEvent;
use crate::replication::ReplicaEvent;
use crate::replication::ReplicationState;
use crate::replication::ReplicationStream;
use crate::store::ClientResponse;
use crate::store::HardState;
use crate::table::NodeTable;

verus! {

/// The role a node is in, or is moving to.
#[derive(Clone, Copy, Debug, PartialEq, Eq, Structural)]
pub enum State {
    NonVoter,
    Follower,
    Candidate,
    Leader,
    Shutdown,
}

/// When snapshots are taken.
#[derive(Clone, Copy, Debug, PartialEq, Eq, Structural)]
pub enum SnapshotPolicy {
    /// Snapshot once this many entries have accumulated since the last one.
    LogsSinceLast(u64),
}

/// The runtime options the leader core reads.
#[derive(Clone, Copy, Debug)]
pub struct Config {
    /// How often an idle worker sends a heartbeat, in milliseconds.
    pub heartbeat_interval: u64,
    /// When snapshots are taken; also governs when an existing snapshot is
    /// still fresh enough to serve.
    pub snapshot_policy: SnapshotPolicy,
}

/// How the known leader changes on a role transition.
#[derive(Clone, Copy, Debug, PartialEq, Eq, Structural)]
pub enum UpdateCurrentLeader {
    Unknown,
    OtherNode(u64),
    ThisNode,
}

/// The replication progress reported for one peer.
pub struct ReplicationMetrics {
    /// The last log position confirmed replicated on the peer.
    pub matched: LogId,
}

/// Where a membership change stands.
pub enum ConsensusState {
    /// No change is in flight.
    Uniform,
    /// A change was requested; the listed non-voters must reach line rate
    /// before the joint-consensus entry is appended.
    NonVoterSync {
        /// The nodes still catching up.
        awaiting: NodeSet,
        /// The full membership the change moves to.
        members: NodeSet,
        /// The requesting caller's completion channel.
        tx: tokio::sync::oneshot::Sender<Result<(), ChangeConfigError>>,
    },
}

/// A snapshot build in progress. At most one exists at a time: the leader
/// holds it in a single optional slot.
pub struct Snapshotting {
    /// The build task.
    pub handle: tokio::task::JoinHandle<()>,
    /// Broadcasts the covered log index when the build completes.
    pub sender: tokio::sync::broadcast::Sender<u64>,
}

/// The error answered to a client whose request outlived this leadership.
#[derive(Clone, Copy, Debug, PartialEq, Eq, Structural)]
pub enum ClientWriteError {
    /// The node stepped down before the request's entry was committed.
    LeadershipLost,
}

/// A client request awaiting its log index to become committed.
pub struct ClientRequestPending {
    /// The log index assigned to the request's entry.
    pub index: u64,
    /// The requesting caller's completion channel.
    pub tx: tokio::sync::oneshot::Sender<Result<ClientResponse, ClientWriteError>>,
}

/// Work the dispatcher cannot do itself and hands back to the caller.
pub enum LeaderEffect {
    /// Persist this hard state before the follower transition is acted on.
    SaveHardState { hard_state: HardState },
    /// Run the membership-change protocol for these members, answering the
    /// caller on `tx`.
    ChangeMembership {
        members: NodeSet,
        tx: tokio::sync::oneshot::Sender<Result<(), ChangeConfigError>>,
    },
    /// Append the joint-consensus entry carrying these members, answering
    /// the caller on `tx`.
    AppendJointConsensus {
        members: NodeSet,
        tx: tokio::sync::oneshot::Sender<Result<(), ChangeConfigError>>,
    },
    /// Apply these committed requests in order, answering each caller.
    ApplyCommitted { requests: Vec<ClientRequestPending> },
    /// Look the current snapshot up and hand it to
    /// [`LeaderState::handle_needs_snapshot`] together with `tx`.
    FetchSnapshot { target: u64, tx: tokio::sync::oneshot::Sender<CurrentSnapshotData> },
    /// Wait on `rx` for the running snapshot build, then drop `tx`: the
    /// worker re-requests and is then served the finished snapshot.
    DeferSnapshotReply {
        rx: tokio::sync::broadcast::Receiver<u64>,
        tx: tokio::sync::oneshot::Sender<CurrentSnapshotData>,
    },
    /// Build a fresh snapshot.
    TriggerLogCompaction,
}

/// How many of the queued indexes are at or below `c` — with the queue
/// sorted ascending, the length of the committed prefix.
pub open spec fn cut(s: Seq<u64>, c: u64) -> int
    decreases s.len(),
{
    if s.len() == 0 {
        0
    } else if s[0] <= c {
        1 + cut(s.drop_first(), c)
    } else {
        0
    }
}

proof fn lemma_cut_props(s: Seq<u64>, c: u64)
    ensures
        0 <= cut(s, c) <= s.len(),
        forall|j: int| 0 <= j < cut(s, c) ==> s[j] <= c,
        cut(s, c) < s.len() ==> s[cut(s, c)] > c,
    decreases s.len(),
{
    if s.len() > 0 && s[0] <= c {
        lemma_cut_props(s.drop_first(), c);
        assert(forall|j: int| 0 <= j < s.len() - 1 ==> s.drop_first()[j] == s[j + 1]);
        assert forall|j: int| 0 <= j < cut(s, c) implies s[j] <= c by {
            if j > 0 {
                assert(s.drop_first()[j - 1] <= c);
            }
        }
    }
}

/// The ordered queue of client requests whose completion is gated on their
/// log index becoming committed. Indexes are strictly ascending, so requests
/// are popped in strictly ascending index order.
pub struct CommitQueue {
    q: Vec<ClientRequestPending>,
}

impl CommitQueue {
    /// The queued requests, front first.
    pub closed spec fn item_list(&self) -> Seq<ClientRequestPending> {
        self.q@
    }

    /// The queued entry indexes, front first.
    pub open spec fn index_list(&self) -> Seq<u64> {
        self.item_list().map_values(|p: ClientRequestPending| p.index)
    }

    /// Indexes are strictly ascending in queue order. Holds of every queue;
    /// exported through `use_type_invariant`.
    #[verifier::type_invariant]
    pub open spec fn wf(self) -> bool {
        forall|i: int, j: int|
            0 <= i < j < self.index_list().len() ==> self.index_list()[i] < self.index_list()[j]
    }

    /// An empty queue.
    pub fn new() -> (r: CommitQueue)
        ensures
            r.item_list() == Seq::<ClientRequestPending>::empty(),
    {
        CommitQueue { q: Vec::new() }
    }

    /// How many requests are waiting.
    pub fn len(&self) -> (r: usize)
        ensures
            r == self.item_list().len(),
    {
        self.q.len()
    }

    /// Queue a request. Its index must lie past every queued index; a
    /// request out of order is handed back unchanged.
    pub fn push(&mut self, req: ClientRequestPending) -> (r: Result<(), ClientRequestPending>)
        ensures
            match r {
                Ok(()) => final(self).item_list() == old(self).item_list().push(req) && (old(
                    self,
                ).item_list().len() == 0 || old(self).index_list().last() < req.index),
                Err(back) => back == req && *final(self) == *old(self) && !(old(
                    self,
                ).item_list().len() == 0 || old(self).index_list().last() < req.index),
            },
    {
        proof {
            use_type_invariant(&*self);
        }
        let n = self.q.len();
        let ok = if n == 0 {
            true
        } else {
            self.q[n - 1].index < req.index
        };
        if ok {
            let ghost orig = self.q@;
            let mut q = Vec::new();
            std::mem::swap(&mut q, &mut self.q);
            q.push(req);
            proof {
                assert(forall|a: int| 0 <= a < orig.len() ==> q@[a] == #[trigger] orig[a]);
                assert forall|i: int, j: int|
                    0 <= i < j < q@.len() implies q@[i].index < q@[j].index by {
                    if j < orig.len() {
                        assert(orig[i].index < orig[j].index) by {
                            assert(old(self).index_list()[i] < old(self).index_list()[j]);
                        }
                    } else {
                        assert(q@[j] == req);
                        if i < orig.len() - 1 {
                            assert(old(self).index_list()[i] < old(self).index_list()[orig.len()
                                - 1]);
                        }
                    }
                }
            }
            std::mem::swap(&mut q, &mut self.q);
            Ok(())
        } else {
            Err(req)
        }
    }

    /// Pop, in order, every queued request whose index is at or below
    /// `commit_index`: the head of the queue up to the committed prefix.
    pub fn drain_through(&mut self, commit_index: u64) -> (r: Vec<ClientRequestPending>)
        ensures
            r@ == old(self).item_list().take(cut(old(self).index_list(), commit_index)),
            final(self).item_list() == old(self).item_list().skip(
                cut(old(self).index_list(), commit_index),
            ),
            forall|i: int, j: int| 0 <= i < j < r@.len() ==> r@[i].index < r@[j].index,
            forall|i: int| 0 <= i < r@.len() ==> r@[i].index <= commit_index,
            forall|i: int|
                0 <= i < final(self).index_list().len() ==> final(self).index_list()[i]
                    > commit_index,
    {
        proof {
            use_type_invariant(&*self);
            lemma_cut_props(old(self).index_list(), commit_index);
        }
        let ghost orig = self.q@;
        let ghost k_spec = cut(old(self).index_list(), commit_index);
        let n = self.q.len();
        let mut k: usize = 0;
        while k < n && self.q[k].index <= commit_index
            invariant
                n == self.q@.len(),
                self.q@ == orig,
                0 <= k <= n,
                forall|j: int| 0 <= j < k ==> orig[j].index <= commit_index,
            decreases n - k,
        {
            k += 1;
        }
        proof {
            // the loop found the same boundary the specification describes
            if k < k_spec {
                assert(orig[k as int].index <= commit_index) by {
                    assert(old(self).index_list()[k as int] <= commit_index);
                }
                assert(false);
            }
            if k_spec < k {
                assert(old(self).index_list()[k_spec] > commit_index);
                assert(orig[k_spec].index > commit_index);
                assert(false);
            }
        }
        let mut q = Vec::new();
        std::mem::swap(&mut q, &mut self.q);
        let tail = q.split_off(k);
        proof {
            assert(q@ =~= orig.take(k as int));
            assert(tail@ =~= orig.skip(k as int));
            assert forall|i: int, j: int|
                0 <= i < j < tail@.len() implies tail@[i].index < tail@[j].index by {
                assert(old(self).index_list()[k + i] < old(self).index_list()[k + j]);
            }
        }
        let mut tail2 = tail;
        std::mem::swap(&mut tail2, &mut self.q);
        proof {
            assert forall|i: int, j: int| 0 <= i < j < q@.len() implies q@[i].index
                < q@[j].index by {
                assert(old(self).index_list()[i] < old(self).index_list()[j]);
            }
            assert forall|i: int|
                0 <= i < final(self).index_list().len() implies final(self).index_list()[i]
                > commit_index by {
                if k < n {
                    assert(orig[k as int].index > commit_index);
                    if i > 0 {
                        assert(old(self).index_list()[k as int] < old(self).index_list()[k + i]);
                    }
                }
            }
        }
        q
    }

    /// Pop every queued request, in order: used when leadership is lost and
    /// each caller must be answered with the failure.
    pub fn take_all(&mut self) -> (r: Vec<ClientRequestPending>)
        ensures
            r@ == old(self).item_list(),
            final(self).item_list() == Seq::<ClientRequestPending>::empty(),
    {
        let mut q = Vec::new();
        std::mem::swap(&mut q, &mut self.q);
        q
    }
}

/// The leader's volatile state: identity, log head, commit index,
/// membership, per-peer tables, membership-change and snapshot progress, and
/// the commit-gated client queue.
pub struct LeaderState {
    /// This node's id.
    pub id: u64,
    /// The leader's current term.
    pub current_term: u64,
    /// Who this node voted for in `current_term`.
    pub voted_for: Option<u64>,
    /// The index of the last log entry.
    pub last_log_index: u64,
    /// The term of the last log entry.
    pub last_log_term: u64,
    /// The highest log index known committed.
    pub commit_index: u64,
    /// The cluster's voting configuration.
    pub membership: MembershipConfig,
    /// The node currently believed to be leader, if known.
    pub current_leader: Option<u64>,
    /// The role this node is in or moving to.
    pub target_state: State,
    /// Runtime options.
    pub config: Config,
    /// The snapshot build in progress, if one is. A single optional slot:
    /// at most one build is ever active.
    pub snapshot_state: Option<Snapshotting>,
    /// Replication bookkeeping for each voter peer.
    pub nodes: NodeTable<ReplicationState>,
    /// Replication bookkeeping for each non-voter peer.
    pub non_voters: NodeTable<NonVoterReplicationState>,
    /// Where a membership change stands.
    pub consensus_state: ConsensusState,
    /// Client requests awaiting their index to become committed.
    pub awaiting_committed: CommitQueue,
    /// Reported replication progress per peer.
    pub leader_metrics: NodeTable<ReplicationMetrics>,
}

impl LeaderState {
    /// Whether `id` is this node or has a replication record.
    pub open spec fn node_known(self, id: u64) -> bool {
        id == self.id || self.nodes@.contains_key(id) || self.non_voters@.contains_key(id)
    }

    /// Every node of `ids` is known.
    pub open spec fn covers(self, ids: Set<u64>) -> bool {
        forall|id: u64| ids.contains(id) ==> self.node_known(id)
    }

    /// A voter being drained for removal is no longer in any voter set.
    pub open spec fn no_member_marked(self) -> bool {
        forall|id: u64|
            self.nodes@.contains_key(id) && (#[trigger] self.nodes@[id]).remove_after_commit
                is Some ==> !self.membership.members@.contains(id) && !(match self
                .membership
                .members_after_consensus {
                Some(m) => m@.contains(id),
                None => false,
            })
    }

    /// The dispatcher's working assumptions: every voter of the current (and,
    /// during joint consensus, the new) configuration is the leader itself or
    /// has a replication record, and drained voters are out of both sets.
    pub open spec fn wf(self) -> bool {
        &&& self.covers(self.membership.members@)
        &&& match self.membership.members_after_consensus {
            Some(m) => self.covers(m@),
            None => true,
        }
        &&& self.no_member_marked()
    }

    /// The `(match_index, match_term)` pair node `id` contributes to the
    /// commit calculation: the log head for the leader itself, the recorded
    /// match for a tracked peer.
    pub open spec fn match_pair(self, id: u64) -> (u64, u64) {
        if id == self.id {
            (self.last_log_index, self.last_log_term)
        } else if self.nodes@.contains_key(id) {
            (self.nodes@[id].match_index, self.nodes@[id].match_term)
        } else {
            (self.non_voters@[id].state.match_index, self.non_voters@[id].state.match_term)
        }
    }

    /// The match pairs of the listed nodes, in listing order.
    pub open spec fn member_pairs(self, ids: Seq<u64>) -> Seq<(u64, u64)> {
        ids.map_values(|id: u64| self.match_pair(id))
    }

    /// The commit index the listed voter set alone would allow.
    pub open spec fn members_commit(self, ids: Seq<u64>) -> u64 {
        new_commit_index(self.member_pairs(ids), self.commit_index, self.current_term)
    }

    /// The commit index the whole configuration allows: under joint
    /// consensus, the smaller of the two sets' quorum results.
    pub open spec fn spec_calc_commit_index(self) -> u64 {
        let c0 = self.members_commit(self.membership.members.id_list());
        match self.membership.members_after_consensus {
            Some(m) => {
                let c1 = self.members_commit(m.id_list());
                if c0 < c1 {
                    c0
                } else {
                    c1
                }
            },
            None => c0,
        }
    }

    /// A fresh leader record. Peers are registered afterwards with
    /// [`LeaderState::add_voter`] and [`LeaderState::add_non_voter`];
    /// dispatching starts once [`LeaderState::check_wf`] says the
    /// configuration is covered.
    pub fn new(
        id: u64,
        current_term: u64,
        last_log_index: u64,
        last_log_term: u64,
        commit_index: u64,
        membership: MembershipConfig,
        config: Config,
    ) -> (r: LeaderState)
        ensures
            r.id == id,
            r.current_term == current_term,
            r.voted_for == Some(id),
            r.last_log_index == last_log_index,
            r.last_log_term == last_log_term,
            r.commit_index == commit_index,
            r.membership == membership,
            r.current_leader == Some(id),
            r.target_state == State::Leader,
            r.config == config,
            r.snapshot_state is None,
            r.nodes@ == Map::<u64, ReplicationState>::empty(),
            r.non_voters@ == Map::<u64, NonVoterReplicationState>::empty(),
            r.consensus_state is Uniform,
            r.awaiting_committed.item_list() == Seq::<ClientRequestPending>::empty(),
            r.leader_metrics@ == Map::<u64, ReplicationMetrics>::empty(),
    {
        LeaderState {
            id,
            current_term,
            voted_for: Some(id),
            last_log_index,
            last_log_term,
            commit_index,
            membership,
            current_leader: Some(id),
            target_state: State::Leader,
            config,
            snapshot_state: None,
            nodes: NodeTable::new(),
            non_voters: NodeTable::new(),
            consensus_state: ConsensusState::Uniform,
            awaiting_committed: CommitQueue::new(),
            leader_metrics: NodeTable::new(),
        }
    }

    /// Whether the dispatcher's working assumptions hold of the current
    /// state, checked at run time so that unverified callers can establish
    /// them before dispatching events.
    pub fn check_wf(&self) -> (r: bool)
        ensures
            r == self.wf(),
    {
        let c0 = self.members_covered(&self.membership.members);
        let c1 = match &self.membership.members_after_consensus {
            Some(m) => self.members_covered(m),
            None => true,
        };
        let c2 = self.no_marked_member();
        c0 && c1 && c2
    }

    fn members_covered(&self, ids: &NodeSet) -> (r: bool)
        ensures
            r == self.covers(ids@),
    {
        let n = ids.len();
        let mut i: usize = 0;
        while i < n
            invariant
                n == ids.id_list().len(),
                0 <= i <= n,
                forall|j: int| 0 <= j < i ==> self.node_known(#[trigger] ids.id_list()[j]),
            decreases n - i,
        {
            let id = ids.id_at(i);
            if !(id == self.id || self.nodes.contains_key(id) || self.non_voters.contains_key(id)) {
                proof {
                    assert(ids@.contains(id));
                }
                return false;
            }
            i += 1;
        }
        proof {
            use_type_invariant(ids);
            ids.lemma_ids();
            assert forall|id: u64| ids@.contains(id) implies self.node_known(id) by {
                let j = choose|j: int| 0 <= j < ids.id_list().len() && ids.id_list()[j] == id;
                assert(self.node_known(ids.id_list()[j]));
            }
        }
        true
    }

    fn no_marked_member(&self) -> (r: bool)
        ensures
            r == self.no_member_marked(),
    {
        let n = self.nodes.len();
        let mut i: usize = 0;
        while i < n
            invariant
                n == self.nodes.key_list().len(),
                0 <= i <= n,
                forall|j: int|
                    0 <= j < i ==> {
                        let id = #[trigger] self.nodes.key_list()[j];
                        self.nodes@[id].remove_after_commit is Some ==> !self
                            .membership
                            .members@
                            .contains(id) && !(match self.membership.members_after_consensus {
                            Some(m) => m@.contains(id),
                            None => false,
                        })
                    },
            decreases n - i,
        {
            let id = self.nodes.key_at(i);
            let marked = self.nodes.value_at(i).remove_after_commit.is_some();
            if marked {
                let in_old = self.membership.members.contains(id);
                let in_new = match &self.membership.members_after_consensus {
                    Some(m) => m.contains(id),
                    None => false,
                };
                if in_old || in_new {
                    return false;
                }
            }
            i += 1;
        }
        proof {
            use_type_invariant(&self.nodes);
            self.nodes.lemma_keys();
            assert forall|id: u64|
                self.nodes@.contains_key(id) && (#[trigger] self.nodes@[id]).remove_after_commit
                    is Some implies !self.membership.members@.contains(id) && !(match self
                .membership
                .members_after_consensus {
                Some(m) => m@.contains(id),
                None => false,
            }) by {
                assert(self.nodes.key_list().contains(id));
                let j = choose|j: int|
                    0 <= j < self.nodes.key_list().len() && self.nodes.key_list()[j] == id;
                assert(self.nodes.key_list()[j] == id);
            }
        }
        true
    }

    /// Build the replication record for a freshly spawned replication
    /// stream: matched at the leader's own log head, in the leader's term,
    /// not marked for removal.
    pub fn spawn_replication_stream(&self, replstream: ReplicationStream) -> (r: ReplicationState)
        ensures
            r.match_index == self.last_log_index,
            r.match_term == self.current_term,
            r.remove_after_commit is None,
            r.replstream == replstream,
    {
        ReplicationState {
            match_index: self.last_log_index,
            match_term: self.current_term,
            replstream,
            remove_after_commit: None,
        }
    }

    /// Register a voter peer's freshly spawned worker.
    pub fn add_voter(&mut self, target: u64, replstream: ReplicationStream)
        ensures
            final(self).nodes@ == old(self).nodes@.insert(
                target,
                ReplicationState {
                    match_index: old(self).last_log_index,
                    match_term: old(self).current_term,
                    remove_after_commit: None,
                    replstream: replstream,
                },
            ),
            *final(self) == (LeaderState { nodes: final(self).nodes, ..*old(self) }),
    {
        let state = self.spawn_replication_stream(replstream);
        self.nodes.insert(target, state);
    }

    /// Register a non-voter peer's freshly spawned worker, holding the
    /// caller's completion channel until the peer first reaches line rate.
    pub fn add_non_voter(
        &mut self,
        target: u64,
        replstream: ReplicationStream,
        tx: tokio::sync::oneshot::Sender<Result<(), ChangeConfigError>>,
    )
        ensures
            final(self).non_voters@ == old(self).non_voters@.insert(
                target,
                NonVoterReplicationState {
                    state: ReplicationState {
                        match_index: old(self).last_log_index,
                        match_term: old(self).current_term,
                        remove_after_commit: None,
                        replstream: replstream,
                    },
                    is_ready_to_join: false,
                    tx: Some(tx),
                },
            ),
            *final(self) == (LeaderState { non_voters: final(self).non_voters, ..*old(self) }),
    {
        let state = self.spawn_replication_stream(replstream);
        self.non_voters.insert(
            target,
            NonVoterReplicationState { state, is_ready_to_join: false, tx: Some(tx) },
        );
    }

    /// Record a peer's reported progress in the metrics table.
    pub fn update_leader_metrics(&mut self, target: u64, match_term: u64, match_index: u64)
        ensures
            final(self).leader_metrics@ == old(self).leader_metrics@.insert(
                target,
                ReplicationMetrics { matched: LogId { term: match_term, index: match_index } },
            ),
            *final(self) == (LeaderState { leader_metrics: final(self).leader_metrics, ..*old(self) }),
    {
        self.leader_metrics.insert(
            target,
            ReplicationMetrics { matched: LogId { term: match_term, index: match_index } },
        );
    }

    /// The matching `(index, term)` of the replication state of the
    /// specified nodes, in listing order; the leader contributes its own log
    /// head.
    pub fn get_match_indexes(&self, node_ids: &NodeSet) -> (r: Vec<(u64, u64)>)
        requires
            self.covers(node_ids@),
        ensures
            r@ == self.member_pairs(node_ids.id_list()),
    {
        let n = node_ids.len();
        let mut rst: Vec<(u64, u64)> = Vec::new();
        let mut i: usize = 0;
        while i < n
            invariant
                n == node_ids.id_list().len(),
                self.covers(node_ids@),
                0 <= i <= n,
                rst@.len() == i,
                forall|j: int|
                    0 <= j < i ==> rst@[j] == self.match_pair(#[trigger] node_ids.id_list()[j]),
            decreases n - i,
        {
            let id = node_ids.id_at(i);
            let pair: (u64, u64) = if id == self.id {
                (self.last_log_index, self.last_log_term)
            } else {
                match self.nodes.get(id) {
                    Some(x) => (x.match_index, x.match_term),
                    None => match self.non_voters.get(id) {
                        Some(x) => (x.state.match_index, x.state.match_term),
                        None => unreached(),
                    },
                }
            };
            rst.push(pair);
            i += 1;
        }
        proof {
            assert(rst@ =~= self.member_pairs(node_ids.id_list()));
        }
        rst
    }

    /// The commit index the given voter set alone would allow.
    pub fn calc_members_commit_index(&self, mem: &NodeSet) -> (r: u64)
        requires
            self.covers(mem@),
        ensures
            r == self.members_commit(mem.id_list()),
            r >= self.commit_index,
    {
        let indices = self.get_match_indexes(mem);
        calculate_new_commit_index(indices, self.commit_index, self.current_term)
    }

    /// The commit index the whole configuration allows: under joint
    /// consensus the smaller of the two sets' quorum results, else the
    /// current set's.
    pub fn calc_commit_index(&self) -> (r: u64)
        requires
            self.wf(),
        ensures
            r == self.spec_calc_commit_index(),
            r >= self.commit_index,
    {
        let c0 = self.calc_members_commit_index(&self.membership.members);
        match &self.membership.members_after_consensus {
            Some(members) => {
                let c1 = self.calc_members_commit_index(members);
                if c0 < c1 {
                    c0
                } else {
                    c1
                }
            },
            None => c0,
        }
    }

    /// Whether `m` still blocks a membership change: it is neither the
    /// leader nor a tracked voter, and has not yet reached line rate as a
    /// non-voter.
    pub open spec fn not_ready_for_join(self, m: u64) -> bool {
        m != self.id && !self.nodes@.contains_key(m) && !(self.non_voters@.contains_key(m)
            && self.non_voters@[m].is_ready_to_join)
    }

    /// The nodes of `members` that still block a membership change.
    pub open spec fn awaiting_set(self, members: Set<u64>) -> Set<u64> {
        members.filter(|m: u64| self.not_ready_for_join(m))
    }
}

/// What a call of [`LeaderState::change_membership`] leaves behind: with
/// every new member ready, the joint-consensus append is handed back;
/// otherwise the change parks in `NonVoterSync` until the stragglers reach
/// line rate.
pub open spec fn change_membership_post(
    pre: LeaderState,
    post: LeaderState,
    members: NodeSet,
    tx: tokio::sync::oneshot::Sender<Result<(), ChangeConfigError>>,
    r: Option<LeaderEffect>,
) -> bool {
    let aw = pre.awaiting_set(members@);
    if aw =~= Set::<u64>::empty() {
        post == pre && r == Some(
            LeaderEffect::AppendJointConsensus { members: members, tx: tx },
        )
    } else {
        &&& post == (LeaderState { consensus_state: post.consensus_state, ..pre })
        &&& match post.consensus_state {
            ConsensusState::NonVoterSync { awaiting: a2, members: m2, tx: t2 } => a2@ == aw && m2
                == members && t2 == tx,
            ConsensusState::Uniform => false,
        }
        &&& r is None
    }
}

/// What a call of [`LeaderState::handle_rate_update`] leaves behind. A voter
/// is left alone. A non-voter's readiness flag tracks the report; on
/// readiness its completion channel is taken — so it can never be fired a
/// second time — and a parked membership change advances: the node leaves
/// `awaiting`, and when `awaiting` empties the change is resumed.
pub open spec fn rate_update_post(
    pre: LeaderState,
    post: LeaderState,
    target: u64,
    is_line_rate: bool,
    r: Option<LeaderEffect>,
) -> bool {
    if pre.nodes@.contains_key(target) || !pre.non_voters@.contains_key(target) {
        post == pre && r is None
    } else {
        let rec = pre.non_voters@[target];
        let rec2 = NonVoterReplicationState {
            is_ready_to_join: is_line_rate,
            tx: if is_line_rate {
                None
            } else {
                rec.tx
            },
            ..rec
        };
        &&& post.non_voters@ == pre.non_voters@.insert(target, rec2)
        &&& if !is_line_rate {
            post == (LeaderState { non_voters: post.non_voters, ..pre }) && r is None
        } else {
            match pre.consensus_state {
                ConsensusState::Uniform => post == (LeaderState {
                    non_voters: post.non_voters,
                    ..pre
                }) && r is None,
                ConsensusState::NonVoterSync { awaiting, members, tx } => {
                    &&& post == (LeaderState {
                        non_voters: post.non_voters,
                        consensus_state: post.consensus_state,
                        ..pre
                    })
                    &&& if awaiting@.remove(target) =~= Set::<u64>::empty() {
                        post.consensus_state is Uniform && r == Some(
                            LeaderEffect::ChangeMembership { members: members, tx: tx },
                        )
                    } else {
                        &&& match post.consensus_state {
                            ConsensusState::NonVoterSync { awaiting: a2, members: m2, tx: t2 } => {
                                a2@ == awaiting@.remove(target) && m2 == members && t2 == tx
                            },
                            ConsensusState::Uniform => false,
                        }
                        &&& r is None
                    }
                },
            }
        }
    }
}

/// What a call of [`LeaderState::handle_revert_to_follower`] leaves behind:
/// a genuinely higher term updates the term, clears the vote, forgets the
/// leader and moves the node to follower, handing back the hard state that
/// must be persisted before the transition is acted on; stale terms are
/// ignored.
pub open spec fn revert_to_follower_post(
    pre: LeaderState,
    post: LeaderState,
    term: u64,
    r: Option<LeaderEffect>,
) -> bool {
    if term > pre.current_term {
        post == (LeaderState {
            current_term: term,
            voted_for: None,
            current_leader: None,
            target_state: State::Follower,
            ..pre
        }) && r == Some(
            LeaderEffect::SaveHardState {
                hard_state: HardState { current_term: term, voted_for: None },
            },
        )
    } else {
        post == pre && r is None
    }
}

/// What a call of [`LeaderState::handle_update_match_index`] leaves behind:
/// the target's match record is updated in whichever table holds it (an
/// unknown target is ignored); a voter past its removal watermark is
/// dropped; the commit index is recomputed over the updated records and
/// never moves backwards; and when it advances, the committed prefix of the
/// waiting-client queue is handed back for application.
pub open spec fn update_match_post(
    pre: LeaderState,
    post: LeaderState,
    target: u64,
    match_index: u64,
    match_term: u64,
    r: Option<LeaderEffect>,
) -> bool {
    let found = pre.non_voters@.contains_key(target) || pre.nodes@.contains_key(target);
    if !found {
        post == pre && r is None
    } else {
        let nv2 = if pre.non_voters@.contains_key(target) {
            pre.non_voters@.insert(
                target,
                NonVoterReplicationState {
                    state: ReplicationState {
                        match_index: match_index,
                        match_term: match_term,
                        ..pre.non_voters@[target].state
                    },
                    ..pre.non_voters@[target]
                },
            )
        } else {
            pre.non_voters@
        };
        let marked = pre.nodes@.contains_key(target)
            && pre.nodes@[target].remove_after_commit is Some && match_index
            >= pre.nodes@[target].remove_after_commit->Some_0;
        let nodes2 = if !pre.nodes@.contains_key(target) {
            pre.nodes@
        } else if marked {
            pre.nodes@.remove(target)
        } else {
            pre.nodes@.insert(
                target,
                ReplicationState {
                    match_index: match_index,
                    match_term: match_term,
                    ..pre.nodes@[target]
                },
            )
        };
        let metrics2 = if marked {
            pre.leader_metrics@.remove(target)
        } else {
            pre.leader_metrics@.insert(
                target,
                ReplicationMetrics {
                    matched: LogId { term: match_term, index: match_index },
                },
            )
        };
        // the commit index the updated records allow, computed before it is
        // written back
        let mid = LeaderState {
            nodes: post.nodes,
            non_voters: post.non_voters,
            leader_metrics: post.leader_metrics,
            ..pre
        };
        let cval = mid.spec_calc_commit_index();
        let advanced = cval > pre.commit_index;
        let ncut = cut(pre.awaiting_committed.index_list(), cval);
        &&& post.nodes@ == nodes2
        &&& post.non_voters@ == nv2
        &&& post.leader_metrics@ == metrics2
        &&& post.commit_index == if advanced {
            cval
        } else {
            pre.commit_index
        }
        &&& post.awaiting_committed.item_list() == if advanced {
            pre.awaiting_committed.item_list().skip(ncut)
        } else {
            pre.awaiting_committed.item_list()
        }
        &&& post == (LeaderState {
            nodes: post.nodes,
            non_voters: post.non_voters,
            leader_metrics: post.leader_metrics,
            commit_index: post.commit_index,
            awaiting_committed: post.awaiting_committed,
            ..pre
        })
        &&& if advanced && ncut > 0 {
            match r {
                Some(LeaderEffect::ApplyCommitted { requests }) => requests@
                    == pre.awaiting_committed.item_list().take(ncut),
                _ => false,
            }
        } else {
            r is None
        }
    }
}

impl LeaderState {
    /// Run the membership-change protocol: compute which requested members
    /// still block the change; with none blocking, hand back the
    /// joint-consensus append, else park the change in `NonVoterSync` until
    /// the stragglers reach line rate.
    pub fn change_membership(
        &mut self,
        members: NodeSet,
        tx: tokio::sync::oneshot::Sender<Result<(), ChangeConfigError>>,
    ) -> (r: Option<LeaderEffect>)
        requires
            old(self).wf(),
        ensures
            final(self).wf(),
            final(self).commit_index == old(self).commit_index,
            change_membership_post(*old(self), *final(self), members, tx, r),
    {
        let ghost pre = *self;
        let mut awaiting = NodeSet::new();
        let n = members.len();
        let mut i: usize = 0;
        while i < n
            invariant
                *self == pre,
                n == members.id_list().len(),
                0 <= i <= n,
                forall|id: u64| #[trigger]
                    awaiting@.contains(id) <==> (members.id_list().take(i as int).contains(id)
                        && pre.not_ready_for_join(id)),
            decreases n - i,
        {
            let id = members.id_at(i);
            let is_voter = id == self.id || self.nodes.contains_key(id);
            let ready = match self.non_voters.get(id) {
                Some(s) => s.is_ready_to_join,
                None => false,
            };
            let ghost before = awaiting@;
            if !is_voter && !ready {
                awaiting.insert(id);
            }
            proof {
                assert(members.id_list().take(i + 1) =~= members.id_list().take(i as int).push(
                    members.id_list()[i as int],
                ));
                assert forall|x: u64| #[trigger]
                    awaiting@.contains(x) <==> (members.id_list().take(i + 1).contains(x)
                        && pre.not_ready_for_join(x)) by {
                    if x == id {
                        assert(members.id_list().take(i + 1).contains(x)) by {
                            assert(members.id_list().take(i + 1)[i as int] == id);
                        }
                    } else {
                        assert(members.id_list().take(i + 1).contains(x) <==> members.id_list()
                            .take(i as int).contains(x)) by {
                            if members.id_list().take(i + 1).contains(x) {
                                let j = choose|j: int|
                                    0 <= j < i + 1 && #[trigger] members.id_list().take(i + 1)[j]
                                        == x;
                                assert(j < i);
                                assert(members.id_list().take(i as int)[j] == x);
                            }
                        }
                    }
                }
            }
            i += 1;
        }
        proof {
            use_type_invariant(&members);
            members.lemma_ids();
            assert(members.id_list().take(n as int) =~= members.id_list());
            assert(awaiting@ =~= pre.awaiting_set(members@));
        }
        if awaiting.is_empty() {
            proof {
                assert(pre.awaiting_set(members@) =~= Set::<u64>::empty());
            }
            Some(LeaderEffect::AppendJointConsensus { members, tx })
        } else {
            proof {
                use_type_invariant(&awaiting);
                awaiting.lemma_ids();
                assert(awaiting@.contains(awaiting.id_list()[0]));
                assert(!(pre.awaiting_set(members@) =~= Set::<u64>::empty()));
            }
            self.consensus_state = ConsensusState::NonVoterSync { awaiting, members, tx };
            None
        }
    }

    /// Handle a worker's line-rate report. Voters are left alone. A
    /// non-voter's readiness flag tracks the report; on first readiness its
    /// completion channel is fired — the channel is consumed, so it can
    /// never fire twice — and a parked membership change is advanced.
    pub fn handle_rate_update(&mut self, target: u64, is_line_rate: bool) -> (r: Option<
        LeaderEffect,
    >)
        requires
            old(self).wf(),
        ensures
            final(self).wf(),
            final(self).commit_index == old(self).commit_index,
            rate_update_post(*old(self), *final(self), target, is_line_rate, r),
    {
        if self.nodes.contains_key(target) {
            return None;
        }
        let removed = self.non_voters.remove(target);
        match removed {
            Some(mut state) => {
                let ghost rec = old(self).non_voters@[target];
                state.is_ready_to_join = is_line_rate;
                if is_line_rate {
                    let mut txo: Option<
                        tokio::sync::oneshot::Sender<Result<(), ChangeConfigError>>,
                    > = None;
                    std::mem::swap(&mut txo, &mut state.tx);
                    if let Some(t) = txo {
                        oneshot_send(t, Ok(()));
                    }
                }
                self.non_voters.insert(target, state);
                proof {
                    assert(self.non_voters@ =~= old(self).non_voters@.insert(
                        target,
                        self.non_voters@[target],
                    ));
                }
                if is_line_rate {
                    let mut cs = ConsensusState::Uniform;
                    std::mem::swap(&mut cs, &mut self.consensus_state);
                    match cs {
                        ConsensusState::NonVoterSync { mut awaiting, members, tx } => {
                            let ghost aw_pre = awaiting@;
                            awaiting.remove(target);
                            if awaiting.is_empty() {
                                proof {
                                    assert(aw_pre.remove(target) =~= Set::<u64>::empty());
                                }
                                self.consensus_state = ConsensusState::Uniform;
                                return Some(LeaderEffect::ChangeMembership { members, tx });
                            } else {
                                proof {
                                    use_type_invariant(&awaiting);
                                    awaiting.lemma_ids();
                                    assert(awaiting@.contains(awaiting.id_list()[0]));
                                    assert(!(aw_pre.remove(target) =~= Set::<u64>::empty()));
                                }
                                self.consensus_state = ConsensusState::NonVoterSync {
                                    awaiting,
                                    members,
                                    tx,
                                };
                            }
                        },
                        ConsensusState::Uniform => {},
                    }
                }
                None
            },
            None => {
                proof {
                    assert(*self == *old(self));
                }
                None
            },
        }
    }

    /// Handle a worker's report of a follower answering with a higher term:
    /// adopt the term, clear the vote, forget the leader, and step down to
    /// follower. The handed-back hard state must be persisted before the
    /// transition is acted on. Stale terms are ignored.
    pub fn handle_revert_to_follower(&mut self, _target: u64, term: u64) -> (r: Option<
        LeaderEffect,
    >)
        requires
            old(self).wf(),
        ensures
            final(self).wf(),
            final(self).commit_index == old(self).commit_index,
            revert_to_follower_post(*old(self), *final(self), term, r),
    {
        if term > self.current_term {
            self.current_term = term;
            self.voted_for = None;
            self.current_leader = None;
            self.target_state = State::Follower;
            Some(
                LeaderEffect::SaveHardState {
                    hard_state: HardState { current_term: term, voted_for: None },
                },
            )
        } else {
            None
        }
    }

    /// Handle a worker's acknowledgement of replication up to
    /// `(match_index, match_term)`: update the target's record, drop a
    /// voter past its removal watermark, recompute the commit index over
    /// both quorums, tell every worker of an advance, and hand back the
    /// now-committed client requests in index order.
    pub fn handle_update_match_index(
        &mut self,
        target: u64,
        match_index: u64,
        match_term: u64,
    ) -> (r: Option<LeaderEffect>)
        requires
            old(self).wf(),
        ensures
            final(self).wf(),
            final(self).commit_index >= old(self).commit_index,
            update_match_post(*old(self), *final(self), target, match_index, match_term, r),
    {
        let mut found = false;

        match self.non_voters.remove(target) {
            Some(mut state) => {
                state.state.match_index = match_index;
                state.state.match_term = match_term;
                self.non_voters.insert(target, state);
                found = true;
                proof {
                    assert(self.non_voters@ =~= old(self).non_voters@.insert(
                        target,
                        self.non_voters@[target],
                    ));
                }
            },
            None => {},
        }

        let mut needs_removal = false;

        match self.nodes.remove(target) {
            Some(mut state) => {
                state.match_index = match_index;
                state.match_term = match_term;
                found = true;
                match state.remove_after_commit {
                    Some(threshold) => {
                        if match_index >= threshold {
                            needs_removal = true;
                        }
                    },
                    None => {},
                }
                self.nodes.insert(target, state);
                proof {
                    assert(self.nodes@ =~= old(self).nodes@.insert(target, self.nodes@[target]));
                }
            },
            None => {},
        }

        if !found {
            return None;
        }
        self.update_leader_metrics(target, match_term, match_index);

        if needs_removal {
            match self.nodes.remove(target) {
                Some(node) => {
                    unbounded_send(&node.replstream.repl_tx, RaftEvent::Terminate);
                    self.leader_metrics.remove(target);
                    proof {
                        assert(self.nodes@ =~= old(self).nodes@.remove(target));
                        assert(self.leader_metrics@ =~= old(self).leader_metrics@.remove(target));
                    }
                },
                None => {},
            }
        }

        proof {
            assert(self.wf()) by {
                let pre = *old(self);
                assert forall|id: u64|
                    self.membership.members@.contains(id) implies self.node_known(id) by {
                    assert(pre.node_known(id));
                    if needs_removal {
                        assert(pre.nodes@[target].remove_after_commit is Some);
                    }
                }
                assert forall|id: u64|
                    (match self.membership.members_after_consensus {
                        Some(m) => m@.contains(id),
                        None => false,
                    }) implies self.node_known(id) by {
                    assert(pre.node_known(id));
                    if needs_removal {
                        assert(pre.nodes@[target].remove_after_commit is Some);
                    }
                }
                assert forall|id: u64|
                    self.nodes@.contains_key(id) && (
                    #[trigger] self.nodes@[id]).remove_after_commit is Some implies !self
                    .membership
                    .members@
                    .contains(id) && !(match self.membership.members_after_consensus {
                    Some(m) => m@.contains(id),
                    None => false,
                }) by {
                    assert(pre.nodes@.contains_key(id));
                    assert(pre.nodes@[id].remove_after_commit is Some);
                }
            }
        }

        let ghost mid = *self;
        let commit_index = self.calc_commit_index();

        let has_new_commit_index = commit_index > self.commit_index;

        let result: Option<LeaderEffect>;
        if has_new_commit_index {
            self.commit_index = commit_index;

            let ghost snap = *self;
            let n = self.nodes.len();
            let mut i: usize = 0;
            while i < n
                invariant
                    *self == snap,
                    n == self.nodes.key_list().len(),
                    0 <= i <= n,
                decreases n - i,
            {
                let node = self.nodes.value_at(i);
                unbounded_send(
                    &node.replstream.repl_tx,
                    RaftEvent::UpdateCommitIndex { commit_index: self.commit_index },
                );
                i += 1;
            }
            let m = self.non_voters.len();
            let mut j: usize = 0;
            while j < m
                invariant
                    *self == snap,
                    m == self.non_voters.key_list().len(),
                    0 <= j <= m,
                decreases m - j,
            {
                let node = self.non_voters.value_at(j);
                unbounded_send(
                    &node.state.replstream.repl_tx,
                    RaftEvent::UpdateCommitIndex { commit_index: self.commit_index },
                );
                j += 1;
            }

            let drained = self.awaiting_committed.drain_through(commit_index);
            proof {
                lemma_cut_props(old(self).awaiting_committed.index_list(), commit_index);
                assert(old(self).awaiting_committed.index_list().len() == old(
                    self,
                ).awaiting_committed.item_list().len());
            }
            if drained.len() > 0 {
                result = Some(LeaderEffect::ApplyCommitted { requests: drained });
            } else {
                proof {
                    assert(drained@ =~= Seq::<ClientRequestPending>::empty());
                    assert(self.awaiting_committed.item_list() =~= old(
                        self,
                    ).awaiting_committed.item_list().skip(
                        cut(old(self).awaiting_committed.index_list(), commit_index),
                    ));
                }
                result = None;
            }
        } else {
            result = None;
        }
        proof {
            assert(mid == (LeaderState {
                nodes: self.nodes,
                non_voters: self.non_voters,
                leader_metrics: self.leader_metrics,
                ..*old(self)
            }));
            if !has_new_commit_index {
                assert(self.awaiting_committed.item_list() == old(
                    self,
                ).awaiting_committed.item_list());
            }
        }
        result
    }

    /// Decide how to serve a worker's snapshot request, given the store's
    /// current snapshot: a snapshot within half of the configured threshold
    /// of the log head is handed to the worker at once; with a build already
    /// running the reply is deferred behind its completion broadcast; else a
    /// fresh build is asked for.
    pub fn handle_needs_snapshot(
        &self,
        tx: tokio::sync::oneshot::Sender<CurrentSnapshotData>,
        current_snapshot: Option<CurrentSnapshotData>,
    ) -> (r: Option<LeaderEffect>)
        ensures
            ({
                let fresh = current_snapshot is Some && within_half_of_threshold(
                    current_snapshot->Some_0.index,
                    self.last_log_index,
                    threshold_of(self.config),
                );
                if fresh {
                    r is None
                } else if self.snapshot_state is Some {
                    match r {
                        Some(LeaderEffect::DeferSnapshotReply { rx: rx0, tx: t }) => t == tx,
                        _ => false,
                    }
                } else {
                    r == Some(LeaderEffect::TriggerLogCompaction)
                }
            }),
    {
        let threshold = match self.config.snapshot_policy {
            SnapshotPolicy::LogsSinceLast(threshold) => threshold,
        };

        match current_snapshot {
            Some(snapshot) => {
                if snapshot_is_within_half_of_threshold(
                    &snapshot.index,
                    &self.last_log_index,
                    &threshold,
                ) {
                    oneshot_send(tx, snapshot);
                    return None;
                }
                match &self.snapshot_state {
                    Some(snap) => Some(
                        LeaderEffect::DeferSnapshotReply {
                            rx: broadcast_subscribe(&snap.sender),
                            tx,
                        },
                    ),
                    None => Some(LeaderEffect::TriggerLogCompaction),
                }
            },
            None => {
                match &self.snapshot_state {
                    Some(snap) => Some(
                        LeaderEffect::DeferSnapshotReply {
                            rx: broadcast_subscribe(&snap.sender),
                            tx,
                        },
                    ),
                    None => Some(LeaderEffect::TriggerLogCompaction),
                }
            },
        }
    }

    /// Move the node toward another role.
    pub fn set_target_state(&mut self, state: State)
        ensures
            *final(self) == (LeaderState { target_state: state, ..*old(self) }),
    {
        self.target_state = state;
    }

    /// Handle one replication event: dispatch to the matching handler. A
    /// `NeedsSnapshot` request is handed back as a `FetchSnapshot` effect,
    /// to be completed with [`LeaderState::handle_needs_snapshot`] once the
    /// store was asked; `Shutdown` moves the node to the terminal state.
    pub fn handle_replica_event(&mut self, event: ReplicaEvent) -> (r: Option<LeaderEffect>)
        requires
            old(self).wf(),
        ensures
            final(self).wf(),
            final(self).commit_index >= old(self).commit_index,
            match event {
                ReplicaEvent::RateUpdate { target, is_line_rate } => rate_update_post(
                    *old(self),
                    *final(self),
                    target,
                    is_line_rate,
                    r,
                ),
                ReplicaEvent::RevertToFollower { target, term } => revert_to_follower_post(
                    *old(self),
                    *final(self),
                    term,
                    r,
                ),
                ReplicaEvent::UpdateMatchIndex { target, match_index, match_term } => {
                    update_match_post(
                        *old(self),
                        *final(self),
                        target,
                        match_index,
                        match_term,
                        r,
                    )
                },
                ReplicaEvent::NeedsSnapshot { target, tx } => *final(self) == *old(self) && r
                    == Some(LeaderEffect::FetchSnapshot { target: target, tx: tx }),
                ReplicaEvent::Shutdown => *final(self) == (LeaderState {
                    target_state: State::Shutdown,
                    ..*old(self)
                }) && r is None,
            },
    {
        match event {
            ReplicaEvent::RateUpdate { target, is_line_rate } => {
                self.handle_rate_update(target, is_line_rate)
            },
            ReplicaEvent::RevertToFollower { target, term } => {
                self.handle_revert_to_follower(target, term)
            },
            ReplicaEvent::UpdateMatchIndex { target, match_index, match_term } => {
                self.handle_update_match_index(target, match_index, match_term)
            },
            ReplicaEvent::NeedsSnapshot { target, tx } => {
                Some(LeaderEffect::FetchSnapshot { target, tx })
            },
            ReplicaEvent::Shutdown => {
                self.set_target_state(State::Shutdown);
                None
            },
        }
    }
}

/// The threshold of the configured snapshot policy.
pub open spec fn threshold_of(c: Config) -> u64 {
    match c.snapshot_policy {
        SnapshotPolicy::LogsSinceLast(t) => t,
    }
}

impl LeaderState {
    /// Mark a voter for removal once its worker has replicated up to
    /// `watermark`. Refused while the node is still in a voter set: the
    /// watermark may only be set for a node the committed configuration has
    /// dropped.
    pub fn mark_for_removal(&mut self, target: u64, watermark: u64) -> (r: bool)
        requires
            old(self).wf(),
        ensures
            final(self).wf(),
            if r {
                &&& old(self).nodes@.contains_key(target)
                &&& !old(self).membership.members@.contains(target)
                &&& !(match old(self).membership.members_after_consensus {
                    Some(m) => m@.contains(target),
                    None => false,
                })
                &&& final(self).nodes@ == old(self).nodes@.insert(
                    target,
                    ReplicationState {
                        remove_after_commit: Some(watermark),
                        ..old(self).nodes@[target]
                    },
                )
                &&& *final(self) == (LeaderState { nodes: final(self).nodes, ..*old(self) })
            } else {
                *final(self) == *old(self)
            },
    {
        let in_old = self.membership.members.contains(target);
        let in_new = match &self.membership.members_after_consensus {
            Some(m) => m.contains(target),
            None => false,
        };
        if in_old || in_new {
            return false;
        }
        match self.nodes.remove(target) {
            Some(mut state) => {
                state.remove_after_commit = Some(watermark);
                self.nodes.insert(target, state);
                proof {
                    assert(self.nodes@ =~= old(self).nodes@.insert(target, self.nodes@[target]));
                    assert(self.wf()) by {
                        assert forall|id: u64|
                            self.membership.members@.contains(id) implies self.node_known(id) by {
                            assert(old(self).node_known(id));
                        }
                        assert forall|id: u64|
                            (match self.membership.members_after_consensus {
                                Some(m) => m@.contains(id),
                                None => false,
                            }) implies self.node_known(id) by {
                            assert(old(self).node_known(id));
                        }
                    }
                }
                true
            },
            None => false,
        }
    }

    /// Adopt a new membership configuration, refusing one that refers to a
    /// node without a replication record or keeps a voter already marked
    /// for removal.
    pub fn update_membership(&mut self, membership: MembershipConfig) -> (r: bool)
        requires
            old(self).wf(),
        ensures
            final(self).wf(),
            r ==> *final(self) == (LeaderState { membership: membership, ..*old(self) }),
            !r ==> *final(self) == *old(self),
    {
        let mut m = membership;
        std::mem::swap(&mut m, &mut self.membership);
        if self.check_wf() {
            true
        } else {
            std::mem::swap(&mut m, &mut self.membership);
            false
        }
    }

    /// Promote a non-voter to voter on commit of the configuration entry
    /// naming it: the record moves between the tables and the worker is not
    /// restarted. Refused for a node without a non-voter record.
    pub fn promote_non_voter(&mut self, target: u64) -> (r: bool)
        ensures
            if r {
                &&& old(self).non_voters@.contains_key(target)
                &&& final(self).non_voters@ == old(self).non_voters@.remove(target)
                &&& final(self).nodes@ == old(self).nodes@.insert(
                    target,
                    old(self).non_voters@[target].state,
                )
                &&& *final(self) == (LeaderState {
                    nodes: final(self).nodes,
                    non_voters: final(self).non_voters,
                    ..*old(self)
                })
            } else {
                !old(self).non_voters@.contains_key(target) && *final(self) == *old(self)
            },
    {
        match self.non_voters.remove(target) {
            Some(state) => {
                self.nodes.insert(target, state.state);
                true
            },
            None => false,
        }
    }

    /// Send `Terminate` to every worker and drop all replication records
    /// and metrics: the teardown when leadership ends.
    pub fn terminate_all_workers(&mut self)
        ensures
            final(self).nodes@ == Map::<u64, ReplicationState>::empty(),
            final(self).non_voters@ == Map::<u64, NonVoterReplicationState>::empty(),
            final(self).leader_metrics@ == Map::<u64, ReplicationMetrics>::empty(),
            *final(self) == (LeaderState {
                nodes: final(self).nodes,
                non_voters: final(self).non_voters,
                leader_metrics: final(self).leader_metrics,
                ..*old(self)
            }),
    {
        let ghost snap = *self;
        let n = self.nodes.len();
        let mut i: usize = 0;
        while i < n
            invariant
                *self == snap,
                n == self.nodes.key_list().len(),
                0 <= i <= n,
            decreases n - i,
        {
            let node = self.nodes.value_at(i);
            unbounded_send(&node.replstream.repl_tx, RaftEvent::Terminate);
            i += 1;
        }
        let m = self.non_voters.len();
        let mut j: usize = 0;
        while j < m
            invariant
                *self == snap,
                m == self.non_voters.key_list().len(),
                0 <= j <= m,
            decreases m - j,
        {
            let node = self.non_voters.value_at(j);
            unbounded_send(&node.state.replstream.repl_tx, RaftEvent::Terminate);
            j += 1;
        }
        self.nodes = NodeTable::new();
        self.non_voters = NodeTable::new();
        self.leader_metrics = NodeTable::new();
    }

    /// Record a snapshot build as started. Refused while one is already
    /// running: the single slot keeps at most one build active at a time.
    pub fn set_snapshotting(
        &mut self,
        handle: tokio::task::JoinHandle<()>,
        sender: tokio::sync::broadcast::Sender<u64>,
    ) -> (r: bool)
        ensures
            r == (old(self).snapshot_state is None),
            r ==> *final(self) == (LeaderState {
                snapshot_state: Some(Snapshotting { handle: handle, sender: sender }),
                ..*old(self)
            }),
            !r ==> *final(self) == *old(self),
    {
        if self.snapshot_state.is_none() {
            self.snapshot_state = Some(Snapshotting { handle, sender });
            true
        } else {
            false
        }
    }

    /// Take the finished snapshot build out of its slot, if one was
    /// running.
    pub fn finish_snapshotting(&mut self) -> (r: Option<Snapshotting>)
        ensures
            r == old(self).snapshot_state,
            *final(self) == (LeaderState { snapshot_state: None, ..*old(self) }),
    {
        let mut s: Option<Snapshotting> = None;
        std::mem::swap(&mut s, &mut self.snapshot_state);
        s
    }
}

/// A duplicate line-rate report cannot fire a non-voter's completion
/// channel a second time: the first report leaves the channel slot empty,
/// and it never refills — the channel itself is consumed by the send, so at
/// most one completion is ever delivered.
pub proof fn lemma_rate_update_replay_no_refire(
    pre: LeaderState,
    mid: LeaderState,
    post: LeaderState,
    target: u64,
    r1: Option<LeaderEffect>,
    r2: Option<LeaderEffect>,
)
    requires
        rate_update_post(pre, mid, target, true, r1),
        rate_update_post(mid, post, target, true, r2),
        pre.non_voters@.contains_key(target),
        !pre.nodes@.contains_key(target),
    ensures
        mid.non_voters@[target].tx is None,
        post.non_voters@[target].tx is None,
{
}

/// Replaying an `UpdateMatchIndex` event is idempotent: delivering the same
/// acknowledgement a second time moves no commit index, changes no
/// replication record, and completes no further client request. Stated for
/// a target tracked as a voter or as a non-voter, not both: a node tracked
/// in both tables at once would have its metrics entry re-created on
/// replay after a removal.
pub proof fn lemma_update_match_replay_idempotent(
    pre: LeaderState,
    mid: LeaderState,
    post: LeaderState,
    target: u64,
    match_index: u64,
    match_term: u64,
    r1: Option<LeaderEffect>,
    r2: Option<LeaderEffect>,
)
    requires
        !(pre.nodes@.contains_key(target) && pre.non_voters@.contains_key(target)),
        update_match_post(pre, mid, target, match_index, match_term, r1),
        update_match_post(mid, post, target, match_index, match_term, r2),
    ensures
        r2 is None,
        post.commit_index == mid.commit_index,
        post.nodes@ == mid.nodes@,
        post.non_voters@ == mid.non_voters@,
        post.leader_metrics@ == mid.leader_metrics@,
        post.awaiting_committed.item_list() == mid.awaiting_committed.item_list(),
{
    let found = pre.non_voters@.contains_key(target) || pre.nodes@.contains_key(target);
    if !found {
        // the event was ignored both times
        assert(mid == pre);
        assert(post == mid);
    } else {
        let marked = pre.nodes@.contains_key(target)
            && pre.nodes@[target].remove_after_commit is Some && match_index
            >= pre.nodes@[target].remove_after_commit->Some_0;
        let m1 = LeaderState {
            nodes: mid.nodes,
            non_voters: mid.non_voters,
            leader_metrics: mid.leader_metrics,
            ..pre
        };
        let pairs0 = m1.member_pairs(pre.membership.members.id_list());
        lemma_commit_index_monotonic(pairs0, pre.commit_index, pre.current_term);
        match pre.membership.members_after_consensus {
            Some(m) => {
                lemma_commit_index_monotonic(
                    m1.member_pairs(m.id_list()),
                    pre.commit_index,
                    pre.current_term,
                );
            },
            None => {},
        }
        // whether or not the first delivery advanced, the commit index now
        // equals what the updated records allow
        assert(mid.commit_index == m1.spec_calc_commit_index());
        if marked {
            // the drained voter is gone; with the target in one table only,
            // the replay finds nothing and is a no-op
            assert(!mid.nodes@.contains_key(target));
            assert(!mid.non_voters@.contains_key(target));
            assert(post == mid);
        } else {
            // the replay writes back the records it finds, unchanged
            let m2 = LeaderState {
                nodes: post.nodes,
                non_voters: post.non_voters,
                leader_metrics: post.leader_metrics,
                ..mid
            };
            if pre.non_voters@.contains_key(target) {
                let rec2 = mid.non_voters@[target];
                assert(rec2.state == (ReplicationState {
                    match_index: match_index,
                    match_term: match_term,
                    ..rec2.state
                }));
                assert(post.non_voters@ =~= mid.non_voters@);
            }
            if pre.nodes@.contains_key(target) {
                let rec2 = mid.nodes@[target];
                assert(rec2 == (ReplicationState {
                    match_index: match_index,
                    match_term: match_term,
                    ..rec2
                }));
                assert(post.nodes@ =~= mid.nodes@);
            }
            assert(mid.leader_metrics@[target] == (ReplicationMetrics {
                matched: LogId { term: match_term, index: match_index },
            }));
            assert(post.leader_metrics@ =~= mid.leader_metrics@);
            // the same records allow the same commit index, and a second
            // calculation over it moves nothing
            assert forall|id: u64| true implies m2.match_pair(id) == m1.match_pair(id) by {}
            assert(m2.member_pairs(pre.membership.members.id_list()) =~= pairs0);
            lemma_new_commit_index_idempotent(pairs0, pre.commit_index, pre.current_term);
            match pre.membership.members_after_consensus {
                Some(m) => {
                    let pairs1 = m1.member_pairs(m.id_list());
                    assert(m2.member_pairs(m.id_list()) =~= pairs1);
                    lemma_new_commit_index_idempotent(pairs1, pre.commit_index, pre.current_term);
                },
                None => {},
            }
            assert(m2.spec_calc_commit_index() == mid.commit_index);
        }
    }
}

/// The safety of the commit rule, stated over the whole configuration: the
/// calculated commit index never moves backwards; when it advances, the new
/// index is replicated on a majority of the current voter set and — during
/// joint consensus — on a majority of the new voter set as well; and some
/// voter reports exactly that index with the leader's own term, so entries
/// of prior terms are never committed by counting replicas.
pub proof fn lemma_calc_commit_index_safety(s: LeaderState)
    ensures
        s.spec_calc_commit_index() >= s.commit_index,
        ({
            let r = s.spec_calc_commit_index();
            let p0 = s.member_pairs(s.membership.members.id_list());
            r > s.commit_index ==> geq_count(p0, r) >= spec_majority(p0.len() as int)
        }),
        ({
            let r = s.spec_calc_commit_index();
            match s.membership.members_after_consensus {
                Some(m) => {
                    let p1 = s.member_pairs(m.id_list());
                    r > s.commit_index ==> geq_count(p1, r) >= spec_majority(p1.len() as int)
                },
                None => true,
            }
        }),
        ({
            let r = s.spec_calc_commit_index();
            let p0 = s.member_pairs(s.membership.members.id_list());
            r > s.commit_index ==> (p0.contains((r, s.current_term)) || (match s
                .membership
                .members_after_consensus {
                Some(m) => s.member_pairs(m.id_list()).contains((r, s.current_term)),
                None => false,
            }))
        }),
{
    let r = s.spec_calc_commit_index();
    let p0 = s.member_pairs(s.membership.members.id_list());
    let c0 = s.members_commit(s.membership.members.id_list());
    lemma_commit_index_majority(p0, s.commit_index, s.current_term);
    lemma_commit_index_term_matches(p0, s.commit_index, s.current_term);
    if r > s.commit_index {
        lemma_geq_count_monotone(p0, r, c0);
    }
    match s.membership.members_after_consensus {
        Some(m) => {
            let p1 = s.member_pairs(m.id_list());
            let c1 = s.members_commit(m.id_list());
            lemma_commit_index_majority(p1, s.commit_index, s.current_term);
            lemma_commit_index_term_matches(p1, s.commit_index, s.current_term);
            if r > s.commit_index {
                lemma_geq_count_monotone(p1, r, c1);
            }
        },
        None => {},
    }
}

} // verus!
