//! The messages exchanged between the leader core and its per-peer
//! replication workers, and the per-peer bookkeeping records the leader
//! keeps.

use vstd::prelude::*;
use crate::membership::MembershipConfig;

verus! {

/// A control message from the leader to one replication worker.
pub enum RaftEvent {
    /// The cluster's commit index advanced.
    UpdateCommitIndex { commit_index: u64 },
    /// Stop replicating and exit.
    Terminate,
}

/// The error answered to a membership-change caller that cannot be served.
#[derive(Clone, Copy, Debug, PartialEq, Eq, Structural)]
pub enum ChangeConfigError {
    /// This node is not the cluster leader.
    NodeNotLeader,
}

/// A snapshot of the state machine as handed to a lagging follower: the log
/// position it covers, the membership it carries, and its bytes.
pub struct CurrentSnapshotData {
    /// The term of the last entry the snapshot covers.
    pub term: u64,
    /// The index of the last entry the snapshot covers.
    pub index: u64,
    /// The membership configuration at the covered position.
    pub membership: MembershipConfig,
    /// The snapshot's serialized bytes.
    pub data: Vec<u8>,
}

/// An event delivered by a replication worker to the leader core.
pub enum ReplicaEvent {
    /// The worker's throughput crossed the line-rate boundary.
    RateUpdate { target: u64, is_line_rate: bool },
    /// A follower answered with a higher term; the leader must step down.
    RevertToFollower { target: u64, term: u64 },
    /// The follower acknowledged replication up to `(match_index, match_term)`.
    UpdateMatchIndex { target: u64, match_index: u64, match_term: u64 },
    /// The follower's needed log prefix was compacted away; it asks for the
    /// current snapshot on `tx`.
    NeedsSnapshot { target: u64, tx: tokio::sync::oneshot::Sender<CurrentSnapshotData> },
    /// A fatal error in the worker; the node must shut down.
    Shutdown,
}

/// The leader's handle to one replication worker.
pub struct ReplicationStream {
    /// The worker's inbound control channel.
    pub repl_tx: tokio::sync::mpsc::UnboundedSender<RaftEvent>,
}

/// Per-voter replication bookkeeping.
pub struct ReplicationState {
    /// Highest log index known replicated on the peer.
    pub match_index: u64,
    /// Term of the entry at `match_index`.
    pub match_term: u64,
    /// When set, the worker is terminated once `match_index` reaches the
    /// watermark: the peer is being drained before disconnect.
    pub remove_after_commit: Option<u64>,
    /// The handle to the peer's worker.
    pub replstream: ReplicationStream,
}

/// Per-non-voter replication bookkeeping: the shared record plus the
/// catch-up gate.
pub struct NonVoterReplicationState {
    /// The replication record shared with voters.
    pub state: ReplicationState,
    /// True once the peer has reached line rate and may be promoted.
    pub is_ready_to_join: bool,
    /// The completion channel of the caller that added this non-voter; fired
    /// at most once, on first readiness.
    pub tx: Option<tokio::sync::oneshot::Sender<Result<(), ChangeConfigError>>>,
}

} // verus!
