//! Leader-side replication and commit-advancement core of a Raft consensus
//! implementation: quorum-based commit-index calculation, per-follower match
//! tracking, joint-consensus membership gating, snapshot dispatch decisions,
//! and the in-memory log / state-machine store the leader drives.

pub mod channel;
pub mod leader;
pub mod membership;
pub mod quorum;
pub mod raft_types;
pub mod replication;
pub mod store;
pub mod strmap;
pub mod table;
pub mod text;
