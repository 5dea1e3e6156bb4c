use raft_core::leader::ClientRequestPending;
use raft_core::leader::ClientWriteError;
use raft_core::leader::Config;
use raft_core::leader::ConsensusState;
use raft_core::leader::LeaderEffect;
use raft_core::leader::LeaderState;
use raft_core::leader::SnapshotPolicy;
use raft_core::leader::State;
use raft_core::membership::MembershipConfig;
use raft_core::membership::NodeSet;
use raft_core::replication::CurrentSnapshotData;
use raft_core::replication::RaftEvent;
use raft_core::replication::ReplicaEvent;
use raft_core::replication::ReplicationState;
use raft_core::replication::ReplicationStream;

fn test_config() -> Config {
    Config { heartbeat_interval: 50, snapshot_policy: SnapshotPolicy::LogsSinceLast(500) }
}

fn stream() -> (ReplicationStream, tokio::sync::mpsc::UnboundedReceiver<RaftEvent>) {
    let (tx, rx) = tokio::sync::mpsc::unbounded_channel();
    (ReplicationStream { repl_tx: tx }, rx)
}

fn node_set(ids: &[u64]) -> NodeSet {
    let mut s = NodeSet::new();
    for &id in ids {
        s.insert(id);
    }
    s
}

#[test]
fn joint_consensus_minimum() {
    // C_old = {1, 2, 3} allows commit 50; C_new = {1, 4, 5} allows 30.
    let membership = MembershipConfig {
        members: node_set(&[1, 2, 3]),
        members_after_consensus: Some(node_set(&[1, 4, 5])),
    };
    let mut leader = LeaderState::new(1, 3, 100, 3, 0, membership, test_config());
    let (s2, _r2) = stream();
    let (s3, _r3) = stream();
    let (s4, _r4) = stream();
    let (s5, _r5) = stream();
    leader.nodes.insert(2, ReplicationState {
        match_index: 50,
        match_term: 3,
        remove_after_commit: None,
        replstream: s2,
    });
    leader.nodes.insert(3, ReplicationState {
        match_index: 50,
        match_term: 3,
        remove_after_commit: None,
        replstream: s3,
    });
    leader.nodes.insert(4, ReplicationState {
        match_index: 30,
        match_term: 3,
        remove_after_commit: None,
        replstream: s4,
    });
    leader.nodes.insert(5, ReplicationState {
        match_index: 10,
        match_term: 3,
        remove_after_commit: None,
        replstream: s5,
    });
    assert!(leader.check_wf());
    assert_eq!(leader.calc_commit_index(), 30);
}

#[test]
fn non_voter_gate() {
    let membership = MembershipConfig { members: node_set(&[1]), members_after_consensus: None };
    let mut leader = LeaderState::new(1, 1, 0, 0, 0, membership, test_config());
    let (snv, _rnv) = stream();
    let (txnv, mut rxnv) = tokio::sync::oneshot::channel();
    leader.add_non_voter(2, snv, txnv);
    assert!(leader.check_wf());

    // node 2 is not at line rate: the change parks in NonVoterSync
    let (txcm, _rxcm) = tokio::sync::oneshot::channel();
    let eff = leader.change_membership(node_set(&[1, 2]), txcm);
    assert!(eff.is_none());
    match &leader.consensus_state {
        ConsensusState::NonVoterSync { awaiting, members, .. } => {
            assert_eq!(awaiting.len(), 1);
            assert!(awaiting.contains(2));
            assert!(members.contains(1) && members.contains(2));
        }
        ConsensusState::Uniform => panic!("change was not parked"),
    }

    // node 2 reaches line rate: completion fires exactly once, change resumes
    let eff = leader.handle_replica_event(ReplicaEvent::RateUpdate { target: 2, is_line_rate: true });
    assert!(matches!(rxnv.try_recv(), Ok(Ok(()))));
    assert!(leader.non_voters.get(2).unwrap().tx.is_none());
    assert!(matches!(leader.consensus_state, ConsensusState::Uniform));
    let (m2, txcm2) = match eff {
        Some(LeaderEffect::ChangeMembership { members, tx }) => (members, tx),
        _ => panic!("expected the membership change to resume"),
    };

    // a duplicate line-rate report does not fire the channel again
    let eff2 = leader.handle_replica_event(ReplicaEvent::RateUpdate { target: 2, is_line_rate: true });
    assert!(eff2.is_none());
    assert!(leader.non_voters.get(2).unwrap().is_ready_to_join);
    assert!(leader.non_voters.get(2).unwrap().tx.is_none());

    // with every new member ready, the joint-consensus entry is appended
    let eff3 = leader.change_membership(m2, txcm2);
    assert!(matches!(eff3, Some(LeaderEffect::AppendJointConsensus { .. })));
}

#[test]
fn joint_sets_differing_by_one_element() {
    // C_old = {1, 2, 3}; C_new = {1, 2, 4}: node 4 lags, capping the commit
    let membership = MembershipConfig {
        members: node_set(&[1, 2, 3]),
        members_after_consensus: Some(node_set(&[1, 2, 4])),
    };
    let mut leader = LeaderState::new(1, 2, 40, 2, 0, membership, test_config());
    let (s2, _r2) = stream();
    let (s3, _r3) = stream();
    let (s4, _r4) = stream();
    leader.nodes.insert(2, ReplicationState {
        match_index: 40,
        match_term: 2,
        remove_after_commit: None,
        replstream: s2,
    });
    leader.nodes.insert(3, ReplicationState {
        match_index: 40,
        match_term: 2,
        remove_after_commit: None,
        replstream: s3,
    });
    leader.nodes.insert(4, ReplicationState {
        match_index: 20,
        match_term: 2,
        remove_after_commit: None,
        replstream: s4,
    });
    assert!(leader.check_wf());
    // both sets still reach 40 through {1, 2}: the lagging node is outvoted
    assert_eq!(leader.calc_commit_index(), 40);
    // with node 2 behind as well, the new set can only certify 20
    let eff = leader.handle_replica_event(ReplicaEvent::UpdateMatchIndex {
        target: 2,
        match_index: 20,
        match_term: 2,
    });
    assert!(eff.is_none());
    assert_eq!(leader.commit_index, 20);
}

#[test]
fn rate_update_for_voter_is_ignored() {
    let membership = MembershipConfig { members: node_set(&[1, 2]), members_after_consensus: None };
    let mut leader = LeaderState::new(1, 1, 0, 0, 0, membership, test_config());
    let (s2, _r2) = stream();
    leader.add_voter(2, s2);
    let eff = leader.handle_replica_event(ReplicaEvent::RateUpdate { target: 2, is_line_rate: true });
    assert!(eff.is_none());
    assert!(matches!(leader.consensus_state, ConsensusState::Uniform));
}

#[test]
fn higher_term_step_down() {
    let membership = MembershipConfig { members: node_set(&[1, 2]), members_after_consensus: None };
    let mut leader = LeaderState::new(1, 2, 10, 2, 5, membership, test_config());
    let (s2, mut r2) = stream();
    leader.add_voter(2, s2);
    let (txc, mut rxc) = tokio::sync::oneshot::channel();
    assert!(leader.awaiting_committed.push(ClientRequestPending { index: 8, tx: txc }).is_ok());

    let eff = leader.handle_replica_event(ReplicaEvent::RevertToFollower { target: 2, term: 3 });
    match eff {
        Some(LeaderEffect::SaveHardState { hard_state }) => {
            assert_eq!(hard_state.current_term, 3);
            assert!(hard_state.voted_for.is_none());
        }
        _ => panic!("hard state was not handed back for persisting"),
    }
    assert_eq!(leader.current_term, 3);
    assert!(leader.voted_for.is_none());
    assert!(leader.current_leader.is_none());
    assert!(matches!(leader.target_state, State::Follower));

    // teardown: every worker is terminated, pending clients are failed
    leader.terminate_all_workers();
    assert!(matches!(r2.try_recv().unwrap(), RaftEvent::Terminate));
    let pending = leader.awaiting_committed.take_all();
    assert_eq!(pending.len(), 1);
    assert_eq!(pending[0].index, 8);
    for p in pending {
        let _ = p.tx.send(Err(ClientWriteError::LeadershipLost));
    }
    assert!(matches!(rxc.try_recv().unwrap(), Err(ClientWriteError::LeadershipLost)));
}

#[test]
fn stale_term_is_ignored() {
    let membership = MembershipConfig { members: node_set(&[1]), members_after_consensus: None };
    let mut leader = LeaderState::new(1, 5, 0, 0, 0, membership, test_config());
    let eff = leader.handle_replica_event(ReplicaEvent::RevertToFollower { target: 9, term: 5 });
    assert!(eff.is_none());
    assert_eq!(leader.current_term, 5);
    assert!(matches!(leader.target_state, State::Leader));
}

#[test]
fn update_match_index_advances_and_is_idempotent() {
    let membership = MembershipConfig { members: node_set(&[1, 2, 3]), members_after_consensus: None };
    let mut leader = LeaderState::new(1, 1, 10, 1, 0, membership, test_config());
    let (s2, mut r2) = stream();
    let (s3, mut r3) = stream();
    leader.add_voter(2, s2);
    leader.add_voter(3, s3);
    let (txc, mut rxc) = tokio::sync::oneshot::channel();
    assert!(leader.awaiting_committed.push(ClientRequestPending { index: 7, tx: txc }).is_ok());
    assert!(leader.check_wf());

    // node 2 acknowledges up to 5: nodes 1 and 3 still carry 10, so 10 commits
    let eff = leader.handle_replica_event(ReplicaEvent::UpdateMatchIndex {
        target: 2,
        match_index: 5,
        match_term: 1,
    });
    assert_eq!(leader.commit_index, 10);
    let requests = match eff {
        Some(LeaderEffect::ApplyCommitted { requests }) => requests,
        _ => panic!("committed requests were not handed back"),
    };
    assert_eq!(requests.len(), 1);
    assert_eq!(requests[0].index, 7);
    // the request is answered once applied
    let _ = requests.into_iter().next().unwrap().tx.send(Ok(raft_core::store::ClientResponse(None)));
    assert!(matches!(rxc.try_recv().unwrap(), Ok(_)));
    // every worker hears of the advance
    assert!(matches!(r2.try_recv().unwrap(), RaftEvent::UpdateCommitIndex { commit_index: 10 }));
    assert!(matches!(r3.try_recv().unwrap(), RaftEvent::UpdateCommitIndex { commit_index: 10 }));

    // replaying the same event moves nothing backwards and fires nothing twice
    let eff2 = leader.handle_replica_event(ReplicaEvent::UpdateMatchIndex {
        target: 2,
        match_index: 5,
        match_term: 1,
    });
    assert!(eff2.is_none());
    assert_eq!(leader.commit_index, 10);
    assert!(r2.try_recv().is_err());
    assert!(r3.try_recv().is_err());

    // metrics track the latest report
    assert_eq!(leader.leader_metrics.get(2).unwrap().matched.index, 5);
}

#[test]
fn update_match_index_for_unknown_node_is_ignored() {
    let membership = MembershipConfig { members: node_set(&[1]), members_after_consensus: None };
    let mut leader = LeaderState::new(1, 1, 3, 1, 0, membership, test_config());
    let eff = leader.handle_replica_event(ReplicaEvent::UpdateMatchIndex {
        target: 99,
        match_index: 3,
        match_term: 1,
    });
    assert!(eff.is_none());
    assert_eq!(leader.commit_index, 0);
}

#[test]
fn removal_watermark_terminates_worker() {
    // node 3 is tracked but no longer a voter: drain it to index 6, then drop it
    let membership = MembershipConfig { members: node_set(&[1, 2]), members_after_consensus: None };
    let mut leader = LeaderState::new(1, 1, 10, 1, 0, membership, test_config());
    let (s2, _r2) = stream();
    let (s3, mut r3) = stream();
    leader.add_voter(2, s2);
    leader.add_voter(3, s3);
    assert!(leader.mark_for_removal(3, 6));
    let eff = leader.handle_replica_event(ReplicaEvent::UpdateMatchIndex {
        target: 3,
        match_index: 6,
        match_term: 1,
    });
    assert!(leader.nodes.get(3).is_none());
    assert!(leader.leader_metrics.get(3).is_none());
    assert!(matches!(r3.try_recv().unwrap(), RaftEvent::Terminate));
    let _ = eff;
}

#[test]
fn mark_for_removal_refused_for_member() {
    let membership = MembershipConfig { members: node_set(&[1, 2]), members_after_consensus: None };
    let mut leader = LeaderState::new(1, 1, 0, 0, 0, membership, test_config());
    let (s2, _r2) = stream();
    leader.add_voter(2, s2);
    assert!(!leader.mark_for_removal(2, 5));
    assert!(leader.nodes.get(2).unwrap().remove_after_commit.is_none());
}

#[test]
fn promotion_moves_the_record_without_restarting_the_worker() {
    let membership = MembershipConfig { members: node_set(&[1]), members_after_consensus: None };
    let mut leader = LeaderState::new(1, 1, 4, 1, 0, membership, test_config());
    let (snv, mut rnv) = stream();
    let (txnv, _rxnv) = tokio::sync::oneshot::channel();
    leader.add_non_voter(2, snv, txnv);
    assert!(leader.promote_non_voter(2));
    assert!(leader.non_voters.get(2).is_none());
    let promoted = leader.nodes.get(2).unwrap();
    assert_eq!(promoted.match_index, 4);
    // the same worker channel keeps serving the promoted record
    assert!(promoted.replstream.repl_tx.send(RaftEvent::Terminate).is_ok());
    assert!(matches!(rnv.try_recv().unwrap(), RaftEvent::Terminate));
    // a node without a non-voter record cannot be promoted
    assert!(!leader.promote_non_voter(9));
}

#[test]
fn at_most_one_snapshot_build() {
    let membership = MembershipConfig { members: node_set(&[1]), members_after_consensus: None };
    let mut leader = LeaderState::new(1, 1, 0, 0, 0, membership, test_config());
    let rt = tokio::runtime::Builder::new_current_thread().build().unwrap();
    let (btx, _brx) = tokio::sync::broadcast::channel::<u64>(4);
    assert!(leader.snapshot_state.is_none());
    assert!(leader.set_snapshotting(rt.spawn(std::future::ready(())), btx.clone()));
    // a second build cannot start while one is running
    assert!(!leader.set_snapshotting(rt.spawn(std::future::ready(())), btx.clone()));
    assert!(leader.finish_snapshotting().is_some());
    assert!(leader.snapshot_state.is_none());
    assert!(leader.set_snapshotting(rt.spawn(std::future::ready(())), btx));
}

#[test]
fn needs_snapshot_fresh_snapshot_is_served() {
    let membership = MembershipConfig { members: node_set(&[1]), members_after_consensus: None };
    let leader = LeaderState::new(1, 1, 100, 1, 0, membership, test_config());
    let (tx, mut rx) = tokio::sync::oneshot::channel();
    let snap = CurrentSnapshotData {
        term: 1,
        index: 50,
        membership: MembershipConfig::new_initial(1),
        data: vec![1, 2, 3],
    };
    let eff = leader.handle_needs_snapshot(tx, Some(snap));
    assert!(eff.is_none());
    let got = rx.try_recv().unwrap();
    assert_eq!(got.index, 50);
    assert_eq!(got.data, vec![1, 2, 3]);
}

#[test]
fn needs_snapshot_stale_snapshot_triggers_compaction() {
    let membership = MembershipConfig { members: node_set(&[1]), members_after_consensus: None };
    let leader = LeaderState::new(1, 1, 1000, 1, 0, membership, test_config());
    let (tx, _rx) = tokio::sync::oneshot::channel();
    let snap = CurrentSnapshotData {
        term: 1,
        index: 50,
        membership: MembershipConfig::new_initial(1),
        data: vec![],
    };
    let eff = leader.handle_needs_snapshot(tx, Some(snap));
    assert!(matches!(eff, Some(LeaderEffect::TriggerLogCompaction)));
}

#[test]
fn needs_snapshot_defers_behind_running_build() {
    let membership = MembershipConfig { members: node_set(&[1]), members_after_consensus: None };
    let mut leader = LeaderState::new(1, 1, 1000, 1, 0, membership, test_config());
    let rt = tokio::runtime::Builder::new_current_thread().build().unwrap();
    let (btx, _brx) = tokio::sync::broadcast::channel::<u64>(4);
    assert!(leader.set_snapshotting(rt.spawn(std::future::ready(())), btx.clone()));
    let (tx, _rx) = tokio::sync::oneshot::channel();
    let eff = leader.handle_needs_snapshot(tx, None);
    let mut completion = match eff {
        Some(LeaderEffect::DeferSnapshotReply { rx, .. }) => rx,
        _ => panic!("the reply was not deferred behind the running build"),
    };
    assert!(leader.snapshot_state.is_some());
    // the handed-back receiver is subscribed to the build's completion
    btx.send(42).unwrap();
    assert_eq!(completion.try_recv().unwrap(), 42);
}

#[test]
fn needs_snapshot_event_asks_for_lookup() {
    let membership = MembershipConfig { members: node_set(&[1]), members_after_consensus: None };
    let mut leader = LeaderState::new(1, 1, 0, 0, 0, membership, test_config());
    let (tx, _rx) = tokio::sync::oneshot::channel();
    let eff = leader.handle_replica_event(ReplicaEvent::NeedsSnapshot { target: 2, tx });
    assert!(matches!(eff, Some(LeaderEffect::FetchSnapshot { target: 2, .. })));
}

#[test]
fn shutdown_event_moves_to_terminal_state() {
    let membership = MembershipConfig { members: node_set(&[1]), members_after_consensus: None };
    let mut leader = LeaderState::new(1, 1, 0, 0, 0, membership, test_config());
    let eff = leader.handle_replica_event(ReplicaEvent::Shutdown);
    assert!(eff.is_none());
    assert!(matches!(leader.target_state, State::Shutdown));
}

#[test]
fn commit_queue_pops_in_ascending_index_order() {
    let mut leader = LeaderState::new(
        1,
        1,
        0,
        0,
        0,
        MembershipConfig { members: node_set(&[1]), members_after_consensus: None },
        test_config(),
    );
    let (t3, _r3) = tokio::sync::oneshot::channel();
    let (t5, _r5) = tokio::sync::oneshot::channel();
    let (t7, _r7) = tokio::sync::oneshot::channel();
    assert!(leader.awaiting_committed.push(ClientRequestPending { index: 3, tx: t3 }).is_ok());
    assert!(leader.awaiting_committed.push(ClientRequestPending { index: 5, tx: t5 }).is_ok());
    assert!(leader.awaiting_committed.push(ClientRequestPending { index: 7, tx: t7 }).is_ok());
    // an index out of order is handed back
    let (t4, _r4) = tokio::sync::oneshot::channel();
    match leader.awaiting_committed.push(ClientRequestPending { index: 4, tx: t4 }) {
        Err(back) => assert_eq!(back.index, 4),
        Ok(()) => panic!("out-of-order index was accepted"),
    }
    let first = leader.awaiting_committed.drain_through(5);
    assert_eq!(first.len(), 2);
    assert_eq!(first[0].index, 3);
    assert_eq!(first[1].index, 5);
    let none = leader.awaiting_committed.drain_through(6);
    assert_eq!(none.len(), 0);
    let rest = leader.awaiting_committed.drain_through(7);
    assert_eq!(rest.len(), 1);
    assert_eq!(rest[0].index, 7);
    assert_eq!(leader.awaiting_committed.len(), 0);
}

#[test]
fn spawned_replication_state_matches_log_head() {
    let membership = MembershipConfig { members: node_set(&[1]), members_after_consensus: None };
    let leader = LeaderState::new(1, 4, 17, 4, 9, membership, test_config());
    let (s, _r) = stream();
    let state = leader.spawn_replication_stream(s);
    assert_eq!(state.match_index, 17);
    assert_eq!(state.match_term, 4);
    assert!(state.remove_after_commit.is_none());
}
