use raft_core::membership::MembershipConfig;
use raft_core::membership::NodeSet;
use raft_core::raft_types::LogId;
use raft_core::store::ClientRequest;
use raft_core::store::Entry;
use raft_core::store::EntryPayload;
use raft_core::store::HardState;
use raft_core::store::MemStore;
use raft_core::store::MemStoreStateMachine;
use raft_core::store::SnapshotMeta;

fn blank(term: u64, index: u64) -> Entry {
    Entry { log_id: LogId { term, index }, payload: EntryPayload::Blank }
}

fn request(term: u64, index: u64, client: &str, serial: u64, status: &str) -> Entry {
    Entry {
        log_id: LogId { term, index },
        payload: EntryPayload::Normal(ClientRequest {
            client: client.to_string(),
            serial,
            status: status.to_string(),
        }),
    }
}

fn voters(ids: &[u64]) -> NodeSet {
    let mut s = NodeSet::new();
    for &id in ids {
        s.insert(id);
    }
    s
}

#[test]
fn new_store_holds_the_blank_zero_entry() {
    let ms = MemStore::new(1);
    let e = ms.try_get_log_entry(0).unwrap();
    assert_eq!(e.log_id, LogId { term: 0, index: 0 });
    assert!(matches!(e.payload, EntryPayload::Blank));
    assert_eq!(ms.last_id_in_log(), LogId { term: 0, index: 0 });
    assert!(ms.read_hard_state().is_none());
    assert!(ms.get_current_snapshot().is_none());
}

#[test]
fn append_range_and_delete() {
    let mut ms = MemStore::new(1);
    ms.append_to_log(vec![blank(1, 1), blank(1, 2), blank(1, 3)]);
    let entries = ms.get_log_entries(1, 3);
    assert_eq!(entries.len(), 2);
    assert_eq!(entries[0].log_id.index, 1);
    assert_eq!(entries[1].log_id.index, 2);
    let all = ms.try_get_log_entries(0, 100);
    assert_eq!(all.len(), 4);
    assert_eq!(ms.first_id_in_log(), Some(LogId { term: 0, index: 0 }));
    assert_eq!(ms.last_id_in_log(), LogId { term: 1, index: 3 });

    // overwriting an index replaces the entry
    ms.append_to_log(vec![request(2, 2, "c", 1, "s")]);
    let all = ms.get_log_entries(0, 100);
    assert_eq!(all.len(), 4);
    assert_eq!(ms.try_get_log_entry(2).unwrap().log_id.term, 2);

    ms.delete_logs_from(1, 3);
    assert!(ms.try_get_log_entry(1).is_none());
    assert!(ms.try_get_log_entry(2).is_none());
    assert_eq!(ms.try_get_log_entry(3).unwrap().log_id.index, 3);
    assert_eq!(ms.get_log_entries(0, 100).len(), 2);
}

#[test]
fn apply_records_status_and_answers_with_previous() {
    let mut ms = MemStore::new(1);
    let res = ms.apply_to_state_machine(&vec![
        request(1, 1, "alice", 1, "started"),
        request(1, 2, "alice", 2, "running"),
        request(1, 3, "bob", 1, "idle"),
    ]);
    assert_eq!(res.len(), 3);
    assert_eq!(res[0].0, None);
    assert_eq!(res[1].0, Some("started".to_string()));
    assert_eq!(res[2].0, None);
    let sm = ms.get_state_machine();
    assert_eq!(sm.last_applied_log, LogId { term: 1, index: 3 });
    assert_eq!(sm.client_status.get(&"alice".to_string()).unwrap().as_str(), "running");
    assert_eq!(sm.client_status.get(&"bob".to_string()).unwrap().as_str(), "idle");
}

#[test]
fn apply_deduplicates_by_serial() {
    let mut ms = MemStore::new(1);
    let res = ms.apply_to_state_machine(&vec![request(1, 1, "alice", 7, "first")]);
    assert_eq!(res[0].0, None);
    // the same serial applied again answers with the stored answer and
    // changes nothing
    let res = ms.apply_to_state_machine(&vec![request(1, 2, "alice", 7, "second")]);
    assert_eq!(res[0].0, None);
    assert_eq!(ms.get_state_machine().client_status.get(&"alice".to_string()).unwrap().as_str(), "first");
    // a new serial moves the status on and answers with the previous one
    let res = ms.apply_to_state_machine(&vec![request(1, 3, "alice", 8, "third")]);
    assert_eq!(res[0].0, Some("first".to_string()));
    assert_eq!(ms.get_state_machine().client_status.get(&"alice".to_string()).unwrap().as_str(), "third");
}

#[test]
fn apply_membership_entry_is_recorded() {
    let mut ms = MemStore::new(1);
    let cfg = MembershipConfig { members: voters(&[1, 2, 3]), members_after_consensus: None };
    let res = ms.apply_to_state_machine(&vec![Entry {
        log_id: LogId { term: 1, index: 4 },
        payload: EntryPayload::Membership(cfg),
    }]);
    assert_eq!(res[0].0, None);
    let sm = ms.get_state_machine();
    let em = sm.last_membership.as_ref().unwrap();
    assert_eq!(em.log_id, LogId { term: 1, index: 4 });
    assert!(em.membership.members.contains(2));
    let (last, m) = ms.last_applied_state();
    assert_eq!(last, LogId { term: 1, index: 4 });
    assert!(m.unwrap().membership.members.contains(3));
}

#[test]
fn membership_from_log_prefers_the_newest() {
    let mut ms = MemStore::new(7);
    // nothing recorded anywhere: the initial single-node configuration
    let em = ms.get_membership_config();
    assert_eq!(em.log_id, LogId { term: 0, index: 0 });
    assert!(em.membership.members.contains(7));
    assert_eq!(em.membership.members.len(), 1);

    // a membership entry in the log wins over nothing in the state machine
    let cfg = MembershipConfig { members: voters(&[7, 8]), members_after_consensus: None };
    ms.append_to_log(vec![Entry {
        log_id: LogId { term: 1, index: 5 },
        payload: EntryPayload::Membership(cfg),
    }]);
    let em = ms.get_membership_config();
    assert_eq!(em.log_id, LogId { term: 1, index: 5 });
    assert!(em.membership.members.contains(8));

    // an upper bound below the entry hides it again
    let em = ms.get_membership_from_log(Some(4));
    assert_eq!(em.log_id, LogId { term: 0, index: 0 });
}

#[test]
fn initial_state_is_created_then_read_back() {
    let mut ms = MemStore::new(3);
    let init = ms.get_initial_state();
    assert_eq!(init.hard_state.current_term, 0);
    assert!(init.hard_state.voted_for.is_none());
    assert_eq!(init.last_log_id, LogId { term: 0, index: 0 });
    assert!(ms.read_hard_state().is_some());

    ms.save_hard_state(&HardState { current_term: 9, voted_for: Some(3) });
    ms.append_to_log(vec![blank(9, 4)]);
    let init = ms.get_initial_state();
    assert_eq!(init.hard_state.current_term, 9);
    assert_eq!(init.hard_state.voted_for, Some(3));
    // the log's head lies past the state machine's last applied position
    assert_eq!(init.last_log_id, LogId { term: 9, index: 4 });
    assert_eq!(init.last_applied, LogId { term: 0, index: 0 });
}

#[test]
fn first_known_log_id_takes_the_earlier() {
    let mut ms = MemStore::new(1);
    assert_eq!(ms.first_known_log_id(), LogId { term: 0, index: 0 });
    ms.delete_logs_from(0, 1);
    ms.append_to_log(vec![blank(2, 5)]);
    ms.apply_to_state_machine(&vec![request(1, 3, "c", 1, "s")]);
    // the state machine knows of (1, 3), the log only starts at (2, 5)
    assert_eq!(ms.first_known_log_id(), LogId { term: 1, index: 3 });
}

#[test]
fn log_compaction_names_and_stores_the_snapshot() {
    let mut ms = MemStore::new(1);
    ms.apply_to_state_machine(&vec![request(3, 5, "c", 1, "s")]);
    let bytes = vec![1u8, 2, 3, 4];
    let snapshot = ms.do_log_compaction(bytes.clone());
    assert_eq!(snapshot.meta.last_log_id, LogId { term: 3, index: 5 });
    assert_eq!(snapshot.meta.snapshot_id, format!("{}-{}-{}", 3, 5, 1));
    assert_eq!(snapshot.data, bytes);
    let stored = ms.get_current_snapshot().unwrap();
    assert_eq!(stored.meta.snapshot_id, "3-5-1");
    assert_eq!(stored.data, bytes);
    // the next snapshot gets a fresh id
    let snapshot = ms.do_log_compaction(bytes.clone());
    assert_eq!(snapshot.meta.snapshot_id, "3-5-2");
}

#[test]
fn finalize_snapshot_installation_replaces_the_state_machine() {
    let mut ms = MemStore::new(1);
    let mut new_sm = MemStoreStateMachine::new();
    new_sm.last_applied_log = LogId { term: 2, index: 10 };
    let meta = SnapshotMeta {
        last_log_id: LogId { term: 2, index: 10 },
        snapshot_id: "2-10-1".to_string(),
    };
    let changes = ms.finalize_snapshot_installation(meta, new_sm, vec![5, 6]);
    assert_eq!(changes.last_applied, Some(LogId { term: 2, index: 10 }));
    assert!(changes.is_snapshot);
    assert_eq!(ms.get_state_machine().last_applied_log, LogId { term: 2, index: 10 });
    assert_eq!(ms.get_current_snapshot().unwrap().data, vec![5, 6]);
}
