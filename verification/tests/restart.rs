use fastetcd::admin::{recover_data_dir, DirState};
use fastetcd::batch::{BatchOp, Table, WriteBatch};
use fastetcd::codec::encode_log_id;
use fastetcd::idmap::IdMap;
use fastetcd::kv_log_store::LogState;
use fastetcd::log_store::Entry;
use fastetcd::membership::{Membership, SnapshotMeta, StoredMembership};
use fastetcd::model::{Mutation, MutationResult};
use fastetcd::snapshot_store::SnapshotStore;
use fastetcd::state_machine::{
    rebuild_mvcc, Applied, EntryPayload, FastetcdStateMachine, SnapshotPayload,
};
use fastetcd::stored::{
    decode_membership, decode_meta, encode_membership, encode_meta, join_membership,
};
use fastetcd::types::{FastetcdLogEntry, FastetcdLogResponse, LogId};
use std::collections::{BTreeMap, BTreeSet};

type RaftMembership = openraft::StoredMembership<u64, openraft::BasicNode>;
type RaftMeta = openraft::SnapshotMeta<u64, openraft::BasicNode>;

fn log_id(term: u64, index: u64) -> LogId {
    LogId { term, node_id: 1, index }
}

fn raft_log_id(l: LogId) -> openraft::LogId<u64> {
    openraft::LogId::new(openraft::CommittedLeaderId::new(l.term, l.node_id), l.index)
}

fn put_entry(index: u64, key: &str, value: &str) -> Entry<EntryPayload> {
    Entry {
        log_id: log_id(1, index),
        payload: EntryPayload::Normal(FastetcdLogEntry::Apply {
            mutations: vec![Mutation::Put {
                key: key.as_bytes().to_vec(),
                value: value.as_bytes().to_vec(),
                lease: 0,
                prev_kv: false,
                ignore_value: false,
                ignore_lease: false,
            }],
        }),
    }
}

fn addresses(ids: &[u64]) -> IdMap<String> {
    let mut m = IdMap::new();
    for id in ids {
        m.insert(*id, format!("http://10.0.0.{id}:2380"));
    }
    m
}

fn config_membership(ids: &[u64]) -> StoredMembership {
    StoredMembership {
        log_id: Some(log_id(1, 5)),
        membership: Membership::new(vec![ids.to_vec()], addresses(ids)),
    }
}

/// The same as `config_membership`, as the runtime has it.
fn raft_membership(ids: &[u64]) -> RaftMembership {
    let voters: BTreeSet<u64> = ids.iter().copied().collect();
    let nodes: BTreeMap<u64, openraft::BasicNode> = ids
        .iter()
        .map(|id| (*id, openraft::BasicNode::new(format!("http://10.0.0.{id}:2380"))))
        .collect();
    RaftMembership::new(
        Some(raft_log_id(log_id(1, 5))),
        openraft::Membership::new(vec![voters], nodes),
    )
}

/// What a store keeps of a state machine across restarts.
#[derive(Default)]
struct Disk {
    applied: Option<Vec<u8>>,
    membership: Option<Vec<u8>>,
    revision: i64,
}

impl Disk {
    fn open(&self) -> FastetcdStateMachine {
        let store = SnapshotStore::open(String::from("s"), 1, Vec::new(), None).0;
        FastetcdStateMachine::open_with_retention(
            store,
            self.applied.clone(),
            self.membership.clone(),
            None,
        )
        .unwrap()
    }

    fn apply(&mut self, sm: &mut FastetcdStateMachine, entries: Vec<Entry<EntryPayload>>) {
        for entry in entries {
            let staged = sm.stage(&entry);
            let done = match &entry.payload {
                EntryPayload::Normal(_) => {
                    self.revision += 1;
                    let results = vec![MutationResult { n: 1, prev_kvs: vec![] }];
                    Applied::Mutations { revision: self.revision, results }
                }
                _ => Applied::Revision(self.revision),
            };
            sm.apply(entry, done).unwrap();
            self.applied = Some(staged.applied);
            if staged.membership.is_some() {
                self.membership = staged.membership;
            }
        }
    }
}

#[test]
fn last_applied_survives_restart() {
    let mut disk = Disk::default();
    let mut sm = disk.open();
    disk.apply(
        &mut sm,
        vec![put_entry(1, "a", "1"), put_entry(2, "b", "2"), put_entry(3, "c", "3")],
    );
    assert_eq!(sm.applied_state().0, Some(log_id(1, 3)));
    assert_eq!(disk.revision, 3);

    let sm = disk.open();
    assert_eq!(
        sm.applied_state().0,
        Some(log_id(1, 3)),
        "last_applied_log_id must be restored from disk after restart"
    );
    assert_eq!(disk.revision, 3);
}

#[test]
fn membership_entries_persist_their_log_id() {
    let mut disk = Disk::default();
    let mut sm = disk.open();
    let members = Membership::new(vec![vec![1, 2, 3]], IdMap::new());
    disk.apply(
        &mut sm,
        vec![
            put_entry(1, "a", "1"),
            Entry { log_id: log_id(1, 2), payload: EntryPayload::Membership(members) },
            Entry { log_id: log_id(1, 3), payload: EntryPayload::Blank },
        ],
    );
    let sm = disk.open();
    let (applied, membership) = sm.applied_state();
    assert_eq!(
        applied,
        Some(log_id(1, 3)),
        "a trailing blank entry's log id must reach disk"
    );
    assert_eq!(membership.log_id, Some(log_id(1, 2)));
    assert_eq!(membership.membership.configs, vec![vec![1, 2, 3]]);
    assert_eq!(membership.membership.nodes.ids(), vec![1, 2, 3]);
}

#[test]
fn the_last_membership_entry_is_the_one_restored() {
    let mut disk = Disk::default();
    let mut sm = disk.open();
    let set = |index: u64, ids: &[u64]| Entry {
        log_id: log_id(1, index),
        payload: EntryPayload::Membership(config_membership(ids).membership),
    };
    disk.apply(&mut sm, vec![set(1, &[1]), set(2, &[1, 2]), put_entry(3, "a", "1")]);
    let mut sm = disk.open();
    assert_eq!(sm.applied_state().1.log_id, Some(log_id(1, 2)));
    assert_eq!(sm.applied_state().1.membership.voter_ids(), vec![1, 2]);
    // What a later process applies is found by the next.
    disk.apply(&mut sm, vec![put_entry(4, "b", "1"), set(5, &[1, 2, 3])]);
    let sm = disk.open();
    assert_eq!(sm.applied_state().0, Some(log_id(1, 5)));
    assert_eq!(sm.applied_state().1.membership.voter_ids(), vec![1, 2, 3]);
    assert_eq!(sm.applied_state().1.membership.nodes.get(3).unwrap(), "http://10.0.0.3:2380");
}

#[test]
fn recovery_floor_only_applies_to_damaged_stores() {
    let floor = log_id(1, 7);
    let empty = Disk::default();
    assert!(empty.open().recover_applied_floor(Some(floor), empty.revision).is_none());

    let mut healthy = Disk::default();
    let mut sm = healthy.open();
    healthy.apply(&mut sm, vec![put_entry(1, "a", "1")]);
    let sm = healthy.open();
    assert!(sm.recover_applied_floor(Some(floor), healthy.revision).is_none());
    assert_eq!(sm.applied_state().0, Some(log_id(1, 1)));

    // Data was written and nothing recorded with it.
    let mut damaged = Disk { revision: 1, ..Disk::default() };
    let adopted = damaged.open().recover_applied_floor(Some(floor), damaged.revision).unwrap();
    assert_eq!(adopted.log_id, floor);
    damaged.applied = Some(adopted.bytes);
    let sm = damaged.open();
    assert_eq!(sm.applied_state().0, Some(floor));
    assert!(sm.recover_applied_floor(Some(floor), damaged.revision).is_none());
}

#[test]
fn recovers_membership_for_a_legacy_data_dir() {
    let mut disk = Disk { revision: 5, ..Disk::default() };
    assert!(disk.open().membership_is_empty());
    let dir = DirState {
        format: None,
        expected_format: 2,
        revision: disk.revision,
        log: LogState { last_purged_log_id: None, last_log_id: Some(log_id(1, 5)) },
    };
    let plan =
        recover_data_dir(&disk.open(), dir, &addresses(&[1, 2, 3]), Vec::new(), 1, false);
    assert!(plan.report.stamped_format);
    disk.membership = plan.recorded;

    let sm = disk.open();
    assert!(!sm.membership_is_empty(), "membership must survive restart");
    assert_eq!(sm.applied_state().1.membership.voter_ids(), vec![1, 2, 3]);
    assert_eq!(sm.applied_state().1.log_id, Some(log_id(1, 5)));
    // The format marker suppresses a second recovery.
    let dir = DirState { format: Some(2), ..dir };
    let again = recover_data_dir(&sm, dir, &addresses(&[1, 2, 3]), Vec::new(), 1, false);
    assert!(!again.report.did_something() && again.recorded.is_none());
}

#[test]
fn does_not_touch_a_dir_that_already_has_membership() {
    let recorded = encode_membership(&config_membership(&[1, 2, 3]));
    let disk = Disk { membership: Some(recorded), ..Disk::default() };
    assert!(!disk.open().membership_is_empty());
}

#[test]
fn installed_snapshot_survives_restart() {
    let payload = SnapshotPayload {
        last_applied_log_id: Some(log_id(1, 10)),
        last_membership: config_membership(&[1, 2]),
        kv_table: vec![],
        idx_table: vec![],
        meta_table: vec![],
    };
    let batch: WriteBatch = rebuild_mvcc(&payload, b"raft_applied", b"raft_membership");
    let mut rows: BTreeMap<Vec<u8>, Vec<u8>> = BTreeMap::new();
    for op in batch.ops {
        match op {
            BatchOp::Put { table: Table::MvccMeta, key, value } => {
                rows.insert(key, value);
            }
            BatchOp::Clear { table: Table::MvccMeta } => rows.clear(),
            _ => {}
        }
    }
    let disk = Disk {
        applied: rows.remove(&b"raft_applied"[..]),
        membership: rows.remove(&b"raft_membership"[..]),
        revision: 10,
    };
    let sm = disk.open();
    assert_eq!(
        sm.applied_state().0,
        Some(log_id(1, 10)),
        "the installed applied position must be persisted, not just in memory"
    );
    assert_eq!(sm.applied_state().1.membership.voter_ids(), vec![1, 2]);
    assert_eq!(sm.applied_state().1.log_id, Some(log_id(1, 5)));
}

#[test]
fn what_does_not_read_is_refused_the_place_first() {
    let open = |applied: Option<Vec<u8>>, membership: Option<Vec<u8>>| {
        let store = SnapshotStore::open(String::from("s"), 1, Vec::new(), None).0;
        FastetcdStateMachine::open_with_retention(store, applied, membership, None)
    };
    let bad_place = open(Some(vec![9]), None).unwrap_err();
    let bad_membership = open(None, Some(vec![9])).unwrap_err();
    assert!(!bad_place.is_empty() && !bad_membership.is_empty());
    assert_eq!(open(Some(vec![9]), Some(vec![0, 1])).unwrap_err(), bad_place);
    let good = Some(encode_log_id(Some(log_id(1, 1))));
    assert_eq!(open(good, Some(vec![9])).unwrap_err(), bad_membership);
    assert_eq!(
        bad_membership,
        bincode::deserialize::<RaftMembership>(&[9]).unwrap_err().to_string()
    );
    let store = SnapshotStore::open(String::from("s"), 1, Vec::new(), None).0;
    let refused = Some(Err(String::from("no membership")));
    let e = FastetcdStateMachine::open_decoded(store, None, refused, None).unwrap_err();
    assert_eq!(e, "no membership");
}

#[test]
fn memberships_are_stored_as_the_runtime_stores_them() {
    for ids in [vec![], vec![1], vec![1, 2, 3], vec![7, 1 << 40]] {
        let theirs = bincode::serialize(&raft_membership(&ids)).unwrap();
        assert_eq!(encode_membership(&config_membership(&ids)), theirs);
        let back = decode_membership(&theirs).unwrap();
        assert_eq!(back.log_id, Some(log_id(1, 5)));
        assert_eq!(back.membership.configs, vec![ids.clone()]);
        assert_eq!(back.membership.nodes.ids(), ids);
    }
    // Two configurations, and a learner with a name that is not plain.
    let both = vec![BTreeSet::from([1u64, 2]), BTreeSet::from([2u64, 3])];
    let mut nodes: BTreeMap<u64, openraft::BasicNode> = BTreeMap::new();
    nodes.insert(9, openraft::BasicNode::new("http://müller"));
    let joint = RaftMembership::new(None, openraft::Membership::new(both, nodes));
    let back = decode_membership(&bincode::serialize(&joint).unwrap()).unwrap();
    assert_eq!(back.log_id, None);
    assert_eq!(back.membership.configs, vec![vec![1, 2], vec![2, 3]]);
    assert_eq!(back.membership.nodes.ids(), vec![1, 2, 3, 9]);
    assert_eq!(back.membership.nodes.get(9).unwrap(), "http://müller");
    assert_eq!(encode_membership(&back), bincode::serialize(&joint).unwrap());
    // One that was never set.
    let none = encode_membership(&StoredMembership::empty());
    assert_eq!(none, [0u8; 17]);
    assert_eq!(none, bincode::serialize(&RaftMembership::default()).unwrap());
    // Voters that are written twice or out of order are read in order.
    let odd = join_membership(None, vec![vec![3, 1, 3]], vec![]);
    let back = decode_membership(&encode_membership(&odd)).unwrap();
    assert_eq!(back.membership.configs, vec![vec![1, 3]]);
}

#[test]
fn metadata_is_stored_as_the_runtime_stores_it() {
    let ours = SnapshotMeta {
        last_log_id: Some(log_id(2, 77)),
        last_membership: config_membership(&[1, 2]),
        snapshot_id: String::from("snap-3"),
    };
    let theirs = RaftMeta {
        last_log_id: Some(raft_log_id(log_id(2, 77))),
        last_membership: raft_membership(&[1, 2]),
        snapshot_id: String::from("snap-3"),
    };
    let bytes = bincode::serialize(&theirs).unwrap();
    assert_eq!(encode_meta(&ours), bytes);
    assert_eq!(SnapshotStore::meta_record(&ours), bytes);
    let back = decode_meta(&bytes).unwrap();
    assert_eq!(back.last_log_id, Some(log_id(2, 77)));
    assert_eq!(back.last_membership.membership.voter_ids(), vec![1, 2]);
    assert_eq!(back.snapshot_id, "snap-3");
    assert!(decode_meta(&bytes[..bytes.len() - 1]).is_none());
    assert!(decode_meta(b"").is_none());
}

#[test]
fn entries_answer_in_kind() {
    let mut sm = Disk::default().open();
    let entry = Entry { log_id: log_id(1, 1), payload: EntryPayload::Blank };
    match sm.apply(entry, Applied::Revision(4)).unwrap() {
        FastetcdLogResponse::Noop { revision } => assert_eq!(revision, 4),
        other => panic!("{other:?}"),
    }
}
