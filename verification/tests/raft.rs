use fastetcd::batch::{BatchOp, Table, WriteBatch};
use fastetcd::codec::{
    decode_bare_log_id, decode_log_id, decode_vote, encode_bare_log_id, encode_log_id, encode_vote,
    u64_from_be, u64_to_be,
};
use fastetcd::idmap::IdMap;
use fastetcd::kv_log_store::{
    idx_key, meta_committed, meta_last_purged, meta_vote, EncodedEntry, IndexBound, KeyBound,
    KvLogStore,
};
use fastetcd::log_store::{Entry, MemLogStore, Vote};
use fastetcd::membership::{Membership, SnapshotMeta, StoredMembership};
use fastetcd::network::{empty_peers, Dial, PeerCall, RaftPeerService, Reply, WriteForwarder};
use fastetcd::snapshot_data::{Body, Content};
use fastetcd::snapshot_store::SnapshotStore;
use fastetcd::state_machine::{
    rebuild_mvcc, Applied, CurrentSnapshot, EntryPayload, FastetcdStateMachine, InstallStage,
    Retention, Row, SnapshotPayload,
};
use fastetcd::status::Code;
use fastetcd::types::{FastetcdLogEntry, FastetcdLogResponse, LeaseGrantResult, LogId};
use std::collections::BTreeMap;

fn at(index: u64) -> LogId {
    LogId { term: 3, node_id: 9, index }
}

/// Tables in memory, which batches are carried out on.
#[derive(Default)]
struct Engine {
    rows: BTreeMap<(String, Vec<u8>), Vec<u8>>,
}

impl Engine {
    fn commit(&mut self, batch: WriteBatch) {
        for op in batch.ops {
            match op {
                BatchOp::Put { table, key, value } => {
                    self.rows.insert((table.name().to_string(), key), value);
                }
                BatchOp::DeleteRange { table, start, end } => {
                    self.rows.retain(|(t, k), _| t != table.name() || *k < start || *k >= end);
                }
                BatchOp::Clear { table } => self.rows.retain(|(t, _), _| t != table.name()),
            }
        }
    }

    fn get(&self, table: Table, key: &[u8]) -> Option<Vec<u8>> {
        self.rows.get(&(table.name().to_string(), key.to_vec())).cloned()
    }

    fn indices(&self) -> Vec<u64> {
        self.rows
            .keys()
            .filter(|(t, _)| t == "raft_log")
            .map(|(_, k)| u64_from_be(k))
            .collect()
    }
}

fn encoded(indices: &[u64]) -> Vec<EncodedEntry> {
    indices.iter().map(|i| EncodedEntry { index: *i, bytes: vec![*i as u8] }).collect()
}

#[test]
fn numbers_are_stored_most_significant_first() {
    assert_eq!(u64_to_be(0x0102_0304_0506_0708), vec![1, 2, 3, 4, 5, 6, 7, 8]);
    assert_eq!(idx_key(258), vec![0, 0, 0, 0, 0, 0, 1, 2]);
    assert_eq!(u64_from_be(&[1, 2]), 258);
    assert!(idx_key(255) < idx_key(256));
}

#[test]
fn log_positions_are_stored_as_the_encoder_stores_them() {
    assert_eq!(encode_log_id(None), vec![0]);
    let mut want = vec![1];
    want.extend(3u64.to_le_bytes());
    want.extend(9u64.to_le_bytes());
    want.extend(513u64.to_le_bytes());
    assert_eq!(encode_log_id(Some(at(513))), want);
    assert_eq!(encode_bare_log_id(at(513)), want[1..].to_vec());
    assert_eq!(decode_log_id(&want).unwrap(), Some(at(513)));
    assert_eq!(decode_bare_log_id(&want[1..]).unwrap(), at(513));
    assert_eq!(decode_log_id(&[0, 7]).unwrap(), None);
    want.push(42);
    assert_eq!(decode_log_id(&want).unwrap(), Some(at(513)));
    assert!(decode_log_id(&[]).is_err());
    assert!(decode_log_id(&[2]).is_err());
    assert!(decode_log_id(&want[..20]).is_err());
    assert!(decode_bare_log_id(&want[..20]).is_err());
    assert_eq!(bincode::serialize(&Some((3u64, 9u64, 513u64))).unwrap(), encode_log_id(Some(at(513))));
}

#[test]
fn the_log_is_appended_truncated_and_purged() {
    let log = KvLogStore::new();
    let mut e = Engine::default();
    e.commit(log.append(&encoded(&[1, 2, 3, 4, 5, 256])));
    assert_eq!(e.indices(), vec![1, 2, 3, 4, 5, 256]);
    e.commit(log.truncate(at(5)));
    assert_eq!(e.indices(), vec![1, 2, 3, 4]);
    e.commit(log.purge(at(2)));
    assert_eq!(e.indices(), vec![3, 4]);
    let purged = log.read_last_purged(e.get(Table::RaftMeta, &meta_last_purged())).unwrap();
    assert_eq!(purged, Some(at(2)));
    assert_eq!(meta_last_purged(), b"last_purged_log_id".to_vec());
    e.commit(log.append(&encoded(&[u64::MAX])));
    e.commit(log.truncate(at(u64::MAX)));
    assert_eq!(e.indices(), vec![3, 4]);
}

#[test]
fn the_log_state_falls_back_to_what_was_purged() {
    let log = KvLogStore::new();
    let s = log.get_log_state(None, Some(at(7)));
    assert_eq!(s.last_log_id, Some(at(7)));
    assert_eq!(s.last_purged_log_id, Some(at(7)));
    let s = log.get_log_state(Some(at(9)), Some(at(7)));
    assert_eq!(s.last_log_id, Some(at(9)));
    let s = log.get_log_state(None, None);
    assert_eq!(s.last_log_id, None);
}

#[test]
fn votes_are_stored_as_the_consensus_runtime_stores_them() {
    let vote = Vote { term: 0x0102, node_id: 7, committed: true };
    let mut bytes = encode_vote(vote);
    assert_eq!(bytes, vec![2, 1, 0, 0, 0, 0, 0, 0, 7, 0, 0, 0, 0, 0, 0, 0, 1]);
    let theirs: openraft::Vote<u64> = openraft::Vote::new_committed(0x0102, 7);
    assert_eq!(bincode::serialize(&theirs).unwrap(), bytes);
    bytes.push(9);
    assert_eq!(decode_vote(&bytes).unwrap(), vote);
    bytes[16] = 0;
    assert!(!decode_vote(&bytes).unwrap().committed);
    bytes[16] = 2;
    let refused: Result<(u64, u64, bool), bincode::Error> = bincode::deserialize(&bytes);
    assert_eq!(decode_vote(&bytes).unwrap_err(), refused.unwrap_err().to_string());
    let leader = openraft::CommittedLeaderId::new(1, 1);
    let at: openraft::LogId<u64> = openraft::LogId::new(leader, 513);
    let ours = LogId { term: 1, node_id: 1, index: 513 };
    assert_eq!(bincode::serialize(&at).unwrap(), encode_bare_log_id(ours));
    assert_eq!(bincode::serialize(&Some(at)).unwrap(), encode_log_id(Some(ours)));
}

#[test]
fn vote_and_commit_position_have_rows_of_their_own() {
    let log = KvLogStore::new();
    let mut e = Engine::default();
    let vote = Vote { term: 3, node_id: 2, committed: true };
    e.commit(log.save_vote(vote));
    e.commit(log.save_committed(Some(at(4))));
    assert_eq!(meta_vote(), b"vote".to_vec());
    assert_eq!(meta_committed(), b"committed".to_vec());
    assert_eq!(log.read_vote(e.get(Table::RaftMeta, b"vote")).unwrap(), Some(vote));
    assert_eq!(log.read_vote(None).unwrap(), None);
    assert!(log.read_vote(Some(vec![0; 16])).is_err());
    assert_eq!(log.read_committed(e.get(Table::RaftMeta, b"committed")).unwrap(), Some(at(4)));
    assert_eq!(log.read_committed(None).unwrap(), None);
    assert!(log.read_committed(Some(vec![9])).is_err());
    match log.row_bound(IndexBound::Excluded(2)) {
        KeyBound::Excluded(k) => assert_eq!(k, idx_key(2)),
        other => panic!("{other:?}"),
    }
    assert!(matches!(log.row_bound(IndexBound::Unbounded), KeyBound::Unbounded));
}

#[test]
fn the_log_in_memory_behaves_alike() {
    let mut log: MemLogStore<&str> = MemLogStore::new();
    assert_eq!(log.get_log_state().last_log_id, None);
    log.append(vec![
        Entry { log_id: at(2), payload: "b" },
        Entry { log_id: at(1), payload: "a" },
        Entry { log_id: at(3), payload: "c" },
        Entry { log_id: at(2), payload: "B" },
    ]);
    let got: Vec<&str> = log
        .try_get_log_entries(IndexBound::Included(2), IndexBound::Unbounded)
        .iter()
        .map(|e| e.payload)
        .collect();
    assert_eq!(got, vec!["B", "c"]);
    let got = log.try_get_log_entries(IndexBound::Excluded(1), IndexBound::Excluded(3));
    assert_eq!(got.len(), 1);
    log.truncate(at(3));
    assert_eq!(log.get_log_state().last_log_id, Some(at(2)));
    log.purge(at(2));
    let s = log.get_log_state();
    assert_eq!(s.last_log_id, Some(at(2)));
    assert_eq!(s.last_purged_log_id, Some(at(2)));
    let v = Vote { term: 4, node_id: 1, committed: true };
    log.save_vote(v);
    assert_eq!(log.read_vote(), Some(v));
    log.save_committed(Some(at(2)));
    assert_eq!(log.read_committed(), Some(at(2)));
}

fn membership(configs: Vec<Vec<u64>>) -> Membership {
    Membership::new(configs, IdMap::new())
}

#[test]
fn voters_are_the_union_of_the_configurations() {
    let m = membership(vec![vec![3, 1], vec![2, 3]]);
    assert_eq!(m.voter_ids(), vec![1, 2, 3]);
    assert!(!m.is_voterless());
    assert_eq!(m.nodes.get(2).unwrap(), "");
    assert!(membership(vec![vec![]]).is_voterless());
    let mut nodes = IdMap::new();
    nodes.insert(5, String::from("http://five"));
    nodes.insert(1, String::from("http://one"));
    let m = Membership::new(vec![vec![1]], nodes);
    assert_eq!(m.nodes.get(1).unwrap(), "http://one");
    assert_eq!(m.nodes.ids(), vec![1, 5]);
    assert_eq!(m.voter_ids(), vec![1]);
}

fn snapshots() -> SnapshotStore {
    SnapshotStore::open(String::from("s"), 1, Vec::new(), None).0
}

fn machine(applied: Option<Vec<u8>>) -> FastetcdStateMachine {
    FastetcdStateMachine::open_with_retention(snapshots(), applied, None, None).unwrap()
}

#[test]
fn a_restart_resumes_after_the_last_entry() {
    let mut sm = machine(None);
    assert_eq!(sm.applied_state().0, None);
    assert!(sm.membership_is_empty());
    let entry = Entry {
        log_id: at(1),
        payload: EntryPayload::Membership(membership(vec![vec![1]])),
    };
    assert!(sm.stage(&entry).membership.is_some());
    let r = sm.apply(entry, Applied::Revision(0)).unwrap();
    assert!(matches!(r, FastetcdLogResponse::Noop { revision: 0 }));
    assert!(!sm.membership_is_empty());
    assert_eq!(sm.applied_state().1.log_id, Some(at(1)));
    let entry = Entry {
        log_id: at(2),
        payload: EntryPayload::Normal(FastetcdLogEntry::LeaseGrant {
            id: 5,
            ttl_secs: 60,
            now_unix: 1,
        }),
    };
    let staged = sm.stage(&entry);
    assert!(staged.membership.is_none());
    let granted = LeaseGrantResult { id: 5, ttl_secs: 60, revision: 1 };
    let r = sm.apply(entry, Applied::LeaseGranted(granted)).unwrap();
    assert_eq!(r.header_revision(), 1);
    let again = machine(Some(staged.applied));
    assert_eq!(again.applied_state().0, Some(at(2)));
    assert_eq!(again.snapshot_retention(), 1);
}

#[test]
fn an_entry_that_is_refused_is_not_applied() {
    let mut sm = machine(None);
    let entry = Entry {
        log_id: at(1),
        payload: EntryPayload::Normal(FastetcdLogEntry::Compact { rev: 9 }),
    };
    let e = sm.apply(entry, Applied::Refused(String::from("future revision"))).unwrap_err();
    assert_eq!(e, "apply failed: future revision");
    assert_eq!(sm.applied_state().0, None);
    let entry = Entry { log_id: at(1), payload: EntryPayload::Blank };
    assert!(sm.apply(entry, Applied::Compacted { compact_rev: 1 }).is_err());
    assert!(FastetcdStateMachine::open_with_retention(snapshots(), Some(vec![9]), None, None).is_err());
}

#[test]
fn the_purge_floor_is_adopted_only_where_nothing_was_recorded() {
    let mut sm = machine(None);
    assert!(sm.recover_applied_floor(None, 5).is_none());
    assert!(sm.recover_applied_floor(Some(at(7)), 0).is_none());
    let floor = sm.recover_applied_floor(Some(at(7)), 5).unwrap();
    assert_eq!(floor.log_id, at(7));
    assert_eq!(decode_log_id(&floor.bytes).unwrap(), Some(at(7)));
    sm.adopt_floor(floor.log_id);
    assert!(sm.recover_applied_floor(Some(at(7)), 5).is_none());
    sm.recover_membership(StoredMembership {
        log_id: Some(at(7)),
        membership: membership(vec![vec![1]]),
    });
    assert!(!sm.membership_is_empty());
}

fn meta(id: &str) -> SnapshotMeta {
    SnapshotMeta {
        last_log_id: Some(at(1)),
        last_membership: StoredMembership::empty(),
        snapshot_id: id.to_string(),
    }
}

#[test]
fn a_missing_snapshot_file_is_rebuilt_on_demand() {
    let mut sm = machine(None);
    assert_eq!(sm.get_current_snapshot(false), CurrentSnapshot::Nothing);
    sm.adopt_floor(at(1));
    assert_eq!(sm.get_current_snapshot(false), CurrentSnapshot::Build);
    let m = sm.next_snapshot(Some(at(1)), StoredMembership::empty());
    assert_eq!(m.snapshot_id, "snap-1");
    sm.snapshot_built(m, true);
    assert_eq!(sm.get_current_snapshot(true), CurrentSnapshot::Retained);
    // The file went away: the record of it goes too, and one is built.
    assert_eq!(sm.get_current_snapshot(false), CurrentSnapshot::Build);
    assert!(sm.current_snapshot.is_none());
    assert_eq!(sm.next_snapshot(None, StoredMembership::empty()).snapshot_id, "snap-2");
}

#[test]
fn a_snapshot_that_cannot_be_written_is_held_in_memory() {
    let mut sm = machine(None);
    let body = sm.written_snapshot(false, b"bytes".to_vec());
    assert!(body.is_in_memory());
    sm.snapshot_built(meta("snap-1"), false);
    assert!(sm.current_snapshot.is_none());
    assert!(matches!(sm.written_snapshot(true, Vec::new()).body, Body::Retained));
    assert!(sm.begin_receiving_snapshot(None, false).is_in_memory());
    assert!(!sm.begin_receiving_snapshot(Some(meta("snap-3")), true).is_in_memory());
    assert_eq!(sm.current_snapshot.as_ref().unwrap().snapshot_id, "snap-3");
}

#[test]
fn an_installed_snapshot_is_kept_as_it_came() {
    let mut sm = machine(None);
    assert!(matches!(sm.retain_installed(Content::Incoming), Retention::Adopt));
    assert!(matches!(sm.retain_installed(Content::Retained), Retention::Copy));
    match sm.retain_installed(Content::Memory(vec![1, 2])) {
        Retention::WriteBytes(b) => assert_eq!(b, vec![1, 2]),
        other => panic!("{other:?}"),
    }
    let stored = StoredMembership { log_id: Some(at(3)), membership: membership(vec![vec![8]]) };
    sm.install_snapshot(Some(at(9)), stored, None);
    assert_eq!(sm.applied_state().0, Some(at(9)));
    assert_eq!(sm.applied_state().1.membership.voter_ids(), vec![8]);
    assert!(sm.current_snapshot.is_none());
}

fn payload_of(kv_table: Vec<Row>) -> SnapshotPayload {
    SnapshotPayload {
        last_applied_log_id: Some(at(50)),
        last_membership: StoredMembership::empty(),
        kv_table,
        idx_table: vec![],
        meta_table: vec![],
    }
}

#[test]
fn a_corrupt_snapshot_is_refused_before_it_touches_the_database() {
    let mut sm = machine(None);
    sm.adopt_floor(at(1));
    let body = sm.begin_receiving_snapshot(None, true);
    let content = body.into_content(true);
    // A hundred bytes of ones are no snapshot.
    let e = sm.begin_install(&content, Err(String::from("invalid value"))).unwrap_err();
    assert_eq!((e.at, e.error.as_str()), (InstallStage::Read, "invalid value"));
    assert!(e.delete_file);
    assert_eq!(sm.applied_state().0, Some(at(1)));
}

#[test]
fn only_a_received_file_goes_with_a_refused_snapshot() {
    let sm = machine(None);
    for content in [Content::Retained, Content::Memory(vec![1])] {
        let e = sm.begin_install(&content, Err(String::from("eof"))).unwrap_err();
        assert!(!e.delete_file);
        let e = sm.rows_replaced(&content, Err(String::from("io"))).unwrap_err();
        assert!(!e.delete_file);
    }
    let e = sm.rows_replaced(&Content::Incoming, Err(String::from("io"))).unwrap_err();
    assert_eq!((e.at, e.error.as_str()), (InstallStage::Write, "rebuild mvcc from snapshot: io"));
    assert!(e.delete_file);
    assert!(sm.rows_replaced(&Content::Incoming, Ok(())).is_ok());
    let payload = sm.begin_install(&Content::Incoming, Ok(payload_of(vec![row(b"k", b"v")]))).unwrap();
    assert_eq!(payload.last_applied_log_id, Some(at(50)));
    assert_eq!(payload.kv_table[0].key, b"k");
}

fn row(k: &[u8], v: &[u8]) -> Row {
    Row { key: k.to_vec(), value: v.to_vec() }
}

#[test]
fn installing_replaces_every_row() {
    let mut e = Engine::default();
    let mut old = WriteBatch::new();
    old.put(Table::MvccKv, b"gone", b"1");
    old.put(Table::MvccKv, &[0xff; 70], b"1");
    old.put(Table::MvccMeta, b"raft_applied", b"old");
    old.put(Table::RaftLog, b"stays", b"2");
    e.commit(old);
    let payload = SnapshotPayload {
        last_applied_log_id: Some(at(40)),
        last_membership: StoredMembership::empty(),
        kv_table: vec![row(b"k", b"v")],
        idx_table: vec![row(b"i", b"x")],
        meta_table: vec![row(b"rev", b"7"), row(b"raft_applied", b"theirs")],
    };
    e.commit(rebuild_mvcc(&payload, b"raft_applied", b"raft_membership"));
    assert_eq!(e.get(Table::MvccKv, b"gone"), None);
    assert_eq!(e.get(Table::MvccKv, &[0xff; 70]), None);
    assert_eq!(e.get(Table::MvccKv, b"k"), Some(b"v".to_vec()));
    assert_eq!(e.get(Table::MvccIdx, b"i"), Some(b"x".to_vec()));
    assert_eq!(e.get(Table::MvccMeta, b"rev"), Some(b"7".to_vec()));
    assert_eq!(e.get(Table::MvccMeta, b"raft_applied"), Some(encode_log_id(Some(at(40)))));
    assert_eq!(e.get(Table::MvccMeta, b"raft_membership"), Some(vec![0; 17]));
    assert_eq!(e.get(Table::RaftLog, b"stays"), Some(b"2".to_vec()));
}

#[test]
fn a_node_that_failed_is_dialled_again() {
    let mut peers = empty_peers();
    let mut f: WriteForwarder<u32> = WriteForwarder::new();
    match f.client(&peers, 4) {
        Dial::Unknown(t) => assert_eq!(t, "no peer URL for node 4"),
        other => panic!("{other:?}"),
    }
    peers.urls.insert(4, String::from("http://four"));
    match f.client(&peers, 4) {
        Dial::Connect(url) => assert_eq!(url, "http://four"),
        other => panic!("{other:?}"),
    }
    f.connected(4, 77);
    assert!(matches!(f.client(&peers, 4), Dial::Kept(77)));
    assert_eq!(f.forward(4, Reply::Answered(Ok(5))), Ok(5));
    assert_eq!(f.forward::<u8>(4, Reply::Garbled(String::from("eof"))), Err(String::from("eof")));
    assert!(matches!(f.client(&peers, 4), Dial::Kept(77)));
    assert_eq!(f.forward::<u8>(4, Reply::Unreachable(String::from("x"))), Err(String::from("x")));
    assert!(matches!(f.client(&peers, 4), Dial::Connect(_)));
}

#[test]
fn peers_are_answered_with_what_failed() {
    let s = RaftPeerService;
    let e = s.undecodable(PeerCall::ForwardRead, "eof");
    assert_eq!((e.code(), e.message()), (Code::InvalidArgument, "decode ForwardRead: eof"));
    let e = s.raft_failed(PeerCall::InstallSnapshot, "boom");
    assert_eq!((e.code(), e.message()), (Code::Internal, "raft.install_snapshot: boom"));
    let e = s.unencodable("boom");
    assert_eq!(e.message(), "encode response: boom");
    assert_eq!(s.forward_read(Err(String::from("not leader")), Ok(1)), Err(String::from("not leader")));
    assert_eq!(s.forward_read(Ok(()), Ok(1)), Ok(1));
}
