use fastetcd::admin::{
    backup_before_version, backup_line, before_backup, cmd_backup, cmd_defrag, cmd_restore, data_file,
    defrag_usage_line, membership_search, prune_backups, recover_data_dir, restore_line, sanitize,
    BackupFile, DirState,
};
use fastetcd::fsck::{cmd_fsck, findings, repairs, FsckInput, Subject};
use fastetcd::idmap::IdMap;
use fastetcd::kv_log_store::LogState;
use fastetcd::log_store::Entry;
use fastetcd::membership::{Membership, StoredMembership};
use fastetcd::snapshot_store::SnapshotStore;
use fastetcd::state_machine::{EntryPayload, FastetcdStateMachine};
use fastetcd::stored::decode_membership;
use fastetcd::types::LogId;

fn at(index: u64) -> LogId {
    LogId { term: 1, node_id: 1, index }
}

fn log(purged: Option<u64>, last: Option<u64>) -> LogState {
    LogState { last_purged_log_id: purged.map(at), last_log_id: last.map(at) }
}

fn machine() -> FastetcdStateMachine {
    let store = SnapshotStore::open(String::from("s"), 1, Vec::new(), None).0;
    FastetcdStateMachine::open_with_retention(store, None, None, None).unwrap()
}

fn members(ids: &[u64]) -> IdMap<String> {
    let mut m = IdMap::new();
    for id in ids {
        m.insert(*id, format!("http://n{id}"));
    }
    m
}

fn legacy(revision: i64) -> DirState {
    DirState { format: None, expected_format: 2, revision, log: log(Some(10), Some(50)) }
}

fn membership_entry(index: u64, voters: Vec<u64>) -> Entry<EntryPayload> {
    Entry {
        log_id: at(index),
        payload: EntryPayload::Membership(Membership::new(vec![voters], IdMap::new())),
    }
}

#[test]
fn a_legacy_directory_is_recovered_from_its_log() {
    let sm = machine();
    assert_eq!(membership_search(&sm, legacy(5), false), Some((11, 51)));
    let tail = vec![
        membership_entry(12, vec![1]),
        membership_entry(20, vec![1, 2, 3]),
        Entry { log_id: at(21), payload: EntryPayload::Blank },
    ];
    let plan = recover_data_dir(&sm, legacy(5), &members(&[42]), tail, 42, false);
    assert!(plan.report.did_something());
    assert_eq!(plan.report.adopted_applied, Some(at(10)));
    assert_eq!(plan.report.membership_source, Some("retained raft log (exact)"));
    assert_eq!(plan.report.membership_voters, vec![1, 2, 3]);
    let recorded = decode_membership(&plan.recorded.unwrap()).unwrap();
    assert_eq!(recorded.membership.voter_ids(), vec![1, 2, 3]);
    assert_eq!(plan.membership.unwrap().log_id, Some(at(20)));
    assert!(plan.report.stamped_format);
}

#[test]
fn a_log_without_membership_falls_back_to_the_configured_members() {
    let sm = machine();
    let plan = recover_data_dir(&sm, legacy(5), &members(&[7, 3]), Vec::new(), 7, false);
    assert_eq!(
        plan.report.membership_source,
        Some("--initial-cluster (log purged clean of membership; best effort)")
    );
    assert_eq!(plan.report.membership_voters, vec![3, 7]);
    let m = plan.membership.unwrap();
    assert_eq!(m.log_id, Some(at(10)));
    assert_eq!(m.membership.nodes.get(3).unwrap(), "http://n3");
}

#[test]
fn a_forced_cluster_is_this_node_alone() {
    let sm = machine();
    assert_eq!(membership_search(&sm, legacy(5), true), None);
    let plan = recover_data_dir(&sm, legacy(5), &members(&[7, 3]), Vec::new(), 9, true);
    assert_eq!(plan.report.membership_source, Some("--force-new-cluster (single node)"));
    assert_eq!(plan.report.membership_voters, vec![9]);
    assert_eq!(plan.membership.unwrap().membership.nodes.get(9).unwrap(), "");
}

#[test]
fn a_healthy_directory_is_left_alone() {
    let mut sm = machine();
    sm.adopt_floor(at(10));
    sm.recover_membership(StoredMembership {
        log_id: Some(at(1)),
        membership: Membership::new(vec![vec![1]], IdMap::new()),
    });
    let d = DirState { format: Some(2), ..legacy(5) };
    assert_eq!(membership_search(&sm, d, false), None);
    let plan = recover_data_dir(&sm, d, &members(&[1]), Vec::new(), 1, false);
    assert!(!plan.report.did_something());
    assert!(plan.applied.is_none() && plan.membership.is_none());
}

#[test]
fn a_second_recovery_does_nothing() {
    let mut sm = machine();
    let tail = || vec![membership_entry(20, vec![1, 2, 3])];
    let plan = recover_data_dir(&sm, legacy(5), &members(&[42]), tail(), 42, false);
    assert!(plan.report.did_something());
    assert!(plan.applied.is_some());
    sm.adopt_floor(plan.report.adopted_applied.unwrap());
    sm.recover_membership(plan.membership.unwrap());
    let d = DirState { format: Some(2), ..legacy(5) };
    let again = recover_data_dir(&sm, d, &members(&[42]), tail(), 42, false);
    assert!(!again.report.did_something());
    assert!(again.applied.is_none() && again.membership.is_none());
}

#[test]
fn an_empty_directory_is_only_stamped() {
    let plan = recover_data_dir(&machine(), legacy(0), &members(&[1]), Vec::new(), 1, false);
    assert_eq!(plan.report.adopted_applied, None);
    assert!(plan.membership.is_none());
    assert!(plan.report.stamped_format);
}

#[test]
fn the_search_is_bounded_to_the_recent_tail() {
    let sm = machine();
    let d = DirState { log: log(None, Some(100_000)), ..legacy(5) };
    assert_eq!(membership_search(&sm, d, false), Some((80_001, 100_001)));
    let d = DirState { log: log(Some(99_000), Some(100_000)), ..legacy(5) };
    assert_eq!(membership_search(&sm, d, false), Some((99_001, 100_001)));
    let d = DirState { log: log(Some(100), None), ..legacy(5) };
    assert_eq!(membership_search(&sm, d, false), None);
}

fn input() -> FsckInput {
    FsckInput {
        format: None,
        expected_format: 2,
        current_rev: 4,
        compact_rev: 0,
        voterless: true,
        log: log(None, None),
        applied: None,
    }
}

#[test]
fn fsck_reports_then_repairs_a_legacy_dir() {
    // Report only: no voters, no format.
    let out = cmd_fsck("d/fastetcd.redb", Subject::Open(input()), None);
    assert_eq!(out.code, 1);
    assert_eq!(
        out.lines,
        vec![
            "ok    structural: d/fastetcd.redb opens",
            "WARN  format_version: absent — pre-v1.0.1 directory, needs upgrade",
            "FAIL  raft membership: empty voter set with data present — would not elect a leader (#11)",
            "info  raft log: purged=None last=None",
            "ok    raft last_applied: None",
            "ok    mvcc counters: current_rev=4 compact_rev=0",
            "\nfsck: 2 problem(s) found. Re-run with --repair to fix repairable ones.",
        ]
    );

    // Repair recovers the membership from the configuration and stamps the
    // format.
    let mut sm = machine();
    let d = DirState { format: None, expected_format: 2, revision: 4, log: log(None, None) };
    let plan = recover_data_dir(&sm, d, &members(&[42]), Vec::new(), 42, false);
    let out = cmd_fsck("d/fastetcd.redb", Subject::Open(input()), Some(&plan.report));
    assert_eq!(out.code, 1);
    assert_eq!(
        out.lines[6..].to_vec(),
        vec![
            "\nfsck --repair: applying metadata repairs...",
            "  repaired raft membership from --initial-cluster (log purged clean of membership; best effort): voters=[42]",
            "  stamped format_version=2",
            "fsck: repaired 2 problem(s). Re-run fsck to confirm.",
        ]
    );

    // A second check is clean.
    sm.recover_membership(plan.membership.unwrap());
    let again = FsckInput {
        format: Some(2),
        voterless: sm.membership_is_empty(),
        ..input()
    };
    let out = cmd_fsck("d/fastetcd.redb", Subject::Open(again), None);
    assert_eq!(out.code, 0);
    assert_eq!(out.lines.last().unwrap(), "\nfsck: clean.");
}

#[test]
fn fsck_tells_each_problem() {
    let bad = FsckInput {
        format: Some(1),
        compact_rev: 9,
        log: log(Some(3), Some(8)),
        ..input()
    };
    let (lines, problems) = findings(bad);
    assert!(repairs(bad, true) && !repairs(bad, false));
    assert_eq!(problems, 4);
    assert_eq!(lines[0], "WARN  format_version: 1 (this binary expects 2)");
    assert_eq!(
        lines[2],
        "info  raft log: purged=Some(LogId { leader_id: LeaderId { term: 1, node_id: 1 }, index: 3 }) \
         last=Some(LogId { leader_id: LeaderId { term: 1, node_id: 1 }, index: 8 })"
    );
    assert_eq!(
        lines[3],
        "FAIL  raft last_applied: absent but log is purged — would crash-loop on restart (#9)"
    );
    assert_eq!(lines[4], "FAIL  mvcc counters: compact_rev 9 out of range [0, 4]");
    let empty = FsckInput { current_rev: 0, ..input() };
    let (lines, problems) = findings(empty);
    assert!(!repairs(empty, true));
    assert_eq!(problems, 0);
    assert_eq!(lines[0], "ok    format_version: absent (empty directory)");
    assert_eq!(lines.len(), 4);
}

#[test]
fn fsck_of_nothing_is_clean_and_of_garbage_unreadable() {
    let out = cmd_fsck("d", Subject::Missing, None);
    assert_eq!(out.code, 0);
    assert_eq!(out.lines, vec!["fsck: no data directory at d (nothing to check)"]);
    let out = cmd_fsck("d", Subject::Unreadable(String::from("bad magic")), None);
    assert_eq!(out.code, 2);
    assert_eq!(out.lines[0], "FAIL  structural: cannot open d: bad magic");
}

#[test]
fn a_repair_that_repaired_nothing_says_so() {
    let mut sm = machine();
    sm.adopt_floor(at(1));
    sm.recover_membership(StoredMembership {
        log_id: None,
        membership: Membership::new(vec![vec![1]], IdMap::new()),
    });
    let d = DirState { format: Some(2), ..legacy(4) };
    let plan = recover_data_dir(&sm, d, &members(&[1]), Vec::new(), 1, false);
    let bad = FsckInput { format: Some(2), voterless: false, compact_rev: 9, ..input() };
    let out = cmd_fsck("d", Subject::Open(bad), Some(&plan.report));
    assert!(out.lines.contains(&String::from("fsck: nothing was auto-repairable (1 problem(s) remain).")));
}

#[test]
fn backs_up_only_when_the_version_changes() {
    let stored = Some(String::from("1.0.2"));
    assert!(backup_before_version(&stored, 2, "1.0.2", 99).is_none());
    assert_eq!(
        backup_before_version(&stored, 2, "1.0.3", 99).unwrap(),
        "fastetcd-1.0.2-to-1.0.3-99.redb"
    );
    assert_eq!(
        backup_before_version(&None, 2, "1.1.0-rc/1", 5).unwrap(),
        "fastetcd-pre_1.0.3-to-1.1.0_rc_1-5.redb"
    );
    assert_eq!(sanitize("ä b"), "__b");
}

#[test]
fn no_startup_backup_for_an_empty_dir() {
    assert!(backup_before_version(&None, 0, "1.0.3", 99).is_none());
}

#[test]
fn the_oldest_backups_are_rolled_off() {
    let file = |name: &str, modified: Option<i64>| BackupFile { name: name.to_string(), modified };
    let files = vec![
        file("fastetcd-c.redb", Some(30)),
        file("notes.txt", Some(1)),
        file("fastetcd-a.redb", Some(10)),
        file("fastetcd-x.redb", None),
        file("fastetcd-b.redb", Some(20)),
        file("other.redb", Some(2)),
        file("fastetcd-a2.redb", Some(10)),
    ];
    assert_eq!(prune_backups(&files, 1), vec!["fastetcd-a.redb", "fastetcd-a2.redb", "fastetcd-b.redb"]);
    assert_eq!(prune_backups(&files, 4), Vec::<String>::new());
    assert_eq!(before_backup(&files, 2), prune_backups(&files, 1));
    assert_eq!(before_backup(&files, 5), Vec::<String>::new());
    assert_eq!(before_backup(&files, 0), prune_backups(&files, 0));
}

#[test]
fn backup_then_restore_round_trips_and_guards_newer() {
    assert_eq!(data_file("d"), "d/fastetcd.redb");
    assert!(cmd_backup("d/fastetcd.redb", true, Ok(())).is_ok());
    let e = cmd_restore("snap.redb", Some(Ok(5)), Some(8), "d", 7, false).unwrap_err();
    assert_eq!(
        e,
        "refusing to restore: current data dir is at revision 8, newer than the backup at \
         revision 5. Re-run with --force to overwrite (the current file is kept as \
         fastetcd.redb.replaced-*)."
    );
    let plan = cmd_restore("snap.redb", Some(Ok(5)), Some(8), "d", 7, true).unwrap();
    assert_eq!(plan.revision, 5);
    assert_eq!(plan.save_as.unwrap(), "d/fastetcd.redb.replaced-7");
    let plan = cmd_restore("snap.redb", Some(Ok(5)), None, "d", 7, false).unwrap();
    assert!(plan.save_as.is_none());
    assert_eq!(
        cmd_restore("snap.redb", None, None, "d", 7, false).unwrap_err(),
        "backup file snap.redb does not exist"
    );
    assert_eq!(
        cmd_restore("snap.redb", Some(Err(String::from("short"))), None, "d", 7, false).unwrap_err(),
        "snap.redb is not a readable fastetcd backup: short"
    );
    assert_eq!(restore_line("b", 5, "d", 9), "restore: b (rev 5) -> d (9 bytes)");
    assert_eq!(backup_line("a", 10, "b"), "backup: copied a (10 bytes) -> b");
}

#[test]
fn backup_refuses_while_locked() {
    assert_eq!(cmd_backup("d", false, Ok(())).unwrap_err(), "no data directory at d");
    assert_eq!(
        cmd_backup("d", true, Err(String::from("locked"))).unwrap_err(),
        "cannot open d exclusively (locked); is the fastetcd server still running? Stop it \
         first, or use `fastetcd-ctl snapshot-save` for a live backup."
    );
}

#[test]
fn defrag_says_what_came_back() {
    let lines = cmd_defrag(100, 60);
    assert_eq!(lines, vec!["defrag: 100 -> 60 bytes (40 bytes returned to the filesystem)"]);
    let lines = cmd_defrag(100, 100);
    assert_eq!(lines.len(), 2);
    assert!(lines[1].starts_with("defrag: nothing came back."));
    assert_eq!(
        defrag_usage_line("d", 10, 4, 6),
        "defrag: d is 10 bytes, 4 bytes live (up to 6 bytes may be recoverable)"
    );
}
