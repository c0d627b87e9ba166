use fastetcd::migrate::{
    check_paths, migrate_snapshot, migrate_snapshot_with_mode, ImportPlan, MigrationMode, ScanEntry,
};
use fastetcd::model::{KeyValue, Mutation};

fn entry(main: i64, tomb: bool, key: &[u8], value: &[u8], create: i64, version: i64) -> ScanEntry {
    let mut k = main.to_be_bytes().to_vec();
    k.extend([0; 8]);
    if tomb {
        k.push(b't');
    }
    ScanEntry {
        key: k,
        kv: Some(KeyValue {
            key: key.to_vec(),
            create_revision: create,
            mod_revision: main,
            version,
            value: value.to_vec(),
            lease: 0,
        }),
    }
}

fn snapshot() -> Vec<ScanEntry> {
    vec![
        entry(1, false, b"alpha", b"v0", 1, 1),
        entry(2, false, b"bravo", b"bv0", 2, 1),
        entry(3, true, b"bravo", b"", 0, 0),
        entry(4, false, b"charlie", b"cv0", 4, 1),
        entry(5, false, b"alpha", b"v1", 1, 2),
    ]
}

#[test]
fn migrates_latest_value_per_key_and_skips_tombstones() {
    let m = migrate_snapshot(&snapshot());
    let summary = m.summary(1);
    assert_eq!(summary.scanned, 5);
    assert_eq!(summary.tombstones, 1);
    assert_eq!(summary.imported, 2);
    assert!(summary.revision_after >= 1);
    let puts: Vec<(Vec<u8>, Vec<u8>)> = match m.plan {
        ImportPlan::Apply(ms) => ms
            .into_iter()
            .map(|m| match m {
                Mutation::Put { key, value, .. } => (key, value),
                other => panic!("{other:?}"),
            })
            .collect(),
        other => panic!("{other:?}"),
    };
    assert_eq!(puts.len(), 2);
    assert!(puts.contains(&(b"alpha".to_vec(), b"v1".to_vec())));
    assert!(puts.contains(&(b"charlie".to_vec(), b"cv0".to_vec())));
}

#[test]
fn preserved_revisions_keep_every_record_of_a_live_key() {
    let m = migrate_snapshot_with_mode(&snapshot(), MigrationMode::PreserveRevisions);
    assert_eq!(m.summary(0).revision_after, 5);
    assert_eq!(m.imported, 2);
    let keys = match m.plan {
        ImportPlan::Bulk { keys, max_rev } => {
            assert_eq!(max_rev, 5);
            keys
        }
        other => panic!("{other:?}"),
    };
    let alpha = keys.iter().find(|k| k.key == b"alpha").unwrap();
    let revs: Vec<(i64, i64)> = alpha.puts.iter().map(|r| (r.mod_revision, r.version)).collect();
    assert_eq!(revs, vec![(1, 1), (5, 2)]);
    assert!(alpha.tombstone.is_none());
    let bravo = keys.iter().find(|k| k.key == b"bravo").unwrap();
    assert_eq!(bravo.puts.len(), 1);
    assert_eq!(bravo.tombstone.as_ref().unwrap().mod_revision, 3);
    assert!(bravo.tombstone.as_ref().unwrap().deleted);
}

#[test]
fn preserved_revisions_keep_each_generation_of_a_key() {
    let mut s = snapshot();
    s.push(entry(6, false, b"bravo", b"again", 6, 1));
    s.push(entry(7, false, b"bravo", b"more", 6, 2));
    let m = migrate_snapshot_with_mode(&s, MigrationMode::PreserveRevisions);
    assert_eq!(m.imported, 3);
    assert_eq!(m.summary(0).revision_after, 7);
    let keys = match m.plan {
        ImportPlan::Bulk { keys, .. } => keys,
        other => panic!("{other:?}"),
    };
    let bravo: Vec<(Vec<i64>, Option<i64>)> = keys
        .iter()
        .filter(|k| k.key == b"bravo")
        .map(|k| {
            let puts = k.puts.iter().map(|r| r.mod_revision).collect();
            (puts, k.tombstone.as_ref().map(|t| t.mod_revision))
        })
        .collect();
    assert_eq!(bravo, vec![(vec![2], Some(3)), (vec![6, 7], None)]);
    s.push(entry(8, true, b"bravo", b"left over", 0, 0));
    let gone = migrate_snapshot_with_mode(&s, MigrationMode::PreserveRevisions);
    assert_eq!(gone.imported, 2);
    let keys = match gone.plan {
        ImportPlan::Bulk { keys, .. } => keys,
        other => panic!("{other:?}"),
    };
    let last = keys.iter().filter(|k| k.key == b"bravo").last().unwrap();
    assert_eq!(last.puts.len(), 2);
    assert_eq!(last.tombstone.as_ref().unwrap().mod_revision, 8);
    assert!(last.tombstone.as_ref().unwrap().value.is_empty());
}

#[test]
fn entries_without_a_record_are_only_counted() {
    let mut s = snapshot();
    s.push(ScanEntry { key: vec![b't'], kv: None });
    let m = migrate_snapshot(&s);
    assert_eq!((m.scanned, m.tombstones, m.imported), (6, 1, 2));
    let none = migrate_snapshot(&Vec::new());
    assert_eq!(none.summary(0).imported, 0);
    match none.plan {
        ImportPlan::Apply(ms) => assert!(ms.is_empty()),
        other => panic!("{other:?}"),
    }
}

#[test]
fn a_key_written_after_its_removal_is_live() {
    let mut s = snapshot();
    s.push(entry(6, false, b"bravo", b"again", 6, 1));
    assert_eq!(migrate_snapshot(&s).imported, 3);
}

#[test]
fn paths_are_checked_before_anything_is_read() {
    assert!(check_paths("\"a\"", true, "\"b\"", false, 0, false).is_ok());
    assert!(check_paths("\"a\"", true, "\"b\"", true, 0, false).is_ok());
    assert!(check_paths("\"a\"", true, "\"b\"", true, 3, true).is_ok());
    assert_eq!(
        check_paths("\"a\"", true, "\"b\"", true, 3, false).unwrap_err(),
        "target \"b\" exists and is not empty; pass force=true to overwrite"
    );
    assert_eq!(
        check_paths("\"a\"", false, "\"b\"", false, 0, false).unwrap_err(),
        "source snapshot \"a\" does not exist"
    );
}
