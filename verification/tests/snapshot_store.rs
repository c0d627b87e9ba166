use fastetcd::membership::{SnapshotMeta, StoredMembership};
use fastetcd::snapshot_data::{Body, Content, SeekTo, SnapshotFile, WriteNext};
use fastetcd::snapshot_store::{
    apply_all, incoming_name, is_out_of_space, join_path, meta_name, snap_name, tmp_name,
    DirAction, Platform, SnapshotStore, StoreNext, WriteOutcome,
};
use fastetcd::types::LogId;

/// A directory in memory: names and contents.
struct Dir {
    files: Vec<(String, Vec<u8>)>,
}

impl Dir {
    fn new() -> Dir {
        Dir { files: Vec::new() }
    }

    fn names(&self) -> Vec<String> {
        self.files.iter().map(|f| f.0.clone()).collect()
    }

    fn holds(&self, name: &str) -> bool {
        self.files.iter().any(|f| f.0 == name)
    }

    fn read(&self, name: &str) -> Option<Vec<u8>> {
        self.files.iter().find(|f| f.0 == name).map(|f| f.1.clone())
    }

    fn write(&mut self, name: &str, bytes: &[u8]) {
        self.files.retain(|f| f.0 != name);
        self.files.push((name.to_string(), bytes.to_vec()));
    }

    fn total_bytes(&self) -> u64 {
        self.files.iter().map(|f| f.1.len() as u64).sum()
    }

    fn run(&mut self, actions: &[DirAction]) {
        for a in actions {
            match a {
                DirAction::Remove(name) => self.files.retain(|f| &f.0 != name),
                DirAction::Rename { from, to } => {
                    if let Some(bytes) = self.read(from) {
                        self.files.retain(|f| &f.0 != from);
                        self.write(to, &bytes);
                    }
                }
            }
        }
    }

    fn open(&mut self, retain: usize) -> SnapshotStore {
        let legacy = self.read("current.meta");
        let (store, actions) =
            SnapshotStore::open(String::from("/data/snapshots"), retain, self.names(), legacy);
        let mut simulated = self.names();
        apply_all(&mut simulated, &actions);
        self.run(&actions);
        let mut mine = self.names();
        mine.sort();
        simulated.sort();
        assert_eq!(mine, simulated);
        store
    }

    fn store(&mut self, store: &SnapshotStore, meta: &SnapshotMeta, data: &[u8]) {
        self.run(&store.before_store(&self.names()));
        assert!(store.indices(&self.names()).len() < store.retain());
        let index = SnapshotStore::index_of(meta);
        self.write(&snap_name(index), data);
        self.write(&meta_name(index), &SnapshotStore::meta_record(meta));
        assert_eq!(
            store.store(Platform::Unix, WriteOutcome::Written, false),
            StoreNext::Stored { discarded: false }
        );
    }

    fn latest_meta(&self, store: &SnapshotStore) -> Option<SnapshotMeta> {
        let files: Vec<Option<Vec<u8>>> =
            store.indices(&self.names()).into_iter().map(|i| self.read(&meta_name(i))).collect();
        store.latest_meta(files)
    }
}

fn meta_at(index: u64) -> SnapshotMeta {
    SnapshotMeta {
        last_log_id: Some(LogId { term: 1, node_id: 0, index }),
        last_membership: StoredMembership::empty(),
        snapshot_id: format!("snap-{index}"),
    }
}

#[test]
fn retention_rolls_off_oldest_first() {
    let mut dir = Dir::new();
    let store = dir.open(2);
    for index in 1..=5u64 {
        dir.store(&store, &meta_at(index), &[index as u8; 32]);
    }
    assert_eq!(store.indices(&dir.names()), vec![4, 5], "only the newest two survive");
    assert_eq!(dir.latest_meta(&store).unwrap().snapshot_id, "snap-5");
    assert_eq!(dir.read(&snap_name(5)).unwrap(), vec![5u8; 32]);
}

#[test]
fn a_write_never_needs_room_for_more_than_retention() {
    let mut dir = Dir::new();
    let store = dir.open(1);
    dir.store(&store, &meta_at(1), &[1u8; 4096]);
    let before = dir.total_bytes();
    dir.store(&store, &meta_at(2), &[2u8; 4096]);
    assert_eq!(store.indices(&dir.names()), vec![2]);
    assert_eq!(
        dir.total_bytes(),
        before,
        "one snapshot in, one snapshot out — the footprint must not grow"
    );
}

#[test]
fn open_prunes_beyond_retention_and_clears_temp_files() {
    let mut dir = Dir::new();
    let store = dir.open(5);
    for index in 1..=4u64 {
        dir.store(&store, &meta_at(index), &[0u8; 16]);
    }
    dir.write("00000000000000000009.snap.tmp", &[0u8; 999]);

    let reopened = dir.open(2);
    assert_eq!(reopened.indices(&dir.names()), vec![3, 4]);
    assert!(!dir.holds("00000000000000000009.snap.tmp"));
}

#[test]
fn the_newest_pairs_stay_and_opening_again_changes_nothing() {
    let mut dir = Dir::new();
    let store = dir.open(5);
    for index in [3u64, 10, 7, 12] {
        dir.store(&store, &meta_at(index), &[0u8; 16]);
    }
    dir.write(&snap_name(20), &[2u8; 16]);
    dir.write(&meta_name(1), &[3u8; 16]);
    let reopened = dir.open(2);
    assert_eq!(reopened.indices(&dir.names()), vec![10, 12]);
    let left = dir.names();
    let again = dir.open(2);
    assert_eq!(dir.names(), left);
    assert_eq!(again.indices(&left), vec![10, 12]);
}

#[test]
fn storing_keeps_the_newest_and_the_new_one() {
    let mut dir = Dir::new();
    let store = dir.open(3);
    for index in [2u64, 4, 6] {
        dir.store(&store, &meta_at(index), &[0u8; 16]);
    }
    dir.store(&store, &meta_at(9), &[9u8; 16]);
    assert_eq!(store.indices(&dir.names()), vec![4, 6, 9]);
    // On a full volume everything else makes room for the new one.
    dir.run(&store.before_store(&dir.names()));
    let full = WriteOutcome::Failed(Some(28));
    assert_eq!(store.store(Platform::Unix, full, false), StoreNext::DiscardAndRetry);
    dir.run(&store.discard_all(&dir.names()));
    dir.write(&snap_name(11), &[1u8; 16]);
    dir.write(&meta_name(11), b"snap-11");
    assert_eq!(store.indices(&dir.names()), vec![11]);
}

#[test]
fn half_written_pairs_are_discarded_on_open() {
    let mut dir = Dir::new();
    let store = dir.open(3);
    dir.store(&store, &meta_at(1), &[1u8; 16]);
    dir.write("00000000000000000002.snap", &[2u8; 16]);
    dir.write("00000000000000000003.meta", &[3u8; 16]);

    let reopened = dir.open(3);
    assert_eq!(reopened.indices(&dir.names()), vec![1]);
    assert!(!dir.holds("00000000000000000003.meta"));
}

#[test]
fn the_legacy_single_snapshot_layout_is_migrated() {
    let mut dir = Dir::new();
    dir.write("current.snap", &[7u8; 64]);
    dir.write("current.meta", &SnapshotStore::meta_record(&meta_at(77)));

    let store = dir.open(2);
    assert_eq!(store.indices(&dir.names()), vec![77], "the existing snapshot is kept");
    assert_eq!(dir.read(&snap_name(77)).unwrap(), vec![7u8; 64]);
    assert!(!dir.holds("current.snap"));
}

#[test]
fn an_unusable_legacy_snapshot_is_dropped() {
    let mut dir = Dir::new();
    dir.write("current.snap", &[7u8; 64]);
    dir.open(2);
    assert_eq!(dir.names(), Vec::<String>::new());
    dir.write("current.snap", &[7u8; 64]);
    dir.write("current.meta", b"garbage");
    dir.open(2);
    assert_eq!(dir.names(), Vec::<String>::new());
}

#[test]
fn discard_all_empties_the_store() {
    let mut dir = Dir::new();
    let store = dir.open(3);
    dir.store(&store, &meta_at(1), &[0u8; 16]);
    dir.store(&store, &meta_at(2), &[0u8; 16]);
    dir.run(&store.discard_all(&dir.names()));
    assert!(store.indices(&dir.names()).is_empty());
    assert!(dir.latest_meta(&store).is_none());
    assert_eq!(dir.total_bytes(), 0);
}

#[test]
fn a_full_volume_is_made_room_on_once() {
    let store = Dir::new().open(1);
    let full = WriteOutcome::Failed(Some(28));
    assert_eq!(store.store(Platform::Unix, full, false), StoreNext::DiscardAndRetry);
    assert_eq!(store.store(Platform::Unix, full, true), StoreNext::Failed);
    assert_eq!(store.store(Platform::Unix, WriteOutcome::Failed(Some(5)), false), StoreNext::Failed);
    assert_eq!(store.store(Platform::Unix, WriteOutcome::Written, true), StoreNext::Stored { discarded: true });
    assert!(is_out_of_space(Platform::Unix, Some(28)));
    assert!(!is_out_of_space(Platform::Unix, Some(5)));
    assert!(!is_out_of_space(Platform::Unix, Some(112)));
    assert!(!is_out_of_space(Platform::Unix, None));
    assert!(is_out_of_space(Platform::Windows, Some(39)));
    assert!(is_out_of_space(Platform::Windows, Some(112)));
    assert!(!is_out_of_space(Platform::Windows, Some(28)));
    assert!(!is_out_of_space(Platform::Other, Some(28)));
}

#[test]
fn at_least_one_snapshot_is_retained() {
    assert_eq!(Dir::new().open(0).retain(), 1);
}

#[test]
fn the_newest_metadata_that_reads_is_reported() {
    let mut dir = Dir::new();
    let store = dir.open(3);
    for index in [4u64, 8, 9] {
        dir.store(&store, &meta_at(index), &[0u8; 16]);
    }
    assert_eq!(dir.latest_meta(&store).unwrap().last_log_id.unwrap().index, 9);
    dir.write(&meta_name(9), b"garbage");
    assert_eq!(dir.latest_meta(&store).unwrap().snapshot_id, "snap-8");
    dir.files.retain(|f| f.0 != meta_name(8));
    assert_eq!(dir.latest_meta(&store).unwrap().snapshot_id, "snap-4");
    assert!(store.newest(vec![None, None]).is_none());
    assert_eq!(store.newest(vec![Some(meta_at(1)), None]).unwrap().snapshot_id, "snap-1");
}

#[test]
fn names_are_twenty_digits_wide() {
    assert_eq!(snap_name(12345), "00000000000000012345.snap");
    assert_eq!(meta_name(u64::MAX), "18446744073709551615.meta");
    assert_eq!(tmp_name("00000000000000000007.snap"), "00000000000000000007.snap.tmp");
    assert_eq!(incoming_name(3), "incoming-3.snap.tmp");
    let store = Dir::new().open(1);
    assert_eq!(store.snap_path(1), "/data/snapshots/00000000000000000001.snap");
    assert_eq!(store.meta_path(1), "/data/snapshots/00000000000000000001.meta");
    assert_eq!(store.dir(), "/data/snapshots");
    assert_eq!(join_path("a/", "b"), "a/b");
    assert_eq!(join_path("", "b"), "b");
}

#[test]
fn only_bodies_with_a_number_are_snapshots() {
    let store = Dir::new().open(1);
    let names: Vec<String> = ["7.snap", "+2.snap", "x.snap", ".snap", "9.meta", "3.snap.tmp", "18446744073709551616.snap"]
        .iter()
        .map(|s| s.to_string())
        .collect();
    assert_eq!(store.indices(&names), vec![2, 7]);
}

#[test]
fn a_failed_write_falls_back_to_memory_without_losing_data() {
    let mut body = SnapshotFile::incoming();
    assert_eq!(body.write(b" world"), WriteNext::WriteToFile);
    // The file refuses the write for a reason other than a full volume.
    assert_eq!(body.recover_write(Platform::Unix, Some(9)), WriteNext::ReadBack);
    assert_eq!(
        body.fall_back_to_memory(Some(b"hello".to_vec()), 5, b" world"),
        WriteNext::Done
    );
    assert!(body.is_in_memory());
    assert!(!body.start_seek(SeekTo::Start(0)));
    assert_eq!(body.poll_complete(None), Some(0));
    assert_eq!(body.read(100).unwrap(), b"hello world".to_vec());
    assert_eq!(body.read(100).unwrap(), Vec::<u8>::new());
}

#[test]
fn a_full_volume_discards_before_it_falls_back() {
    let mut body = SnapshotFile::incoming();
    assert_eq!(body.recover_write(Platform::Unix, Some(28)), WriteNext::DiscardAndRetry);
    assert!(matches!(body.body, Body::Incoming { discarded: true }));
    assert_eq!(body.recover_write(Platform::Unix, Some(28)), WriteNext::ReadBack);
    assert_eq!(body.fall_back_to_memory(None, 0, b"x"), WriteNext::Fail);
    assert!(!body.is_in_memory());
}

#[test]
fn a_retained_snapshot_is_read_only() {
    let mut body = SnapshotFile::retained();
    assert_eq!(body.write(b"x"), WriteNext::ReadOnly);
    assert_eq!(body.recover_write(Platform::Unix, Some(28)), WriteNext::Fail);
    assert_eq!(body.read(3), None);
    assert!(body.start_seek(SeekTo::Start(0)));
    body.file_sought(Some(7));
    assert_eq!(body.poll_complete(Some(9)), Some(7));
    assert_eq!(body.poll_complete(Some(9)), Some(9));
    assert!(matches!(body.into_content(true), Content::Retained));
}

#[test]
fn memory_reads_writes_and_seeks_like_a_cursor() {
    let mut body = SnapshotFile::memory(b"abcdef".to_vec());
    assert_eq!(body.read(2).unwrap(), b"ab".to_vec());
    assert_eq!(body.write(b"XY"), WriteNext::Done);
    body.start_seek(SeekTo::End(2));
    assert_eq!(body.poll_complete(None), Some(8));
    assert_eq!(body.write(b"!"), WriteNext::Done);
    body.start_seek(SeekTo::Current(-100));
    assert_eq!(body.poll_complete(None), None);
    assert_eq!(body.poll_complete(None), Some(9));
    match body.into_content(false) {
        Content::Memory(bytes) => assert_eq!(bytes, b"abXYef\0\0!".to_vec()),
        other => panic!("{other:?}"),
    }
    match SnapshotFile::incoming().into_content(false) {
        Content::Memory(bytes) => assert!(bytes.is_empty()),
        other => panic!("{other:?}"),
    }
}
