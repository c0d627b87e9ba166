use fastetcd::cluster::ClusterService;
use fastetcd::cluster_id::{choose_id, id_from_token, read, resolve, Source};
use fastetcd::config::derive_node_id;

#[test]
fn fnv1a_64_matches_the_reference_vectors() {
    // Published FNV-1a-64 test vectors, then masked to 63 bits.
    assert_eq!(id_from_token(""), 0xcbf2_9ce4_8422_2325 & (u64::MAX >> 1));
    assert_eq!(id_from_token("a"), 0xaf63_dc4c_8601_ec8c & (u64::MAX >> 1));
    assert_eq!(id_from_token("foobar"), 0x8594_4171_f739_67e8 & (u64::MAX >> 1));
}

#[test]
fn a_token_id_fits_63_bits_and_is_never_zero() {
    for t in ["etcd-cluster", "prod-east", "x", "cluster-2"] {
        let id = id_from_token(t);
        assert_ne!(id, 0);
        assert_eq!(id >> 63, 0, "{t}: top bit must be clear");
    }
    assert_ne!(id_from_token("prod-east"), id_from_token("prod-west"));
}

#[test]
fn the_rules_apply_in_order() {
    let t = Some("tok");
    // An explicit flag beats everything, including a persisted id.
    assert_eq!(choose_id(Some(42), Some(7), false, t), (42, Source::Flag));
    // Then the persisted id, whatever the token says now.
    assert_eq!(choose_id(None, Some(7), false, t), (7, Source::Persisted));
    // A pre-existing store without one keeps the legacy id.
    assert_eq!(choose_id(None, None, false, t), (1, Source::Legacy));
    // A new store derives from the token...
    assert_eq!(choose_id(None, None, true, t), (id_from_token("tok"), Source::Token));
    // ...or falls back to 1 without one.
    assert_eq!(choose_id(None, None, true, None), (1, Source::Default));
    assert_eq!(choose_id(None, None, true, Some("  ")), (1, Source::Default));
}

/// A store that keeps only the row of its id.
struct Store {
    row: Option<Vec<u8>>,
}

impl Store {
    fn start(&mut self, flag: Option<u64>, is_new: bool, token: Option<&str>) -> (u64, Source) {
        let persisted = read(self.row.clone()).unwrap();
        let got = resolve(flag, persisted, is_new, token).unwrap();
        if let Some(bytes) = got.record {
            self.row = Some(bytes);
        }
        (got.id, got.source)
    }
}

#[test]
fn a_new_store_derives_from_the_token_and_keeps_it() {
    let mut s = Store { row: None };
    assert_eq!(
        s.start(None, true, Some("prod-east")),
        (id_from_token("prod-east"), Source::Token)
    );
    assert_eq!(
        s.start(None, false, Some("something-else")),
        (id_from_token("prod-east"), Source::Persisted)
    );
    assert_eq!(s.start(None, false, None), (id_from_token("prod-east"), Source::Persisted));
}

#[test]
fn an_explicit_flag_wins_and_replaces_the_persisted_id() {
    let mut s = Store { row: None };
    s.start(None, true, Some("tok"));
    assert_eq!(s.start(Some(4242), false, Some("tok")), (4242, Source::Flag));
    assert_eq!(s.start(None, false, Some("tok")), (4242, Source::Persisted));
}

#[test]
fn a_store_from_before_persisted_ids_keeps_reporting_1() {
    let mut s = Store { row: None };
    assert_eq!(s.start(None, false, Some("prod-east")), (1, Source::Legacy));
    assert_eq!(s.row, Some(vec![0, 0, 0, 0, 0, 0, 0, 1]));
    assert_eq!(s.start(None, false, Some("prod-east")), (1, Source::Persisted));
}

#[test]
fn no_flag_and_no_token_falls_back_to_1() {
    let mut s = Store { row: None };
    assert_eq!(s.start(None, true, None), (1, Source::Default));
}

#[test]
fn zero_is_rejected() {
    let e = resolve(Some(0), None, true, None).unwrap_err();
    assert_eq!(e, "--cluster-id must not be 0");
}

#[test]
fn a_recorded_id_of_the_wrong_length_is_refused() {
    assert_eq!(
        read(Some(vec![1, 2, 3])).unwrap_err(),
        "persisted cluster id is 3 bytes, expected 8"
    );
    assert_eq!(read(None).unwrap(), None);
    assert_eq!(read(Some(vec![1, 2, 3, 4, 5, 6, 7, 8])).unwrap(), Some(0x0102_0304_0506_0708));
}

#[test]
fn a_token_is_taken_without_the_blanks_around_it() {
    assert_eq!(
        choose_id(None, None, true, Some(" tok\t\u{3000}")),
        (id_from_token("tok"), Source::Token)
    );
}

#[test]
fn node_ids_come_from_names_and_addresses_alike() {
    assert_eq!(derive_node_id("foobar"), 0x8594_4171_f739_67e8 & (u64::MAX >> 1));
    assert_eq!(
        ClusterService::derive_node_id_from_url("http://peer:0"),
        id_from_token("http://peer:0")
    );
}
