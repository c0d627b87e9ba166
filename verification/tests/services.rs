use fastetcd::auth::AuthState;
use fastetcd::cluster::{ClusterService, MemberAddRequest};
use fastetcd::compaction::{compact_to_retention, compacted, spawns, Mode};
use fastetcd::config::{
    build_tls_config, derive_node_id, env_pairs, env_value, first_url, is_bootstrap,
    parse_initial_cluster, seed_cluster, split_list, TlsPlan,
};
use fastetcd::ctl::{alarms_line, defrag_line, human_bytes};
use fastetcd::idmap::IdMap;
use fastetcd::keyrange::prefix_range_end;
use fastetcd::lease::{sweep_once, LeaseLeft, LeaseService};
use fastetcd::maintenance::{
    hash_kv_table, AlarmAction, AlarmType, HashRow, MaintenanceService,
};
use fastetcd::membership::Membership;
use fastetcd::metrics::{health_answer, serves_metrics, Engine, Metrics, Reading};
use fastetcd::network::empty_peers;
use fastetcd::space::{FsSpace, Sample, SpaceConfig, SpaceGuard};
use fastetcd::state::{response_header, RaftMetrics, ResponseHeader, ServerState};
use fastetcd::status::Code;
use fastetcd::types::{
    FastetcdLogEntry, FastetcdLogResponse, LeaseGrantResult, LeaseRevokeResult, LeaseTtlResult,
};

fn metrics(leader: Option<u64>) -> RaftMetrics {
    RaftMetrics { current_term: 2, current_leader: leader, last_log_index: Some(8), last_applied: Some(7) }
}

fn state(leader: Option<u64>, space: SpaceGuard) -> ServerState {
    ServerState::new(5, 1, metrics(leader), AuthState::default(), space)
}

fn leading() -> ServerState {
    state(Some(1), SpaceGuard::disabled())
}

fn full() -> SpaceGuard {
    let mut g = SpaceGuard::new(
        String::from("/tmp"),
        SpaceConfig { quota_backend_bytes: 1, alarm_percent: 1, ..SpaceConfig::default() },
    );
    g.refresh(&Sample {
        db_bytes: Some(4096),
        snapshot_bytes: 0,
        data_dir_bytes: 4096,
        fs: Some(FsSpace { total: 1 << 30, available: 1 << 30 }),
    });
    g
}

fn header() -> ResponseHeader {
    response_header(&leading(), 3)
}

fn request(urls: &[&str], is_learner: bool) -> MemberAddRequest {
    MemberAddRequest { peer_urls: urls.iter().map(|u| u.to_string()).collect(), is_learner }
}

fn cluster() -> ClusterService {
    let mut directory = IdMap::new();
    ClusterService::seed_self(
        &mut directory,
        1,
        String::from("test-node"),
        vec![String::from("http://test-peer:0")],
        vec![String::from("http://test-client:0")],
    );
    ClusterService::new(1, empty_peers(), directory)
}

#[test]
fn member_list_returns_self() {
    let r = cluster().member_list(header());
    assert_eq!(r.members.len(), 1);
    assert_eq!(r.members[0].info.name, "test-node");
    assert!(!r.members[0].info.is_learner);
    assert_eq!(r.members[0].id, 1);
    assert_eq!(r.members[0].info.peer_urls, vec!["http://test-peer:0"]);
    assert_eq!(r.header.cluster_id, 5);
}

#[test]
fn a_member_is_added_promoted_and_removed() {
    let mut c = cluster();
    let e = c.member_add(&request(&[], false)).unwrap_err();
    assert_eq!((e.code(), e.message()), (Code::InvalidArgument, "MemberAddRequest.peer_urls empty"));
    let req = request(&["http://two:2380"], true);
    let new = c.member_add(&req).unwrap();
    assert_eq!(new.id, ClusterService::derive_node_id_from_url("http://two:2380"));
    assert_eq!(c.peers.urls.get(new.id).unwrap(), "http://two:2380");
    assert_eq!(c.voters_to_add(vec![1], &req, new.id), None);
    assert_eq!(c.voters_to_add(vec![1], &request(&["x"], false), new.id), Some(vec![1, new.id]));
    let r = c.member_added(new.id, req, header());
    assert!(r.member.unwrap().info.is_learner);
    assert_eq!(r.members.len(), 2);

    assert_eq!(c.member_promote(new.id, &vec![1]).unwrap(), vec![1, new.id]);
    let e = c.member_promote(1, &vec![1]).unwrap_err();
    assert_eq!((e.code(), e.message()), (Code::FailedPrecondition, "member 1 is already a voter"));
    let r = c.member_promoted(new.id, header());
    assert!(r.members.iter().all(|m| !m.info.is_learner));

    let r = c.member_update(new.id, vec![String::from("http://two:9")], header()).unwrap();
    assert!(r.members.iter().any(|m| m.info.peer_urls == vec!["http://two:9"]));
    assert_eq!(c.member_update(new.id, vec![], header()).unwrap_err().code(), Code::InvalidArgument);

    assert_eq!(c.member_remove(new.id, &vec![1, new.id]).unwrap(), Some(vec![1]));
    assert_eq!(c.member_remove(new.id, &vec![1]).unwrap(), None);
    assert_eq!(c.member_remove(1, &vec![1]).unwrap_err().code(), Code::InvalidArgument);
    let r = c.member_removed(new.id, header());
    assert_eq!(r.members.len(), 1);
    assert!(c.peers.urls.get(new.id).is_none());
}

#[test]
fn status_returns_real_values() {
    let s = MaintenanceService::new(leading()).status(4096, 1);
    assert_eq!(s.header.revision, 1);
    assert_eq!(s.leader, 1);
    assert!(s.raft_term >= 1);
    assert!(s.raft_applied_index >= 1);
    assert!(s.db_size > 0);
    assert_eq!(s.version, "3.6.0");
    assert_eq!((s.db_size, s.db_size_in_use, s.db_size_quota), (4096, 4096, 0));
    assert_eq!((s.raft_index, s.raft_term, s.raft_applied_index), (8, 2, 7));
    assert!(s.errors.is_empty());
}

#[test]
fn the_alarm_is_listed_and_can_be_disarmed() {
    let mut m = MaintenanceService::new(state(Some(1), full()));
    let listed = m.alarm(AlarmAction::Get, AlarmType::Any, 1);
    assert_eq!(listed.alarms.len(), 1);
    assert_eq!(listed.alarms[0].alarm, AlarmType::Nospace);
    assert_eq!(listed.alarms[0].member_id, 1);
    let s = m.status(4096, 1);
    assert_eq!(s.errors, vec!["NOSPACE"]);
    assert!(s.db_size_quota > 0);
    // Another alarm is not this one.
    assert_eq!(m.alarm(AlarmAction::Deactivate, AlarmType::Corrupt, 1).alarms.len(), 1);
    assert!(m.alarm(AlarmAction::Deactivate, AlarmType::Nospace, 1).alarms.is_empty());
    assert!(!m.state.space.nospace());
    assert!(m.state.space.check_write().is_ok());
}

fn row(key: &[u8], value: &[u8], mod_revision: i64) -> HashRow {
    HashRow { key: key.to_vec(), value: value.to_vec(), mod_revision }
}

#[test]
fn hash_kv_is_deterministic_across_calls_at_same_state() {
    let rows = || vec![row(b"a", b"1", 1), row(b"b", b"2", 2)];
    let m = MaintenanceService::new(leading());
    let r1 = m.hash_kv(Ok(rows()), 0, 2).unwrap();
    let r2 = m.hash_kv(Ok(rows()), 0, 2).unwrap();
    assert_eq!(r1.hash, r2.hash);
    assert_eq!(r1.hash_revision, r2.hash_revision);
}

#[test]
fn later_writes_do_not_change_a_hash_but_values_do() {
    let rows = || vec![row(b"a", b"1", 1), row(b"b", b"2", 2)];
    let h = hash_kv_table(&rows(), 2);
    let mut later = rows();
    later.push(row(b"c", b"3", 3));
    assert_eq!(h, hash_kv_table(&later, 2));
    assert_ne!(h, hash_kv_table(&later, 3));
    assert_ne!(h, hash_kv_table(&vec![row(b"a", b"1", 1), row(b"b", b"9", 2)], 2));
}

#[test]
fn an_empty_table_hashes_to_the_digest_of_nothing() {
    // SHA-256 of no bytes ends in 7852b855.
    assert_eq!(hash_kv_table(&Vec::new(), 0), 0x7852_b855);
    assert_eq!(hash_kv_table(&vec![row(b"a", b"1", 5)], 4), 0x7852_b855);
}

#[test]
fn snapshot_streams_bytes() {
    let data = vec![0u8; 4096];
    let chunks = MaintenanceService::new(leading()).snapshot(&data, 1);
    assert!(!chunks.is_empty());
    let total: usize = chunks.iter().map(|c| c.blob.len()).sum();
    assert!(total > 0);
    assert_eq!(total, 4096);
}

#[test]
fn a_large_snapshot_is_cut_into_full_pieces() {
    let data: Vec<u8> = (0..150_000u32).map(|i| i as u8).collect();
    let chunks = MaintenanceService::new(leading()).snapshot(&data, 9);
    assert!(chunks.iter().all(|c| c.header.revision == 9 && c.version == "3.6.0"));
    let sizes: Vec<usize> = chunks.iter().map(|c| c.blob.len()).collect();
    assert_eq!(sizes, vec![65_536, 65_536, 18_928]);
    assert_eq!(chunks[0].remaining_bytes, 84_464);
    assert_eq!(chunks[2].remaining_bytes, 0);
    let joined: Vec<u8> = chunks.into_iter().flat_map(|c| c.blob).collect();
    assert_eq!(joined, data);
}

#[test]
fn leadership_is_not_moved() {
    let m = MaintenanceService::new(leading());
    let members = Membership::new(vec![vec![1, 2]], IdMap::new());
    assert_eq!(m.move_leader(2, &members).code(), Code::Unimplemented);
    let s = m.move_leader(9, &members);
    assert_eq!(
        (s.code(), s.message()),
        (Code::FailedPrecondition, "MoveLeader target 9 is not a voting member")
    );
    assert_eq!(m.downgrade().code(), Code::Unimplemented);
}

#[test]
fn grant_revoke_round_trips() {
    let l = LeaseService::new(leading());
    match l.lease_grant(0, 60, 1000).unwrap() {
        FastetcdLogEntry::LeaseGrant { id: 0, ttl_secs: 60, now_unix: 1000 } => {}
        other => panic!("{other:?}"),
    }
    let granted = LeaseGrantResult { id: 7, ttl_secs: 60, revision: 4 };
    let grant = l.lease_grant_reply(FastetcdLogResponse::LeaseGrant(granted)).unwrap();
    assert!(grant.id > 0);
    assert_eq!(grant.ttl, 60);
    assert_eq!((grant.header.revision, grant.error.as_str()), (4, ""));
    let leases = l.lease_leases(Ok(vec![grant.id]), 4).unwrap();
    assert_eq!(leases.leases.len(), 1);
    assert_eq!(leases.leases[0], grant.id);
    match l.lease_revoke(grant.id) {
        FastetcdLogEntry::LeaseRevoke { id } => assert_eq!(id, grant.id),
        other => panic!("{other:?}"),
    }
    let revoked = LeaseRevokeResult { deleted_keys: 1, revision: 5 };
    let r = l.lease_revoke_reply(FastetcdLogResponse::LeaseRevoke(revoked)).unwrap();
    assert_eq!(r.header.revision, 5);
    assert!(l.lease_leases(Ok(vec![]), 5).unwrap().leases.is_empty());
    let e = l.lease_revoke_reply(FastetcdLogResponse::Compact { compact_rev: 3 }).unwrap_err();
    assert_eq!(e.message(), "unexpected response: Compact { compact_rev: 3 }");
}

#[test]
fn time_to_live_reports_attached_keys() {
    let l = LeaseService::new(leading());
    let found = LeaseTtlResult {
        id: 7,
        granted_ttl_secs: 60,
        remaining_ttl_secs: 42,
        keys: vec![b"attached".to_vec()],
    };
    let r = l.lease_time_to_live(7, Ok(Some(found)), 3).unwrap();
    assert_eq!(r.id, 7);
    assert_eq!(r.granted_ttl, 60);
    assert!(r.ttl > 0);
    assert_eq!(r.keys, vec![b"attached".to_vec()]);
    assert_eq!((r.ttl, r.header.revision), (42, 3));
}

#[test]
fn a_missing_lease_has_no_time_to_live() {
    let l = LeaseService::new(leading());
    let r = l.lease_time_to_live(8, Ok(None), 3).unwrap();
    assert_eq!((r.id, r.ttl, r.granted_ttl), (8, -1, 0));
    let e = l.lease_time_to_live(8, Err(String::from("io")), 3).unwrap_err();
    assert_eq!((e.code(), e.message()), (Code::Internal, "lease_ttl: io"));
    assert_eq!(l.lease_leases(Ok(vec![7, 9]), 3).unwrap().leases, vec![7, 9]);
}

#[test]
fn a_keep_alive_is_answered_with_what_was_granted() {
    let l = LeaseService::new(leading());
    let t = LeaseTtlResult { id: 7, granted_ttl_secs: 60, remaining_ttl_secs: 60, keys: vec![] };
    let r = l.lease_keep_alive_reply(Ok(FastetcdLogResponse::LeaseKeepAlive(t)), 3);
    assert_eq!(r.unwrap().unwrap().ttl, 60);
    assert!(l.lease_keep_alive_reply(Ok(FastetcdLogResponse::Noop { revision: 1 }), 3).is_none());
    let e = l.lease_keep_alive_reply(Err(String::from("down")), 3).unwrap().unwrap_err();
    assert_eq!((e.code(), e.message()), (Code::Unavailable, "raft client_write: down"));
}

#[test]
fn expired_lease_is_auto_revoked_and_keys_cascade_delete() {
    let l = LeaseService::new(leading());
    let granted = LeaseGrantResult { id: 7, ttl_secs: 1, revision: 0 };
    let grant = l.lease_grant_reply(FastetcdLogResponse::LeaseGrant(granted)).unwrap();
    // While a second is left the lease stays; past its end it is revoked.
    let live = vec![LeaseLeft { id: grant.id, remaining_secs: Some(1) }];
    assert!(sweep_once(&leading(), &live).is_empty());
    let over = vec![LeaseLeft { id: grant.id, remaining_secs: Some(0) }];
    let mut entries = sweep_once(&leading(), &over);
    assert_eq!(entries.len(), 1);
    match entries.pop().unwrap() {
        FastetcdLogEntry::LeaseRevoke { id } => assert_eq!(id, grant.id),
        other => panic!("{other:?}"),
    }
    // The two keys under it go with it.
    let revoked = LeaseRevokeResult { deleted_keys: 2, revision: 3 };
    assert!(l.lease_revoke_reply(FastetcdLogResponse::LeaseRevoke(revoked)).is_ok());
    assert!(l.lease_leases(Ok(vec![]), 3).unwrap().leases.is_empty());
}

#[test]
fn a_sweep_revokes_what_is_past_its_end_and_only_on_the_leader() {
    let leases = vec![
        LeaseLeft { id: 1, remaining_secs: Some(0) },
        LeaseLeft { id: 2, remaining_secs: Some(3) },
        LeaseLeft { id: 3, remaining_secs: None },
        LeaseLeft { id: 4, remaining_secs: Some(-9) },
    ];
    let ids: Vec<i64> = sweep_once(&leading(), &leases)
        .into_iter()
        .map(|e| match e {
            FastetcdLogEntry::LeaseRevoke { id } => id,
            other => panic!("{other:?}"),
        })
        .collect();
    assert_eq!(ids, vec![1, 4]);
    assert!(sweep_once(&state(Some(2), SpaceGuard::disabled()), &leases).is_empty());
}

#[test]
fn only_the_leader_compacts_and_only_what_left_the_window() {
    let ask = |s: &ServerState, current, already| match compact_to_retention(s, current, already, 10) {
        Some(FastetcdLogEntry::Compact { rev }) => Some(rev),
        None => None,
        other => panic!("{other:?}"),
    };
    assert_eq!(ask(&leading(), 25, 4), Some(15));
    assert_eq!(ask(&leading(), 25, 15), None);
    assert_eq!(ask(&leading(), 10, 0), None);
    assert_eq!(ask(&state(Some(2), SpaceGuard::disabled()), 25, 4), None);
    assert!(spawns(Mode::Revision, 1) && !spawns(Mode::Revision, 0));
    assert_eq!(compacted(15, Some(FastetcdLogResponse::Compact { compact_rev: 14 })), Some(14));
    assert_eq!(compacted(15, None), None);
}

#[test]
fn metrics_endpoint_exposes_etcd_compatible_names() {
    let mut m = Metrics::new();
    m.refresh(metrics(Some(3)), 9, 2, Some(4096), None);
    let list = m.list();
    assert_eq!(list.len(), 13);
    for name in [
        "etcd_server_has_leader",
        "etcd_server_leader_changes_seen_total",
        "etcd_mvcc_db_total_size_in_bytes",
        "etcd_debugging_mvcc_current_revision",
        "etcd_debugging_mvcc_compact_revision",
    ] {
        assert_eq!(list.iter().filter(|x| x.name == name).count(), 1);
    }
    for (i, a) in list.iter().enumerate() {
        assert!(!a.help.is_empty());
        assert!(list[i + 1..].iter().all(|b| b.name != a.name));
    }
    assert_eq!(list[0].reading, Reading::Gauge(1));
    assert_eq!(list[1].reading, Reading::Counter(1));
    assert_eq!(list[2].reading, Reading::Gauge(4096));
    assert_eq!(list[8].name, "fastetcd_store_space_used_ratio");
    assert_eq!(list[8].reading, Reading::UsedShare);
    assert_eq!(list[11].reading, Reading::Gauge(2));
    assert_eq!(list[12].name, "fastetcd_engine");
    assert_eq!(list[12].reading, Reading::Info(Engine::Redb));
    let other = m.with_engine(Engine::Iouring);
    assert_eq!(other.list()[12].reading, Reading::Info(Engine::Iouring));
    assert_eq!(other.list()[2].reading, Reading::Gauge(4096));
    let names = [Engine::Redb, Engine::Wal, Engine::Iouring].map(|e| e.name());
    assert_eq!(names, ["redb", "wal", "iouring"]);
}

#[test]
fn metrics_follow_the_leader_and_the_store() {
    let mut m = Metrics::new();
    m.refresh(metrics(Some(3)), 9, 2, Some(4096), None);
    m.refresh(metrics(Some(3)), 9, 2, None, None);
    assert_eq!((m.has_leader, m.leader_changes_total, m.db_size_bytes), (1, 1, 4096));
    m.refresh(metrics(None), 10, 2, None, Some(full().stats()));
    assert_eq!((m.has_leader, m.leader_changes_total), (0, 1));
    assert_eq!((m.nospace_alarm, m.current_revision, m.compact_revision), (1, 10, 2));
    m.refresh(metrics(Some(3)), 10, 2, None, None);
    assert_eq!(m.leader_changes_total, 2);
}

#[test]
fn client_port_serves_http_health_alongside_grpc() {
    assert_eq!(health_answer("/health"), Some("{\"health\":\"true\"}"));
    assert_eq!(health_answer("/livez"), Some("ok"));
    assert_eq!(health_answer("/readyz"), Some("ok"));
    assert_eq!(health_answer("/other"), None);
    assert!(serves_metrics("/metrics") && serves_metrics("/") && !serves_metrics("/x"));
}

#[test]
fn settings_are_read_as_written() {
    assert_eq!(split_list(" a, ,b ,"), vec!["a", "b"]);
    assert_eq!(first_url(" http://0.0.0.0:2379,http://x").unwrap(), "0.0.0.0:2379");
    assert_eq!(first_url("https://h:1").unwrap(), "h:1");
    assert_eq!(first_url("h:1").unwrap(), "h:1");
    assert_eq!(first_url("").unwrap_err(), "empty URL list");
    assert!(is_bootstrap("new") && is_bootstrap("NEW") && !is_bootstrap("existing"));
    assert_eq!(build_tls_config(false, false, false, true), Ok(TlsPlan::Plain));
    assert_eq!(build_tls_config(true, true, true, true), Ok(TlsPlan::IdentityAndClientAuth));
    assert_eq!(build_tls_config(true, true, false, false), Ok(TlsPlan::Identity));
    assert!(build_tls_config(true, false, false, false).is_err());
    assert!(build_tls_config(true, true, false, true).is_err());
    assert!(env_pairs().iter().any(|p| p.own == "FASTETCD_NAME" && p.fallback == "ETCD_NAME"));
    assert_eq!(env_value(false, Some(String::from("x"))), Some(String::from("x")));
    assert_eq!(env_value(true, Some(String::from("x"))), None);
}

#[test]
fn the_initial_cluster_seeds_peers_and_members() {
    let parsed = parse_initial_cluster("b=http://b:2380,a=http://a:2380").unwrap();
    let list = parsed.into_entries();
    let names: Vec<&str> = list.iter().map(|e| e.value.name.as_str()).collect();
    assert_eq!(names, vec!["a", "b"]);
    let me = derive_node_id("a");
    let seeded = seed_cluster(me, "http://self", &list);
    assert!(seeded.peers.urls.get(me).is_none());
    assert_eq!(seeded.peers.urls.get(derive_node_id("b")).unwrap(), "http://b:2380");
    assert_eq!(seeded.members.get(me).unwrap(), "http://a:2380");
    let alone = seed_cluster(77, "http://self", &Vec::new());
    assert_eq!(alone.members.get(77).unwrap(), "http://self");
    assert!(parse_initial_cluster("  ").unwrap().into_entries().is_empty());
    assert_eq!(
        parse_initial_cluster("a=x,oops").unwrap_err(),
        "missing URL in initial-cluster entry for oops"
    );
}

#[test]
fn the_client_prints_sizes_and_alarms() {
    assert_eq!(human_bytes(-5), "-5 B");
    assert_eq!(human_bytes(1023), "1023 B");
    assert_eq!(human_bytes(1536), "1.5 KiB");
    assert_eq!(
        defrag_line(2048, 1024),
        "defrag: 2.0 KiB -> 1.0 KiB (1.0 KiB returned to the filesystem)"
    );
    assert_eq!(alarms_line(&vec![]), "alarms:       none");
    assert_eq!(
        alarms_line(&vec![String::from("NOSPACE"), String::from("CORRUPT")]),
        "alarms:       NOSPACE, CORRUPT"
    );
}

#[test]
fn hashes_are_answered_with_the_current_revision() {
    let m = MaintenanceService::new(leading());
    let r = m.hash_kv(Ok(vec![row(b"a", b"1", 5)]), 4, 9).unwrap();
    assert_eq!((r.hash, r.hash_revision, r.compact_revision), (0x7852_b855, 9, 0));
    let r = m.hash(Ok(vec![row(b"a", b"1", 5)]), 9).unwrap();
    assert_eq!(r.hash, hash_kv_table(&vec![row(b"a", b"1", 5)], 0));
    assert_eq!(r.header.revision, 9);
    let e = m.hash(Err(String::from("io")), 9).unwrap_err();
    assert_eq!((e.code(), e.message()), (Code::Internal, "hash: io"));
    let e = m.hash_kv(Err(String::from("io")), 1, 9).unwrap_err();
    assert_eq!(e.message(), "hash_kv: io");
    assert_eq!(m.defragment(Ok(()), 9).unwrap().revision, 9);
    assert_eq!(m.defragment(Err(String::from("io")), 9).unwrap_err().message(), "defragment: io");
}

#[test]
fn a_prefix_ends_before_the_next_one() {
    assert_eq!(prefix_range_end(b"foo/"), b"foo0".to_vec());
    assert_eq!(prefix_range_end(b"a\xff"), b"b".to_vec());
    assert_eq!(prefix_range_end(b"\xff\xff"), vec![0]);
    assert_eq!(prefix_range_end(b""), vec![0]);
}
