use fastetcd::auth::AuthState;
use fastetcd::authz::{Loaded, PermType, StoredPermission, StoredRole, StoredUser, UserIdentity};
use fastetcd::kv::{
    mvcc_error_to_status, Caller, KvService, RangePlan, ResponseOp,
};
use fastetcd::lease::LeaseService;
use fastetcd::model::{
    CompareOp, CompareRequest, CompareTarget, DeleteRangeRequest, KvRecord, Mutation,
    MutationResult, MvccError, PutRequest, RangeRequest, RangeResult, Request, RequestOp,
    TargetUnion, TxnOp, TxnOpResult, TxnRequest, TxnResult,
};
use fastetcd::space::{FsSpace, Sample, SpaceConfig, SpaceGuard};
use fastetcd::state::{Next, RaftMetrics, RaftOutcome, ServerState};
use fastetcd::status::{Code, Status};
use fastetcd::types::{FastetcdLogEntry, FastetcdLogResponse, MembershipChange};

fn server(auth: bool, space: SpaceGuard) -> KvService {
    let mut a = AuthState::default();
    a.set_enabled(auth);
    KvService::new(ServerState::new(
        7,
        1,
        RaftMetrics {
            current_term: 3,
            current_leader: Some(1),
            last_log_index: Some(10),
            last_applied: Some(10),
        },
        a,
        space,
    ))
}

fn full() -> SpaceGuard {
    let mut g = SpaceGuard::new(
        String::from("/tmp"),
        SpaceConfig { quota_backend_bytes: 1, alarm_percent: 1, ..SpaceConfig::default() },
    );
    g.refresh(&Sample {
        db_bytes: Some(4096),
        snapshot_bytes: 0,
        data_dir_bytes: 4096,
        fs: Some(FsSpace { total: 1 << 30, available: 1 << 30 }),
    });
    g
}

/// alice, whose one role grants `perm` on `config/`.
struct Alice {
    user: UserIdentity,
    record: Loaded<StoredUser>,
    roles: Vec<Loaded<StoredRole>>,
}

impl Alice {
    fn with(perm: PermType) -> Alice {
        Alice {
            user: UserIdentity { name: String::from("alice") },
            record: Loaded::Found(StoredUser {
                name: String::from("alice"),
                password_hash: String::new(),
                roles: vec![String::from("config")],
                no_password: false,
            }),
            roles: vec![Loaded::Found(StoredRole {
                name: String::from("config"),
                permissions: vec![StoredPermission {
                    perm_type: perm,
                    key: b"config/".to_vec(),
                    range_end: b"config0".to_vec(),
                }],
            })],
        }
    }

    fn caller(&self) -> Caller<'_> {
        Caller { user: Some(&self.user), record: &self.record, roles: &self.roles }
    }

    fn txn(&self, t: TxnRequest) -> Result<FastetcdLogEntry, Status> {
        server(true, SpaceGuard::disabled()).txn(&self.caller(), &t)
    }
}

fn anyone<R>(f: impl FnOnce(&Caller) -> R) -> R {
    let record = Loaded::Missing;
    let roles = Vec::new();
    f(&Caller { user: None, record: &record, roles: &roles })
}

fn put_request(key: &[u8], prev_kv: bool) -> PutRequest {
    PutRequest {
        key: key.to_vec(),
        value: b"v".to_vec(),
        lease: 0,
        prev_kv,
        ignore_value: false,
        ignore_lease: false,
    }
}

fn put_op(key: &[u8], prev_kv: bool) -> RequestOp {
    RequestOp { request: Some(Request::RequestPut(put_request(key, prev_kv))) }
}

fn put(key: &str) -> RequestOp {
    put_op(key.as_bytes(), false)
}

fn delete_op(key: &[u8], range_end: &[u8], prev_kv: bool) -> RequestOp {
    RequestOp {
        request: Some(Request::RequestDeleteRange(DeleteRangeRequest {
            key: key.to_vec(),
            range_end: range_end.to_vec(),
            prev_kv,
        })),
    }
}

fn range_request(key: &[u8]) -> RangeRequest {
    RangeRequest {
        key: key.to_vec(),
        range_end: Vec::new(),
        limit: 0,
        revision: 0,
        serializable: false,
        keys_only: false,
        count_only: false,
    }
}

fn get(key: &str) -> RequestOp {
    RequestOp { request: Some(Request::RequestRange(range_request(key.as_bytes()))) }
}

/// The key does not exist.
fn absent(key: &str) -> CompareRequest {
    CompareRequest {
        result: 0,
        target: 0,
        key: key.as_bytes().to_vec(),
        range_end: Vec::new(),
        target_union: Some(TargetUnion::Version(0)),
    }
}

fn txn(compare: Vec<CompareRequest>, success: Vec<RequestOp>, failure: Vec<RequestOp>) -> TxnRequest {
    TxnRequest { compare, success, failure }
}

fn assert_denied(r: Result<FastetcdLogEntry, Status>) {
    match r {
        Err(s) => assert_eq!(s.code(), Code::PermissionDenied, "{s:?}"),
        Ok(e) => panic!("must have been denied, got {e:?}"),
    }
}

#[test]
fn txn_within_scope_is_allowed() {
    let alice = Alice::with(PermType::ReadWrite);
    let entry = alice
        .txn(txn(vec![absent("config/a")], vec![put("config/a"), get("config/a")], vec![get("config/b")]))
        .expect("in scope");
    match entry {
        FastetcdLogEntry::Txn { compares, success, failure } => {
            assert_eq!((compares.len(), success.len(), failure.len()), (1, 2, 1));
            assert!(matches!(compares[0].op, CompareOp::Equal));
            assert!(matches!(compares[0].target, CompareTarget::Version(0)));
            assert!(matches!(success[0], TxnOp::Mutation(Mutation::Put { .. })));
            assert!(matches!(success[1], TxnOp::Range(_)));
        }
        other => panic!("{other:?}"),
    }
}

#[test]
fn txn_success_put_outside_scope_is_denied_and_not_applied() {
    let alice = Alice::with(PermType::ReadWrite);
    assert_denied(alice.txn(txn(vec![], vec![put("config/a"), put("secret/x")], vec![])));
}

#[test]
fn txn_failure_branch_is_checked_even_when_not_taken() {
    let alice = Alice::with(PermType::ReadWrite);
    assert_denied(alice.txn(txn(vec![absent("config/a")], vec![put("config/a")], vec![put("secret/x")])));
}

#[test]
fn txn_range_outside_scope_is_denied() {
    let alice = Alice::with(PermType::ReadWrite);
    assert_denied(alice.txn(txn(vec![], vec![get("secret/x")], vec![])));
}

#[test]
fn txn_delete_outside_scope_is_denied_and_not_applied() {
    let alice = Alice::with(PermType::ReadWrite);
    assert_denied(alice.txn(txn(vec![], vec![delete_op(b"secret/", b"secret0", false)], vec![])));
}

#[test]
fn txn_compare_outside_scope_is_denied() {
    let alice = Alice::with(PermType::ReadWrite);
    assert_denied(alice.txn(txn(vec![absent("secret/x")], vec![], vec![])));
}

#[test]
fn txn_compare_needs_read_not_just_write() {
    let alice = Alice::with(PermType::Write);
    assert_denied(alice.txn(txn(vec![absent("config/a")], vec![put("config/a")], vec![])));
    alice.txn(txn(vec![], vec![put("config/a")], vec![])).expect("a write alone is in scope");
}

#[test]
fn txn_put_in_read_only_scope_is_denied() {
    let alice = Alice::with(PermType::Read);
    assert_denied(alice.txn(txn(vec![], vec![put("config/a")], vec![])));
}

#[test]
fn nested_txn_ops_are_authorized() {
    let alice = Alice::with(PermType::ReadWrite);
    let nested = |key: &str| RequestOp {
        request: Some(Request::RequestTxn(txn(vec![], vec![put(key)], vec![]))),
    };
    assert_denied(alice.txn(txn(vec![], vec![nested("secret/x")], vec![])));
    // One within scope is authorized, and refused for being nested.
    let e = alice.txn(txn(vec![], vec![nested("config/x")], vec![])).unwrap_err();
    assert_eq!(e.code(), Code::Unimplemented);
    assert_eq!(e.message(), "nested Txn in Txn ops is not yet supported");
}

#[test]
fn prev_kv_needs_read_on_put_and_delete() {
    let alice = Alice::with(PermType::Write);
    let kv = server(true, SpaceGuard::disabled());
    assert!(kv.put(&alice.caller(), &put_request(b"config/a", false)).is_ok());
    assert_denied(kv.put(&alice.caller(), &put_request(b"config/a", true)));
    let delete = |prev_kv| DeleteRangeRequest { key: b"config/a".to_vec(), range_end: Vec::new(), prev_kv };
    assert_denied(kv.delete_range(&alice.caller(), &delete(true)));
    assert!(kv.delete_range(&alice.caller(), &delete(false)).is_ok());
    assert_denied(alice.txn(txn(vec![], vec![put_op(b"config/a", true)], vec![])));
    assert_denied(alice.txn(txn(vec![], vec![delete_op(b"config/a", b"", true)], vec![])));
}

#[test]
fn under_the_alarm_writes_are_refused_but_recovery_still_works() {
    let kv = server(false, full());
    anyone(|c| {
        let e = kv.put(c, &put_request(b"new", false)).unwrap_err();
        assert_eq!(e.code(), Code::ResourceExhausted);
        assert_eq!(e.message(), "etcdserver: mvcc: database space exceeded");
        let e = kv.txn(c, &txn(vec![], vec![], vec![put("sneaky")])).unwrap_err();
        assert_eq!(e.code(), Code::ResourceExhausted);
        let nested = RequestOp {
            request: Some(Request::RequestTxn(txn(vec![], vec![put("deep")], vec![]))),
        };
        let e = kv.txn(c, &txn(vec![], vec![nested], vec![])).unwrap_err();
        assert_eq!(e.code(), Code::ResourceExhausted);

        assert!(kv.range(c, &range_request(b"keep")).is_ok());
        assert!(kv.txn(c, &txn(vec![], vec![get("keep")], vec![])).is_ok());
        let d = DeleteRangeRequest { key: b"drop".to_vec(), range_end: vec![], prev_kv: false };
        assert!(kv.delete_range(c, &d).is_ok());
        assert!(kv.txn(c, &txn(vec![], vec![delete_op(b"keep", b"", false)], vec![])).is_ok());
    });
    assert!(matches!(KvService::compact(4), FastetcdLogEntry::Compact { rev: 4 }));
    let lease = LeaseService::new(server(false, full()).state);
    assert_eq!(lease.lease_grant(0, 60, 5).unwrap_err().code(), Code::ResourceExhausted);
    assert!(matches!(lease.lease_revoke(9), FastetcdLogEntry::LeaseRevoke { id: 9 }));
}

#[test]
fn without_a_space_guard_nothing_changes() {
    let kv = server(false, SpaceGuard::disabled());
    assert!(!kv.state.space.is_enabled());
    anyone(|c| assert!(kv.put(c, &put_request(b"k", false)).is_ok()));
}

fn record(key: &[u8], value: &[u8], rev: i64) -> KvRecord {
    KvRecord {
        key: key.to_vec(),
        create_revision: rev,
        mod_revision: rev,
        version: 1,
        value: value.to_vec(),
        lease: 0,
        deleted: false,
    }
}

fn hits(n: i64, prev_kvs: Vec<KvRecord>) -> TxnOpResult {
    TxnOpResult::Mutation(MutationResult { n, prev_kvs })
}

#[test]
fn txn_response_ops_match_request_ops() {
    let kv = server(false, SpaceGuard::disabled());
    let req = txn(
        vec![],
        vec![
            delete_op(b"a", b"", true),
            put_op(b"p", false),
            put_op(b"b", true),
            delete_op(b"missing", b"", false),
            delete_op(b"c", b"d", false),
            get("b"),
        ],
        vec![],
    );
    let result = TxnResult {
        revision: 6,
        succeeded: true,
        op_results: vec![
            hits(1, vec![record(b"a", b"v0", 1)]),
            hits(1, vec![]),
            hits(1, vec![record(b"b", b"v0", 2)]),
            hits(0, vec![]),
            hits(2, vec![]),
            TxnOpResult::Range(RangeResult { kvs: vec![record(b"b", b"v", 6)], more: false, count: 1 }),
        ],
    };
    let resp = kv.txn_reply(&req, FastetcdLogResponse::Txn(result)).unwrap();
    assert!(resp.succeeded);
    assert_eq!(resp.header.revision, 6);
    assert_eq!(resp.header.cluster_id, 7);
    assert_eq!(resp.header.raft_term, 3);
    assert_eq!(resp.responses.len(), 6);
    match &resp.responses[0] {
        ResponseOp::ResponseDeleteRange(d) => {
            assert_eq!(d.deleted, 1);
            assert_eq!(d.prev_kvs.len(), 1);
            assert_eq!(d.prev_kvs[0].key, b"a");
        }
        other => panic!("{other:?}"),
    }
    match &resp.responses[1] {
        ResponseOp::ResponsePut(p) => assert!(p.prev_kv.is_none()),
        other => panic!("{other:?}"),
    }
    match &resp.responses[2] {
        ResponseOp::ResponsePut(p) => assert_eq!(p.prev_kv.as_ref().unwrap().value, b"v0"),
        other => panic!("{other:?}"),
    }
    match &resp.responses[3] {
        ResponseOp::ResponseDeleteRange(d) => assert_eq!(d.deleted, 0),
        other => panic!("{other:?}"),
    }
    match &resp.responses[4] {
        ResponseOp::ResponseDeleteRange(d) => assert_eq!(d.deleted, 2),
        other => panic!("{other:?}"),
    }
    match &resp.responses[5] {
        ResponseOp::ResponseRange(r) => {
            assert_eq!(r.kvs.len(), 1);
            assert_eq!(r.kvs[0].value, b"v");
        }
        other => panic!("{other:?}"),
    }
}

#[test]
fn txn_failure_branch_response_ops_match_failure_ops() {
    let kv = server(false, SpaceGuard::disabled());
    let compare = CompareRequest {
        result: 0,
        target: 3,
        key: b"k".to_vec(),
        range_end: vec![],
        target_union: Some(TargetUnion::Value(b"nope".to_vec())),
    };
    let req = txn(
        vec![compare],
        vec![put_op(b"k", false), put_op(b"k2", false)],
        vec![delete_op(b"k", b"", false)],
    );
    let result = TxnResult { revision: 2, succeeded: false, op_results: vec![hits(1, vec![])] };
    let resp = kv.txn_reply(&req, FastetcdLogResponse::Txn(result)).unwrap();
    assert!(!resp.succeeded);
    assert_eq!(resp.responses.len(), 1);
    match &resp.responses[0] {
        ResponseOp::ResponseDeleteRange(d) => assert_eq!(d.deleted, 1),
        other => panic!("{other:?}"),
    }
}

#[test]
fn results_that_do_not_fit_their_request_are_internal_errors() {
    let kv = server(false, SpaceGuard::disabled());
    let one = || txn(vec![], vec![put("k")], vec![]);
    let ask = |results: Vec<TxnOpResult>| {
        let t = TxnResult { revision: 1, succeeded: true, op_results: results };
        kv.txn_reply(&one(), FastetcdLogResponse::Txn(t)).unwrap_err().code()
    };
    assert_eq!(ask(vec![]), Code::Internal);
    let range = TxnOpResult::Range(RangeResult { kvs: vec![], more: false, count: 0 });
    assert_eq!(ask(vec![range]), Code::Internal);
    let e = kv.txn_reply(&one(), FastetcdLogResponse::Noop { revision: 1 }).unwrap_err();
    assert_eq!(e.message(), "unexpected response: Noop { revision: 1 }");
    let done = kv.compact_reply(FastetcdLogResponse::Compact { compact_rev: 6 }).unwrap();
    assert_eq!(done.header.revision, 6);
    assert!(kv.compact_reply(FastetcdLogResponse::Noop { revision: 1 }).is_err());
    assert_eq!(kv.put_reply(FastetcdLogResponse::Compact { compact_rev: 1 }).unwrap_err().code(), Code::Internal);
}

#[test]
fn malformed_transactions_are_refused() {
    let kv = server(false, SpaceGuard::disabled());
    let ask = |t: TxnRequest| anyone(|c| kv.txn(c, &t).unwrap_err());
    let e = ask(txn(vec![], vec![RequestOp { request: None }], vec![]));
    assert_eq!((e.code(), e.message()), (Code::InvalidArgument, "RequestOp.request missing"));
    let e = ask(txn(vec![CompareRequest { target_union: None, ..absent("k") }], vec![], vec![]));
    assert_eq!(e.code(), Code::InvalidArgument);
    let e = ask(txn(vec![CompareRequest { result: 9, ..absent("k") }], vec![], vec![]));
    assert_eq!(e.code(), Code::InvalidArgument);
}

#[test]
fn put_with_prev_kv_returns_prior_value() {
    let kv = server(false, SpaceGuard::disabled());
    let req = PutRequest { value: b"v1".to_vec(), ..put_request(b"k", true) };
    anyone(|c| match kv.put(c, &req).unwrap() {
        FastetcdLogEntry::Apply { mutations } => {
            assert!(matches!(mutations[0], Mutation::Put { prev_kv: true, .. }));
        }
        other => panic!("{other:?}"),
    });
    let resp = kv
        .put_reply(FastetcdLogResponse::Apply {
            revision: 2,
            results: vec![MutationResult { n: 1, prev_kvs: vec![record(b"k", b"v0", 1)] }],
        })
        .unwrap();
    assert_eq!(resp.header.revision, 2);
    assert_eq!(resp.prev_kv.unwrap().value, b"v0");
}

#[test]
fn delete_range_returns_count_and_prev_kvs() {
    let kv = server(false, SpaceGuard::disabled());
    let req = DeleteRangeRequest { key: b"k1".to_vec(), range_end: b"k3".to_vec(), prev_kv: true };
    anyone(|c| match kv.delete_range(c, &req).unwrap() {
        FastetcdLogEntry::Apply { mutations } => match &mutations[0] {
            Mutation::DeleteRange { key, range_end, prev_kv } => {
                assert_eq!((key.as_slice(), range_end.as_slice(), *prev_kv), (&b"k1"[..], &b"k3"[..], true));
            }
            other => panic!("{other:?}"),
        },
        other => panic!("{other:?}"),
    });
    let resp = kv
        .delete_range_reply(FastetcdLogResponse::Apply {
            revision: 4,
            results: vec![MutationResult {
                n: 2,
                prev_kvs: vec![record(b"k1", b"v", 1), record(b"k2", b"v", 2)],
            }],
        })
        .unwrap();
    assert_eq!(resp.deleted, 2);
    assert_eq!(resp.prev_kvs.len(), 2);
    assert_eq!(resp.prev_kvs[1].key, b"k2");
}

#[test]
fn a_read_goes_through_the_barrier_unless_stale_data_is_welcome() {
    let kv = server(false, SpaceGuard::disabled());
    anyone(|c| {
        let stale =
            RangeRequest { serializable: true, limit: 3, keys_only: true, ..range_request(b"k") };
        match kv.range(c, &stale).unwrap() {
            RangePlan::Local(f) => {
                assert_eq!((f.key, f.range_end, f.limit), (b"k".to_vec(), vec![], 3));
                assert!(f.keys_only && !f.count_only && f.revision == 0);
            }
            other => panic!("{other:?}"),
        }
        let req = RangeRequest { limit: -4, revision: 9, ..range_request(b"k") };
        match kv.range(c, &req).unwrap() {
            RangePlan::Linearizable(f) => {
                assert_eq!((f.key, f.limit, f.revision), (b"k".to_vec(), 0, 9));
            }
            other => panic!("{other:?}"),
        }
    });
    let found = RangeResult { kvs: vec![record(b"k", b"v", 1)], more: true, count: 5 };
    let req = RangeRequest { count_only: true, ..range_request(b"k") };
    let resp = kv.range_reply(&req, found, 8);
    assert!(resp.kvs.is_empty() && resp.more);
    assert_eq!((resp.count, resp.header.revision), (5, 8));
}

#[test]
fn store_errors_have_their_codes() {
    let e = MvccError::Compacted { requested: 1, compact_rev: 2 };
    let s = mvcc_error_to_status(&e, "compacted");
    assert_eq!((s.code(), s.message()), (Code::OutOfRange, "compacted"));
    let e = MvccError::FutureRevision { requested: 3, current: 2 };
    assert_eq!(mvcc_error_to_status(&e, "").code(), Code::OutOfRange);
    assert_eq!(mvcc_error_to_status(&MvccError::Storage(String::new()), "").code(), Code::Internal);
    assert_eq!(mvcc_error_to_status(&MvccError::Internal(String::new()), "").code(), Code::Internal);
}

#[test]
fn followers_forward_and_the_leaderless_are_refused() {
    match ServerState::propose(RaftOutcome::ForwardTo(4)) {
        Next::Forward(4) => {}
        other => panic!("{other:?}"),
    }
    match ServerState::propose(RaftOutcome::Failed(String::from("no leader"))) {
        Next::Done(Err(e)) => assert_eq!(e.code(), Code::Unavailable),
        other => panic!("{other:?}"),
    }
    let e = ServerState::propose_forwarded(4, Err(String::from("refused"))).unwrap_err();
    assert_eq!(e.code(), Code::Unavailable);
    assert!(e.message().ends_with("4: refused"));
    match ServerState::linearize_read(RaftOutcome::Applied(())) {
        Next::Done(Ok(None)) => {}
        other => panic!("{other:?}"),
    }
    match ServerState::linearize_read(RaftOutcome::Failed(String::from("quorum"))) {
        Next::Done(Err(e)) => assert_eq!(e.message(), "linearizable read barrier: quorum"),
        other => panic!("{other:?}"),
    }
    let e = ServerState::linearize_read_forwarded(4, Err(String::from("gone"))).unwrap_err();
    assert_eq!(e.message(), "forwarded linearizable read to leader 4: gone");
    match ServerState::propose_add_learner(RaftOutcome::Failed(String::from("x"))) {
        Next::Done(Err(e)) => assert_eq!(e.message(), "raft add_learner: x"),
        other => panic!("{other:?}"),
    }
    match ServerState::propose_set_voters(RaftOutcome::ForwardTo(2)) {
        Next::Forward(2) => {}
        other => panic!("{other:?}"),
    }
    let e = ServerState::forward_membership(2, Err(String::from("y"))).unwrap_err();
    assert_eq!(e.message(), "forwarded membership change to leader 2: y");
    match ServerState::add_learner_change(3, "http://three") {
        MembershipChange::AddLearner { node_id: 3, addr } => assert_eq!(addr, "http://three"),
        other => panic!("{other:?}"),
    }
}
