//! The key-value service: which accesses a request makes, what it
//! proposes, and what its outcome is answered with.
//!
//! Under the NOSPACE alarm a request that stores something new is
//! refused. Reads, deletes and compaction are served, since they are how
//! a full store is emptied.

use vstd::prelude::*;
use crate::authz::{
    self, authorize, authorize_all, Access, AccessView, Loaded, RequiredPerm, StoredRole,
    StoredUser, UserIdentity,
};
use crate::conv::{
    self, compare_from_proto, delete_request_to_mutation, first_record_to_kv, put_request_to_mutation,
    records_to_kvs, request_op_from_proto,
};
use crate::lex::copy_bytes;
use crate::model::{
    Compare, DeleteRangeRequest, KeyValue, Mutation, MutationResult, MvccError,
    PutRequest, RangeRequest, RangeResult, Request, RequestOp, TxnOp, TxnOpResult, TxnRequest,
    TxnResult,
};
use crate::state::{self, response_header, ResponseHeader, ServerState};
use crate::status::{Code, Status};
use crate::text::{dec_u64, join3};
use crate::types::{FastetcdLogEntry, FastetcdLogResponse, ForwardedRead};

verus! {

/// A slot of a transaction stores something new: it is a put, or a nested
/// transaction that does.
pub open spec fn op_stores(op: RequestOp) -> bool
    decreases op,
{
    match op.request {
        Some(Request::RequestPut(_)) => true,
        Some(Request::RequestTxn(t)) => txn_stores(t),
        _ => false,
    }
}

/// A transaction may store something new, in one branch or the other.
pub open spec fn txn_stores(t: TxnRequest) -> bool
    decreases t,
{
    ops_store(t.success@) || ops_store(t.failure@)
}

/// Some slot stores something new.
pub open spec fn ops_store(ops: Seq<RequestOp>) -> bool
    decreases ops,
{
    if ops.len() == 0 {
        false
    } else {
        ops_store(ops.drop_last()) || op_stores(ops.last())
    }
}

/// Whether some slot stores something new.
fn ops_consume_space(ops: &Vec<RequestOp>) -> (r: bool)
    ensures
        r == ops_store(ops@),
    decreases ops@,
{
    let mut i: usize = 0;
    while i < ops.len()
        invariant
            i <= ops@.len(),
            !ops_store(ops@.take(i as int)),
        decreases ops@.len() - i,
    {
        let stores = match &ops[i].request {
            Some(Request::RequestPut(_)) => true,
            Some(Request::RequestTxn(t)) => txn_consumes_space(t),
            _ => false,
        };
        assert(stores == op_stores(ops@[i as int]));
        assert(ops@.take(i + 1).drop_last() =~= ops@.take(i as int));
        assert(ops@.take(i + 1).last() == ops@[i as int]);
        if stores {
            proof {
                lemma_ops_store_prefix(ops@, i + 1);
            }
            return true;
        }
        i += 1;
    }
    assert(ops@.take(i as int) =~= ops@);
    false
}

/// What a prefix stores, the whole stores.
proof fn lemma_ops_store_prefix(ops: Seq<RequestOp>, n: int)
    requires
        0 <= n <= ops.len(),
        ops_store(ops.take(n)),
    ensures
        ops_store(ops),
    decreases ops.len(),
{
    if n == ops.len() {
        assert(ops.take(n) =~= ops);
    } else {
        assert(ops.drop_last().take(n) =~= ops.take(n));
        lemma_ops_store_prefix(ops.drop_last(), n);
    }
}

/// Whether a transaction may store something new.
pub fn txn_consumes_space(req: &TxnRequest) -> (r: bool)
    ensures
        r == txn_stores(*req),
    decreases *req,
{
    ops_consume_space(&req.success) || ops_consume_space(&req.failure)
}

/// The accesses of a put: write on the key, and read too where it asks
/// for the previous value.
pub open spec fn put_reach(p: PutRequest) -> Seq<AccessView> {
    let write = AccessView { perm: RequiredPerm::Write, key: p.key@, range_end: seq![] };
    let read = AccessView { perm: RequiredPerm::Read, key: p.key@, range_end: seq![] };
    if p.prev_kv {
        seq![write, read]
    } else {
        seq![write]
    }
}

/// The accesses of a delete: write on the range, and read too where it
/// asks for the deleted pairs.
pub open spec fn delete_reach(d: DeleteRangeRequest) -> Seq<AccessView> {
    let write = AccessView {
        perm: RequiredPerm::Write,
        key: d.key@,
        range_end: d.range_end@,
    };
    let read = AccessView { perm: RequiredPerm::Read, key: d.key@, range_end: d.range_end@ };
    if d.prev_kv {
        seq![write, read]
    } else {
        seq![write]
    }
}

/// A guard reads what it compares.
pub open spec fn compare_reach(c: crate::model::CompareRequest) -> AccessView {
    AccessView { perm: RequiredPerm::Read, key: c.key@, range_end: c.range_end@ }
}

/// The accesses of one slot.
pub open spec fn op_reach(op: RequestOp) -> Seq<AccessView>
    decreases op,
{
    match op.request {
        Some(Request::RequestRange(r)) => seq![
            AccessView { perm: RequiredPerm::Read, key: r.key@, range_end: r.range_end@ },
        ],
        Some(Request::RequestPut(p)) => put_reach(p),
        Some(Request::RequestDeleteRange(d)) => delete_reach(d),
        Some(Request::RequestTxn(t)) => txn_reach(t),
        None => seq![],
    }
}

/// The accesses of a list of slots.
pub open spec fn ops_reach(ops: Seq<RequestOp>) -> Seq<AccessView>
    decreases ops,
{
    if ops.len() == 0 {
        seq![]
    } else {
        ops_reach(ops.drop_last()) + op_reach(ops.last())
    }
}

/// The accesses a transaction can make, whichever branch it takes: its
/// guards, and the slots of both branches.
pub open spec fn txn_reach(t: TxnRequest) -> Seq<AccessView>
    decreases t,
{
    t.compare@.map_values(|c: crate::model::CompareRequest| compare_reach(c)) + ops_reach(
        t.success@,
    ) + ops_reach(t.failure@)
}

/// Adding an access adds what it is.
proof fn lemma_views_push(s: Seq<Access>, a: Access)
    ensures
        authz::access_views(s.push(a)) == authz::access_views(s).push(a@),
{
    assert(authz::access_views(s.push(a)) =~= authz::access_views(s).push(a@));
}

/// Add the accesses of a put.
pub fn put_accesses<'a>(p: &'a PutRequest, out: &mut Vec<Access<'a>>)
    ensures
        authz::access_views(final(out)@) == authz::access_views(old(out)@) + put_reach(*p),
{
    let ghost before = out@;
    let none = vstd::slice::slice_subrange(p.key.as_slice(), 0, 0);
    assert(none@ =~= seq![]);
    let write = Access { perm: RequiredPerm::Write, key: p.key.as_slice(), range_end: none };
    proof {
        lemma_views_push(out@, write);
    }
    out.push(write);
    if p.prev_kv {
        let read = Access { perm: RequiredPerm::Read, key: p.key.as_slice(), range_end: none };
        proof {
            lemma_views_push(out@, read);
        }
        out.push(read);
    }
    assert(authz::access_views(out@) =~= authz::access_views(before) + put_reach(*p));
}

/// Add the accesses of a delete.
pub fn delete_accesses<'a>(d: &'a DeleteRangeRequest, out: &mut Vec<Access<'a>>)
    ensures
        authz::access_views(final(out)@) == authz::access_views(old(out)@) + delete_reach(*d),
{
    let ghost before = out@;
    let write = Access {
        perm: RequiredPerm::Write,
        key: d.key.as_slice(),
        range_end: d.range_end.as_slice(),
    };
    proof {
        lemma_views_push(out@, write);
    }
    out.push(write);
    if d.prev_kv {
        let read = Access {
            perm: RequiredPerm::Read,
            key: d.key.as_slice(),
            range_end: d.range_end.as_slice(),
        };
        proof {
            lemma_views_push(out@, read);
        }
        out.push(read);
    }
    assert(authz::access_views(out@) =~= authz::access_views(before) + delete_reach(*d));
}

/// Add the accesses of a list of slots.
fn ops_accesses<'a>(ops: &'a Vec<RequestOp>, out: &mut Vec<Access<'a>>)
    ensures
        authz::access_views(final(out)@) == authz::access_views(old(out)@) + ops_reach(ops@),
    decreases ops@,
{
    let ghost before = authz::access_views(out@);
    let mut i: usize = 0;
    assert(before =~= before + ops_reach(ops@.take(0)));
    while i < ops.len()
        invariant
            i <= ops@.len(),
            authz::access_views(out@) == before + ops_reach(ops@.take(i as int)),
        decreases ops@.len() - i,
    {
        let ghost now = authz::access_views(out@);
        match &ops[i].request {
            Some(Request::RequestRange(r)) => {
                let read = Access {
                    perm: RequiredPerm::Read,
                    key: r.key.as_slice(),
                    range_end: r.range_end.as_slice(),
                };
                proof {
                    lemma_views_push(out@, read);
                }
                out.push(read);
                assert(authz::access_views(out@) =~= now + op_reach(ops@[i as int]));
            },
            Some(Request::RequestPut(p)) => {
                put_accesses(p, out);
            },
            Some(Request::RequestDeleteRange(d)) => {
                delete_accesses(d, out);
            },
            Some(Request::RequestTxn(t)) => {
                txn_accesses(t, out);
            },
            None => {
                assert(now =~= now + op_reach(ops@[i as int]));
            },
        }
        assert(authz::access_views(out@) == now + op_reach(ops@[i as int]));
        assert(ops@.take(i + 1).drop_last() =~= ops@.take(i as int));
        assert(ops@.take(i + 1).last() == ops@[i as int]);
        assert(authz::access_views(out@) =~= before + ops_reach(ops@.take(i + 1)));
        i += 1;
    }
    assert(ops@.take(i as int) =~= ops@);
}

/// Add every access a transaction can make.
pub fn txn_accesses<'a>(t: &'a TxnRequest, out: &mut Vec<Access<'a>>)
    ensures
        authz::access_views(final(out)@) == authz::access_views(old(out)@) + txn_reach(*t),
    decreases *t,
{
    let ghost before = authz::access_views(out@);
    let ghost guards = t.compare@.map_values(
        |c: crate::model::CompareRequest| compare_reach(c),
    );
    let mut i: usize = 0;
    assert(before =~= before + guards.take(0));
    while i < t.compare.len()
        invariant
            i <= t.compare@.len(),
            guards == t.compare@.map_values(
                |c: crate::model::CompareRequest| compare_reach(c),
            ),
            authz::access_views(out@) == before + guards.take(i as int),
        decreases t.compare@.len() - i,
    {
        let c = &t.compare[i];
        let read = Access {
            perm: RequiredPerm::Read,
            key: c.key.as_slice(),
            range_end: c.range_end.as_slice(),
        };
        proof {
            lemma_views_push(out@, read);
        }
        out.push(read);
        assert(guards.take(i + 1) =~= guards.take(i as int).push(read@));
        assert(authz::access_views(out@) =~= before + guards.take(i + 1));
        i += 1;
    }
    assert(guards.take(i as int) =~= guards);
    ops_accesses(&t.success, out);
    ops_accesses(&t.failure, out);
    assert(authz::access_views(out@) =~= before + txn_reach(*t));
}

/// Every access of a slot of a list is an access of the list.
proof fn lemma_reach_of_slot(ops: Seq<RequestOp>, i: int, a: AccessView)
    requires
        0 <= i < ops.len(),
        op_reach(ops[i]).contains(a),
    ensures
        ops_reach(ops).contains(a),
    decreases ops.len(),
{
    let head = ops_reach(ops.drop_last());
    let tail = op_reach(ops.last());
    if i < ops.len() - 1 {
        assert(ops.drop_last()[i] == ops[i]);
        lemma_reach_of_slot(ops.drop_last(), i, a);
        let k = choose|k: int| 0 <= k < head.len() && head[k] == a;
        assert((head + tail)[k] == a);
    } else {
        let k = choose|k: int| 0 <= k < tail.len() && tail[k] == a;
        assert((head + tail)[head.len() + k] == a);
    }
}

/// Authorizing a transaction covers both of its branches: each access of
/// each slot, taken or not, is among the accesses that are checked, and
/// so is each guard.
pub proof fn law_txn_reach_covers_both_branches(t: TxnRequest, a: AccessView)
    requires
        (exists|i: int|
            0 <= i < t.success@.len() && op_reach(#[trigger] t.success@[i]).contains(a)) || (
        exists|i: int|
            0 <= i < t.failure@.len() && op_reach(#[trigger] t.failure@[i]).contains(a)) || (
        exists|i: int| 0 <= i < t.compare@.len() && compare_reach(#[trigger] t.compare@[i]) == a),
    ensures
        txn_reach(t).contains(a),
{
    let guards = t.compare@.map_values(|c: crate::model::CompareRequest| compare_reach(c));
    let yes = ops_reach(t.success@);
    let no = ops_reach(t.failure@);
    if exists|i: int| 0 <= i < t.compare@.len() && compare_reach(#[trigger] t.compare@[i]) == a {
        let i = choose|i: int|
            0 <= i < t.compare@.len() && compare_reach(#[trigger] t.compare@[i]) == a;
        assert(guards[i] == a);
        assert((guards + yes + no)[i] == a);
    } else if exists|i: int|
        0 <= i < t.success@.len() && op_reach(#[trigger] t.success@[i]).contains(a) {
        let i = choose|i: int|
            0 <= i < t.success@.len() && op_reach(#[trigger] t.success@[i]).contains(a);
        lemma_reach_of_slot(t.success@, i, a);
        let k = choose|k: int| 0 <= k < yes.len() && yes[k] == a;
        assert((guards + yes + no)[guards.len() + k] == a);
    } else {
        let i = choose|i: int|
            0 <= i < t.failure@.len() && op_reach(#[trigger] t.failure@[i]).contains(a);
        lemma_reach_of_slot(t.failure@, i, a);
        let k = choose|k: int| 0 <= k < no.len() && no[k] == a;
        assert((guards + yes + no)[guards.len() + yes.len() + k] == a);
    }
}

/// What reading the records behind a request gave: the user it was made
/// as, that user's record, and each of its roles.
#[derive(Debug)]
pub struct Caller<'a> {
    pub user: Option<&'a UserIdentity>,
    pub record: &'a Loaded<StoredUser>,
    pub roles: &'a Vec<Loaded<StoredRole>>,
}

/// What authorization answers a caller for a list of accesses.
pub open spec fn caller_verdict(enabled: bool, who: Caller, accesses: Seq<AccessView>)
    -> authz::Verdict {
    authz::verdict_all(
        enabled,
        (match who.user {
            Some(u) => Some(*u),
            None => None,
        }),
        *who.record,
        who.roles@,
        accesses,
    )
}

/// Response to a read.
#[derive(Debug)]
pub struct RangeResponse {
    pub header: ResponseHeader,
    pub kvs: Vec<KeyValue>,
    pub more: bool,
    pub count: i64,
}

/// Response to a put.
#[derive(Debug)]
pub struct PutResponse {
    pub header: ResponseHeader,
    pub prev_kv: Option<KeyValue>,
}

/// Response to a delete.
#[derive(Debug)]
pub struct DeleteRangeResponse {
    pub header: ResponseHeader,
    pub deleted: i64,
    pub prev_kvs: Vec<KeyValue>,
}

/// Response to one slot of a transaction.
#[derive(Debug)]
pub enum ResponseOp {
    ResponseRange(RangeResponse),
    ResponsePut(PutResponse),
    ResponseDeleteRange(DeleteRangeResponse),
}

/// Response to a transaction.
#[derive(Debug)]
pub struct TxnResponse {
    pub header: ResponseHeader,
    pub succeeded: bool,
    pub responses: Vec<ResponseOp>,
}

/// Response to a compaction.
#[derive(Debug)]
pub struct CompactionResponse {
    pub header: ResponseHeader,
}

/// A read's response says what the read found, without pairs where only
/// the count was asked for.
pub open spec fn is_range_response(
    r: RangeResponse,
    header: ResponseHeader,
    result: RangeResult,
    count_only: bool,
) -> bool {
    &&& r.header == header
    &&& crate::model::kv_views(r.kvs@) == (if count_only {
        seq![]
    } else {
        crate::model::record_views(result.kvs@)
    })
    &&& r.more == result.more
    &&& r.count == result.count
}

/// A put's response says what the put replaced.
pub open spec fn is_put_response(r: PutResponse, header: ResponseHeader, m: MutationResult)
    -> bool {
    &&& r.header == header
    &&& r.prev_kv is Some <==> m.prev_kvs@.len() > 0
    &&& r.prev_kv is Some ==> r.prev_kv->0@ == m.prev_kvs@[0]@
}

/// A delete's response says what the delete removed.
pub open spec fn is_delete_response(
    r: DeleteRangeResponse,
    header: ResponseHeader,
    m: MutationResult,
) -> bool {
    &&& r.header == header
    &&& r.deleted == m.n
    &&& crate::model::kv_views(r.prev_kvs@) == crate::model::record_views(m.prev_kvs@)
}

/// The response to a read.
pub fn range_result_to_response(
    header: ResponseHeader,
    result: RangeResult,
    count_only: bool,
) -> (r: RangeResponse)
    ensures
        is_range_response(r, header, result, count_only),
{
    let kvs: Vec<KeyValue> = if count_only {
        let none: Vec<KeyValue> = Vec::new();
        assert(crate::model::kv_views(none@) =~= seq![]);
        none
    } else {
        records_to_kvs(&result.kvs)
    };
    RangeResponse { header, kvs, more: result.more, count: result.count }
}

/// Code of the status that a store error is answered with: a compacted or
/// a future revision is out of range, anything else internal.
pub open spec fn mvcc_code(e: MvccError) -> Code {
    match e {
        MvccError::Compacted { .. } => Code::OutOfRange,
        MvccError::FutureRevision { .. } => Code::OutOfRange,
        MvccError::Storage(_) => Code::Internal,
        MvccError::Internal(_) => Code::Internal,
    }
}

/// The status of a store error whose rendering is `text`.
pub fn mvcc_error_to_status(e: &MvccError, text: &str) -> (r: Status)
    ensures
        r.says(mvcc_code(*e), text@),
{
    let code = match e {
        MvccError::Compacted { .. } => Code::OutOfRange,
        MvccError::FutureRevision { .. } => Code::OutOfRange,
        MvccError::Storage(_) => Code::Internal,
        MvccError::Internal(_) => Code::Internal,
    };
    Status::new(code, text)
}

/// What a slot of a transaction is refused with, if anything.
pub open spec fn op_fault(op: RequestOp) -> Option<(Code, Seq<char>)> {
    match op.request {
        None => Some((Code::InvalidArgument, "RequestOp.request missing"@)),
        Some(Request::RequestTxn(_)) => Some(
            (Code::Unimplemented, "nested Txn in Txn ops is not yet supported"@),
        ),
        _ => None,
    }
}

/// The first fault among slots, from the `i`-th on.
pub open spec fn ops_fault(ops: Seq<RequestOp>, i: int) -> Option<(Code, Seq<char>)>
    decreases ops.len() - i,
{
    if i < 0 || i >= ops.len() {
        None
    } else {
        match op_fault(ops[i]) {
            Some(f) => Some(f),
            None => ops_fault(ops, i + 1),
        }
    }
}

/// The first fault among guards, from the `i`-th on.
pub open spec fn compares_fault(cs: Seq<crate::model::CompareRequest>, i: int) -> Option<
    (Code, Seq<char>),
>
    decreases cs.len() - i,
{
    if i < 0 || i >= cs.len() {
        None
    } else if !conv::compare_ok(cs[i]) {
        Some((Code::InvalidArgument, conv::compare_fault(cs[i])))
    } else {
        compares_fault(cs, i + 1)
    }
}

/// What a malformed transaction is refused with: the first fault among
/// its guards, then its success slots, then its failure slots.
pub open spec fn txn_fault(t: TxnRequest) -> Option<(Code, Seq<char>)> {
    match compares_fault(t.compare@, 0) {
        Some(f) => Some(f),
        None => match ops_fault(t.success@, 0) {
            Some(f) => Some(f),
            None => ops_fault(t.failure@, 0),
        },
    }
}

/// The operations are those of the slots, in order.
pub open spec fn are_ops_of(ts: Seq<TxnOp>, ops: Seq<RequestOp>) -> bool {
    ts.len() == ops.len() && forall|i: int|
        0 <= i < ops.len() ==> conv::is_op_of(#[trigger] ts[i], ops[i])
}

/// The guards are those of the request, in order.
pub open spec fn are_compares_of(xs: Seq<Compare>, cs: Seq<crate::model::CompareRequest>) -> bool {
    xs.len() == cs.len() && forall|i: int|
        0 <= i < cs.len() ==> conv::is_compare_of(#[trigger] xs[i], cs[i])
}

fn convert_ops(ops: &Vec<RequestOp>) -> (r: Result<Vec<TxnOp>, Status>)
    ensures
        match ops_fault(ops@, 0) {
            Some((code, text)) => r is Err && r->Err_0.says(code, text),
            None => r is Ok && are_ops_of(r->Ok_0@, ops@),
        },
{
    let mut out: Vec<TxnOp> = Vec::new();
    let mut i: usize = 0;
    while i < ops.len()
        invariant
            i <= ops@.len(),
            out@.len() == i,
            forall|k: int| 0 <= k < i ==> conv::is_op_of(#[trigger] out@[k], ops@[k]),
            ops_fault(ops@, 0) == ops_fault(ops@, i as int),
        decreases ops@.len() - i,
    {
        match request_op_from_proto(&ops[i]) {
            Ok(t) => {
                out.push(t);
            },
            Err(e) => {
                return Err(e);
            },
        }
        i += 1;
    }
    Ok(out)
}

fn convert_compares(cs: &Vec<crate::model::CompareRequest>) -> (r: Result<Vec<Compare>, Status>)
    ensures
        match compares_fault(cs@, 0) {
            Some((code, text)) => r is Err && r->Err_0.says(code, text),
            None => r is Ok && are_compares_of(r->Ok_0@, cs@),
        },
{
    let mut out: Vec<Compare> = Vec::new();
    let mut i: usize = 0;
    while i < cs.len()
        invariant
            i <= cs@.len(),
            out@.len() == i,
            forall|k: int| 0 <= k < i ==> conv::is_compare_of(#[trigger] out@[k], cs@[k]),
            compares_fault(cs@, 0) == compares_fault(cs@, i as int),
        decreases cs@.len() - i,
    {
        match compare_from_proto(&cs[i]) {
            Ok(x) => {
                out.push(x);
            },
            Err(e) => {
                return Err(e);
            },
        }
        i += 1;
    }
    Ok(out)
}

/// The kind of a slot, as an error names it.
pub open spec fn slot_kind(op: RequestOp) -> Seq<char> {
    match op.request {
        None => "None"@,
        Some(Request::RequestRange(_)) => "RequestRange"@,
        Some(Request::RequestPut(_)) => "RequestPut"@,
        Some(Request::RequestDeleteRange(_)) => "RequestDeleteRange"@,
        Some(Request::RequestTxn(_)) => "RequestTxn"@,
    }
}

fn slot_kind_str(op: &RequestOp) -> (r: &'static str)
    ensures
        r@ == slot_kind(*op),
{
    match &op.request {
        None => "None",
        Some(Request::RequestRange(_)) => "RequestRange",
        Some(Request::RequestPut(_)) => "RequestPut",
        Some(Request::RequestDeleteRange(_)) => "RequestDeleteRange",
        Some(Request::RequestTxn(_)) => "RequestTxn",
    }
}

/// A slot and an outcome go together: a read with what it found, a put or
/// a delete with what it changed.
pub open spec fn result_fits(op: RequestOp, result: TxnOpResult) -> bool {
    match op.request {
        Some(Request::RequestRange(_)) => result is Range,
        Some(Request::RequestPut(_)) => result is Mutation,
        Some(Request::RequestDeleteRange(_)) => result is Mutation,
        _ => false,
    }
}

/// The response to a slot has the slot's kind, and says what the outcome
/// says.
pub open spec fn is_op_response(
    r: ResponseOp,
    header: ResponseHeader,
    op: RequestOp,
    result: TxnOpResult,
) -> bool {
    match (op.request, result) {
        (Some(Request::RequestRange(q)), TxnOpResult::Range(x)) => r matches
            ResponseOp::ResponseRange(y) && is_range_response(y, header, x, q.count_only),
        (Some(Request::RequestPut(_)), TxnOpResult::Mutation(m)) => r matches
            ResponseOp::ResponsePut(y) && is_put_response(y, header, m),
        (Some(Request::RequestDeleteRange(_)), TxnOpResult::Mutation(m)) => r matches
            ResponseOp::ResponseDeleteRange(y) && is_delete_response(y, header, m),
        _ => false,
    }
}

/// The first position, from `i` on, whose slot and outcome do not go
/// together; the number of slots if there is none.
pub open spec fn first_misfit(ops: Seq<RequestOp>, results: Seq<TxnOpResult>, i: int) -> int
    decreases ops.len() - i,
{
    if i < 0 || i >= ops.len() || !result_fits(ops[i], results[i]) {
        i
    } else {
        first_misfit(ops, results, i + 1)
    }
}

/// The slots of the branch that ran.
pub open spec fn branch(req: TxnRequest, txn: TxnResult) -> Seq<RequestOp> {
    if txn.succeeded {
        req.success@
    } else {
        req.failure@
    }
}

/// What a transaction that was carried out is answered with: one response
/// for each operation of the branch taken, or a refusal that says how the
/// outcome does not fit it.
pub open spec fn is_txn_response(
    r: Result<TxnResponse, Status>,
    header: ResponseHeader,
    req: TxnRequest,
    txn: TxnResult,
) -> bool {
    let ops = branch(req, txn);
    let results = txn.op_results@;
    if ops.len() != results.len() {
        r is Err && r->Err_0.says(
            Code::Internal,
            "txn: "@ + crate::text::dec(results.len()) + " op results for "@
                + crate::text::dec(ops.len()) + " request ops"@,
        )
    } else {
        let bad = first_misfit(ops, results, 0);
        if bad < ops.len() {
            r is Err && r->Err_0.says(
                Code::Internal,
                "txn: op result does not match request op "@ + slot_kind(ops[bad]),
            )
        } else {
            &&& r is Ok
            &&& r->Ok_0.header == header
            &&& r->Ok_0.succeeded == txn.succeeded
            &&& r->Ok_0.responses@.len() == ops.len()
            &&& forall|i: int|
                0 <= i < ops.len() ==> is_op_response(
                    #[trigger] r->Ok_0.responses@[i],
                    header,
                    ops[i],
                    results[i],
                )
        }
    }
}

/// The response to an applied transaction. Each slot's response takes its
/// kind from the request's slot at the same position of the branch that
/// ran: the outcome alone does not tell a put from a delete of one key.
pub fn txn_result_to_response(header: ResponseHeader, req: &TxnRequest, txn: TxnResult) -> (r:
    Result<TxnResponse, Status>)
    ensures
        is_txn_response(r, header, *req, txn),
{
    let ops: &Vec<RequestOp> = if txn.succeeded {
        &req.success
    } else {
        &req.failure
    };
    let succeeded = txn.succeeded;
    let results = txn.op_results;
    if ops.len() != results.len() {
        let mut text = join3("txn: ", dec_u64(results.len() as u64).as_str(), " op results for ");
        text.append(dec_u64(ops.len() as u64).as_str());
        text.append(" request ops");
        return Err(Status::from_string(Code::Internal, text));
    }
    let mut responses: Vec<ResponseOp> = Vec::new();
    let mut i: usize = 0;
    while i < ops.len()
        invariant
            i <= ops@.len(),
            ops@.len() == results@.len(),
            ops@ == branch(*req, txn),
            results@ == txn.op_results@,
            responses@.len() == i,
            forall|k: int|
                0 <= k < i ==> is_op_response(
                    #[trigger] responses@[k],
                    header,
                    ops@[k],
                    results@[k],
                ),
            first_misfit(ops@, results@, 0) == first_misfit(ops@, results@, i as int),
        decreases ops@.len() - i,
    {
        let response = match (&ops[i].request, &results[i]) {
            (Some(Request::RequestRange(q)), TxnOpResult::Range(x)) => {
                let kvs: Vec<KeyValue> = if q.count_only {
                    let none: Vec<KeyValue> = Vec::new();
                    assert(crate::model::kv_views(none@) =~= seq![]);
                    none
                } else {
                    records_to_kvs(&x.kvs)
                };
                ResponseOp::ResponseRange(
                    RangeResponse { header, kvs, more: x.more, count: x.count },
                )
            },
            (Some(Request::RequestPut(_)), TxnOpResult::Mutation(m)) => ResponseOp::ResponsePut(
                PutResponse { header, prev_kv: first_record_to_kv(&m.prev_kvs) },
            ),
            (Some(Request::RequestDeleteRange(_)), TxnOpResult::Mutation(m)) => {
                ResponseOp::ResponseDeleteRange(
                    DeleteRangeResponse {
                        header,
                        deleted: m.n,
                        prev_kvs: records_to_kvs(&m.prev_kvs),
                    },
                )
            },
            _ => {
                return Err(
                    Status::from_string(
                        Code::Internal,
                        String::from_str("txn: op result does not match request op ").concat(
                            slot_kind_str(&ops[i]),
                        ),
                    ),
                );
            },
        };
        responses.push(response);
        i += 1;
    }
    Ok(TxnResponse { header, succeeded, responses })
}

/// Where a read is served.
#[derive(Debug)]
pub enum RangePlan {
    /// From local state as it is: the client accepts stale data.
    Local(ForwardedRead),
    /// After a read barrier, by the leader if this node is not it.
    Linearizable(ForwardedRead),
}

/// The answer to an outcome of the wrong kind.
pub open spec fn unexpected(resp: FastetcdLogResponse) -> Seq<char> {
    "unexpected response: "@ + resp.shown()
}

/// The answer to an outcome of the wrong kind.
pub fn unexpected_status(resp: &FastetcdLogResponse) -> (r: Status)
    ensures
        r.says(Code::Internal, unexpected(*resp)),
{
    Status::from_string(
        Code::Internal,
        String::from_str("unexpected response: ").concat(resp.show().as_str()),
    )
}

/// The key-value service.
#[derive(Debug)]
pub struct KvService {
    pub state: ServerState,
}

impl KvService {
    /// A service over the given state.
    pub fn new(state: ServerState) -> (r: KvService)
        ensures
            r.state == state,
    {
        KvService { state }
    }

    /// Authorize a read and decide where it is served.
    pub fn range(&self, who: &Caller, req: &RangeRequest) -> (r: Result<RangePlan, Status>)
        ensures
            match authz::verdict(
                self.state.auth.enabled(),
                (match who.user {
                    Some(u) => Some(*u),
                    None => None,
                }),
                *who.record,
                who.roles@,
                (AccessView {
                    perm: RequiredPerm::Read,
                    key: req.key@,
                    range_end: req.range_end@,
                }),
            ) {
                authz::Verdict::Refused(code, text) => r is Err && r->Err_0.says(code, text),
                authz::Verdict::Allowed => r is Ok && match r->Ok_0 {
                    RangePlan::Local(f) => req.serializable && is_read_of(f, *req),
                    RangePlan::Linearizable(f) => !req.serializable && is_read_of(f, *req),
                },
            },
    {
        match authorize(
            &self.state.auth,
            who.user,
            who.record,
            who.roles,
            RequiredPerm::Read,
            req.key.as_slice(),
            req.range_end.as_slice(),
        ) {
            Err(e) => Err(e),
            Ok(()) => Ok(serve_range(req)),
        }
    }

    /// The response to a read that found `result` while the store stood
    /// at `revision`.
    pub fn range_reply(&self, req: &RangeRequest, result: RangeResult, revision: i64) -> (r:
        RangeResponse)
        ensures
            is_range_response(
                r,
                state::header_of(self.state, revision),
                result,
                req.count_only,
            ),
    {
        range_result_to_response(response_header(&self.state, revision), result, req.count_only)
    }

    /// Authorize a put, check that there is room, and propose it.
    pub fn put(&self, who: &Caller, req: &PutRequest) -> (r: Result<FastetcdLogEntry, Status>)
        ensures
            match caller_verdict(self.state.auth.enabled(), *who, put_reach(*req)) {
                authz::Verdict::Refused(code, text) => r is Err && r->Err_0.says(code, text),
                authz::Verdict::Allowed => if self.state.space@.nospace() {
                    r is Err && r->Err_0.says(
                        Code::ResourceExhausted,
                        crate::space::no_space_text(),
                    )
                } else {
                    r is Ok && (r->Ok_0 matches FastetcdLogEntry::Apply { mutations }
                        && mutations@.len() == 1 && conv::is_put_of(mutations@[0], *req))
                },
            },
    {
        let mut accesses: Vec<Access> = Vec::new();
        assert(authz::access_views(accesses@) + put_reach(*req) =~= put_reach(*req));
        put_accesses(req, &mut accesses);
        match authorize_all(&self.state.auth, who.user, who.record, who.roles, &accesses) {
            Err(e) => {
                return Err(e);
            },
            Ok(()) => {},
        }
        match self.state.space.check_write() {
            Err(e) => {
                return Err(e);
            },
            Ok(()) => {},
        }
        let mut mutations: Vec<Mutation> = Vec::new();
        mutations.push(put_request_to_mutation(req));
        Ok(FastetcdLogEntry::Apply { mutations })
    }

    /// The response to an applied put.
    pub fn put_reply(&self, resp: FastetcdLogResponse) -> (r: Result<PutResponse, Status>)
        ensures
            match resp {
                FastetcdLogResponse::Apply { revision, results } => if results@.len() == 0 {
                    r is Err && r->Err_0.says(Code::Internal, "Apply returned no results"@)
                } else {
                    r is Ok && is_put_response(
                        r->Ok_0,
                        state::header_of(self.state, revision),
                        results@.last(),
                    )
                },
                _ => r is Err && r->Err_0.says(Code::Internal, unexpected(resp)),
            },
    {
        match &resp {
            FastetcdLogResponse::Apply { revision, results } => {
                if results.len() == 0 {
                    return Err(Status::new(Code::Internal, "Apply returned no results"));
                }
                let m = &results[results.len() - 1];
                Ok(
                    PutResponse {
                        header: response_header(&self.state, *revision),
                        prev_kv: first_record_to_kv(&m.prev_kvs),
                    },
                )
            },
            _ => Err(unexpected_status(&resp)),
        }
    }

    /// Authorize a delete and propose it. Deletes are not gated on space.
    pub fn delete_range(&self, who: &Caller, req: &DeleteRangeRequest) -> (r: Result<
        FastetcdLogEntry,
        Status,
    >)
        ensures
            match caller_verdict(self.state.auth.enabled(), *who, delete_reach(*req)) {
                authz::Verdict::Refused(code, text) => r is Err && r->Err_0.says(code, text),
                authz::Verdict::Allowed => r is Ok && (r->Ok_0 matches FastetcdLogEntry::Apply {
                    mutations,
                } && mutations@.len() == 1 && conv::is_delete_of(mutations@[0], *req)),
            },
    {
        let mut accesses: Vec<Access> = Vec::new();
        assert(authz::access_views(accesses@) + delete_reach(*req) =~= delete_reach(*req));
        delete_accesses(req, &mut accesses);
        match authorize_all(&self.state.auth, who.user, who.record, who.roles, &accesses) {
            Err(e) => {
                return Err(e);
            },
            Ok(()) => {},
        }
        let mut mutations: Vec<Mutation> = Vec::new();
        mutations.push(delete_request_to_mutation(req));
        Ok(FastetcdLogEntry::Apply { mutations })
    }

    /// The response to an applied delete.
    pub fn delete_range_reply(&self, resp: FastetcdLogResponse) -> (r: Result<
        DeleteRangeResponse,
        Status,
    >)
        ensures
            match resp {
                FastetcdLogResponse::Apply { revision, results } => if results@.len() == 0 {
                    r is Err && r->Err_0.says(Code::Internal, "Apply returned no results"@)
                } else {
                    r is Ok && is_delete_response(
                        r->Ok_0,
                        state::header_of(self.state, revision),
                        results@.last(),
                    )
                },
                _ => r is Err && r->Err_0.says(Code::Internal, unexpected(resp)),
            },
    {
        match &resp {
            FastetcdLogResponse::Apply { revision, results } => {
                if results.len() == 0 {
                    return Err(Status::new(Code::Internal, "Apply returned no results"));
                }
                let m = &results[results.len() - 1];
                Ok(
                    DeleteRangeResponse {
                        header: response_header(&self.state, *revision),
                        deleted: m.n,
                        prev_kvs: records_to_kvs(&m.prev_kvs),
                    },
                )
            },
            _ => Err(unexpected_status(&resp)),
        }
    }

    /// Authorize a transaction, check that there is room if it may store
    /// something, and propose it. One access refused refuses the whole.
    pub fn txn(&self, who: &Caller, req: &TxnRequest) -> (r: Result<FastetcdLogEntry, Status>)
        ensures
            match caller_verdict(self.state.auth.enabled(), *who, txn_reach(*req)) {
                authz::Verdict::Refused(code, text) => r is Err && r->Err_0.says(code, text),
                authz::Verdict::Allowed => if txn_stores(*req) && self.state.space@.nospace() {
                    r is Err && r->Err_0.says(
                        Code::ResourceExhausted,
                        crate::space::no_space_text(),
                    )
                } else {
                    match txn_fault(*req) {
                        Some((code, text)) => r is Err && r->Err_0.says(code, text),
                        None => r is Ok && (r->Ok_0 matches FastetcdLogEntry::Txn {
                            compares,
                            success,
                            failure,
                        } && are_compares_of(compares@, req.compare@) && are_ops_of(
                            success@,
                            req.success@,
                        ) && are_ops_of(failure@, req.failure@)),
                    }
                },
            },
    {
        let mut accesses: Vec<Access> = Vec::new();
        assert(authz::access_views(accesses@) + txn_reach(*req) =~= txn_reach(*req));
        txn_accesses(req, &mut accesses);
        match authorize_all(&self.state.auth, who.user, who.record, who.roles, &accesses) {
            Err(e) => {
                return Err(e);
            },
            Ok(()) => {},
        }
        if txn_consumes_space(req) {
            match self.state.space.check_write() {
                Err(e) => {
                    return Err(e);
                },
                Ok(()) => {},
            }
        }
        let compares = match convert_compares(&req.compare) {
            Err(e) => {
                return Err(e);
            },
            Ok(v) => v,
        };
        let success = match convert_ops(&req.success) {
            Err(e) => {
                return Err(e);
            },
            Ok(v) => v,
        };
        let failure = match convert_ops(&req.failure) {
            Err(e) => {
                return Err(e);
            },
            Ok(v) => v,
        };
        Ok(FastetcdLogEntry::Txn { compares, success, failure })
    }

    /// The response to an applied transaction.
    pub fn txn_reply(&self, req: &TxnRequest, resp: FastetcdLogResponse) -> (r: Result<
        TxnResponse,
        Status,
    >)
        ensures
            match resp {
                FastetcdLogResponse::Txn(txn) => is_txn_response(
                    r,
                    state::header_of(self.state, txn.revision),
                    *req,
                    txn,
                ),
                _ => r is Err && r->Err_0.says(Code::Internal, unexpected(resp)),
            },
    {
        match resp {
            FastetcdLogResponse::Txn(txn) => {
                let header = response_header(&self.state, txn.revision);
                txn_result_to_response(header, req, txn)
            },
            other => Err(unexpected_status(&other)),
        }
    }

    /// Propose a compaction. Compaction is not gated on space.
    pub fn compact(revision: i64) -> (r: FastetcdLogEntry)
        ensures
            r == (FastetcdLogEntry::Compact { rev: revision }),
    {
        FastetcdLogEntry::Compact { rev: revision }
    }

    /// The response to an applied compaction.
    pub fn compact_reply(&self, resp: FastetcdLogResponse) -> (r: Result<
        CompactionResponse,
        Status,
    >)
        ensures
            match resp {
                FastetcdLogResponse::Compact { compact_rev } => r is Ok && r->Ok_0.header
                    == state::header_of(self.state, compact_rev),
                _ => r is Err && r->Err_0.says(Code::Internal, unexpected(resp)),
            },
    {
        match &resp {
            FastetcdLogResponse::Compact { compact_rev } => Ok(
                CompactionResponse { header: response_header(&self.state, *compact_rev) },
            ),
            _ => Err(unexpected_status(&resp)),
        }
    }
}

/// What is read of the store for a request: its key or range at its
/// revision, of either everything or the keys or their number alone. A
/// limit that is not positive is none.
pub open spec fn is_read_of(f: ForwardedRead, req: RangeRequest) -> bool {
    &&& f.key@ == req.key@
    &&& f.range_end@ == req.range_end@
    &&& f.limit == (if req.limit > 0 {
        req.limit as u64
    } else {
        0
    })
    &&& f.revision == req.revision
    &&& f.keys_only == req.keys_only
    &&& f.count_only == req.count_only
}

/// What is read of the store for a request.
pub fn read_of(req: &RangeRequest) -> (f: ForwardedRead)
    ensures
        is_read_of(f, *req),
{
    ForwardedRead {
        key: copy_bytes(req.key.as_slice()),
        range_end: copy_bytes(req.range_end.as_slice()),
        limit: if req.limit > 0 {
            req.limit as u64
        } else {
            0
        },
        revision: req.revision,
        keys_only: req.keys_only,
        count_only: req.count_only,
    }
}

/// Where an authorized read is served: locally if the client accepts
/// stale data, and otherwise after a read barrier.
pub fn serve_range(req: &RangeRequest) -> (r: RangePlan)
    ensures
        match r {
            RangePlan::Local(f) => req.serializable && is_read_of(f, *req),
            RangePlan::Linearizable(f) => !req.serializable && is_read_of(f, *req),
        },
{
    let read = read_of(req);
    if req.serializable {
        RangePlan::Local(read)
    } else {
        RangePlan::Linearizable(read)
    }
}

/// A transaction that only reads and deletes is served under the NOSPACE
/// alarm as it would be without it.
pub proof fn law_emptying_txn_stores_nothing(t: TxnRequest)
    requires
        forall|i: int|
            0 <= i < t.success@.len() ==> !(#[trigger] t.success@[i].request matches Some(
                Request::RequestPut(_),
            )) && !(t.success@[i].request matches Some(Request::RequestTxn(_))),
        forall|i: int|
            0 <= i < t.failure@.len() ==> !(#[trigger] t.failure@[i].request matches Some(
                Request::RequestPut(_),
            )) && !(t.failure@[i].request matches Some(Request::RequestTxn(_))),
    ensures
        !txn_stores(t),
{
    lemma_ops_store_nothing(t.success@);
    lemma_ops_store_nothing(t.failure@);
}

proof fn lemma_ops_store_nothing(ops: Seq<RequestOp>)
    requires
        forall|i: int|
            0 <= i < ops.len() ==> !(#[trigger] ops[i].request matches Some(Request::RequestPut(_)))
                && !(ops[i].request matches Some(Request::RequestTxn(_))),
    ensures
        !ops_store(ops),
    decreases ops.len(),
{
    if ops.len() > 0 {
        assert forall|i: int| 0 <= i < ops.drop_last().len() implies !(
        #[trigger] ops.drop_last()[i].request matches Some(Request::RequestPut(_))) && !(
        ops.drop_last()[i].request matches Some(Request::RequestTxn(_))) by {
            assert(ops.drop_last()[i] == ops[i]);
        }
        lemma_ops_store_nothing(ops.drop_last());
        let last = ops.last();
        assert(last == ops[ops.len() - 1]);
        assert(!op_stores(last));
    }
}

/// A put anywhere among the slots of either branch makes a transaction
/// one that stores something.
pub proof fn law_put_in_either_branch_stores(t: TxnRequest, i: int)
    requires
        (0 <= i < t.success@.len() && t.success@[i].request matches Some(Request::RequestPut(_)))
            || (0 <= i < t.failure@.len() && t.failure@[i].request matches Some(
            Request::RequestPut(_),
        )),
    ensures
        txn_stores(t),
{
    if 0 <= i < t.success@.len() && t.success@[i].request matches Some(Request::RequestPut(_)) {
        lemma_ops_store_at(t.success@, i);
    } else {
        lemma_ops_store_at(t.failure@, i);
    }
}

proof fn lemma_ops_store_at(ops: Seq<RequestOp>, i: int)
    requires
        0 <= i < ops.len(),
        op_stores(ops[i]),
    ensures
        ops_store(ops),
    decreases ops.len(),
{
    if i < ops.len() - 1 {
        assert(ops.drop_last()[i] == ops[i]);
        lemma_ops_store_at(ops.drop_last(), i);
    }
}

/// A read handed to the store looks at exactly the keys that the client
/// named, at the revision it named, and gives back what it asked for: a
/// positive limit is kept, any other is none.
pub proof fn law_forwarded_read_looks_where_the_client_says(f: ForwardedRead, req: RangeRequest)
    requires
        is_read_of(f, req),
    ensures
        forall|k: Seq<u8>|
            #![trigger crate::keyrange::in_range(f.key@, f.range_end@, k)]
            crate::keyrange::in_range(f.key@, f.range_end@, k) <==> crate::keyrange::in_range(
                req.key@,
                req.range_end@,
                k,
            ),
        f.limit == 0 <==> req.limit <= 0,
        req.limit > 0 ==> f.limit == req.limit,
        f.revision == req.revision,
        f.keys_only == req.keys_only,
        f.count_only == req.count_only,
{
}

/// A put needs leave to write its key and no other, and leave to read that
/// key exactly when it asks for what it replaces.
pub proof fn law_put_reaches_its_key_alone(p: PutRequest, a: AccessView)
    ensures
        put_reach(p).contains(a) <==> {
            &&& a.key == p.key@
            &&& a.range_end.len() == 0
            &&& a.perm is Write || p.prev_kv
        },
{
    let write = AccessView { perm: RequiredPerm::Write, key: p.key@, range_end: seq![] };
    let read = AccessView { perm: RequiredPerm::Read, key: p.key@, range_end: seq![] };
    if a.range_end.len() == 0 {
        assert(a.range_end =~= seq![]);
    }
    assert(put_reach(p)[0] == write);
    if p.prev_kv {
        assert(put_reach(p)[1] == read);
    }
}

/// A delete needs leave to write its range and no other, and leave to read
/// that range exactly when it asks for the deleted pairs.
pub proof fn law_delete_reaches_its_range_alone(d: DeleteRangeRequest, a: AccessView)
    ensures
        delete_reach(d).contains(a) <==> {
            &&& a.key == d.key@
            &&& a.range_end == d.range_end@
            &&& a.perm is Write || d.prev_kv
        },
{
    let write = AccessView {
        perm: RequiredPerm::Write,
        key: d.key@,
        range_end: d.range_end@,
    };
    let read = AccessView { perm: RequiredPerm::Read, key: d.key@, range_end: d.range_end@ };
    assert(delete_reach(d)[0] == write);
    if d.prev_kv {
        assert(delete_reach(d)[1] == read);
    }
}

/// A guard needs leave to read the range it looks at, and a read in a slot
/// leave to read the range it names; an empty slot needs none.
pub proof fn law_guards_and_reads_reach_what_they_name(
    c: crate::model::CompareRequest,
    op: RequestOp,
    a: AccessView,
)
    ensures
        compare_reach(c).perm is Read,
        compare_reach(c).key == c.key@,
        compare_reach(c).range_end == c.range_end@,
        op.request matches Some(Request::RequestRange(r)) ==> (op_reach(op).contains(a) <==> (
        a.perm is Read && a.key == r.key@ && a.range_end == r.range_end@)),
        op.request matches Some(Request::RequestPut(p)) ==> op_reach(op) == put_reach(p),
        op.request matches Some(Request::RequestDeleteRange(d)) ==> op_reach(op) == delete_reach(d),
        op.request matches Some(Request::RequestTxn(t)) ==> op_reach(op) == txn_reach(t),
        op.request is None ==> op_reach(op).len() == 0,
{
    if let Some(Request::RequestRange(r)) = op.request {
        let read = AccessView { perm: RequiredPerm::Read, key: r.key@, range_end: r.range_end@ };
        assert(op_reach(op)[0] == read);
        assert(op_reach(op).len() == 1);
    }
}

/// An access of a list of slots is an access of one of them.
pub proof fn lemma_ops_reach_from(ops: Seq<RequestOp>, a: AccessView)
    requires
        ops_reach(ops).contains(a),
    ensures
        exists|i: int| 0 <= i < ops.len() && op_reach(#[trigger] ops[i]).contains(a),
    decreases ops.len(),
{
    if ops.len() > 0 {
        let head = ops_reach(ops.drop_last());
        let tail = op_reach(ops.last());
        let j = choose|j: int| 0 <= j < (head + tail).len() && (head + tail)[j] == a;
        if j < head.len() {
            assert(head[j] == a);
            lemma_ops_reach_from(ops.drop_last(), a);
            let i = choose|i: int|
                0 <= i < ops.drop_last().len() && op_reach(#[trigger] ops.drop_last()[i]).contains(
                    a,
                );
            assert(ops[i] == ops.drop_last()[i]);
        } else {
            assert(tail[j - head.len()] == a);
            assert(op_reach(ops[ops.len() - 1]).contains(a));
        }
    }
}

/// Authorizing a transaction asks for no more than it can do: each access
/// that is checked is that of a guard, or of a slot of one of its branches.
pub proof fn law_txn_reach_is_no_wider_than_its_parts(t: TxnRequest, a: AccessView)
    requires
        txn_reach(t).contains(a),
    ensures
        (exists|i: int|
            0 <= i < t.success@.len() && op_reach(#[trigger] t.success@[i]).contains(a)) || (
        exists|i: int|
            0 <= i < t.failure@.len() && op_reach(#[trigger] t.failure@[i]).contains(a)) || (
        exists|i: int| 0 <= i < t.compare@.len() && compare_reach(#[trigger] t.compare@[i]) == a),
{
    let gs = t.compare@.map_values(|c: crate::model::CompareRequest| compare_reach(c));
    let s = ops_reach(t.success@);
    let f = ops_reach(t.failure@);
    let j = choose|j: int| 0 <= j < txn_reach(t).len() && txn_reach(t)[j] == a;
    if j < gs.len() {
        assert(gs[j] == compare_reach(t.compare@[j]));
    } else if j < gs.len() + s.len() {
        assert(s[j - gs.len()] == a);
        lemma_ops_reach_from(t.success@, a);
    } else {
        assert(f[j - gs.len() - s.len()] == a);
        lemma_ops_reach_from(t.failure@, a);
    }
}

/// A caller is allowed a list of accesses exactly when authorization
/// allows that caller each one of them.
pub proof fn law_caller_needs_every_access(enabled: bool, who: Caller, accesses: Seq<AccessView>)
    ensures
        caller_verdict(enabled, who, accesses) is Allowed <==> (forall|i: int|
            0 <= i < accesses.len() ==> authz::verdict(
                enabled,
                (match who.user {
                    Some(u) => Some(*u),
                    None => None,
                }),
                *who.record,
                who.roles@,
                #[trigger] accesses[i],
            ) is Allowed),
{
    authz::law_all_accesses_must_be_allowed(
        enabled,
        (match who.user {
            Some(u) => Some(*u),
            None => None,
        }),
        *who.record,
        who.roles@,
        accesses,
    );
}

/// The response to a read has one pair for each record found, in the order
/// found, and none where only their number was asked for; the number, and
/// whether there are more, are those found in either case.
pub proof fn law_read_is_answered_with_what_was_found(
    r: RangeResponse,
    header: ResponseHeader,
    result: RangeResult,
    count_only: bool,
)
    requires
        is_range_response(r, header, result, count_only),
    ensures
        r.header == header,
        r.count == result.count,
        r.more == result.more,
        count_only ==> r.kvs@.len() == 0,
        !count_only ==> r.kvs@.len() == result.kvs@.len() && forall|i: int|
            0 <= i < result.kvs@.len() ==> {
                &&& (#[trigger] r.kvs@[i]).key@ == result.kvs@[i].key@
                &&& r.kvs@[i].value@ == result.kvs@[i].value@
                &&& r.kvs@[i].create_revision == result.kvs@[i].create_revision
                &&& r.kvs@[i].mod_revision == result.kvs@[i].mod_revision
                &&& r.kvs@[i].version == result.kvs@[i].version
                &&& r.kvs@[i].lease == result.kvs@[i].lease
            },
{
    crate::model::law_sent_pairs_stand_in_order(result.kvs@, r.kvs@);
    if !count_only {
        assert forall|i: int| 0 <= i < result.kvs@.len() implies r.kvs@[i]@ == result.kvs@[i]@ by {
            assert(r.kvs@[i]@ == result.kvs@[i]@);
        }
    } else {
        assert(crate::model::kv_views(r.kvs@).len() == 0);
    }
}

/// The response to a put hands back the pair that was replaced, with each
/// of its attributes, where the store gave one, and nothing where it gave
/// none.
pub proof fn law_put_is_answered_with_what_it_replaced(
    r: PutResponse,
    header: ResponseHeader,
    m: MutationResult,
)
    requires
        is_put_response(r, header, m),
    ensures
        r.header == header,
        m.prev_kvs@.len() == 0 ==> r.prev_kv is None,
        m.prev_kvs@.len() > 0 ==> (r.prev_kv matches Some(kv) && {
            &&& kv.key@ == m.prev_kvs@[0].key@
            &&& kv.value@ == m.prev_kvs@[0].value@
            &&& kv.create_revision == m.prev_kvs@[0].create_revision
            &&& kv.mod_revision == m.prev_kvs@[0].mod_revision
            &&& kv.version == m.prev_kvs@[0].version
            &&& kv.lease == m.prev_kvs@[0].lease
        }),
{
}

/// The response to a delete counts what the store removed, and hands back
/// each pair that the store gave, in order.
pub proof fn law_delete_is_answered_with_what_it_removed(
    r: DeleteRangeResponse,
    header: ResponseHeader,
    m: MutationResult,
)
    requires
        is_delete_response(r, header, m),
    ensures
        r.header == header,
        r.deleted == m.n,
        r.prev_kvs@.len() == m.prev_kvs@.len(),
        forall|i: int|
            0 <= i < m.prev_kvs@.len() ==> {
                &&& (#[trigger] r.prev_kvs@[i]).key@ == m.prev_kvs@[i].key@
                &&& r.prev_kvs@[i].value@ == m.prev_kvs@[i].value@
                &&& r.prev_kvs@[i].create_revision == m.prev_kvs@[i].create_revision
                &&& r.prev_kvs@[i].mod_revision == m.prev_kvs@[i].mod_revision
                &&& r.prev_kvs@[i].version == m.prev_kvs@[i].version
                &&& r.prev_kvs@[i].lease == m.prev_kvs@[i].lease
            },
{
    crate::model::law_sent_pairs_stand_in_order(m.prev_kvs@, r.prev_kvs@);
    assert forall|i: int| 0 <= i < m.prev_kvs@.len() implies r.prev_kvs@[i]@
        == m.prev_kvs@[i]@ by {
        assert(r.prev_kvs@[i]@ == m.prev_kvs@[i]@);
    }
}

/// A revision that is gone or not yet there is out of range; any other
/// failure of the store is internal.
pub proof fn law_only_revisions_are_out_of_range(e: MvccError)
    ensures
        mvcc_code(e) == Code::OutOfRange <==> e is Compacted || e is FutureRevision,
        mvcc_code(e) == Code::Internal <==> e is Storage || e is Internal,
{
}

/// No fault among slots means that each holds a read, a put or a delete;
/// the fault is otherwise that of the first that does not.
pub proof fn lemma_ops_fault_is_first(ops: Seq<RequestOp>, i: int)
    requires
        0 <= i <= ops.len(),
    ensures
        ops_fault(ops, i) is None <==> (forall|j: int|
            i <= j < ops.len() ==> conv::op_ok(#[trigger] ops[j])),
        forall|j: int|
            i <= j < ops.len() && !conv::op_ok(#[trigger] ops[j]) && (forall|k: int|
                i <= k < j ==> conv::op_ok(#[trigger] ops[k])) ==> ops_fault(ops, i) == op_fault(
                ops[j],
            ),
    decreases ops.len() - i,
{
    if i < ops.len() {
        lemma_ops_fault_is_first(ops, i + 1);
        assert(conv::op_ok(ops[i]) <==> op_fault(ops[i]) is None);
        assert forall|j: int|
            i <= j < ops.len() && !conv::op_ok(#[trigger] ops[j]) && (forall|k: int|
                i <= k < j ==> conv::op_ok(#[trigger] ops[k])) implies ops_fault(ops, i)
            == op_fault(ops[j]) by {
            if j > i {
                assert(conv::op_ok(ops[i]));
            }
        }
        if ops_fault(ops, i) is None {
            assert forall|j: int| i <= j < ops.len() implies conv::op_ok(#[trigger] ops[j]) by {
                if j > i {
                    assert(conv::op_ok(ops[j]));
                }
            }
        }
    }
}

/// No fault among guards means that each is accepted; the fault is
/// otherwise that of the first that is not.
pub proof fn lemma_compares_fault_is_first(cs: Seq<crate::model::CompareRequest>, i: int)
    requires
        0 <= i <= cs.len(),
    ensures
        compares_fault(cs, i) is None <==> (forall|j: int|
            i <= j < cs.len() ==> conv::compare_ok(#[trigger] cs[j])),
        forall|j: int|
            i <= j < cs.len() && !conv::compare_ok(#[trigger] cs[j]) && (forall|k: int|
                i <= k < j ==> conv::compare_ok(#[trigger] cs[k])) ==> compares_fault(cs, i)
                == Some((Code::InvalidArgument, conv::compare_fault(cs[j]))),
    decreases cs.len() - i,
{
    if i < cs.len() {
        lemma_compares_fault_is_first(cs, i + 1);
        assert forall|j: int|
            i <= j < cs.len() && !conv::compare_ok(#[trigger] cs[j]) && (forall|k: int|
                i <= k < j ==> conv::compare_ok(#[trigger] cs[k])) implies compares_fault(cs, i)
            == Some((Code::InvalidArgument, conv::compare_fault(cs[j]))) by {
            if j > i {
                assert(conv::compare_ok(cs[i]));
            }
        }
        if compares_fault(cs, i) is None {
            assert forall|j: int| i <= j < cs.len() implies conv::compare_ok(
                #[trigger] cs[j],
            ) by {
                if j > i {
                    assert(conv::compare_ok(cs[j]));
                }
            }
        }
    }
}

/// A transaction is well formed exactly when each of its guards is
/// accepted and each slot of both branches can be run.
pub proof fn law_txn_is_well_formed_iff_its_parts_are(t: TxnRequest)
    ensures
        txn_fault(t) is None <==> {
            &&& forall|i: int|
                0 <= i < t.compare@.len() ==> conv::compare_ok(#[trigger] t.compare@[i])
            &&& forall|i: int| 0 <= i < t.success@.len() ==> conv::op_ok(#[trigger] t.success@[i])
            &&& forall|i: int| 0 <= i < t.failure@.len() ==> conv::op_ok(#[trigger] t.failure@[i])
        },
{
    lemma_compares_fault_is_first(t.compare@, 0);
    lemma_ops_fault_is_first(t.success@, 0);
    lemma_ops_fault_is_first(t.failure@, 0);
}

/// A transaction with a malformed guard is refused with the fault of its
/// first, whatever its slots hold.
pub proof fn law_first_malformed_guard_refuses(t: TxnRequest, i: int)
    requires
        0 <= i < t.compare@.len(),
        !conv::compare_ok(t.compare@[i]),
        forall|j: int| 0 <= j < i ==> conv::compare_ok(#[trigger] t.compare@[j]),
    ensures
        txn_fault(t) == Some((Code::InvalidArgument, conv::compare_fault(t.compare@[i]))),
{
    lemma_compares_fault_is_first(t.compare@, 0);
}

/// A transaction whose guards are accepted is refused for its first slot
/// that cannot be run, those of the success branch first: one that is
/// empty is malformed, one that holds a transaction is not supported.
pub proof fn law_first_slot_that_cannot_run_refuses(
    t: TxnRequest,
    ops: Seq<RequestOp>,
    in_success: bool,
    i: int,
)
    requires
        forall|j: int| 0 <= j < t.compare@.len() ==> conv::compare_ok(#[trigger] t.compare@[j]),
        in_success ==> ops == t.success@,
        !in_success ==> ops == t.failure@,
        !in_success ==> forall|j: int|
            0 <= j < t.success@.len() ==> conv::op_ok(#[trigger] t.success@[j]),
        0 <= i < ops.len(),
        !conv::op_ok(ops[i]),
        forall|j: int| 0 <= j < i ==> conv::op_ok(#[trigger] ops[j]),
    ensures
        ops[i].request is None ==> txn_fault(t) == Some(
            (Code::InvalidArgument, "RequestOp.request missing"@),
        ),
        ops[i].request is Some ==> txn_fault(t) == Some(
            (Code::Unimplemented, "nested Txn in Txn ops is not yet supported"@),
        ),
{
    lemma_compares_fault_is_first(t.compare@, 0);
    lemma_ops_fault_is_first(t.success@, 0);
    lemma_ops_fault_is_first(t.failure@, 0);
}

/// What is proposed for a transaction has one guard for each of the
/// request's, and one operation for each slot of each branch, in order.
pub proof fn law_txn_is_proposed_part_by_part(
    xs: Seq<Compare>,
    cs: Seq<crate::model::CompareRequest>,
    ts: Seq<TxnOp>,
    ops: Seq<RequestOp>,
)
    ensures
        are_compares_of(xs, cs) <==> {
            &&& xs.len() == cs.len()
            &&& forall|i: int| 0 <= i < cs.len() ==> conv::is_compare_of(#[trigger] xs[i], cs[i])
        },
        are_ops_of(ts, ops) <==> {
            &&& ts.len() == ops.len()
            &&& forall|i: int| 0 <= i < ops.len() ==> conv::is_op_of(#[trigger] ts[i], ops[i])
        },
{
}

/// Where slots and outcomes first do not go together.
pub proof fn lemma_first_misfit(ops: Seq<RequestOp>, results: Seq<TxnOpResult>, i: int)
    requires
        0 <= i <= ops.len(),
    ensures
        i <= first_misfit(ops, results, i) <= ops.len(),
        forall|j: int|
            i <= j < first_misfit(ops, results, i) ==> result_fits(
                #[trigger] ops[j],
                results[j],
            ),
        first_misfit(ops, results, i) < ops.len() ==> !result_fits(
            ops[first_misfit(ops, results, i)],
            results[first_misfit(ops, results, i)],
        ),
    decreases ops.len() - i,
{
    if i < ops.len() && result_fits(ops[i], results[i]) {
        lemma_first_misfit(ops, results, i + 1);
    }
}

/// A transaction that was carried out is answered with success exactly
/// when each slot of the branch that ran has an outcome of its own kind: a
/// read what it found, a put or a delete what it changed.
pub proof fn law_txn_is_answered_iff_outcomes_fit(
    r: Result<TxnResponse, Status>,
    header: ResponseHeader,
    req: TxnRequest,
    txn: TxnResult,
    ops: Seq<RequestOp>,
)
    requires
        is_txn_response(r, header, req, txn),
        txn.succeeded ==> ops == req.success@,
        !txn.succeeded ==> ops == req.failure@,
    ensures
        r is Ok <==> {
            &&& ops.len() == txn.op_results@.len()
            &&& forall|i: int|
                0 <= i < ops.len() ==> (match (#[trigger] ops[i]).request {
                    Some(Request::RequestRange(_)) => txn.op_results@[i] is Range,
                    Some(Request::RequestPut(_)) => txn.op_results@[i] is Mutation,
                    Some(Request::RequestDeleteRange(_)) => txn.op_results@[i] is Mutation,
                    _ => false,
                })
        },
        r is Err ==> r->Err_0.code == Code::Internal,
{
    let results = txn.op_results@;
    if ops.len() == results.len() {
        lemma_first_misfit(ops, results, 0);
        let bad = first_misfit(ops, results, 0);
        if bad < ops.len() {
            assert(!result_fits(ops[bad], results[bad]));
        } else {
            assert forall|i: int| 0 <= i < ops.len() implies (match (#[trigger] ops[i]).request {
                Some(Request::RequestRange(_)) => txn.op_results@[i] is Range,
                Some(Request::RequestPut(_)) => txn.op_results@[i] is Mutation,
                Some(Request::RequestDeleteRange(_)) => txn.op_results@[i] is Mutation,
                _ => false,
            }) by {
                assert(result_fits(ops[i], results[i]));
            }
        }
    }
}

/// A transaction's response says which branch ran, and has for each slot
/// of that branch, in order, the response of that slot's own request.
pub proof fn law_txn_is_answered_slot_by_slot(
    r: Result<TxnResponse, Status>,
    header: ResponseHeader,
    req: TxnRequest,
    txn: TxnResult,
    i: int,
)
    requires
        is_txn_response(r, header, req, txn),
        r is Ok,
        0 <= i < txn.op_results@.len(),
    ensures
        r->Ok_0.header == header,
        r->Ok_0.succeeded == txn.succeeded,
        r->Ok_0.responses@.len() == txn.op_results@.len(),
        ({
            let op = if txn.succeeded {
                req.success@[i]
            } else {
                req.failure@[i]
            };
            match op.request {
                Some(Request::RequestRange(q)) => {
                    &&& r->Ok_0.responses@[i] is ResponseRange
                    &&& is_range_response(
                        r->Ok_0.responses@[i]->ResponseRange_0,
                        header,
                        txn.op_results@[i]->Range_0,
                        q.count_only,
                    )
                },
                Some(Request::RequestPut(_)) => {
                    &&& r->Ok_0.responses@[i] is ResponsePut
                    &&& is_put_response(
                        r->Ok_0.responses@[i]->ResponsePut_0,
                        header,
                        txn.op_results@[i]->Mutation_0,
                    )
                },
                Some(Request::RequestDeleteRange(_)) => {
                    &&& r->Ok_0.responses@[i] is ResponseDeleteRange
                    &&& is_delete_response(
                        r->Ok_0.responses@[i]->ResponseDeleteRange_0,
                        header,
                        txn.op_results@[i]->Mutation_0,
                    )
                },
                _ => false,
            }
        }),
{
    let ops = branch(req, txn);
    let results = txn.op_results@;
    lemma_first_misfit(ops, results, 0);
    assert(result_fits(ops[i], results[i]));
    assert(is_op_response(r->Ok_0.responses@[i], header, ops[i], results[i]));
}

/// A transaction whose outcomes do not fit is refused with the numbers
/// where there are too few or too many, and otherwise with the kind of the
/// first slot that has an outcome of another kind.
pub proof fn law_misfit_is_named(
    r: Result<TxnResponse, Status>,
    header: ResponseHeader,
    req: TxnRequest,
    txn: TxnResult,
    ops: Seq<RequestOp>,
    i: int,
)
    requires
        is_txn_response(r, header, req, txn),
        txn.succeeded ==> ops == req.success@,
        !txn.succeeded ==> ops == req.failure@,
    ensures
        ops.len() != txn.op_results@.len() ==> r is Err && r->Err_0.message@ == "txn: "@
            + crate::text::dec(txn.op_results@.len()) + " op results for "@ + crate::text::dec(
            ops.len(),
        ) + " request ops"@,
        (ops.len() == txn.op_results@.len() && 0 <= i < ops.len() && !result_fits(
            ops[i],
            txn.op_results@[i],
        ) && forall|j: int|
            0 <= j < i ==> result_fits(#[trigger] ops[j], txn.op_results@[j])) ==> (r is Err
            && r->Err_0.message@ == "txn: op result does not match request op "@ + (match ops[i].request {
            None => "None"@,
            Some(Request::RequestRange(_)) => "RequestRange"@,
            Some(Request::RequestPut(_)) => "RequestPut"@,
            Some(Request::RequestDeleteRange(_)) => "RequestDeleteRange"@,
            Some(Request::RequestTxn(_)) => "RequestTxn"@,
        })),
{
    let results = txn.op_results@;
    if ops.len() == results.len() {
        lemma_first_misfit(ops, results, 0);
        let bad = first_misfit(ops, results, 0);
        if 0 <= i < ops.len() && !result_fits(ops[i], results[i]) && (forall|j: int|
            0 <= j < i ==> result_fits(#[trigger] ops[j], results[j])) {
            if i < bad {
                assert(result_fits(ops[i], results[i]));
            }
            if bad < i {
                assert(result_fits(ops[bad], results[bad]));
            }
        }
    }
}

/// A slot stores something exactly when it is a put, or holds a
/// transaction one of whose slots, in either branch, does.
pub proof fn law_slot_stores_iff_a_put_is_in_it(op: RequestOp)
    ensures
        op_stores(op) <==> match op.request {
            Some(Request::RequestPut(_)) => true,
            Some(Request::RequestTxn(t)) => {
                ||| exists|i: int| 0 <= i < t.success@.len() && op_stores(#[trigger] t.success@[i])
                ||| exists|i: int| 0 <= i < t.failure@.len() && op_stores(#[trigger] t.failure@[i])
            },
            _ => false,
        },
{
    if let Some(Request::RequestTxn(t)) = op.request {
        lemma_ops_store_iff(t.success@);
        lemma_ops_store_iff(t.failure@);
    }
}

/// A list of slots stores something exactly when one of them does.
pub proof fn lemma_ops_store_iff(ops: Seq<RequestOp>)
    ensures
        ops_store(ops) <==> exists|i: int| 0 <= i < ops.len() && op_stores(#[trigger] ops[i]),
    decreases ops.len(),
{
    if ops.len() > 0 {
        lemma_ops_store_iff(ops.drop_last());
        if ops_store(ops.drop_last()) {
            let i = choose|i: int|
                0 <= i < ops.drop_last().len() && op_stores(#[trigger] ops.drop_last()[i]);
            assert(op_stores(ops[i]));
        }
        if op_stores(ops.last()) {
            assert(op_stores(ops[ops.len() - 1]));
        }
        if exists|i: int| 0 <= i < ops.len() && op_stores(#[trigger] ops[i]) {
            let i = choose|i: int| 0 <= i < ops.len() && op_stores(#[trigger] ops[i]);
            if i < ops.len() - 1 {
                assert(op_stores(ops.drop_last()[i]));
            }
        }
    }
}

/// An outcome of another kind than was asked for is shown in the refusal.
pub proof fn law_unexpected_outcome_is_shown(resp: FastetcdLogResponse)
    ensures
        unexpected(resp) == "unexpected response: "@ + resp.shown(),
{
}

} // verus!
