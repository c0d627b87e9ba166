//! From wire requests to the operations the store runs, and back.

use vstd::prelude::*;
use crate::lex::copy_bytes;
use crate::model::{
    Compare, CompareOp, CompareRequest, CompareTarget, DeleteRangeRequest, KeyValue, KvRecord,
    Mutation, PutRequest, RangeOp, RangeRequest, Request, RequestOp, TargetUnion, TxnOp,
};
use crate::status::{Code, Status};
use crate::text::{dec_i64, join3};

verus! {

/// A stored record as the pair sent to clients.
pub fn record_to_kv(rec: &KvRecord) -> (kv: KeyValue)
    ensures
        kv@ == rec@,
{
    KeyValue {
        key: copy_bytes(rec.key.as_slice()),
        create_revision: rec.create_revision,
        mod_revision: rec.mod_revision,
        version: rec.version,
        value: copy_bytes(rec.value.as_slice()),
        lease: rec.lease,
    }
}

/// Stored records as the pairs sent to clients, in order.
pub fn records_to_kvs(recs: &Vec<KvRecord>) -> (kvs: Vec<KeyValue>)
    ensures
        crate::model::kv_views(kvs@) == crate::model::record_views(recs@),
{
    let mut out: Vec<KeyValue> = Vec::new();
    let mut i: usize = 0;
    while i < recs.len()
        invariant
            i <= recs@.len(),
            out@.len() == i,
            forall|j: int| 0 <= j < i ==> (#[trigger] out@[j])@ == recs@[j]@,
        decreases recs@.len() - i,
    {
        out.push(record_to_kv(&recs[i]));
        i += 1;
    }
    assert(crate::model::kv_views(out@) =~= crate::model::record_views(recs@));
    out
}

/// The first of the records, as a pair.
pub fn first_record_to_kv(recs: &Vec<KvRecord>) -> (kv: Option<KeyValue>)
    ensures
        kv is Some <==> recs@.len() > 0,
        kv is Some ==> kv->0@ == recs@[0]@,
{
    if recs.len() > 0 {
        Some(record_to_kv(&recs[0]))
    } else {
        None
    }
}

/// `m` is the put that `p` asks for.
pub open spec fn is_put_of(m: Mutation, p: PutRequest) -> bool {
    m matches Mutation::Put { key, value, lease, prev_kv, ignore_value, ignore_lease }
        && key@ == p.key@ && value@ == p.value@ && lease == p.lease && prev_kv == p.prev_kv
        && ignore_value == p.ignore_value && ignore_lease == p.ignore_lease
}

/// `m` is the deletion that `d` asks for.
pub open spec fn is_delete_of(m: Mutation, d: DeleteRangeRequest) -> bool {
    m matches Mutation::DeleteRange { key, range_end, prev_kv } && key@ == d.key@ && range_end@
        == d.range_end@ && prev_kv == d.prev_kv
}

/// A negative limit means no limit, which is written zero.
pub open spec fn limit_of(limit: i64) -> usize {
    (if limit > 0 {
        limit as int
    } else {
        0
    }) as usize
}

/// `o` is the read that `r` asks for.
pub open spec fn is_range_of(o: RangeOp, r: RangeRequest) -> bool {
    &&& o.key@ == r.key@
    &&& o.range_end@ == r.range_end@
    &&& o.limit == limit_of(r.limit)
    &&& o.revision == r.revision
    &&& o.keys_only == r.keys_only
    &&& o.count_only == r.count_only
}

/// The mutation of a put request.
pub fn put_request_to_mutation(req: &PutRequest) -> (m: Mutation)
    ensures
        is_put_of(m, *req),
{
    Mutation::Put {
        key: copy_bytes(req.key.as_slice()),
        value: copy_bytes(req.value.as_slice()),
        lease: req.lease,
        prev_kv: req.prev_kv,
        ignore_value: req.ignore_value,
        ignore_lease: req.ignore_lease,
    }
}

/// The mutation of a delete request.
pub fn delete_request_to_mutation(req: &DeleteRangeRequest) -> (m: Mutation)
    ensures
        is_delete_of(m, *req),
{
    Mutation::DeleteRange {
        key: copy_bytes(req.key.as_slice()),
        range_end: copy_bytes(req.range_end.as_slice()),
        prev_kv: req.prev_kv,
    }
}

/// The limit of a read: negative means none.
pub fn range_limit(limit: i64) -> (r: usize)
    ensures
        r == limit_of(limit),
{
    if limit > 0 {
        #[verifier::truncate]
        (limit as usize)
    } else {
        0
    }
}

/// The read of a range request.
pub fn range_request_to_op(req: &RangeRequest) -> (o: RangeOp)
    ensures
        is_range_of(o, *req),
{
    RangeOp {
        key: copy_bytes(req.key.as_slice()),
        range_end: copy_bytes(req.range_end.as_slice()),
        limit: range_limit(req.limit),
        revision: req.revision,
        keys_only: req.keys_only,
        count_only: req.count_only,
    }
}

/// The relation that a wire number stands for.
pub open spec fn compare_op_of(result: i32) -> Option<CompareOp> {
    if result == 0 {
        Some(CompareOp::Equal)
    } else if result == 1 {
        Some(CompareOp::Greater)
    } else if result == 2 {
        Some(CompareOp::Less)
    } else if result == 3 {
        Some(CompareOp::NotEqual)
    } else {
        None
    }
}

/// Name of the attribute that a wire number stands for.
pub open spec fn target_name(target: i32) -> Seq<char> {
    if target == 0 {
        "Version"@
    } else if target == 1 {
        "Create"@
    } else if target == 2 {
        "Mod"@
    } else if target == 3 {
        "Value"@
    } else {
        "Lease"@
    }
}

/// The operand is of the kind that the wire number asks for.
pub open spec fn target_matches(target: i32, u: TargetUnion) -> bool {
    match u {
        TargetUnion::Version(_) => target == 0,
        TargetUnion::CreateRevision(_) => target == 1,
        TargetUnion::ModRevision(_) => target == 2,
        TargetUnion::Value(_) => target == 3,
        TargetUnion::Lease(_) => target == 4,
    }
}

/// Attribute and operand agree with the wire's.
pub open spec fn is_target_of(t: CompareTarget, u: TargetUnion) -> bool {
    match u {
        TargetUnion::Version(v) => t == CompareTarget::Version(v),
        TargetUnion::CreateRevision(v) => t == CompareTarget::CreateRevision(v),
        TargetUnion::ModRevision(v) => t == CompareTarget::ModRevision(v),
        TargetUnion::Value(v) => t matches CompareTarget::Value(x) && x@ == v@,
        TargetUnion::Lease(v) => t == CompareTarget::Lease(v),
    }
}

/// Whether a wire guard is well formed: known relation and attribute,
/// and an operand of the attribute's kind.
pub open spec fn compare_ok(c: CompareRequest) -> bool {
    &&& compare_op_of(c.result) is Some
    &&& 0 <= c.target <= 4
    &&& c.target_union is Some
    &&& target_matches(c.target, c.target_union->0)
}

/// `x` is the guard that a well-formed `c` asks for.
pub open spec fn is_compare_of(x: Compare, c: CompareRequest) -> bool {
    &&& x.key@ == c.key@
    &&& x.range_end@ == c.range_end@
    &&& compare_op_of(c.result) == Some(x.op)
    &&& c.target_union is Some
    &&& is_target_of(x.target, c.target_union->0)
}

/// What a malformed guard is refused with: the first of its faults.
pub open spec fn compare_fault(c: CompareRequest) -> Seq<char> {
    if compare_op_of(c.result) is None {
        "unknown CompareResult enum: "@ + crate::text::dec_int(c.result as int)
    } else if !(0 <= c.target <= 4) {
        "unknown CompareTarget enum: "@ + crate::text::dec_int(c.target as int)
    } else if c.target_union is None {
        "Compare.target_union missing"@
    } else {
        "Compare.target ("@ + target_name(c.target) + ") does not match target_union variant"@
    }
}

fn target_name_str(target: i32) -> (r: &'static str)
    ensures
        r@ == target_name(target),
{
    if target == 0 {
        "Version"
    } else if target == 1 {
        "Create"
    } else if target == 2 {
        "Mod"
    } else if target == 3 {
        "Value"
    } else {
        "Lease"
    }
}

/// A wire guard as the store evaluates it, or the refusal of a malformed
/// one.
pub fn compare_from_proto(c: &CompareRequest) -> (r: Result<Compare, Status>)
    ensures
        r is Ok <==> compare_ok(*c),
        r is Ok ==> is_compare_of(r->Ok_0, *c),
        r is Err ==> r->Err_0.says(Code::InvalidArgument, compare_fault(*c)),
{
    let op = if c.result == 0 {
        CompareOp::Equal
    } else if c.result == 1 {
        CompareOp::Greater
    } else if c.result == 2 {
        CompareOp::Less
    } else if c.result == 3 {
        CompareOp::NotEqual
    } else {
        let n = dec_i64(c.result as i64);
        return Err(
            Status::from_string(
                Code::InvalidArgument,
                String::from_str("unknown CompareResult enum: ").concat(n.as_str()),
            ),
        );
    };
    if c.target < 0 || c.target > 4 {
        let n = dec_i64(c.target as i64);
        return Err(
            Status::from_string(
                Code::InvalidArgument,
                String::from_str("unknown CompareTarget enum: ").concat(n.as_str()),
            ),
        );
    }
    let union = match &c.target_union {
        Some(u) => u,
        None => {
            return Err(Status::new(Code::InvalidArgument, "Compare.target_union missing"));
        },
    };
    let target = match union {
        TargetUnion::Version(v) if c.target == 0 => CompareTarget::Version(*v),
        TargetUnion::CreateRevision(v) if c.target == 1 => CompareTarget::CreateRevision(*v),
        TargetUnion::ModRevision(v) if c.target == 2 => CompareTarget::ModRevision(*v),
        TargetUnion::Value(v) if c.target == 3 => CompareTarget::Value(copy_bytes(v.as_slice())),
        TargetUnion::Lease(v) if c.target == 4 => CompareTarget::Lease(*v),
        _ => {
            return Err(
                Status::from_string(
                    Code::InvalidArgument,
                    join3(
                        "Compare.target (",
                        target_name_str(c.target),
                        ") does not match target_union variant",
                    ),
                ),
            );
        },
    };
    Ok(
        Compare {
            key: copy_bytes(c.key.as_slice()),
            range_end: copy_bytes(c.range_end.as_slice()),
            op,
            target,
        },
    )
}

/// Whether a transaction slot holds an operation the store runs: it is
/// not empty and not a nested transaction.
pub open spec fn op_ok(op: RequestOp) -> bool {
    op.request is Some && !(op.request->0 is RequestTxn)
}

/// `t` is the operation that a runnable slot asks for.
pub open spec fn is_op_of(t: TxnOp, op: RequestOp) -> bool {
    match op.request {
        Some(Request::RequestRange(r)) => t matches TxnOp::Range(o) && is_range_of(o, r),
        Some(Request::RequestPut(p)) => t matches TxnOp::Mutation(m) && is_put_of(m, p),
        Some(Request::RequestDeleteRange(d)) => t matches TxnOp::Mutation(m) && is_delete_of(m, d),
        _ => false,
    }
}

/// A transaction slot as the store runs it. An empty slot is malformed;
/// a nested transaction is not supported.
pub fn request_op_from_proto(op: &RequestOp) -> (r: Result<TxnOp, Status>)
    ensures
        r is Ok <==> op_ok(*op),
        r is Ok ==> is_op_of(r->Ok_0, *op),
        op.request is None ==> r is Err && r->Err_0.says(
            Code::InvalidArgument,
            "RequestOp.request missing"@,
        ),
        op.request is Some && op.request->0 is RequestTxn ==> r is Err && r->Err_0.says(
            Code::Unimplemented,
            "nested Txn in Txn ops is not yet supported"@,
        ),
{
    match &op.request {
        None => Err(Status::new(Code::InvalidArgument, "RequestOp.request missing")),
        Some(Request::RequestRange(r)) => Ok(TxnOp::Range(range_request_to_op(r))),
        Some(Request::RequestPut(p)) => Ok(TxnOp::Mutation(put_request_to_mutation(p))),
        Some(Request::RequestDeleteRange(d)) => Ok(
            TxnOp::Mutation(delete_request_to_mutation(d)),
        ),
        Some(Request::RequestTxn(_)) => Err(
            Status::new(Code::Unimplemented, "nested Txn in Txn ops is not yet supported"),
        ),
    }
}

/// A guard is accepted exactly when its relation is numbered zero to
/// three and its operand is of the attribute that the other number names:
/// zero the version, one the revision of creation, two that of the last
/// change, three the value, four the lease.
pub proof fn law_guard_is_accepted_iff_it_is_known(c: CompareRequest)
    ensures
        compare_ok(c) <==> {
            &&& 0 <= c.result <= 3
            &&& match c.target_union {
                None => false,
                Some(TargetUnion::Version(_)) => c.target == 0,
                Some(TargetUnion::CreateRevision(_)) => c.target == 1,
                Some(TargetUnion::ModRevision(_)) => c.target == 2,
                Some(TargetUnion::Value(_)) => c.target == 3,
                Some(TargetUnion::Lease(_)) => c.target == 4,
            }
        },
{
}

/// A guard holds of a stored number as its wire number says: zero wants
/// the stored number to equal the operand, one to be above it, two to be
/// below it, three to differ from it.
pub proof fn law_guard_holds_as_its_number_says(
    x: Compare,
    c: CompareRequest,
    stored: int,
    operand: int,
)
    requires
        is_compare_of(x, c),
    ensures
        (match x.op {
            CompareOp::Equal => stored == operand,
            CompareOp::Greater => stored > operand,
            CompareOp::Less => stored < operand,
            CompareOp::NotEqual => stored != operand,
        }) <==> {
            ||| c.result == 0 && stored == operand
            ||| c.result == 1 && stored > operand
            ||| c.result == 2 && stored < operand
            ||| c.result == 3 && stored != operand
        },
        c.result == 0 <==> x.op is Equal,
        c.result == 1 <==> x.op is Greater,
        c.result == 2 <==> x.op is Less,
        c.result == 3 <==> x.op is NotEqual,
{
}

/// Two guards that differ in nothing but greater and less never both hold
/// of a number, and one of them holds unless the number is the operand.
pub proof fn law_greater_and_less_exclude_each_other(
    above: Compare,
    below: Compare,
    a: CompareRequest,
    b: CompareRequest,
)
    requires
        a.result == 1,
        b.result == 2,
        is_compare_of(above, a),
        is_compare_of(below, b),
    ensures
        above.op != below.op,
        above.op != CompareOp::Equal && above.op != CompareOp::NotEqual,
        below.op != CompareOp::Equal && below.op != CompareOp::NotEqual,
{
}

/// A guard looks at exactly the keys that the wire names, at the
/// attribute that the wire numbers, and holds it against the wire's
/// operand.
pub proof fn law_guard_looks_where_the_wire_says(x: Compare, c: CompareRequest)
    requires
        compare_ok(c),
        is_compare_of(x, c),
    ensures
        forall|k: Seq<u8>|
            #![trigger crate::keyrange::in_range(x.key@, x.range_end@, k)]
            crate::keyrange::in_range(x.key@, x.range_end@, k) <==> crate::keyrange::in_range(
                c.key@,
                c.range_end@,
                k,
            ),
        c.target == 0 <==> x.target is Version,
        c.target == 1 <==> x.target is CreateRevision,
        c.target == 2 <==> x.target is ModRevision,
        c.target == 3 <==> x.target is Value,
        c.target == 4 <==> x.target is Lease,
        x.target is Version ==> c.target_union == Some(
            TargetUnion::Version(x.target->Version_0),
        ),
        x.target is CreateRevision ==> c.target_union == Some(
            TargetUnion::CreateRevision(x.target->CreateRevision_0),
        ),
        x.target is ModRevision ==> c.target_union == Some(
            TargetUnion::ModRevision(x.target->ModRevision_0),
        ),
        x.target is Value ==> (c.target_union matches Some(TargetUnion::Value(v)) && v@
            == x.target->Value_0@),
        x.target is Lease ==> c.target_union == Some(TargetUnion::Lease(x.target->Lease_0)),
{
}

/// The text that refuses a guard names the fault: an unknown relation, an
/// unknown attribute, no operand, or an operand of another attribute.
pub proof fn law_refused_guard_is_told_why(c: CompareRequest)
    requires
        !compare_ok(c),
    ensures
        c.result < 0 || c.result > 3 ==> compare_fault(c) == "unknown CompareResult enum: "@
            + crate::text::dec_int(c.result as int),
        0 <= c.result <= 3 && (c.target < 0 || c.target > 4) ==> compare_fault(c)
            == "unknown CompareTarget enum: "@ + crate::text::dec_int(c.target as int),
        0 <= c.result <= 3 && 0 <= c.target <= 4 && c.target_union is None ==> compare_fault(c)
            == "Compare.target_union missing"@,
        0 <= c.result <= 3 && c.target_union is Some ==> {
            &&& c.target == 0 ==> compare_fault(c) == "Compare.target ("@ + "Version"@
                + ") does not match target_union variant"@
            &&& c.target == 1 ==> compare_fault(c) == "Compare.target ("@ + "Create"@
                + ") does not match target_union variant"@
            &&& c.target == 2 ==> compare_fault(c) == "Compare.target ("@ + "Mod"@
                + ") does not match target_union variant"@
            &&& c.target == 3 ==> compare_fault(c) == "Compare.target ("@ + "Value"@
                + ") does not match target_union variant"@
            &&& c.target == 4 ==> compare_fault(c) == "Compare.target ("@ + "Lease"@
                + ") does not match target_union variant"@
        },
{
}

/// What a put leaves under its key: the request's value and lease, but the
/// value, or the lease, that was there where the request asks to keep it.
/// It hands back what was there exactly when asked to.
pub proof fn law_put_stores_what_the_request_holds(
    m: Mutation,
    p: PutRequest,
    old_value: Seq<u8>,
    old_lease: i64,
)
    requires
        is_put_of(m, p),
    ensures
        m matches Mutation::Put { key, value, lease, prev_kv, ignore_value, ignore_lease } && {
            &&& key@ == p.key@
            &&& (if ignore_value {
                old_value
            } else {
                value@
            }) == (if p.ignore_value {
                old_value
            } else {
                p.value@
            })
            &&& (if ignore_lease {
                old_lease
            } else {
                lease
            }) == (if p.ignore_lease {
                old_lease
            } else {
                p.lease
            })
            &&& ignore_value == p.ignore_value
            &&& ignore_lease == p.ignore_lease
            &&& value@ == p.value@
            &&& lease == p.lease
            &&& prev_kv == p.prev_kv
        },
{
}

/// A delete removes exactly the keys that the request names, and hands the
/// pairs back exactly when asked to.
pub proof fn law_delete_removes_what_the_request_names(m: Mutation, d: DeleteRangeRequest)
    requires
        is_delete_of(m, d),
    ensures
        m matches Mutation::DeleteRange { key, range_end, prev_kv } && {
            &&& forall|k: Seq<u8>|
                #![trigger crate::keyrange::in_range(key@, range_end@, k)]
                crate::keyrange::in_range(key@, range_end@, k) <==> crate::keyrange::in_range(
                    d.key@,
                    d.range_end@,
                    k,
                )
            &&& prev_kv == d.prev_kv
        },
{
}

/// A read in a transaction looks at exactly the keys, and at the revision,
/// that the request names, and gives back what it asks for. A limit that
/// is positive is kept; any other is none.
pub proof fn law_read_looks_where_the_request_says(o: RangeOp, r: RangeRequest)
    requires
        is_range_of(o, r),
    ensures
        forall|k: Seq<u8>|
            #![trigger crate::keyrange::in_range(o.key@, o.range_end@, k)]
            crate::keyrange::in_range(o.key@, o.range_end@, k) <==> crate::keyrange::in_range(
                r.key@,
                r.range_end@,
                k,
            ),
        o.revision == r.revision,
        o.keys_only == r.keys_only,
        o.count_only == r.count_only,
        r.limit <= 0 ==> o.limit == 0,
        0 < r.limit <= u32::MAX ==> o.limit == r.limit,
        0 < r.limit <= usize::MAX ==> o.limit == r.limit,
{
}

/// A slot of a transaction is run exactly when it holds a read, a put or a
/// delete, and it is run as what it holds.
pub proof fn law_slot_is_run_as_what_it_holds(op: RequestOp)
    ensures
        op_ok(op) <==> (op.request matches Some(q) && (q is RequestRange || q is RequestPut
            || q is RequestDeleteRange)),
        forall|t: TxnOp|
            #![trigger is_op_of(t, op)]
            is_op_of(t, op) ==> {
                &&& t is Range <==> (op.request matches Some(q) && q is RequestRange)
                &&& (t matches TxnOp::Mutation(m) && m is Put) <==> (op.request matches Some(q)
                    && q is RequestPut)
                &&& (t matches TxnOp::Mutation(m) && m is DeleteRange) <==> (op.request matches
                    Some(q) && q is RequestDeleteRange)
            },
        forall|t: TxnOp, r: RangeRequest|
            #![trigger is_op_of(t, op), is_range_of(t->Range_0, r)]
            op.request == Some(Request::RequestRange(r)) && is_op_of(t, op) ==> is_range_of(
                t->Range_0,
                r,
            ),
        forall|t: TxnOp, p: PutRequest|
            #![trigger is_op_of(t, op), is_put_of(t->Mutation_0, p)]
            op.request == Some(Request::RequestPut(p)) && is_op_of(t, op) ==> is_put_of(
                t->Mutation_0,
                p,
            ),
        forall|t: TxnOp, d: DeleteRangeRequest|
            #![trigger is_op_of(t, op), is_delete_of(t->Mutation_0, d)]
            op.request == Some(Request::RequestDeleteRange(d)) && is_op_of(t, op) ==> is_delete_of(
                t->Mutation_0,
                d,
            ),
{
}

} // verus!
