//! Plain data of the store: records, requests, operations and results.

use vstd::prelude::*;
use crate::lex::copy_bytes;

verus! {

/// What a key-value pair says, whichever type carries it.
#[verifier::ext_equal]
pub struct KvView {
    pub key: Seq<u8>,
    pub create_revision: i64,
    pub mod_revision: i64,
    pub version: i64,
    pub value: Seq<u8>,
    pub lease: i64,
}

/// A key-value pair as the revisioned store keeps it.
#[derive(Debug)]
pub struct KvRecord {
    pub key: Vec<u8>,
    pub create_revision: i64,
    pub mod_revision: i64,
    pub version: i64,
    pub value: Vec<u8>,
    pub lease: i64,
    /// Whether the record marks the removal of its key.
    pub deleted: bool,
}

impl View for KvRecord {
    type V = KvView;

    open spec fn view(&self) -> KvView {
        KvView {
            key: self.key@,
            create_revision: self.create_revision,
            mod_revision: self.mod_revision,
            version: self.version,
            value: self.value@,
            lease: self.lease,
        }
    }
}

impl KvRecord {
    /// A copy of the record.
    pub fn copy(&self) -> (r: KvRecord)
        ensures
            r@ == self@,
            r.deleted == self.deleted,
    {
        KvRecord {
            key: copy_bytes(self.key.as_slice()),
            create_revision: self.create_revision,
            mod_revision: self.mod_revision,
            version: self.version,
            value: copy_bytes(self.value.as_slice()),
            lease: self.lease,
            deleted: self.deleted,
        }
    }
}

/// A key-value pair as it is sent to clients.
#[derive(Debug)]
pub struct KeyValue {
    pub key: Vec<u8>,
    pub create_revision: i64,
    pub mod_revision: i64,
    pub version: i64,
    pub value: Vec<u8>,
    pub lease: i64,
}

impl View for KeyValue {
    type V = KvView;

    open spec fn view(&self) -> KvView {
        KvView {
            key: self.key@,
            create_revision: self.create_revision,
            mod_revision: self.mod_revision,
            version: self.version,
            value: self.value@,
            lease: self.lease,
        }
    }
}

/// What a sequence of stored records says.
pub open spec fn record_views(s: Seq<KvRecord>) -> Seq<KvView> {
    s.map_values(|r: KvRecord| r@)
}

/// What a sequence of sent pairs says.
pub open spec fn kv_views(s: Seq<KeyValue>) -> Seq<KvView> {
    s.map_values(|r: KeyValue| r@)
}

/// Put one key.
#[derive(Debug)]
pub struct PutRequest {
    pub key: Vec<u8>,
    pub value: Vec<u8>,
    pub lease: i64,
    pub prev_kv: bool,
    pub ignore_value: bool,
    pub ignore_lease: bool,
}

/// Delete a key range.
#[derive(Debug)]
pub struct DeleteRangeRequest {
    pub key: Vec<u8>,
    pub range_end: Vec<u8>,
    pub prev_kv: bool,
}

/// Read a key range.
#[derive(Debug)]
pub struct RangeRequest {
    pub key: Vec<u8>,
    pub range_end: Vec<u8>,
    pub limit: i64,
    pub revision: i64,
    pub serializable: bool,
    pub keys_only: bool,
    pub count_only: bool,
}

/// The operand of a transaction guard as the wire carries it.
#[derive(Debug)]
pub enum TargetUnion {
    Version(i64),
    CreateRevision(i64),
    ModRevision(i64),
    Value(Vec<u8>),
    Lease(i64),
}

/// A transaction guard as the wire carries it: relation and attribute
/// are open enumerations, so any number may arrive.
#[derive(Debug)]
pub struct CompareRequest {
    pub result: i32,
    pub target: i32,
    pub key: Vec<u8>,
    pub range_end: Vec<u8>,
    pub target_union: Option<TargetUnion>,
}

/// One operation of a transaction request.
#[derive(Debug)]
pub enum Request {
    RequestRange(RangeRequest),
    RequestPut(PutRequest),
    RequestDeleteRange(DeleteRangeRequest),
    RequestTxn(TxnRequest),
}

/// A slot for one operation; the wire allows it to be empty.
#[derive(Debug)]
pub struct RequestOp {
    pub request: Option<Request>,
}

/// A transaction: guards, and the operations of its two branches.
#[derive(Debug)]
pub struct TxnRequest {
    pub compare: Vec<CompareRequest>,
    pub success: Vec<RequestOp>,
    pub failure: Vec<RequestOp>,
}

/// The relation a guard asks for.
#[derive(Debug, Clone, Copy, PartialEq, Eq, Structural)]
pub enum CompareOp {
    Equal,
    Greater,
    Less,
    NotEqual,
}

/// The attribute a guard looks at, and the operand.
#[derive(Debug)]
pub enum CompareTarget {
    Version(i64),
    CreateRevision(i64),
    ModRevision(i64),
    Value(Vec<u8>),
    Lease(i64),
}

/// A guard in the form the store evaluates.
#[derive(Debug)]
pub struct Compare {
    pub key: Vec<u8>,
    pub range_end: Vec<u8>,
    pub op: CompareOp,
    pub target: CompareTarget,
}

/// A change to the store.
#[derive(Debug)]
pub enum Mutation {
    Put {
        key: Vec<u8>,
        value: Vec<u8>,
        lease: i64,
        prev_kv: bool,
        ignore_value: bool,
        ignore_lease: bool,
    },
    DeleteRange { key: Vec<u8>, range_end: Vec<u8>, prev_kv: bool },
}

/// A read inside a transaction.
#[derive(Debug)]
pub struct RangeOp {
    pub key: Vec<u8>,
    pub range_end: Vec<u8>,
    pub limit: usize,
    pub revision: i64,
    pub keys_only: bool,
    pub count_only: bool,
}

/// One operation of a transaction in the form the store runs.
#[derive(Debug)]
pub enum TxnOp {
    Range(RangeOp),
    Mutation(Mutation),
}

/// What one mutation did.
#[derive(Debug)]
pub struct MutationResult {
    pub n: i64,
    pub prev_kvs: Vec<KvRecord>,
}

/// What a read found.
#[derive(Debug)]
pub struct RangeResult {
    pub kvs: Vec<KvRecord>,
    pub more: bool,
    pub count: i64,
}

/// What one operation of a transaction did.
#[derive(Debug)]
pub enum TxnOpResult {
    Range(RangeResult),
    Mutation(MutationResult),
}

/// What a transaction did.
#[derive(Debug)]
pub struct TxnResult {
    pub revision: i64,
    pub succeeded: bool,
    pub op_results: Vec<TxnOpResult>,
}

/// Why the revisioned store refused a read or a change.
#[derive(Debug)]
pub enum MvccError {
    Compacted { requested: i64, compact_rev: i64 },
    FutureRevision { requested: i64, current: i64 },
    Storage(String),
    Internal(String),
}

/// A pair sent to a client that says what a stored record says has each
/// of the record's attributes.
pub proof fn law_sent_pair_has_every_attribute(rec: KvRecord, kv: KeyValue)
    ensures
        kv@ == rec@ <==> {
            &&& kv.key@ == rec.key@
            &&& kv.value@ == rec.value@
            &&& kv.create_revision == rec.create_revision
            &&& kv.mod_revision == rec.mod_revision
            &&& kv.version == rec.version
            &&& kv.lease == rec.lease
        },
        kv@.key == kv.key@,
        kv@.value == kv.value@,
        kv@.create_revision == kv.create_revision,
        kv@.mod_revision == kv.mod_revision,
        kv@.version == kv.version,
        kv@.lease == kv.lease,
{
}

/// A copy of a record has each of its attributes.
pub proof fn law_copied_record_has_every_attribute(a: KvRecord, b: KvRecord)
    ensures
        a@ == b@ <==> {
            &&& a.key@ == b.key@
            &&& a.value@ == b.value@
            &&& a.create_revision == b.create_revision
            &&& a.mod_revision == b.mod_revision
            &&& a.version == b.version
            &&& a.lease == b.lease
        },
{
}

/// A list of sent pairs that says what a list of records says has one pair
/// for each record, in the records' order.
pub proof fn law_sent_pairs_stand_in_order(recs: Seq<KvRecord>, kvs: Seq<KeyValue>)
    ensures
        kv_views(kvs) == record_views(recs) <==> {
            &&& kvs.len() == recs.len()
            &&& forall|i: int| 0 <= i < recs.len() ==> (#[trigger] kvs[i])@ == recs[i]@
        },
        kvs.len() == 0 <==> kv_views(kvs) == Seq::<KvView>::empty(),
{
    let a = kv_views(kvs);
    let b = record_views(recs);
    if a == b {
        assert(kvs.len() == a.len() == b.len() == recs.len());
        assert forall|i: int| 0 <= i < recs.len() implies (#[trigger] kvs[i])@ == recs[i]@ by {
            assert(a[i] == b[i]);
        }
    }
    if kvs.len() == recs.len() && (forall|i: int|
        0 <= i < recs.len() ==> (#[trigger] kvs[i])@ == recs[i]@) {
        assert(a =~= b) by {
            assert forall|i: int| 0 <= i < recs.len() implies a[i] == b[i] by {
                assert(kvs[i]@ == recs[i]@);
            }
        }
    }
    assert(a.len() == kvs.len());
    if kvs.len() == 0 {
        assert(a =~= Seq::<KvView>::empty());
    }
}

} // verus!
