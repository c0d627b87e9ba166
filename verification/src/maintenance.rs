//! Maintenance: status, alarms, hashes of the stored records, and the
//! snapshot stream.

use vstd::prelude::*;
use crate::codec;
use crate::crypto::{self, sha256};
use crate::lex::copy_bytes;
use crate::membership::Membership;
use crate::names;
use crate::space::GuardView;
use crate::state::{self, response_header, RaftMetrics, ResponseHeader, ServerState};
use crate::status::{Code, Status};
use crate::text::{self, dec_u64, join3};

verus! {

/// The protocol version that is reported.
pub open spec fn compat_version() -> Seq<char> {
    "3.6.0"@
}

/// What to do with alarms.
#[derive(Debug, Clone, Copy, PartialEq, Eq, Structural)]
pub enum AlarmAction {
    Get,
    Activate,
    Deactivate,
}

/// Kinds of alarm.
#[derive(Debug, Clone, Copy, PartialEq, Eq, Structural)]
pub enum AlarmType {
    /// Any.
    Any,
    Nospace,
    Corrupt,
}

/// An alarm that is raised.
#[derive(Debug, Clone, Copy, PartialEq, Eq, Structural)]
pub struct AlarmMember {
    pub member_id: u64,
    pub alarm: AlarmType,
}

/// The alarms that are raised.
#[derive(Debug)]
pub struct AlarmResponse {
    pub header: ResponseHeader,
    pub alarms: Vec<AlarmMember>,
}

/// The status of a member.
#[derive(Debug)]
pub struct StatusResponse {
    pub header: ResponseHeader,
    pub version: String,
    pub db_size: i64,
    pub leader: u64,
    pub raft_index: u64,
    pub raft_term: u64,
    pub raft_applied_index: u64,
    pub errors: Vec<String>,
    pub db_size_in_use: i64,
    pub is_learner: bool,
    pub storage_version: String,
    pub db_size_quota: i64,
}

/// A piece of the snapshot stream.
#[derive(Debug)]
pub struct SnapshotChunk {
    pub header: ResponseHeader,
    pub remaining_bytes: u64,
    pub blob: Vec<u8>,
    pub version: String,
}

/// A stored row and the revision that wrote it.
#[derive(Debug)]
pub struct HashRow {
    pub key: Vec<u8>,
    pub value: Vec<u8>,
    pub mod_revision: i64,
}

/// The maintenance service.
#[derive(Debug)]
pub struct MaintenanceService {
    pub state: ServerState,
}

impl MaintenanceService {
    /// A service over the given state.
    pub fn new(state: ServerState) -> (r: MaintenanceService)
        ensures
            r.state == state,
    {
        MaintenanceService { state }
    }

    /// List the alarms, after clearing that for want of space if that is
    /// what the request asks. Raising one by request does nothing.
    pub fn alarm(&mut self, action: AlarmAction, alarm: AlarmType, revision: i64) -> (r:
        AlarmResponse)
        ensures
            ({
                let clear = action == AlarmAction::Deactivate && alarm != AlarmType::Corrupt;
                let up = old(self).state.space@.nospace() && !clear;
                &&& final(self).state.space@ == (if clear {
                    GuardView { raised: false, ..old(self).state.space@ }
                } else {
                    old(self).state.space@
                })
                &&& final(self).state.cluster_id == old(self).state.cluster_id
                &&& final(self).state.member_id == old(self).state.member_id
                &&& final(self).state.metrics == old(self).state.metrics
                &&& final(self).state.auth == old(self).state.auth
                &&& r.header == state::header_of(old(self).state, revision)
                &&& r.alarms@ == (if up {
                    seq![
                        AlarmMember {
                            member_id: old(self).state.member_id,
                            alarm: AlarmType::Nospace,
                        },
                    ]
                } else {
                    seq![]
                })
            }),
    {
        let clear = match action {
            AlarmAction::Deactivate => match alarm {
                AlarmType::Corrupt => false,
                _ => true,
            },
            _ => false,
        };
        if clear {
            self.state.space.disarm_nospace();
        }
        let mut alarms: Vec<AlarmMember> = Vec::new();
        if self.state.space.nospace() {
            alarms.push(
                AlarmMember { member_id: self.state.member_id, alarm: AlarmType::Nospace },
            );
        }
        AlarmResponse { header: response_header(&self.state, revision), alarms }
    }

    /// The status of this member. Under an enabled guard the live bytes and
    /// the effective capacity are those last measured; without one, the
    /// file counts as live and there is no capacity.
    pub fn status(&self, db_size: u64, revision: i64) -> (r: StatusResponse)
        ensures
            r.header == state::header_of(self.state, revision),
            r.version@ == compat_version(),
            r.storage_version@ == compat_version(),
            r.db_size == db_size as i64,
            r.leader == (match self.state.metrics.current_leader {
                Some(l) => l,
                None => 0,
            }),
            r.raft_index == (match self.state.metrics.last_log_index {
                Some(i) => i,
                None => 0,
            }),
            r.raft_term == self.state.metrics.current_term,
            r.raft_applied_index == (match self.state.metrics.last_applied {
                Some(i) => i,
                None => 0,
            }),
            names::texts(r.errors@) == (if self.state.space@.nospace() {
                seq!["NOSPACE"@]
            } else {
                seq![]
            }),
            r.db_size_in_use == (if self.state.space@.enabled {
                self.state.space@.stats().db_in_use_bytes as i64
            } else {
                db_size as i64
            }),
            !r.is_learner,
            r.db_size_quota == (if self.state.space@.enabled {
                self.state.space@.stats().capacity_bytes as i64
            } else {
                0
            }),
    {
        let mut errors: Vec<String> = Vec::new();
        if self.state.space.nospace() {
            errors.push(String::from_str("NOSPACE"));
            assert(names::texts(errors@) =~= seq!["NOSPACE"@]);
        } else {
            assert(names::texts(errors@) =~= seq![]);
        }
        let stats = self.state.space.stats();
        let enabled = self.state.space.is_enabled();
        let m: RaftMetrics = self.state.metrics;
        StatusResponse {
            header: response_header(&self.state, revision),
            version: String::from_str("3.6.0"),
            db_size: db_size as i64,
            leader: match m.current_leader {
                Some(l) => l,
                None => 0,
            },
            raft_index: match m.last_log_index {
                Some(i) => i,
                None => 0,
            },
            raft_term: m.current_term,
            raft_applied_index: match m.last_applied {
                Some(i) => i,
                None => 0,
            },
            errors,
            db_size_in_use: if enabled {
                stats.db_in_use_bytes as i64
            } else {
                db_size as i64
            },
            is_learner: false,
            storage_version: String::from_str("3.6.0"),
            db_size_quota: if enabled {
                stats.capacity_bytes as i64
            } else {
                0
            },
        }
    }

    /// The refusal to move the leadership: a target that does not vote is
    /// named, and for one that does there is no way to do it.
    pub fn move_leader(&self, target_id: u64, membership: &Membership) -> (s: Status)
        ensures
            if membership.votes(target_id) {
                s.says(
                    Code::Unimplemented,
                    "MoveLeader is not yet supported on openraft 0.9; pending upgrade to openraft 0.10 which exposes trigger().transfer_leader()"@,
                )
            } else {
                s.says(
                    Code::FailedPrecondition,
                    "MoveLeader target "@ + text::dec(target_id as nat)
                        + " is not a voting member"@,
                )
            },
    {
        let voters = membership.voter_ids();
        let mut i: usize = 0;
        while i < voters.len()
            invariant
                i <= voters@.len(),
                forall|j: int| 0 <= j < i ==> #[trigger] voters@[j] != target_id,
                forall|id: u64| #[trigger] voters@.contains(id) <==> membership.votes(id),
            decreases voters@.len() - i,
        {
            if voters[i] == target_id {
                assert(voters@.contains(target_id));
                return Status::new(
                    Code::Unimplemented,
                    "MoveLeader is not yet supported on openraft 0.9; pending upgrade to openraft 0.10 which exposes trigger().transfer_leader()",
                );
            }
            i += 1;
        }
        assert(!voters@.contains(target_id));
        let text = join3(
            "MoveLeader target ",
            dec_u64(target_id).as_str(),
            " is not a voting member",
        );
        Status::from_string(Code::FailedPrecondition, text)
    }

    /// The refusal to downgrade.
    pub fn downgrade(&self) -> (s: Status)
        ensures
            s.says(Code::Unimplemented, "Downgrade is not implemented in fastetcd"@),
    {
        Status::new(Code::Unimplemented, "Downgrade is not implemented in fastetcd")
    }
}

/// The answer to a request for the hash of the whole table.
#[derive(Debug, Clone, Copy, PartialEq, Eq, Structural)]
pub struct HashResponse {
    pub header: ResponseHeader,
    pub hash: u32,
}

/// The answer to a request for the hash at a revision.
#[derive(Debug, Clone, Copy, PartialEq, Eq, Structural)]
pub struct HashKvResponse {
    pub header: ResponseHeader,
    pub hash: u32,
    pub compact_revision: i64,
    pub hash_revision: i64,
}

impl MaintenanceService {
    /// The answer to a defragmentation: it went through or it failed.
    pub fn defragment(&self, outcome: Result<(), String>, revision: i64) -> (r: Result<
        ResponseHeader,
        Status,
    >)
        ensures
            match outcome {
                Ok(_) => r == Ok::<ResponseHeader, Status>(state::header_of(self.state, revision)),
                Err(e) => r is Err && r->Err_0.says(Code::Internal, "defragment: "@ + e@),
            },
    {
        match outcome {
            Ok(()) => Ok(response_header(&self.state, revision)),
            Err(e) => Err(failure("defragment: ", e.as_str())),
        }
    }

    /// The hash of every stored row. `revision` is the current one.
    pub fn hash(&self, rows: Result<Vec<HashRow>, String>, revision: i64) -> (r: Result<
        HashResponse,
        Status,
    >)
        ensures
            match rows {
                Ok(rows) => r == Ok::<HashResponse, Status>(
                    HashResponse {
                        header: state::header_of(self.state, revision),
                        hash: table_hash(rows@, 0),
                    },
                ),
                Err(e) => r is Err && r->Err_0.says(Code::Internal, "hash: "@ + e@),
            },
    {
        match rows {
            Ok(rows) => Ok(
                HashResponse {
                    header: response_header(&self.state, revision),
                    hash: hash_kv_table(&rows, 0),
                },
            ),
            Err(e) => Err(failure("hash: ", e.as_str())),
        }
    }

    /// The hash of the stored rows at the revision `at`. `revision` is the
    /// current one, which the answer names.
    pub fn hash_kv(&self, rows: Result<Vec<HashRow>, String>, at: i64, revision: i64) -> (r: Result<
        HashKvResponse,
        Status,
    >)
        ensures
            match rows {
                Ok(rows) => r == Ok::<HashKvResponse, Status>(
                    HashKvResponse {
                        header: state::header_of(self.state, revision),
                        hash: table_hash(rows@, at),
                        compact_revision: 0,
                        hash_revision: revision,
                    },
                ),
                Err(e) => r is Err && r->Err_0.says(Code::Internal, "hash_kv: "@ + e@),
            },
    {
        match rows {
            Ok(rows) => Ok(
                HashKvResponse {
                    header: response_header(&self.state, revision),
                    hash: hash_kv_table(&rows, at),
                    compact_revision: 0,
                    hash_revision: revision,
                },
            ),
            Err(e) => Err(failure("hash_kv: ", e.as_str())),
        }
    }
}

/// An internal failure, after what failed.
fn failure(what: &str, e: &str) -> (s: Status)
    ensures
        s.says(Code::Internal, what@ + e@),
{
    Status::from_string(Code::Internal, String::from_str(what).concat(e))
}

/// A row counts towards a hash at a revision; zero or less means any.
pub open spec fn counts_at(row: HashRow, revision: i64) -> bool {
    revision <= 0 || row.mod_revision <= revision
}

/// A length in four bytes, most significant first.
pub open spec fn length_bytes(n: nat) -> Seq<u8> {
    codec::be(n % 0x1_0000_0000, 4)
}

/// What is hashed of a row: key and value, each after its length.
pub open spec fn row_bytes(row: HashRow) -> Seq<u8> {
    length_bytes(row.key@.len()) + row.key@ + length_bytes(row.value@.len()) + row.value@
}

/// What is hashed of rows at a revision.
pub open spec fn hashed_bytes(rows: Seq<HashRow>, revision: i64) -> Seq<u8>
    decreases rows.len(),
{
    if rows.len() == 0 {
        seq![]
    } else if counts_at(rows.last(), revision) {
        hashed_bytes(rows.drop_last(), revision) + row_bytes(rows.last())
    } else {
        hashed_bytes(rows.drop_last(), revision)
    }
}

/// A length in four bytes.
fn length_be(n: usize) -> (r: Vec<u8>)
    ensures
        r@ == length_bytes(n as nat),
{
    let low: u32 = (n as u64 % 0x1_0000_0000) as u32;
    codec::u32_to_be(low)
}

/// What is hashed of rows at a revision.
pub fn hash_input(rows: &Vec<HashRow>, revision: i64) -> (r: Vec<u8>)
    ensures
        r@ == hashed_bytes(rows@, revision),
{
    let mut out: Vec<u8> = Vec::new();
    let mut i: usize = 0;
    assert(out@ =~= hashed_bytes(rows@.take(0), revision));
    while i < rows.len()
        invariant
            i <= rows@.len(),
            out@ == hashed_bytes(rows@.take(i as int), revision),
        decreases rows@.len() - i,
    {
        assert(rows@.take(i + 1).drop_last() =~= rows@.take(i as int));
        let row = &rows[i];
        if revision <= 0 || row.mod_revision <= revision {
            let ghost before = out@;
            let mut k = length_be(row.key.len());
            let mut key = copy_bytes(row.key.as_slice());
            let mut v = length_be(row.value.len());
            let mut value = copy_bytes(row.value.as_slice());
            out.append(&mut k);
            out.append(&mut key);
            out.append(&mut v);
            out.append(&mut value);
            assert(out@ =~= before + row_bytes(*row));
        }
        i += 1;
    }
    assert(rows@.take(i as int) =~= rows@);
    out
}

/// A digest folded into 32 bits: its lower ones, which are its last four
/// bytes, most significant first.
pub fn fold_digest(digest: &[u8]) -> (r: u32)
    requires
        digest@.len() >= 4,
    ensures
        r == codec::from_be(digest@.skip(digest@.len() - 4)),
{
    let tail = vstd::slice::slice_subrange(digest, digest.len() - 4, digest.len());
    assert(tail@ =~= digest@.skip(digest@.len() - 4));
    let x = codec::u64_from_be(tail);
    proof {
        codec::law_be_writes_back(tail@);
        codec::lemma_four_bytes();
    }
    x as u32
}

/// The hash of rows at a revision.
pub open spec fn table_hash(rows: Seq<HashRow>, revision: i64) -> u32 {
    codec::from_be(crypto::sha256_of(hashed_bytes(rows, revision)).skip(28)) as u32
}

/// The hash of the stored rows at a revision.
pub fn hash_kv_table(rows: &Vec<HashRow>, revision: i64) -> (r: u32)
    ensures
        r == table_hash(rows@, revision),
        r == codec::from_be(crypto::sha256_of(hashed_bytes(rows@, revision)).skip(28)),
{
    let input = hash_input(rows, revision);
    let digest = sha256(input.as_slice());
    fold_digest(digest.as_slice())
}

/// Nodes that hold the same rows have the same hash, whatever was written
/// after the revision that is asked for.
pub proof fn law_hash_ignores_later_writes(rows: Seq<HashRow>, later: HashRow, revision: i64)
    requires
        revision > 0,
        later.mod_revision > revision,
    ensures
        hashed_bytes(rows.push(later), revision) == hashed_bytes(rows, revision),
{
    assert(rows.push(later).drop_last() =~= rows);
}

/// The size of a piece of the snapshot stream.
pub const SNAPSHOT_CHUNK: usize = 65_536;

/// The pieces of a snapshot are its bytes in order: full ones but for the
/// last, each with what is left after it.
pub open spec fn are_chunks_of(chunks: Seq<SnapshotChunk>, data: Seq<u8>) -> bool {
    &&& chunks.len() * SNAPSHOT_CHUNK >= data.len()
    &&& (chunks.len() - 1) * SNAPSHOT_CHUNK < data.len() || chunks.len() == 0
    &&& forall|i: int|
        0 <= i < chunks.len() ==> {
            let end = if (i + 1) * SNAPSHOT_CHUNK <= data.len() {
                (i + 1) * SNAPSHOT_CHUNK
            } else {
                data.len() as int
            };
            (#[trigger] chunks[i]).blob@ == data.subrange(i * SNAPSHOT_CHUNK, end)
                && chunks[i].remaining_bytes == data.len() - end
        }
}

/// Every piece carries the header and the version.
pub open spec fn are_stamped(chunks: Seq<SnapshotChunk>, header: ResponseHeader) -> bool {
    forall|i: int|
        0 <= i < chunks.len() ==> (#[trigger] chunks[i]).header == header && chunks[i].version@
            == compat_version()
}

impl MaintenanceService {
    /// Cut a snapshot into the pieces of the stream, at the current
    /// revision.
    pub fn snapshot(&self, data: &Vec<u8>, revision: i64) -> (r: Vec<SnapshotChunk>)
        ensures
            are_chunks_of(r@, data@),
            are_stamped(r@, state::header_of(self.state, revision)),
    {
        let header = response_header(&self.state, revision);
        let total: usize = data.len();
        let mut out: Vec<SnapshotChunk> = Vec::new();
        let mut sent: usize = 0;
        while sent < total
            invariant
                sent <= total == data@.len(),
                sent == out@.len() * SNAPSHOT_CHUNK || (sent == total && out@.len() * SNAPSHOT_CHUNK
                    > total),
                out@.len() > 0 ==> (out@.len() - 1) * SNAPSHOT_CHUNK < total,
                are_stamped(out@, header),
                forall|i: int|
                    0 <= i < out@.len() ==> {
                        let end = if (i + 1) * SNAPSHOT_CHUNK <= data@.len() {
                            (i + 1) * SNAPSHOT_CHUNK
                        } else {
                            data@.len() as int
                        };
                        (#[trigger] out@[i]).blob@ == data@.subrange(i * SNAPSHOT_CHUNK, end)
                            && out@[i].remaining_bytes == data@.len() - end
                    },
            decreases total - sent,
        {
            let end: usize = if total - sent > SNAPSHOT_CHUNK {
                sent + SNAPSHOT_CHUNK
            } else {
                total
            };
            let blob = copy_bytes(vstd::slice::slice_subrange(data.as_slice(), sent, end));
            out.push(
                SnapshotChunk {
                    header,
                    remaining_bytes: (total - end) as u64,
                    blob,
                    version: String::from_str("3.6.0"),
                },
            );
            sent = end;
        }
        out
    }
}

/// The pieces of a snapshot, one after the other, are the snapshot.
pub proof fn law_chunks_join_to_the_snapshot(chunks: Seq<SnapshotChunk>, data: Seq<u8>)
    requires
        are_chunks_of(chunks, data),
    ensures
        joined(chunks) == data,
        chunks.len() > 0 ==> chunks.last().remaining_bytes == 0,
        forall|i: int| 0 <= i < chunks.len() ==> 0 < (#[trigger] chunks[i]).blob@.len()
            <= SNAPSHOT_CHUNK,
{
    lemma_joined_prefix(chunks, data, chunks.len() as int);
    assert(chunks.take(chunks.len() as int) =~= chunks);
    if chunks.len() > 0 {
        assert(chunks[chunks.len() - 1].blob@.len() >= 0);
        assert(data.take(data.len() as int) =~= data);
    } else {
        assert(data =~= seq![]);
    }
    assert forall|i: int| 0 <= i < chunks.len() implies 0 < (#[trigger] chunks[i]).blob@.len()
        <= SNAPSHOT_CHUNK by {
        assert(i * SNAPSHOT_CHUNK <= (chunks.len() - 1) * SNAPSHOT_CHUNK);
    }
}

/// The bytes of pieces, one after the other.
pub open spec fn joined(chunks: Seq<SnapshotChunk>) -> Seq<u8>
    decreases chunks.len(),
{
    if chunks.len() == 0 {
        seq![]
    } else {
        joined(chunks.drop_last()) + chunks.last().blob@
    }
}

proof fn lemma_joined_prefix(chunks: Seq<SnapshotChunk>, data: Seq<u8>, n: int)
    requires
        are_chunks_of(chunks, data),
        0 <= n <= chunks.len(),
    ensures
        joined(chunks.take(n)) == data.take(
            if n * SNAPSHOT_CHUNK <= data.len() {
                n * SNAPSHOT_CHUNK
            } else {
                data.len() as int
            },
        ),
    decreases n,
{
    if n == 0 {
        assert(joined(chunks.take(0)) =~= data.take(0));
    } else {
        lemma_joined_prefix(chunks, data, n - 1);
        assert(chunks.take(n).drop_last() =~= chunks.take(n - 1));
        let end = if n * SNAPSHOT_CHUNK <= data.len() {
            n * SNAPSHOT_CHUNK
        } else {
            data.len() as int
        };
        assert((n - 1) * SNAPSHOT_CHUNK <= (chunks.len() - 1) * SNAPSHOT_CHUNK);
        assert(chunks[n - 1].blob@ == data.subrange((n - 1) * SNAPSHOT_CHUNK, end));
        assert(data.take((n - 1) * SNAPSHOT_CHUNK) + data.subrange(
            (n - 1) * SNAPSHOT_CHUNK,
            end,
        ) =~= data.take(end));
    }
}

/// A hash takes rows in one by one: a row counts where no revision is
/// asked for or it was written no later; one that does not count leaves
/// the hash as it is.
pub proof fn law_hash_takes_rows_one_by_one(rows: Seq<HashRow>, row: HashRow, revision: i64)
    ensures
        hashed_bytes(seq![], revision).len() == 0,
        revision <= 0 || row.mod_revision <= revision ==> hashed_bytes(rows.push(row), revision)
            == hashed_bytes(rows, revision) + row_bytes(row),
        revision > 0 && row.mod_revision > revision ==> hashed_bytes(rows.push(row), revision)
            == hashed_bytes(rows, revision),
{
    assert(rows.push(row).drop_last() =~= rows);
}

/// A length is written in four bytes and reads back, where it fits.
pub proof fn law_length_reads_back(n: nat)
    requires
        n < 0x1_0000_0000,
    ensures
        length_bytes(n).len() == 4,
        codec::from_be(length_bytes(n)) == n,
{
    codec::lemma_four_bytes();
    codec::lemma_be_len(n, 4);
    codec::law_be_reads_back(n, 4);
}

/// What is hashed of a row is the length and the bytes of its key, then
/// those of its value, so rows that differ in either are hashed from
/// different bytes.
pub proof fn law_different_rows_are_hashed_apart(a: HashRow, b: HashRow)
    requires
        a.key@.len() < 0x1_0000_0000,
        b.key@.len() < 0x1_0000_0000,
        a.value@.len() < 0x1_0000_0000,
        b.value@.len() < 0x1_0000_0000,
    ensures
        row_bytes(a).len() == 8 + a.key@.len() + a.value@.len(),
        row_bytes(a).subrange(4, 4 + a.key@.len() as int) == a.key@,
        row_bytes(a).skip(8 + a.key@.len() as int) == a.value@,
        row_bytes(a) == row_bytes(b) ==> a.key@ == b.key@ && a.value@ == b.value@,
{
    law_length_reads_back(a.key@.len());
    law_length_reads_back(b.key@.len());
    law_length_reads_back(a.value@.len());
    law_length_reads_back(b.value@.len());
    assert(row_bytes(a).subrange(4, 4 + a.key@.len() as int) =~= a.key@);
    assert(row_bytes(a).skip(8 + a.key@.len() as int) =~= a.value@);
    assert(row_bytes(b).subrange(4, 4 + b.key@.len() as int) =~= b.key@);
    assert(row_bytes(b).skip(8 + b.key@.len() as int) =~= b.value@);
    assert(row_bytes(a).take(4) =~= length_bytes(a.key@.len()));
    assert(row_bytes(b).take(4) =~= length_bytes(b.key@.len()));
}

/// The hash of a table is the last four bytes of the digest of what is
/// hashed, the first of them the most significant.
pub proof fn law_table_hash_is_the_end_of_the_digest(rows: Seq<HashRow>, revision: i64)
    requires
        crypto::sha256_of(hashed_bytes(rows, revision)).len() == 32,
    ensures
        ({
            let d = crypto::sha256_of(hashed_bytes(rows, revision));
            table_hash(rows, revision) as int == d[28] * 0x100_0000 + d[29] * 0x1_0000 + d[30]
                * 0x100 + d[31]
        }),
{
    let d = crypto::sha256_of(hashed_bytes(rows, revision));
    let s = d.skip(28);
    let s3 = s.drop_last();
    let s2 = s3.drop_last();
    let s1 = s2.drop_last();
    assert(s.len() == 4 && s3.len() == 3 && s2.len() == 2 && s1.len() == 1);
    assert(s1.drop_last().len() == 0);
    assert(s.last() == d[31] && s3.last() == d[30] && s2.last() == d[29] && s1.last() == d[28]);
    assert(codec::from_be(s1.drop_last()) == 0);
    assert(codec::from_be(s1) == d[28]);
    assert(codec::from_be(s2) == codec::from_be(s1) * 256 + d[29]);
    assert(codec::from_be(s3) == codec::from_be(s2) * 256 + d[30]);
    assert(codec::from_be(s) == codec::from_be(s3) * 256 + d[31]);
}

/// Every piece of a snapshot but the last is full, and each says how much
/// of the snapshot comes after it.
pub proof fn law_pieces_say_what_is_left(chunks: Seq<SnapshotChunk>, data: Seq<u8>, i: int)
    requires
        are_chunks_of(chunks, data),
        0 <= i < chunks.len(),
    ensures
        SNAPSHOT_CHUNK == 64 * 1024,
        i < chunks.len() - 1 ==> chunks[i].blob@.len() == 65_536,
        i * 65_536 + chunks[i].blob@.len() + chunks[i].remaining_bytes == data.len(),
        forall|j: int|
            0 <= j < chunks[i].blob@.len() ==> #[trigger] chunks[i].blob@[j] == data[i * 65_536
                + j],
{
    law_chunks_join_to_the_snapshot(chunks, data);
    assert(0 < chunks[i].blob@.len());
    if i < chunks.len() - 1 {
        assert((i + 1) * SNAPSHOT_CHUNK <= (chunks.len() - 1) * SNAPSHOT_CHUNK)
            by (nonlinear_arith)
            requires
                i + 1 <= chunks.len() - 1,
        ;
    }
    assert((i + 1) * SNAPSHOT_CHUNK == i * SNAPSHOT_CHUNK + SNAPSHOT_CHUNK);
}

/// Every piece carries the header of the stream and the version that is
/// reported everywhere.
pub proof fn law_pieces_are_stamped(chunks: Seq<SnapshotChunk>, header: ResponseHeader, i: int)
    requires
        are_stamped(chunks, header),
        0 <= i < chunks.len(),
    ensures
        chunks[i].header == header,
        chunks[i].version@ == "3.6.0"@,
        compat_version() == "3.6.0"@,
{
}

/// Pieces are joined one after the other.
pub proof fn law_pieces_are_joined_in_order(chunks: Seq<SnapshotChunk>, c: SnapshotChunk)
    ensures
        joined(seq![]).len() == 0,
        joined(chunks.push(c)) == joined(chunks) + c.blob@,
{
    assert(chunks.push(c).drop_last() =~= chunks);
}

} // verus!
