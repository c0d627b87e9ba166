//! The replicated log over the storage engine: which rows each operation
//! writes, and how the rows read back.

use vstd::prelude::*;
use crate::batch::{self, Table, Write, WriteBatch};
use crate::codec;
use crate::lex;
use crate::log_store::Vote;
use crate::types::LogId;

verus! {

/// An entry of the log with its payload in stored form.
#[derive(Debug)]
pub struct EncodedEntry {
    pub index: u64,
    pub bytes: Vec<u8>,
}

/// How far the log reaches and how much of it was purged.
#[derive(Debug, Clone, Copy, PartialEq, Eq, Structural)]
pub struct LogState {
    pub last_purged_log_id: Option<LogId>,
    pub last_log_id: Option<LogId>,
}

/// One end of a range of indices.
#[derive(Debug, Clone, Copy, PartialEq, Eq, Structural)]
pub enum IndexBound {
    Included(u64),
    Excluded(u64),
    Unbounded,
}

/// One end of a range of row keys.
#[derive(Debug)]
pub enum KeyBound {
    Included(Vec<u8>),
    Excluded(Vec<u8>),
    Unbounded,
}

/// The row key of an index.
pub open spec fn key_of(index: u64) -> Seq<u8> {
    codec::be(index as nat, 8)
}

/// The row key of an index: eight bytes, most significant first.
pub fn idx_key(index: u64) -> (r: Vec<u8>)
    ensures
        r@ == key_of(index),
        r@.len() == 8,
{
    codec::u64_to_be(index)
}

/// Row keys are ordered as the indices are, and no two indices share one.
pub proof fn law_row_keys_keep_order(a: u64, b: u64)
    ensures
        lex::lex_lt(key_of(a), key_of(b)) <==> a < b,
        key_of(a) == key_of(b) <==> a == b,
{
    codec::lemma_u64_fits(a);
    codec::lemma_u64_fits(b);
    codec::law_be_keeps_order(a as nat, b as nat, 8);
    codec::law_be_keeps_order(b as nat, a as nat, 8);
    lex::lemma_lex_irreflexive(key_of(a));
}

/// The row of the vote.
pub open spec fn vote_key() -> Seq<u8> {
    seq![118u8, 111u8, 116u8, 101u8]
}

/// The row of the commit position.
pub open spec fn committed_key() -> Seq<u8> {
    seq![99u8, 111u8, 109u8, 109u8, 105u8, 116u8, 116u8, 101u8, 100u8]
}

/// The row of the purge position.
pub open spec fn purged_key() -> Seq<u8> {
    seq![
        108u8, 97u8, 115u8, 116u8, 95u8, 112u8, 117u8, 114u8, 103u8, 101u8, 100u8, 95u8, 108u8,
        111u8, 103u8, 95u8, 105u8, 100u8,
    ]
}

/// The row key of the vote.
pub fn meta_vote() -> (r: Vec<u8>)
    ensures
        r@ == vote_key(),
{
    vec![118u8, 111u8, 116u8, 101u8]
}

/// The row key of the commit position.
pub fn meta_committed() -> (r: Vec<u8>)
    ensures
        r@ == committed_key(),
{
    vec![99u8, 111u8, 109u8, 109u8, 105u8, 116u8, 116u8, 101u8, 100u8]
}

/// The row key of the purge position.
pub fn meta_last_purged() -> (r: Vec<u8>)
    ensures
        r@ == purged_key(),
{
    vec![
        108u8, 97u8, 115u8, 116u8, 95u8, 112u8, 117u8, 114u8, 103u8, 101u8, 100u8, 95u8, 108u8,
        111u8, 103u8, 95u8, 105u8, 100u8,
    ]
}

/// A number of bytes that are all ones.
pub open spec fn ones(n: nat) -> Seq<u8> {
    Seq::new(n, |i: int| 0xFFu8)
}

/// A number of bytes that are all ones.
pub fn ones_vec(n: usize) -> (r: Vec<u8>)
    ensures
        r@ == ones(n as nat),
{
    let mut r: Vec<u8> = Vec::new();
    let mut i: usize = 0;
    while i < n
        invariant
            i <= n,
            r@ == ones(i as nat),
        decreases n - i,
    {
        r.push(0xFFu8);
        i += 1;
        assert(r@ =~= ones(i as nat));
    }
    r
}

/// A string shorter than a run of ones comes before it.
pub proof fn lemma_below_ones(s: Seq<u8>, n: nat)
    requires
        s.len() < n,
    ensures
        lex::lex_lt(s, ones(n)),
    decreases s.len(),
{
    if s.len() > 0 {
        lemma_below_ones(s.skip(1), (n - 1) as nat);
        assert(ones(n).skip(1) =~= ones((n - 1) as nat));
    }
}

/// The writes that store entries.
pub open spec fn append_writes(entries: Seq<EncodedEntry>) -> Seq<Write> {
    entries.map_values(
        |e: EncodedEntry|
            Write::Put { table: Table::RaftLog, key: key_of(e.index), value: e.bytes@ },
    )
}

/// The writes that drop the log from an index on.
pub open spec fn truncate_writes(log_id: LogId) -> Seq<Write> {
    seq![Write::DeleteRange { table: Table::RaftLog, start: key_of(log_id.index), end: ones(9) }]
}

/// The writes that drop the log up to an index and record it.
pub open spec fn purge_writes(log_id: LogId) -> Seq<Write> {
    seq![
        Write::DeleteRange {
            table: Table::RaftLog,
            start: seq![],
            end: key_of(log_id.index).push(0u8),
        },
        Write::Put {
            table: Table::RaftMeta,
            key: purged_key(),
            value: codec::bare_bytes(log_id),
        },
    ]
}

/// The log store over the storage engine. It holds no state of its own:
/// each operation says which rows to read or to write.
#[derive(Debug, Clone, Copy, PartialEq, Eq, Structural)]
pub struct KvLogStore;

impl KvLogStore {
    /// A log store.
    pub fn new() -> (r: KvLogStore)
        ensures
            r == KvLogStore,
    {
        KvLogStore
    }

    /// The rows that a range of indices covers.
    pub fn row_bound(&self, b: IndexBound) -> (r: KeyBound)
        ensures
            match b {
                IndexBound::Included(i) => r is Included && r->Included_0@ == key_of(i),
                IndexBound::Excluded(i) => r is Excluded && r->Excluded_0@ == key_of(i),
                IndexBound::Unbounded => r is Unbounded,
            },
    {
        match b {
            IndexBound::Included(i) => KeyBound::Included(idx_key(i)),
            IndexBound::Excluded(i) => KeyBound::Excluded(idx_key(i)),
            IndexBound::Unbounded => KeyBound::Unbounded,
        }
    }

    /// How far the log reaches: to the last entry that is stored or,
    /// with none stored, to what was purged last.
    pub fn get_log_state(&self, last: Option<LogId>, last_purged: Option<LogId>) -> (r: LogState)
        ensures
            r.last_purged_log_id == last_purged,
            r.last_log_id == (if last is Some {
                last
            } else {
                last_purged
            }),
    {
        LogState {
            last_purged_log_id: last_purged,
            last_log_id: if last.is_some() {
                last
            } else {
                last_purged
            },
        }
    }

    /// Record a vote.
    pub fn save_vote(&self, vote: Vote) -> (r: WriteBatch)
        ensures
            r@ == seq![
                Write::Put {
                    table: Table::RaftMeta,
                    key: vote_key(),
                    value: codec::vote_bytes(vote),
                },
            ],
    {
        let bytes = codec::encode_vote(vote);
        let mut batch = WriteBatch::new();
        batch.put(Table::RaftMeta, meta_vote().as_slice(), bytes.as_slice());
        batch
    }

    /// The vote that a row holds; without a row there is none.
    pub fn read_vote(&self, row: Option<Vec<u8>>) -> (r: Result<Option<Vote>, String>)
        ensures
            match row {
                None => r is Ok && r->Ok_0 is None,
                Some(b) => match codec::read_vote(b@) {
                    None => r is Err && r->Err_0@ == codec::vote_refusal(b@),
                    Some(v) => r is Ok && r->Ok_0 == Some(v),
                },
            },
    {
        match row {
            None => Ok(None),
            Some(b) => match codec::decode_vote(b.as_slice()) {
                Ok(v) => Ok(Some(v)),
                Err(e) => Err(e),
            },
        }
    }

    /// Record the commit position.
    pub fn save_committed(&self, committed: Option<LogId>) -> (r: WriteBatch)
        ensures
            r@ == seq![
                Write::Put {
                    table: Table::RaftMeta,
                    key: committed_key(),
                    value: codec::optional_bytes(committed),
                },
            ],
    {
        let bytes = codec::encode_log_id(committed);
        let mut batch = WriteBatch::new();
        batch.put(Table::RaftMeta, meta_committed().as_slice(), bytes.as_slice());
        batch
    }

    /// The commit position that a row holds; without a row there is none.
    pub fn read_committed(&self, row: Option<Vec<u8>>) -> (r: Result<Option<LogId>, String>)
        ensures
            match row {
                None => r is Ok && r->Ok_0 is None,
                Some(b) => match codec::read_optional(b@) {
                    None => r is Err && r->Err_0@ == codec::optional_refusal(b@),
                    Some(l) => r is Ok && r->Ok_0 == l,
                },
            },
    {
        match row {
            None => Ok(None),
            Some(b) => codec::decode_log_id(b.as_slice()),
        }
    }

    /// The purge position that a row holds; without a row there is none.
    pub fn read_last_purged(&self, row: Option<Vec<u8>>) -> (r: Result<Option<LogId>, String>)
        ensures
            match row {
                None => r is Ok && r->Ok_0 is None,
                Some(b) => if b@.len() < 24 {
                    r is Err && r->Err_0@ == codec::bare_refusal(b@)
                } else {
                    r is Ok && r->Ok_0 == Some(codec::parts_at(b@, 0))
                },
            },
    {
        match row {
            None => Ok(None),
            Some(b) => match codec::decode_bare_log_id(b.as_slice()) {
                Ok(l) => Ok(Some(l)),
                Err(e) => Err(e),
            },
        }
    }

    /// Store entries under their indices, in one batch.
    pub fn append(&self, entries: &Vec<EncodedEntry>) -> (r: WriteBatch)
        ensures
            r@ == append_writes(entries@),
    {
        let mut batch = WriteBatch::new();
        let mut i: usize = 0;
        assert(batch@ =~= append_writes(entries@.take(0)));
        while i < entries.len()
            invariant
                i <= entries@.len(),
                batch@ == append_writes(entries@.take(i as int)),
            decreases entries@.len() - i,
        {
            let e = &entries[i];
            let ghost before = batch@;
            batch.put(Table::RaftLog, idx_key(e.index).as_slice(), e.bytes.as_slice());
            i += 1;
            assert(batch@ =~= append_writes(entries@.take(i as int)));
        }
        assert(entries@.take(i as int) =~= entries@);
        batch
    }

    /// Drop the entries from an index on.
    pub fn truncate(&self, log_id: LogId) -> (r: WriteBatch)
        ensures
            r@ == truncate_writes(log_id),
    {
        let start = idx_key(log_id.index);
        let end = ones_vec(9);
        let mut batch = WriteBatch::new();
        batch.delete_range(Table::RaftLog, start.as_slice(), end.as_slice());
        assert(batch@ =~= truncate_writes(log_id));
        batch
    }

    /// Drop the entries up to an index, and record it as purged.
    pub fn purge(&self, log_id: LogId) -> (r: WriteBatch)
        ensures
            r@ == purge_writes(log_id),
    {
        let start: Vec<u8> = Vec::new();
        let mut end = idx_key(log_id.index);
        end.push(0u8);
        let mut batch = WriteBatch::new();
        batch.delete_range(Table::RaftLog, start.as_slice(), end.as_slice());
        let bytes = codec::encode_bare_log_id(log_id);
        batch.put(Table::RaftMeta, meta_last_purged().as_slice(), bytes.as_slice());
        assert(start@ =~= seq![]);
        assert(batch@ =~= purge_writes(log_id));
        batch
    }
}

/// Truncation removes the entries from the index on and keeps every
/// other row.
pub proof fn law_truncate_drops_the_tail(
    log_id: LogId,
    i: u64,
    t: Table,
    k: Seq<u8>,
    before: Option<Seq<u8>>,
)
    ensures
        batch::row_after(before, truncate_writes(log_id), Table::RaftLog, key_of(i)) == (if i
            < log_id.index {
            before
        } else {
            None
        }),
        t != Table::RaftLog ==> batch::row_after(before, truncate_writes(log_id), t, k) == before,
{
    let ws = truncate_writes(log_id);
    batch::lemma_row_after_push(before, seq![], ws[0], Table::RaftLog, key_of(i));
    batch::lemma_row_after_push(before, seq![], ws[0], t, k);
    assert(Seq::<Write>::empty().push(ws[0]) =~= ws);
    law_row_keys_keep_order(i, log_id.index);
    codec::lemma_be_len(i as nat, 8);
    lemma_below_ones(key_of(i), 9);
}

/// Purging removes the entries up to the index, keeps the later ones, and
/// leaves the purge position to be read back.
pub proof fn law_purge_drops_the_head(log_id: LogId, i: u64, before: Option<Seq<u8>>)
    ensures
        batch::row_after(before, purge_writes(log_id), Table::RaftLog, key_of(i)) == (if i
            > log_id.index {
            before
        } else {
            None
        }),
        batch::row_after(before, purge_writes(log_id), Table::RaftMeta, purged_key()) == Some(
            codec::bare_bytes(log_id),
        ),
        codec::bare_bytes(log_id).len() == 24,
        codec::parts_at(codec::bare_bytes(log_id), 0) == log_id,
{
    let ws = purge_writes(log_id);
    assert(ws =~= Seq::<Write>::empty().push(ws[0]).push(ws[1]));
    let first = Seq::<Write>::empty().push(ws[0]);
    batch::lemma_row_after_push(before, seq![], ws[0], Table::RaftLog, key_of(i));
    batch::lemma_row_after_push(before, first, ws[1], Table::RaftLog, key_of(i));
    batch::lemma_row_after_push(before, seq![], ws[0], Table::RaftMeta, purged_key());
    batch::lemma_row_after_push(before, first, ws[1], Table::RaftMeta, purged_key());
    law_row_keys_keep_order(log_id.index, i);
    lex::lemma_lex_successor(key_of(log_id.index), key_of(i));
    codec::law_bare_log_id_reads_back(log_id, seq![]);
    assert(codec::bare_bytes(log_id) + seq![] =~= codec::bare_bytes(log_id));
}

/// Each index reads back as the last entry that was appended under it;
/// the other indices keep what they held.
pub proof fn law_append_reads_back(entries: Seq<EncodedEntry>, i: u64, before: Option<Seq<u8>>)
    ensures
        batch::row_after(before, append_writes(entries), Table::RaftLog, key_of(i)) == appended(
            entries,
            i,
            before,
        ),
    decreases entries.len(),
{
    if entries.len() > 0 {
        law_append_reads_back(entries.drop_last(), i, before);
        let ws = append_writes(entries);
        assert(ws.drop_last() =~= append_writes(entries.drop_last()));
        law_row_keys_keep_order(i, entries.last().index);
    }
}

/// What an index holds after entries were appended.
pub open spec fn appended(
    entries: Seq<EncodedEntry>,
    i: u64,
    before: Option<Seq<u8>>,
) -> Option<Seq<u8>>
    decreases entries.len(),
{
    if entries.len() == 0 {
        before
    } else if entries.last().index == i {
        Some(entries.last().bytes@)
    } else {
        appended(entries.drop_last(), i, before)
    }
}

/// The rows of the vote, of the commit position and of the purge position
/// are those of the names `vote`, `committed` and `last_purged_log_id`, so
/// no two of them share a row.
pub proof fn law_positions_have_rows_of_their_own()
    ensures
        vote_key() == seq![0x76u8, 0x6fu8, 0x74u8, 0x65u8],
        committed_key() == seq![
            0x63u8,
            0x6fu8,
            0x6du8,
            0x6du8,
            0x69u8,
            0x74u8,
            0x74u8,
            0x65u8,
            0x64u8,
        ],
        purged_key().len() == 18,
        purged_key().take(11) == seq![
            0x6cu8,
            0x61u8,
            0x73u8,
            0x74u8,
            0x5fu8,
            0x70u8,
            0x75u8,
            0x72u8,
            0x67u8,
            0x65u8,
            0x64u8,
        ],
        purged_key().skip(11) == seq![0x5fu8, 0x6cu8, 0x6fu8, 0x67u8, 0x5fu8, 0x69u8, 0x64u8],
        vote_key() != committed_key(),
        vote_key() != purged_key(),
        committed_key() != purged_key(),
{
    assert(vote_key().len() == 4);
    assert(committed_key().len() == 9);
    assert(purged_key().len() == 18);
}

/// A row of an index is its eight bytes, most significant first, and comes
/// before every longer run of ones.
pub proof fn law_row_key_is_the_index(i: u64, n: nat, j: int)
    ensures
        key_of(i).len() == 8,
        codec::from_be(key_of(i)) == i,
        ones(n).len() == n,
        0 <= j < n ==> ones(n)[j] == 0xffu8,
{
    codec::lemma_be_len(i as nat, 8);
    codec::lemma_u64_fits(i);
    codec::law_be_reads_back(i as nat, 8);
}

/// Purging records the position and touches nothing of the vote or of the
/// commit position; appending touches nothing but the log.
pub proof fn law_log_writes_leave_the_positions(
    log_id: LogId,
    entries: Seq<EncodedEntry>,
    before: Option<Seq<u8>>,
    t: Table,
    k: Seq<u8>,
)
    ensures
        batch::row_after(before, purge_writes(log_id), Table::RaftMeta, vote_key()) == before,
        batch::row_after(before, purge_writes(log_id), Table::RaftMeta, committed_key()) == before,
        t != Table::RaftLog && t != Table::RaftMeta ==> batch::row_after(
            before,
            purge_writes(log_id),
            t,
            k,
        ) == before,
        t != Table::RaftLog ==> batch::row_after(before, append_writes(entries), t, k) == before,
    decreases entries.len(),
{
    reveal_with_fuel(batch::row_after, 3);
    law_positions_have_rows_of_their_own();
    let ws = purge_writes(log_id);
    assert(ws.drop_last().drop_last() =~= seq![]);
    assert(ws.drop_last().last() == ws[0]);
    if entries.len() > 0 {
        law_log_writes_leave_the_positions(log_id, entries.drop_last(), before, t, k);
        assert(append_writes(entries).drop_last() =~= append_writes(entries.drop_last()));
    }
}

/// The last entry appended under an index is what the index holds; entries
/// under other indices do not matter.
pub proof fn law_last_appended_entry_counts(
    entries: Seq<EncodedEntry>,
    e: EncodedEntry,
    i: u64,
    before: Option<Seq<u8>>,
)
    ensures
        appended(seq![], i, before) == before,
        e.index == i ==> appended(entries.push(e), i, before) == Some(e.bytes@),
        e.index != i ==> appended(entries.push(e), i, before) == appended(entries, i, before),
{
    assert(entries.push(e).drop_last() =~= entries);
}

} // verus!
