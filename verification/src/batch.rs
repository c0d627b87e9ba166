//! Batches of writes to the tables of the storage engine, and what they
//! leave behind.

use vstd::prelude::*;
use crate::lex;

verus! {

/// The tables that this library writes.
#[derive(Debug, Clone, Copy, PartialEq, Eq, Structural)]
pub enum Table {
    /// Replicated log entries by index.
    RaftLog,
    /// Vote, commit position and purge position of the log.
    RaftMeta,
    /// Stored records.
    MvccKv,
    /// Index of the stored records.
    MvccIdx,
    /// Counters and applied position of the store.
    MvccMeta,
}

impl Table {
    /// The name of the table in the engine.
    pub open spec fn named(self) -> Seq<char> {
        match self {
            Table::RaftLog => "raft_log"@,
            Table::RaftMeta => "raft_meta"@,
            Table::MvccKv => "mvcc_kv"@,
            Table::MvccIdx => "mvcc_idx"@,
            Table::MvccMeta => "mvcc_meta"@,
        }
    }

    /// The name of the table in the engine.
    pub fn name(&self) -> (r: &'static str)
        ensures
            r@ == self.named(),
    {
        match self {
            Table::RaftLog => "raft_log",
            Table::RaftMeta => "raft_meta",
            Table::MvccKv => "mvcc_kv",
            Table::MvccIdx => "mvcc_idx",
            Table::MvccMeta => "mvcc_meta",
        }
    }
}

/// One write.
#[derive(Debug)]
pub enum BatchOp {
    /// Store a value under a key.
    Put { table: Table, key: Vec<u8>, value: Vec<u8> },
    /// Remove the keys from `start` up to, and without, `end`.
    DeleteRange { table: Table, start: Vec<u8>, end: Vec<u8> },
    /// Remove every key.
    Clear { table: Table },
}

/// One write, as a value.
#[verifier::ext_equal]
pub enum Write {
    Put { table: Table, key: Seq<u8>, value: Seq<u8> },
    DeleteRange { table: Table, start: Seq<u8>, end: Seq<u8> },
    Clear { table: Table },
}

impl View for BatchOp {
    type V = Write;

    open spec fn view(&self) -> Write {
        match *self {
            BatchOp::Put { table, key, value } => Write::Put { table, key: key@, value: value@ },
            BatchOp::DeleteRange { table, start, end } => Write::DeleteRange {
                table,
                start: start@,
                end: end@,
            },
            BatchOp::Clear { table } => Write::Clear { table },
        }
    }
}

/// Writes that land together or not at all.
#[derive(Debug)]
pub struct WriteBatch {
    pub ops: Vec<BatchOp>,
}

/// The writes of a list of operations.
pub open spec fn writes(ops: Seq<BatchOp>) -> Seq<Write> {
    ops.map_values(|o: BatchOp| o@)
}

impl View for WriteBatch {
    type V = Seq<Write>;

    open spec fn view(&self) -> Seq<Write> {
        writes(self.ops@)
    }
}

impl WriteBatch {
    /// No writes.
    pub fn new() -> (r: WriteBatch)
        ensures
            r@ == Seq::<Write>::empty(),
    {
        let r = WriteBatch { ops: Vec::new() };
        assert(r@ =~= Seq::<Write>::empty());
        r
    }

    /// Add the storing of a value.
    pub fn put(&mut self, table: Table, key: &[u8], value: &[u8])
        ensures
            final(self)@ == old(self)@.push(Write::Put { table, key: key@, value: value@ }),
    {
        let op = BatchOp::Put { table, key: lex::copy_bytes(key), value: lex::copy_bytes(value) };
        self.ops.push(op);
        assert(self@ =~= old(self)@.push(Write::Put { table, key: key@, value: value@ }));
    }

    /// Add the removal of a range of keys.
    pub fn delete_range(&mut self, table: Table, start: &[u8], end: &[u8])
        ensures
            final(self)@ == old(self)@.push(
                Write::DeleteRange { table, start: start@, end: end@ },
            ),
    {
        let op = BatchOp::DeleteRange {
            table,
            start: lex::copy_bytes(start),
            end: lex::copy_bytes(end),
        };
        self.ops.push(op);
        assert(self@ =~= old(self)@.push(
            Write::DeleteRange { table, start: start@, end: end@ },
        ));
    }

    /// Add the removal of every key of a table.
    pub fn clear(&mut self, table: Table)
        ensures
            final(self)@ == old(self)@.push(Write::Clear { table }),
    {
        self.ops.push(BatchOp::Clear { table });
        assert(self@ =~= old(self)@.push(Write::Clear { table }));
    }
}

/// A key lies in the half-open range of a removal.
pub open spec fn between(start: Seq<u8>, key: Seq<u8>, end: Seq<u8>) -> bool {
    lex::lex_le(start, key) && lex::lex_lt(key, end)
}

/// What one key holds after one write.
pub open spec fn row_after_one(before: Option<Seq<u8>>, w: Write, t: Table, k: Seq<u8>) -> Option<
    Seq<u8>,
> {
    match w {
        Write::Put { table, key, value } => if table == t && key == k {
            Some(value)
        } else {
            before
        },
        Write::DeleteRange { table, start, end } => if table == t && between(start, k, end) {
            None
        } else {
            before
        },
        Write::Clear { table } => if table == t {
            None
        } else {
            before
        },
    }
}

/// What one key holds after a batch.
pub open spec fn row_after(before: Option<Seq<u8>>, ws: Seq<Write>, t: Table, k: Seq<u8>) -> Option<
    Seq<u8>,
>
    decreases ws.len(),
{
    if ws.len() == 0 {
        before
    } else {
        row_after_one(row_after(before, ws.drop_last(), t, k), ws.last(), t, k)
    }
}

/// What a batch leaves after another is what the two leave as one.
pub proof fn lemma_row_after_concat(
    before: Option<Seq<u8>>,
    a: Seq<Write>,
    b: Seq<Write>,
    t: Table,
    k: Seq<u8>,
)
    ensures
        row_after(before, a + b, t, k) == row_after(row_after(before, a, t, k), b, t, k),
    decreases b.len(),
{
    if b.len() == 0 {
        assert(a + b =~= a);
    } else {
        lemma_row_after_concat(before, a, b.drop_last(), t, k);
        assert((a + b).drop_last() =~= a + b.drop_last());
    }
}

/// One write, added last, is applied last.
pub proof fn lemma_row_after_push(
    before: Option<Seq<u8>>,
    ws: Seq<Write>,
    w: Write,
    t: Table,
    k: Seq<u8>,
)
    ensures
        row_after(before, ws.push(w), t, k) == row_after_one(row_after(before, ws, t, k), w, t, k),
{
    assert(ws.push(w).drop_last() =~= ws);
}

/// Each table has its own name in the engine.
pub proof fn law_tables_go_by_their_names(t: Table)
    ensures
        t is RaftLog ==> t.named() == "raft_log"@,
        t is RaftMeta ==> t.named() == "raft_meta"@,
        t is MvccKv ==> t.named() == "mvcc_kv"@,
        t is MvccIdx ==> t.named() == "mvcc_idx"@,
        t is MvccMeta ==> t.named() == "mvcc_meta"@,
{
}

/// A write is what its fields hold, and a batch its writes in order.
pub proof fn law_write_is_what_it_holds(b: WriteBatch, i: int)
    requires
        0 <= i < b.ops@.len(),
    ensures
        b@.len() == b.ops@.len(),
        b.ops@[i] matches BatchOp::Put { table, key, value } ==> (b@[i] matches Write::Put {
            table: t,
            key: k,
            value: v,
        } && t == table && k == key@ && v == value@),
        b.ops@[i] matches BatchOp::DeleteRange { table, start, end } ==> (b@[i] matches
            Write::DeleteRange { table: t, start: s, end: e } && t == table && s == start@ && e
            == end@),
        b.ops@[i] matches BatchOp::Clear { table } ==> (b@[i] matches Write::Clear { table: t }
            && t == table),
{
}

/// A write touches the rows it names and no other: a put its own key, a
/// removal the keys from its start up to and without its end, a clearing
/// every key of its table; and none a row of another table.
pub proof fn law_write_touches_the_rows_it_names(
    before: Option<Seq<u8>>,
    table: Table,
    other: Table,
    key: Seq<u8>,
    value: Seq<u8>,
    start: Seq<u8>,
    end: Seq<u8>,
    k: Seq<u8>,
)
    requires
        other != table,
    ensures
        row_after_one(before, Write::Put { table, key, value }, table, key) == Some(value),
        k != key ==> row_after_one(before, Write::Put { table, key, value }, table, k) == before,
        row_after_one(before, Write::Put { table, key, value }, other, k) == before,
        !lex::lex_lt(k, start) && lex::lex_lt(k, end) ==> row_after_one(
            before,
            Write::DeleteRange { table, start, end },
            table,
            k,
        ) is None,
        lex::lex_lt(k, start) || !lex::lex_lt(k, end) ==> row_after_one(
            before,
            Write::DeleteRange { table, start, end },
            table,
            k,
        ) == before,
        row_after_one(before, Write::DeleteRange { table, start, end }, other, k) == before,
        row_after_one(before, Write::Clear { table }, table, k) is None,
        row_after_one(before, Write::Clear { table }, other, k) == before,
{
}

/// A batch is applied write by write, in order.
pub proof fn law_batch_is_applied_in_order(
    before: Option<Seq<u8>>,
    ws: Seq<Write>,
    w: Write,
    t: Table,
    k: Seq<u8>,
)
    ensures
        row_after(before, seq![], t, k) == before,
        row_after(before, ws.push(w), t, k) == row_after_one(row_after(before, ws, t, k), w, t, k),
{
    assert(ws.push(w).drop_last() =~= ws);
}

} // verus!
