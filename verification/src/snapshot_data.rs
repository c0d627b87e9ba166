//! A snapshot body: a file on the data volume, or bytes in memory when the
//! volume cannot hold one.
//!
//! The files themselves are read and written around the library. What is
//! held here is which of the two the body is, the bytes when they are in
//! memory, and what follows a write that failed.

use vstd::prelude::*;
use crate::lex::copy_bytes;
use crate::snapshot_store::{self, is_out_of_space, Platform};

verus! {

/// Where a body is.
#[derive(Debug)]
pub enum Body {
    /// A retained snapshot, open for reading.
    Retained,
    /// A temporary file that a snapshot is received into; whether the
    /// retained snapshots were already discarded to make room for it.
    Incoming { discarded: bool },
    /// Bytes in memory, and the place of the next read or write.
    Memory { bytes: Vec<u8>, pos: u64 },
}

/// A snapshot body.
#[derive(Debug)]
pub struct SnapshotFile {
    pub body: Body,
    pub seek_result: Option<Option<u64>>,
}

/// What installing a snapshot gets of its body.
#[derive(Debug)]
pub enum Content {
    /// A received file, to be renamed into place or deleted.
    Incoming,
    /// A file that must stay as it is.
    Retained,
    Memory(Vec<u8>),
}

/// What follows a write, or a part of one.
#[derive(Debug, Clone, Copy, PartialEq, Eq, Structural)]
pub enum WriteNext {
    /// The bytes are written.
    Done,
    /// Write them to the file.
    WriteToFile,
    /// Discard every retained snapshot, and write them to the file again
    /// at the same place.
    DiscardAndRetry,
    /// Read back what the file holds, and go on in memory.
    ReadBack,
    /// A retained snapshot is read-only.
    ReadOnly,
    /// The write fails with the error it met.
    Fail,
}

/// Where to move the place of the next read or write.
#[derive(Debug, Clone, Copy, PartialEq, Eq, Structural)]
pub enum SeekTo {
    Start(u64),
    End(i64),
    Current(i64),
}

/// Bytes with others written over them at a place; a gap is filled with
/// zeros.
pub open spec fn overlay(bytes: Seq<u8>, pos: nat, data: Seq<u8>) -> Seq<u8> {
    let end = pos + data.len();
    Seq::new(
        if bytes.len() > end {
            bytes.len()
        } else {
            end
        },
        |i: int|
            if pos <= i < end {
                data[i - pos]
            } else if i < bytes.len() {
                bytes[i]
            } else {
                0u8
            },
    )
}

/// The place that a move leads to, if there is one.
pub open spec fn sought(len: nat, pos: u64, to: SeekTo) -> Option<u64> {
    let at = match to {
        SeekTo::Start(n) => n as int,
        SeekTo::End(off) => len + off,
        SeekTo::Current(off) => pos + off,
    };
    if 0 <= at <= u64::MAX {
        Some(at as u64)
    } else {
        None
    }
}

/// The bytes that a read of at most `n` gives.
pub open spec fn read_at(bytes: Seq<u8>, pos: u64, n: nat) -> Seq<u8> {
    if pos >= bytes.len() {
        seq![]
    } else if pos + n >= bytes.len() {
        bytes.skip(pos as int)
    } else {
        bytes.subrange(pos as int, pos + n)
    }
}

/// Write bytes over others at a place.
fn write_over(bytes: &mut Vec<u8>, pos: u64, data: &[u8])
    requires
        pos + data@.len() <= usize::MAX,
    ensures
        final(bytes)@ == overlay(old(bytes)@, pos as nat, data@),
{
    let ghost before = bytes@;
    let at: usize = pos as usize;
    while bytes.len() < at
        invariant
            at == pos,
            bytes@.len() >= before.len(),
            bytes@.len() <= at || bytes@ == before,
            bytes@.take(before.len() as int) == before,
            forall|i: int| before.len() <= i < bytes@.len() ==> #[trigger] bytes@[i] == 0,
        decreases at - bytes@.len(),
    {
        bytes.push(0u8);
        assert(bytes@.take(before.len() as int) =~= before);
    }
    let ghost padded = bytes@;
    assert(forall|i: int| 0 <= i < before.len() ==> padded[i] == padded.take(
        before.len() as int,
    )[i]);
    let mut i: usize = 0;
    while i < data.len()
        invariant
            i <= data@.len(),
            at == pos,
            pos + data@.len() <= usize::MAX,
            bytes@.len() == (if padded.len() > at + i {
                padded.len() as int
            } else {
                at + i
            }),
            padded.len() >= at,
            forall|j: int| 0 <= j < i ==> #[trigger] bytes@[at + j] == data@[j],
            forall|j: int|
                0 <= j < bytes@.len() && !(at <= j < at + i) ==> #[trigger] bytes@[j] == padded[j],
        decreases data@.len() - i,
    {
        let b: u8 = data[i];
        let ghost prior = bytes@;
        if at + i < bytes.len() {
            bytes.set(at + i, b);
        } else {
            bytes.push(b);
        }
        assert forall|j: int| 0 <= j < i + 1 implies #[trigger] bytes@[at + j] == data@[j] by {
            if j < i {
                assert(prior[at + j] == data@[j]);
            }
        }
        i += 1;
    }
    proof {
        let goal = overlay(before, pos as nat, data@);
        assert forall|j: int| 0 <= j < goal.len() implies bytes@[j] == goal[j] by {
            if at <= j < at + data@.len() {
                assert(bytes@[at + (j - at)] == data@[j - at]);
            }
        }
        assert(bytes@ =~= goal);
    }
}

impl SnapshotFile {
    /// The body is these bytes in memory, with the next read or write at
    /// this place.
    pub open spec fn holds(self, all: Seq<u8>, at: int) -> bool {
        self.body is Memory && self.body->bytes@ == all && self.body->pos == at
    }

    /// A body in memory, at its beginning.
    pub fn memory(bytes: Vec<u8>) -> (r: SnapshotFile)
        ensures
            r.body == (Body::Memory { bytes, pos: 0 }),
            r.seek_result is None,
    {
        SnapshotFile { body: Body::Memory { bytes, pos: 0 }, seek_result: None }
    }

    /// A retained snapshot, open for reading.
    pub fn retained() -> (r: SnapshotFile)
        ensures
            r.body == Body::Retained,
            r.seek_result is None,
    {
        SnapshotFile { body: Body::Retained, seek_result: None }
    }

    /// A temporary file to receive a snapshot into.
    pub fn incoming() -> (r: SnapshotFile)
        ensures
            r.body == (Body::Incoming { discarded: false }),
            r.seek_result is None,
    {
        SnapshotFile { body: Body::Incoming { discarded: false }, seek_result: None }
    }

    /// The body is in memory rather than in a file.
    pub fn is_in_memory(&self) -> (r: bool)
        ensures
            r == (self.body is Memory),
    {
        matches!(self.body, Body::Memory { .. })
    }

    /// Hand the body to the installing of it. A received file that could
    /// not be reopened gives no bytes.
    pub fn into_content(self, reopened: bool) -> (r: Content)
        ensures
            match self.body {
                Body::Retained => r is Retained,
                Body::Memory { bytes, .. } => r == Content::Memory(bytes),
                Body::Incoming { .. } => if reopened {
                    r is Incoming
                } else {
                    r is Memory && r->Memory_0@.len() == 0
                },
            },
    {
        match self.body {
            Body::Retained => Content::Retained,
            Body::Memory { bytes, .. } => Content::Memory(bytes),
            Body::Incoming { .. } => {
                if reopened {
                    Content::Incoming
                } else {
                    Content::Memory(Vec::new())
                }
            },
        }
    }

    /// Write bytes at the place of the next write. Memory takes them at
    /// once; a file is left to be written; a retained snapshot refuses.
    pub fn write(&mut self, data: &[u8]) -> (r: WriteNext)
        requires
            old(self).body matches Body::Memory { pos, .. } ==> pos + data@.len() <= usize::MAX,
        ensures
            final(self).seek_result == old(self).seek_result,
            match old(self).body {
                Body::Memory { bytes, pos } => r == WriteNext::Done && final(self).holds(
                    overlay(bytes@, pos as nat, data@),
                    pos + data@.len(),
                ),
                Body::Retained => r == WriteNext::ReadOnly && final(self).body == old(self).body,
                Body::Incoming { .. } => r == WriteNext::WriteToFile && final(self).body == old(
                    self,
                ).body,
            },
    {
        match &mut self.body {
            Body::Memory { bytes, pos } => {
                write_over(bytes, *pos, data);
                *pos = *pos + data.len() as u64;
                WriteNext::Done
            },
            Body::Retained => WriteNext::ReadOnly,
            Body::Incoming { .. } => WriteNext::WriteToFile,
        }
    }

    /// What follows a write to the file that failed: room is made once if
    /// the volume is full; otherwise what was received moves to memory.
    pub fn recover_write(&mut self, os: Platform, code: Option<i32>) -> (r: WriteNext)
        ensures
            final(self).seek_result == old(self).seek_result,
            match old(self).body {
                Body::Incoming { discarded } => if !discarded && snapshot_store::full_volume(
                    os,
                    code,
                ) {
                    r == WriteNext::DiscardAndRetry && final(self).body == (Body::Incoming {
                        discarded: true,
                    })
                } else {
                    r == WriteNext::ReadBack && final(self).body == old(self).body
                },
                _ => r == WriteNext::Fail && final(self).body == old(self).body,
            },
    {
        match &self.body {
            Body::Incoming { discarded } => {
                if is_out_of_space(os, code) && !*discarded {
                    self.body = Body::Incoming { discarded: true };
                    WriteNext::DiscardAndRetry
                } else {
                    WriteNext::ReadBack
                }
            },
            _ => WriteNext::Fail,
        }
    }

    /// Go on in memory with what was received so far, and write there what
    /// the file refused. Without the received bytes the write fails.
    pub fn fall_back_to_memory(
        &mut self,
        received: Option<Vec<u8>>,
        pos: u64,
        data: &[u8],
    ) -> (r: WriteNext)
        requires
            pos + data@.len() <= usize::MAX,
        ensures
            final(self).seek_result == old(self).seek_result,
            match (old(self).body, received) {
                (Body::Incoming { .. }, Some(bytes)) => r == WriteNext::Done && final(self).holds(
                    overlay(bytes@, pos as nat, data@),
                    pos + data@.len(),
                ),
                _ => r == WriteNext::Fail && final(self).body == old(self).body,
            },
    {
        if !matches!(self.body, Body::Incoming { .. }) {
            return WriteNext::Fail;
        }
        match received {
            None => WriteNext::Fail,
            Some(bytes) => {
                let mut all = bytes;
                write_over(&mut all, pos, data);
                self.body = Body::Memory { bytes: all, pos: pos + data.len() as u64 };
                WriteNext::Done
            },
        }
    }

    /// Read at most `n` bytes of a body in memory; a file is left to be
    /// read.
    pub fn read(&mut self, n: usize) -> (r: Option<Vec<u8>>)
        ensures
            final(self).seek_result == old(self).seek_result,
            match old(self).body {
                Body::Memory { bytes, pos } => r is Some && r->0@ == read_at(
                    bytes@,
                    pos,
                    n as nat,
                ) && final(self).body == (Body::Memory {
                    bytes,
                    pos: (pos + r->0@.len()) as u64,
                }),
                _ => r is None && final(self).body == old(self).body,
            },
    {
        match &mut self.body {
            Body::Memory { bytes, pos } => {
                let len: usize = bytes.len();
                if *pos >= len as u64 {
                    let none: Vec<u8> = Vec::new();
                    assert(none@ =~= read_at(bytes@, *pos, n as nat));
                    return Some(none);
                }
                let start: usize = *pos as usize;
                let end: usize = if n >= len - start {
                    len
                } else {
                    start + n
                };
                let piece = copy_bytes(vstd::slice::slice_subrange(bytes.as_slice(), start, end));
                assert(piece@ =~= read_at(bytes@, *pos, n as nat));
                *pos = end as u64;
                Some(piece)
            },
            _ => None,
        }
    }

    /// Start a move of the place of the next read or write. The answer
    /// says whether the file is left to be moved.
    pub fn start_seek(&mut self, to: SeekTo) -> (file: bool)
        ensures
            match old(self).body {
                Body::Memory { bytes, pos } => !file && final(self).seek_result == Some(
                    sought(bytes@.len(), pos, to),
                ) && final(self).body == (Body::Memory {
                    bytes,
                    pos: match sought(bytes@.len(), pos, to) {
                        Some(p) => p,
                        None => pos,
                    },
                }),
                _ => file && *final(self) == *old(self),
            },
    {
        match &mut self.body {
            Body::Memory { bytes, pos } => {
                let found: Option<u64> = match to {
                    SeekTo::Start(n) => Some(n),
                    SeekTo::End(off) => add_offset(bytes.len() as u64, off),
                    SeekTo::Current(off) => add_offset(*pos, off),
                };
                if let Some(p) = found {
                    *pos = p;
                }
                self.seek_result = Some(found);
                false
            },
            _ => true,
        }
    }

    /// Record where a move of the file led; `None` where it failed.
    pub fn file_sought(&mut self, result: Option<u64>)
        ensures
            final(self).seek_result == Some(result),
            final(self).body == old(self).body,
    {
        self.seek_result = Some(result);
    }

    /// The outcome of the last move, once; afterwards the place itself. A
    /// file's own place is handed in.
    pub fn poll_complete(&mut self, file_position: Option<u64>) -> (r: Option<u64>)
        ensures
            final(self).seek_result is None,
            final(self).body == old(self).body,
            r == (match old(self).seek_result {
                Some(result) => result,
                None => match old(self).body {
                    Body::Memory { pos, .. } => Some(pos),
                    _ => file_position,
                },
            }),
    {
        let waiting = self.seek_result;
        self.seek_result = None;
        match waiting {
            Some(result) => result,
            None => match &self.body {
                Body::Memory { pos, .. } => Some(*pos),
                _ => file_position,
            },
        }
    }
}

/// A place moved by an offset, if it stays one.
fn add_offset(base: u64, off: i64) -> (r: Option<u64>)
    ensures
        r == (if 0 <= base + off <= u64::MAX {
            Some((base + off) as u64)
        } else {
            None
        }),
{
    let at: i128 = base as i128 + off as i128;
    if at >= 0 && at <= 0xFFFF_FFFF_FFFF_FFFFi128 {
        Some(at as u64)
    } else {
        None
    }
}

/// What was received before a place is still there after bytes are written
/// at that place, and the bytes are read back from it.
pub proof fn law_falling_back_loses_nothing(received: Seq<u8>, pos: u64, data: Seq<u8>)
    requires
        pos <= received.len(),
    ensures
        overlay(received, pos as nat, data).take(pos as int) == received.take(pos as int),
        read_at(overlay(received, pos as nat, data), pos, data.len()) == data,
        pos == received.len() ==> overlay(received, pos as nat, data) == received + data,
{
    let r = overlay(received, pos as nat, data);
    assert(r.take(pos as int) =~= received.take(pos as int));
    assert(read_at(r, pos, data.len()) =~= data);
    if pos == received.len() {
        assert(r =~= received + data);
    }
}

/// Writing bytes over others puts each where it was to go, keeps every
/// other where it was, and fills a gap with zeros.
pub proof fn law_overlay_replaces_what_is_under_it(
    bytes: Seq<u8>,
    pos: nat,
    data: Seq<u8>,
    i: int,
)
    ensures
        overlay(bytes, pos, data).len() >= bytes.len(),
        overlay(bytes, pos, data).len() >= pos + data.len(),
        overlay(bytes, pos, data).len() == bytes.len() || overlay(bytes, pos, data).len() == pos
            + data.len(),
        0 <= i < data.len() ==> overlay(bytes, pos, data)[pos + i] == data[i],
        0 <= i < bytes.len() && (i < pos || i >= pos + data.len()) ==> overlay(
            bytes,
            pos,
            data,
        )[i] == bytes[i],
        bytes.len() <= i < pos ==> overlay(bytes, pos, data)[i] == 0,
{
}

/// A move leads from the start, from the end or from the present place by
/// what it says, and nowhere where that is no place.
pub proof fn law_move_leads_where_it_says(len: nat, pos: u64, n: u64, off: i64)
    ensures
        sought(len, pos, SeekTo::Start(n)) == Some(n),
        0 <= len + off <= u64::MAX ==> sought(len, pos, SeekTo::End(off)) == Some(
            (len + off) as u64,
        ),
        len + off < 0 || len + off > u64::MAX ==> sought(len, pos, SeekTo::End(off)) is None,
        0 <= pos + off <= u64::MAX ==> sought(len, pos, SeekTo::Current(off)) == Some(
            (pos + off) as u64,
        ),
        pos + off < 0 || pos + off > u64::MAX ==> sought(len, pos, SeekTo::Current(off)) is None,
{
}

/// A read gives what stands from its place on, as much as it asks for or
/// as there is.
pub proof fn law_read_gives_what_stands_there(bytes: Seq<u8>, pos: u64, n: nat, i: int)
    ensures
        pos >= bytes.len() ==> read_at(bytes, pos, n).len() == 0,
        pos < bytes.len() && pos + n <= bytes.len() ==> read_at(bytes, pos, n).len() == n,
        pos < bytes.len() && pos + n > bytes.len() ==> read_at(bytes, pos, n).len()
            == bytes.len() - pos,
        0 <= i < read_at(bytes, pos, n).len() ==> read_at(bytes, pos, n)[i] == bytes[pos + i],
{
}

/// A body holds bytes exactly when it is in memory, they are its bytes,
/// and the next read or write is where it says.
pub proof fn law_body_in_memory_is_its_bytes(f: SnapshotFile, all: Seq<u8>, at: int)
    ensures
        f.holds(all, at) <==> (f.body matches Body::Memory { bytes, pos } && bytes@ == all && pos
            == at),
{
}

} // verus!
