//! The replicated state machine: what applying entries does to its own
//! state, how snapshots are built, served and installed, and what a
//! recovery after an upgrade adopts.
//!
//! The stored records are kept by the storage engine. Each step takes what
//! the engine answered and says what is written to it next.

use vstd::prelude::*;
use crate::batch::{self, Table, Write, WriteBatch};
use crate::codec;
use crate::log_store::Entry;
use crate::membership::{Membership, SnapshotMeta, StoredMembership};
use crate::model::{MutationResult, TxnResult};
use crate::snapshot_data::{Body, Content, SnapshotFile};
use crate::snapshot_store::SnapshotStore;
use crate::stored;
use crate::text;
use crate::types::{
    FastetcdLogEntry, FastetcdLogResponse, LeaseGrantResult, LeaseRevokeResult, LeaseTtlResult, LogId,
};

verus! {

/// What an entry of the log carries.
#[derive(Debug)]
pub enum EntryPayload {
    /// Nothing but its place.
    Blank,
    Normal(FastetcdLogEntry),
    Membership(Membership),
}

/// What the storage engine answered to an entry.
#[derive(Debug)]
pub enum Applied {
    Mutations { revision: i64, results: Vec<MutationResult> },
    Txn(TxnResult),
    Compacted { compact_rev: i64 },
    LeaseGranted(LeaseGrantResult),
    LeaseRevoked(LeaseRevokeResult),
    LeaseKeptAlive(LeaseTtlResult),
    /// Nothing was to be done; the current revision.
    Revision(i64),
    /// The engine refused, with this text.
    Refused(String),
}

/// One row of a table.
#[derive(Debug)]
pub struct Row {
    pub key: Vec<u8>,
    pub value: Vec<u8>,
}

/// Everything that a snapshot holds.
#[derive(Debug)]
pub struct SnapshotPayload {
    pub last_applied_log_id: Option<LogId>,
    pub last_membership: StoredMembership,
    pub kv_table: Vec<Row>,
    pub idx_table: Vec<Row>,
    pub meta_table: Vec<Row>,
}

/// What an entry has the engine record before it is applied.
#[derive(Debug)]
pub struct Staged {
    /// The stored form of the entry's place.
    pub applied: Vec<u8>,
    /// The stored form of the membership that the entry sets, if it sets
    /// one.
    pub membership: Option<Vec<u8>>,
}

/// What is recorded with an entry: its place, and the membership that it
/// sets, which is read back where it is in order.
pub open spec fn is_staged(s: Staged, entry: Entry<EntryPayload>) -> bool {
    &&& s.applied@ == codec::optional_bytes(Some(entry.log_id))
    &&& match entry.payload {
        EntryPayload::Membership(m) => {
            let stored = StoredMembership { log_id: Some(entry.log_id), membership: m };
            &&& s.membership is Some
            &&& s.membership->0@ == stored::membership_bytes(stored)
            &&& m.wf() ==> stored::reads_as(s.membership->0@, stored)
        },
        _ => s.membership is None,
    }
}

/// A place to adopt as the applied one, and its stored form.
#[derive(Debug)]
pub struct Floor {
    pub log_id: LogId,
    pub bytes: Vec<u8>,
}

/// Where the current snapshot is to come from.
#[derive(Debug, Clone, Copy, PartialEq, Eq, Structural)]
pub enum CurrentSnapshot {
    /// The retained file that was opened.
    Retained,
    /// One must be built.
    Build,
    /// Nothing was ever applied: there is none.
    Nothing,
}

/// How an installed snapshot is kept as this node's own.
#[derive(Debug)]
pub enum Retention {
    /// Rename the received file into place; if that fails, delete it.
    Adopt,
    /// Copy the file, which belongs to someone else.
    Copy,
    /// Write the bytes.
    WriteBytes(Vec<u8>),
}

/// Where the installing of a snapshot failed.
#[derive(Debug, Clone, Copy, PartialEq, Eq, Structural)]
pub enum InstallStage {
    /// Reading its body.
    Read,
    /// Storing its rows.
    Write,
}

/// A snapshot that is not installed.
#[derive(Debug)]
pub struct InstallRefusal {
    pub at: InstallStage,
    pub error: String,
    /// Whether the file of its body is deleted: it was received, and
    /// belongs to no one else.
    pub delete_file: bool,
}

/// What applying an entry answers, if the engine's answer is of its kind.
pub open spec fn response_to(data: FastetcdLogEntry, done: Applied) -> Option<FastetcdLogResponse> {
    match (data, done) {
        (FastetcdLogEntry::Apply { .. }, Applied::Mutations { revision, results }) => Some(
            FastetcdLogResponse::Apply { revision, results },
        ),
        (FastetcdLogEntry::Txn { .. }, Applied::Txn(t)) => Some(FastetcdLogResponse::Txn(t)),
        (FastetcdLogEntry::Compact { .. }, Applied::Compacted { compact_rev }) => Some(
            FastetcdLogResponse::Compact { compact_rev },
        ),
        (FastetcdLogEntry::LeaseGrant { .. }, Applied::LeaseGranted(g)) => Some(
            FastetcdLogResponse::LeaseGrant(g),
        ),
        (FastetcdLogEntry::LeaseRevoke { .. }, Applied::LeaseRevoked(r)) => Some(
            FastetcdLogResponse::LeaseRevoke(r),
        ),
        (FastetcdLogEntry::LeaseKeepAlive { .. }, Applied::LeaseKeptAlive(t)) => Some(
            FastetcdLogResponse::LeaseKeepAlive(t),
        ),
        (FastetcdLogEntry::Noop, Applied::Revision(revision)) => Some(
            FastetcdLogResponse::Noop { revision },
        ),
        _ => None,
    }
}

/// What applying a payload answers, if the engine's answer is of its kind.
pub open spec fn answer_to(payload: EntryPayload, done: Applied) -> Option<FastetcdLogResponse> {
    match payload {
        EntryPayload::Normal(data) => response_to(data, done),
        _ => match done {
            Applied::Revision(revision) => Some(FastetcdLogResponse::Noop { revision }),
            _ => None,
        },
    }
}

/// The text of a failure to apply an entry.
pub open spec fn apply_fault(done: Applied) -> Seq<char> {
    match done {
        Applied::Refused(text) => "apply failed: "@ + text@,
        _ => "apply failed: the engine answered another request"@,
    }
}

/// What applying an entry answers.
fn apply_data(data: FastetcdLogEntry, done: Applied) -> (r: Result<FastetcdLogResponse, String>)
    ensures
        match response_to(data, done) {
            Some(response) => r == Ok::<FastetcdLogResponse, String>(response),
            None => r is Err && r->Err_0@ == apply_fault(done),
        },
{
    match (data, done) {
        (FastetcdLogEntry::Apply { .. }, Applied::Mutations { revision, results }) => Ok(
            FastetcdLogResponse::Apply { revision, results },
        ),
        (FastetcdLogEntry::Txn { .. }, Applied::Txn(t)) => Ok(FastetcdLogResponse::Txn(t)),
        (FastetcdLogEntry::Compact { .. }, Applied::Compacted { compact_rev }) => Ok(
            FastetcdLogResponse::Compact { compact_rev },
        ),
        (FastetcdLogEntry::LeaseGrant { .. }, Applied::LeaseGranted(g)) => Ok(
            FastetcdLogResponse::LeaseGrant(g),
        ),
        (FastetcdLogEntry::LeaseRevoke { .. }, Applied::LeaseRevoked(r)) => Ok(
            FastetcdLogResponse::LeaseRevoke(r),
        ),
        (FastetcdLogEntry::LeaseKeepAlive { .. }, Applied::LeaseKeptAlive(t)) => Ok(
            FastetcdLogResponse::LeaseKeepAlive(t),
        ),
        (FastetcdLogEntry::Noop, Applied::Revision(revision)) => Ok(
            FastetcdLogResponse::Noop { revision },
        ),
        (_, other) => Err(fault_text(other)),
    }
}

/// The text of a failure to apply an entry.
fn fault_text(done: Applied) -> (r: String)
    ensures
        r@ == apply_fault(done),
{
    match done {
        Applied::Refused(text) => String::from_str("apply failed: ").concat(text.as_str()),
        _ => String::from_str("apply failed: the engine answered another request"),
    }
}

/// Recorded bytes, if there are any.
pub open spec fn bytes_in(b: Option<Vec<u8>>) -> Option<Seq<u8>> {
    match b {
        Some(b) => Some(b@),
        None => None,
    }
}

/// What opening over recorded bytes comes to: a place that does not read is
/// refused, then a membership that does not; otherwise the state is what
/// they read as. Where nothing is recorded nothing was applied, and no
/// membership was set.
pub open spec fn is_opened(
    r: Result<FastetcdStateMachine, String>,
    snapshots: SnapshotStore,
    applied: Option<Seq<u8>>,
    membership: Option<Seq<u8>>,
    latest: Option<SnapshotMeta>,
) -> bool {
    if applied is Some && codec::read_optional(applied->0) is None {
        r is Err && r->Err_0@ == codec::optional_refusal(applied->0)
    } else if membership is Some && stored::membership_of(membership->0) is Err {
        r is Err && r->Err_0@ == stored::membership_of(membership->0)->Err_0
    } else {
        let sm = r->Ok_0;
        &&& r is Ok
        &&& sm.last_applied_log_id == (match applied {
            Some(b) => codec::read_optional(b)->0,
            None => None,
        })
        &&& stored::membership_parts(sm.last_membership) == (match membership {
            Some(b) => stored::membership_of(b)->Ok_0,
            None => stored::no_parts(),
        })
        &&& sm.last_membership.membership.wf()
        &&& sm.current_snapshot == latest
        &&& sm.snapshot_idx == 0
        &&& sm.snapshots == snapshots
    }
}

/// The state machine's own state.
#[derive(Debug)]
pub struct FastetcdStateMachine {
    pub last_applied_log_id: Option<LogId>,
    pub last_membership: StoredMembership,
    pub current_snapshot: Option<SnapshotMeta>,
    pub snapshot_idx: u64,
    pub snapshots: SnapshotStore,
}

impl FastetcdStateMachine {
    /// Restore the state from what the engine and the snapshot directory
    /// hold: the place of the last applied entry and the membership, each in
    /// stored form, and the metadata of the newest retained snapshot.
    pub fn open_with_retention(
        snapshots: SnapshotStore,
        applied: Option<Vec<u8>>,
        membership: Option<Vec<u8>>,
        latest: Option<SnapshotMeta>,
    ) -> (r: Result<FastetcdStateMachine, String>)
        ensures
            is_opened(r, snapshots, bytes_in(applied), bytes_in(membership), latest),
    {
        let decoded = match &membership {
            Some(b) => Some(stored::decode_membership(b.as_slice())),
            None => None,
        };
        FastetcdStateMachine::open_decoded(snapshots, applied, decoded, latest)
    }

    /// Restore the state from the place of the last applied entry in stored
    /// form and from what reading the recorded membership came to. A place
    /// that is refused is reported before a membership that is.
    pub fn open_decoded(
        snapshots: SnapshotStore,
        applied: Option<Vec<u8>>,
        membership: Option<Result<StoredMembership, String>>,
        latest: Option<SnapshotMeta>,
    ) -> (r: Result<FastetcdStateMachine, String>)
        ensures
            if applied is Some && codec::read_optional(applied->0@) is None {
                r is Err && r->Err_0@ == codec::optional_refusal(applied->0@)
            } else if membership is Some && membership->0 is Err {
                r is Err && r->Err_0 == membership->0->Err_0
            } else {
                let sm = r->Ok_0;
                &&& r is Ok
                &&& sm.last_applied_log_id == (match applied {
                    Some(b) => codec::read_optional(b@)->0,
                    None => None,
                })
                &&& membership is Some ==> sm.last_membership == membership->0->Ok_0
                &&& membership is None ==> {
                    &&& stored::membership_parts(sm.last_membership) == stored::no_parts()
                    &&& sm.last_membership.membership.wf()
                    &&& sm.last_membership.membership.voterless()
                    &&& sm.last_membership.membership.nodes@ == Map::<u64, String>::empty()
                }
                &&& sm.current_snapshot == latest
                &&& sm.snapshot_idx == 0
                &&& sm.snapshots == snapshots
            },
    {
        let last_applied_log_id: Option<LogId> = match applied {
            Some(b) => match codec::decode_log_id(b.as_slice()) {
                Ok(l) => l,
                Err(e) => {
                    return Err(e);
                },
            },
            None => None,
        };
        let last_membership = match membership {
            Some(Ok(m)) => m,
            Some(Err(e)) => {
                return Err(e);
            },
            None => {
                let m = StoredMembership::empty();
                assert(stored::lists(m.membership.configs@) =~= seq![]);
                assert(stored::listed(m.membership.nodes.entries@) =~= seq![]);
                m
            },
        };
        Ok(
            FastetcdStateMachine {
                last_applied_log_id,
                last_membership,
                current_snapshot: latest,
                snapshot_idx: 0,
                snapshots,
            },
        )
    }

    /// How many snapshots this node retains.
    pub fn snapshot_retention(&self) -> (r: usize)
        ensures
            r == self.snapshots.limit(),
    {
        self.snapshots.retain()
    }

    /// How far the log was applied, and the membership in force.
    pub fn applied_state(&self) -> (r: (Option<LogId>, &StoredMembership))
        ensures
            r.0 == self.last_applied_log_id,
            *r.1 == self.last_membership,
    {
        (self.last_applied_log_id, &self.last_membership)
    }

    /// What to have the engine record with an entry, so that its place and
    /// the membership it sets are stored together with its effect.
    pub fn stage(&self, entry: &Entry<EntryPayload>) -> (r: Staged)
        ensures
            is_staged(r, *entry),
    {
        Staged {
            applied: codec::encode_log_id(Some(entry.log_id)),
            membership: match &entry.payload {
                EntryPayload::Membership(m) => Some(stored::encode_at(Some(entry.log_id), m)),
                _ => None,
            },
        }
    }

    /// Apply an entry to which the engine answered. The place of the entry
    /// is taken over, and its membership if it carries one, unless the
    /// engine refused.
    pub fn apply(&mut self, entry: Entry<EntryPayload>, done: Applied) -> (r: Result<
        FastetcdLogResponse,
        String,
    >)
        ensures
            match answer_to(entry.payload, done) {
                Some(response) => {
                    &&& r == Ok::<FastetcdLogResponse, String>(response)
                    &&& *final(self) == old(self).moved_on(entry)
                },
                None => {
                    &&& r is Err
                    &&& r->Err_0@ == apply_fault(done)
                    &&& *final(self) == *old(self)
                },
            },
    {
        let log_id: LogId = entry.log_id;
        match entry.payload {
            EntryPayload::Membership(m) => match done {
                Applied::Revision(revision) => {
                    self.last_membership = StoredMembership { log_id: Some(log_id), membership: m };
                    self.last_applied_log_id = Some(log_id);
                    Ok(FastetcdLogResponse::Noop { revision })
                },
                other => Err(fault_text(other)),
            },
            EntryPayload::Blank => match done {
                Applied::Revision(revision) => {
                    self.last_applied_log_id = Some(log_id);
                    Ok(FastetcdLogResponse::Noop { revision })
                },
                other => Err(fault_text(other)),
            },
            EntryPayload::Normal(data) => match apply_data(data, done) {
                Ok(response) => {
                    self.last_applied_log_id = Some(log_id);
                    Ok(response)
                },
                Err(e) => Err(e),
            },
        }
    }

    /// The state after an entry was applied.
    pub open spec fn moved_on(self, entry: Entry<EntryPayload>) -> FastetcdStateMachine {
        FastetcdStateMachine {
            last_applied_log_id: Some(entry.log_id),
            last_membership: match entry.payload {
                EntryPayload::Membership(m) => StoredMembership {
                    log_id: Some(entry.log_id),
                    membership: m,
                },
                _ => self.last_membership,
            },
            ..self
        }
    }

    /// The place to adopt where stored records have none: only with a
    /// floor, without an applied place, and with records present. What is
    /// to be recorded comes with it.
    pub fn recover_applied_floor(&self, floor: Option<LogId>, current_revision: i64) -> (r: Option<Floor>)
        ensures
            r is Some <==> floor is Some && self.last_applied_log_id is None && current_revision
                != 0,
            r is Some ==> (r->0).log_id == floor->0 && (r->0).bytes@ == codec::optional_bytes(floor),
    {
        match floor {
            None => None,
            Some(l) => {
                if self.last_applied_log_id.is_some() || current_revision == 0 {
                    None
                } else {
                    Some(Floor { log_id: l, bytes: codec::encode_log_id(Some(l)) })
                }
            },
        }
    }

    /// Take over a recorded floor.
    pub fn adopt_floor(&mut self, floor: LogId)
        ensures
            *final(self) == (FastetcdStateMachine {
                last_applied_log_id: Some(floor),
                ..*old(self)
            }),
    {
        self.last_applied_log_id = Some(floor);
    }

    /// No node votes, so no leader could be elected.
    pub fn membership_is_empty(&self) -> (r: bool)
        ensures
            r == self.last_membership.membership.voterless(),
    {
        self.last_membership.membership.is_voterless()
    }

    /// Take over a membership that was reconstructed and recorded.
    pub fn recover_membership(&mut self, membership: StoredMembership)
        ensures
            *final(self) == (FastetcdStateMachine {
                last_membership: membership,
                ..*old(self)
            }),
    {
        self.last_membership = membership;
    }

    /// The metadata of a snapshot that is about to be built of a state.
    pub fn next_snapshot(
        &mut self,
        last_log_id: Option<LogId>,
        last_membership: StoredMembership,
    ) -> (r: SnapshotMeta)
        requires
            old(self).snapshot_idx < u64::MAX,
        ensures
            *final(self) == (FastetcdStateMachine {
                snapshot_idx: (old(self).snapshot_idx + 1) as u64,
                ..*old(self)
            }),
            r.last_log_id == last_log_id,
            r.last_membership == last_membership,
            r.snapshot_id@ == "snap-"@ + text::dec((old(self).snapshot_idx + 1) as nat),
    {
        self.snapshot_idx = self.snapshot_idx + 1;
        let snapshot_id = String::from_str("snap-").concat(
            text::dec_u64(self.snapshot_idx).as_str(),
        );
        SnapshotMeta { last_log_id, last_membership, snapshot_id }
    }

    /// Record a built snapshot. One that did not reach the disk is served
    /// from memory, and none is current.
    pub fn snapshot_built(&mut self, meta: SnapshotMeta, on_disk: bool)
        ensures
            *final(self) == (FastetcdStateMachine {
                current_snapshot: if on_disk {
                    Some(meta)
                } else {
                    None
                },
                ..*old(self)
            }),
    {
        self.current_snapshot = if on_disk {
            Some(meta)
        } else {
            None
        };
    }

    /// The body of a snapshot that was written: the file if it was stored
    /// and could be opened, else the bytes. A failed write is no error.
    pub fn written_snapshot(&self, stored_and_opened: bool, bytes: Vec<u8>) -> (r: SnapshotFile)
        ensures
            r.body == (if stored_and_opened {
                Body::Retained
            } else {
                Body::Memory { bytes, pos: 0 }
            }),
    {
        if stored_and_opened {
            SnapshotFile::retained()
        } else {
            SnapshotFile::memory(bytes)
        }
    }

    /// Where the current snapshot comes from; `opened` says whether the
    /// file that the metadata names could be opened. There is always one
    /// once anything was applied.
    pub fn get_current_snapshot(&mut self, opened: bool) -> (r: CurrentSnapshot)
        ensures
            r == (if old(self).current_snapshot is Some && opened {
                CurrentSnapshot::Retained
            } else if old(self).last_applied_log_id is None {
                CurrentSnapshot::Nothing
            } else {
                CurrentSnapshot::Build
            }),
            *final(self) == (FastetcdStateMachine {
                current_snapshot: if opened {
                    old(self).current_snapshot
                } else {
                    None
                },
                ..*old(self)
            }),
    {
        if self.current_snapshot.is_some() {
            if opened {
                return CurrentSnapshot::Retained;
            }
            self.current_snapshot = None;
        }
        if self.last_applied_log_id.is_none() {
            CurrentSnapshot::Nothing
        } else {
            CurrentSnapshot::Build
        }
    }

    /// Start to receive a snapshot, the directory having been rolled off:
    /// into a file if one could be created, else into memory.
    pub fn begin_receiving_snapshot(
        &mut self,
        latest: Option<SnapshotMeta>,
        created: bool,
    ) -> (r: SnapshotFile)
        ensures
            *final(self) == (FastetcdStateMachine { current_snapshot: latest, ..*old(self) }),
            created ==> r.body == (Body::Incoming { discarded: false }),
            !created ==> r.holds(seq![], 0),
    {
        self.current_snapshot = latest;
        if created {
            SnapshotFile::incoming()
        } else {
            let r = SnapshotFile::memory(Vec::new());
            assert(r.body->bytes@ =~= seq![]);
            r
        }
    }

    /// Start installing a snapshot from what its body decodes to. One that
    /// does not decode is refused before any row or the state changes, and
    /// a file it was received into is deleted.
    pub fn begin_install(&self, content: &Content, decoded: Result<SnapshotPayload, String>) -> (r:
        Result<SnapshotPayload, InstallRefusal>)
        ensures
            match decoded {
                Ok(payload) => r is Ok && r->Ok_0 == payload,
                Err(e) => r is Err && r->Err_0 == (InstallRefusal {
                    at: InstallStage::Read,
                    error: e,
                    delete_file: content is Incoming,
                }),
            },
    {
        match decoded {
            Ok(payload) => Ok(payload),
            Err(error) => Err(
                InstallRefusal {
                    at: InstallStage::Read,
                    error,
                    delete_file: matches!(content, Content::Incoming),
                },
            ),
        }
    }

    /// Go on once the rows of a snapshot were to be stored. Where that
    /// failed the snapshot is refused before the state changes, and a file
    /// it was received into is deleted.
    pub fn rows_replaced(&self, content: &Content, stored: Result<(), String>) -> (r: Result<
        (),
        InstallRefusal,
    >)
        ensures
            r is Ok <==> stored is Ok,
            stored matches Err(e) ==> {
                &&& r->Err_0.at == InstallStage::Write
                &&& r->Err_0.error@ == "rebuild mvcc from snapshot: "@ + e@
                &&& r->Err_0.delete_file == (content is Incoming)
            },
    {
        match stored {
            Ok(()) => Ok(()),
            Err(e) => Err(
                InstallRefusal {
                    at: InstallStage::Write,
                    error: String::from_str("rebuild mvcc from snapshot: ").concat(e.as_str()),
                    delete_file: matches!(content, Content::Incoming),
                },
            ),
        }
    }

    /// How an installed snapshot is kept.
    pub fn retain_installed(&self, content: Content) -> (r: Retention)
        ensures
            r == (match content {
                Content::Incoming => Retention::Adopt,
                Content::Retained => Retention::Copy,
                Content::Memory(bytes) => Retention::WriteBytes(bytes),
            }),
    {
        match content {
            Content::Incoming => Retention::Adopt,
            Content::Retained => Retention::Copy,
            Content::Memory(bytes) => Retention::WriteBytes(bytes),
        }
    }

    /// Take over the state of a snapshot whose rows are stored. Failing to
    /// keep a copy of it is no error; then none is current.
    pub fn install_snapshot(
        &mut self,
        last_applied_log_id: Option<LogId>,
        last_membership: StoredMembership,
        kept: Option<SnapshotMeta>,
    )
        ensures
            *final(self) == (FastetcdStateMachine {
                last_applied_log_id,
                last_membership,
                current_snapshot: kept,
                ..*old(self)
            }),
    {
        self.last_applied_log_id = last_applied_log_id;
        self.last_membership = last_membership;
        self.current_snapshot = kept;
    }
}

/// The state after entries were applied in turn.
pub open spec fn after_entries(
    sm: FastetcdStateMachine,
    entries: Seq<Entry<EntryPayload>>,
) -> FastetcdStateMachine
    decreases entries.len(),
{
    if entries.len() == 0 {
        sm
    } else {
        after_entries(sm, entries.drop_last()).moved_on(entries.last())
    }
}

/// The last applied place is that of the last entry, and the membership
/// that of the last entry that carries one; snapshots are untouched.
pub proof fn law_applying_tracks_the_log(
    sm: FastetcdStateMachine,
    entries: Seq<Entry<EntryPayload>>,
)
    ensures
        ({
            let end = after_entries(sm, entries);
            &&& end.last_applied_log_id == (if entries.len() == 0 {
                sm.last_applied_log_id
            } else {
                Some(entries.last().log_id)
            })
            &&& end.last_membership == membership_after(sm.last_membership, entries)
            &&& end.current_snapshot == sm.current_snapshot
            &&& end.snapshots == sm.snapshots
        }),
    decreases entries.len(),
{
    if entries.len() > 0 {
        law_applying_tracks_the_log(sm, entries.drop_last());
    }
}

/// The membership of the last entry that carries one.
pub open spec fn membership_after(
    start: StoredMembership,
    entries: Seq<Entry<EntryPayload>>,
) -> StoredMembership
    decreases entries.len(),
{
    if entries.len() == 0 {
        start
    } else {
        match entries.last().payload {
            EntryPayload::Membership(m) => StoredMembership {
                log_id: Some(entries.last().log_id),
                membership: m,
            },
            _ => membership_after(start, entries.drop_last()),
        }
    }
}

/// What is recorded with an entry restores its place after a restart: it
/// is not applied a second time.
pub proof fn law_restart_resumes_after_the_last_entry(log_id: LogId)
    ensures
        codec::read_optional(codec::optional_bytes(Some(log_id))) == Some(Some(log_id)),
{
    codec::law_log_id_reads_back(Some(log_id), seq![]);
    assert(codec::optional_bytes(Some(log_id)) + seq![] =~= codec::optional_bytes(Some(log_id)));
}

/// What is recorded holds a state: read, it gives the last applied place
/// and the membership in force.
pub open spec fn records_state(
    applied: Option<Seq<u8>>,
    membership: Option<Seq<u8>>,
    sm: FastetcdStateMachine,
) -> bool {
    &&& match applied {
        Some(b) => codec::read_optional(b) == Some(sm.last_applied_log_id),
        None => sm.last_applied_log_id is None,
    }
    &&& match membership {
        Some(b) => stored::reads_as(b, sm.last_membership),
        None => stored::membership_parts(sm.last_membership) == stored::no_parts(),
    }
}

/// The place on record after entries were staged in turn.
pub open spec fn place_on_record(start: Option<Seq<u8>>, staged: Seq<Staged>) -> Option<Seq<u8>> {
    if staged.len() == 0 {
        start
    } else {
        Some(staged.last().applied@)
    }
}

/// The membership on record after entries were staged in turn.
pub open spec fn membership_on_record(start: Option<Seq<u8>>, staged: Seq<Staged>) -> Option<
    Seq<u8>,
>
    decreases staged.len(),
{
    if staged.len() == 0 {
        start
    } else {
        match staged.last().membership {
            Some(b) => Some(b@),
            None => membership_on_record(start, staged.drop_last()),
        }
    }
}

/// What is recorded with the entries holds the state that applying them
/// leaves, if what was recorded before held the state before.
pub proof fn law_applying_records_the_state(
    sm: FastetcdStateMachine,
    entries: Seq<Entry<EntryPayload>>,
    staged: Seq<Staged>,
    applied: Option<Seq<u8>>,
    membership: Option<Seq<u8>>,
)
    requires
        records_state(applied, membership, sm),
        staged.len() == entries.len(),
        forall|i: int| 0 <= i < staged.len() ==> is_staged(#[trigger] staged[i], entries[i]),
        forall|i: int|
            0 <= i < entries.len() ==> ((#[trigger] entries[i]).payload matches EntryPayload::Membership(
                m,
            ) ==> m.wf()),
    ensures
        records_state(
            place_on_record(applied, staged),
            membership_on_record(membership, staged),
            after_entries(sm, entries),
        ),
    decreases entries.len(),
{
    if entries.len() > 0 {
        let es = entries.drop_last();
        let ss = staged.drop_last();
        assert forall|i: int| 0 <= i < ss.len() implies is_staged(#[trigger] ss[i], es[i]) by {
            assert(is_staged(staged[i], entries[i]));
        }
        assert forall|i: int| 0 <= i < es.len() implies ((
        #[trigger] es[i]).payload matches EntryPayload::Membership(m) ==> m.wf()) by {
            assert(es[i] == entries[i]);
        }
        law_applying_records_the_state(sm, es, ss, applied, membership);
        let n = entries.len() - 1;
        assert(is_staged(staged[n], entries[n]));
        assert(entries[n] == entries.last());
        law_restart_resumes_after_the_last_entry(entries.last().log_id);
    }
}

/// A restart finds the state as it was: opening over what is recorded of a
/// state succeeds, with the same last applied place and the same
/// membership. So both survive, whatever entries set them.
pub proof fn law_restart_restores_the_state(
    sm: FastetcdStateMachine,
    applied: Option<Seq<u8>>,
    membership: Option<Seq<u8>>,
    snapshots: SnapshotStore,
    latest: Option<SnapshotMeta>,
    r: Result<FastetcdStateMachine, String>,
)
    requires
        records_state(applied, membership, sm),
        is_opened(r, snapshots, applied, membership, latest),
    ensures
        r is Ok,
        r->Ok_0.last_applied_log_id == sm.last_applied_log_id,
        stored::membership_parts(r->Ok_0.last_membership) == stored::membership_parts(
            sm.last_membership,
        ),
        records_state(applied, membership, r->Ok_0),
{
}

/// Entries that were applied to an opened machine are not lost: opening
/// again gives the place of the last of them, and the membership of the
/// last that carries one.
pub proof fn law_restart_restores_the_last_membership(
    sm: FastetcdStateMachine,
    entries: Seq<Entry<EntryPayload>>,
    staged: Seq<Staged>,
    applied: Option<Seq<u8>>,
    membership: Option<Seq<u8>>,
    snapshots: SnapshotStore,
    latest: Option<SnapshotMeta>,
    r: Result<FastetcdStateMachine, String>,
)
    requires
        records_state(applied, membership, sm),
        staged.len() == entries.len(),
        entries.len() > 0,
        forall|i: int| 0 <= i < staged.len() ==> is_staged(#[trigger] staged[i], entries[i]),
        forall|i: int|
            0 <= i < entries.len() ==> ((#[trigger] entries[i]).payload matches EntryPayload::Membership(
                m,
            ) ==> m.wf()),
        is_opened(
            r,
            snapshots,
            place_on_record(applied, staged),
            membership_on_record(membership, staged),
            latest,
        ),
    ensures
        r is Ok,
        r->Ok_0.last_applied_log_id == Some(entries.last().log_id),
        stored::membership_parts(r->Ok_0.last_membership) == stored::membership_parts(
            membership_after(sm.last_membership, entries),
        ),
{
    law_applying_records_the_state(sm, entries, staged, applied, membership);
    law_applying_tracks_the_log(sm, entries);
}

/// The writes that store rows.
pub open spec fn row_writes(table: Table, rows: Seq<Row>) -> Seq<Write> {
    rows.map_values(|r: Row| Write::Put { table, key: r.key@, value: r.value@ })
}

/// The writes that replace every row by those of a snapshot, together with
/// the place it covers and its membership.
pub open spec fn rebuild_writes(
    p: SnapshotPayload,
    applied_key: Seq<u8>,
    membership_key: Seq<u8>,
) -> Seq<Write> {
    seq![
        Write::Clear { table: Table::MvccKv },
        Write::Clear { table: Table::MvccIdx },
        Write::Clear { table: Table::MvccMeta },
    ] + row_writes(Table::MvccKv, p.kv_table@) + row_writes(Table::MvccIdx, p.idx_table@)
        + row_writes(Table::MvccMeta, p.meta_table@) + seq![
        Write::Put {
            table: Table::MvccMeta,
            key: applied_key,
            value: codec::optional_bytes(p.last_applied_log_id),
        },
        Write::Put {
            table: Table::MvccMeta,
            key: membership_key,
            value: stored::membership_bytes(p.last_membership),
        },
    ]
}

/// Add the storing of rows to a batch.
fn put_rows(batch: &mut WriteBatch, table: Table, rows: &Vec<Row>)
    ensures
        final(batch)@ == old(batch)@ + row_writes(table, rows@),
{
    let ghost start = batch@;
    let mut i: usize = 0;
    assert(start + row_writes(table, rows@.take(0)) =~= start);
    while i < rows.len()
        invariant
            i <= rows@.len(),
            batch@ == start + row_writes(table, rows@.take(i as int)),
        decreases rows@.len() - i,
    {
        let ghost before = batch@;
        batch.put(table, rows[i].key.as_slice(), rows[i].value.as_slice());
        i += 1;
        assert(batch@ =~= start + row_writes(table, rows@.take(i as int)));
    }
    assert(rows@.take(i as int) =~= rows@);
}

/// The batch that replaces every row by those of a snapshot. The place it
/// covers and its membership land in the same batch, so that a crash leaves
/// all or nothing. A membership in order is read back.
pub fn rebuild_mvcc(
    payload: &SnapshotPayload,
    applied_key: &[u8],
    membership_key: &[u8],
) -> (r: WriteBatch)
    ensures
        r@ == rebuild_writes(*payload, applied_key@, membership_key@),
        payload.last_membership.membership.wf() ==> stored::reads_as(
            stored::membership_bytes(payload.last_membership),
            payload.last_membership,
        ),
{
    let mut batch = WriteBatch::new();
    batch.clear(Table::MvccKv);
    batch.clear(Table::MvccIdx);
    batch.clear(Table::MvccMeta);
    put_rows(&mut batch, Table::MvccKv, &payload.kv_table);
    put_rows(&mut batch, Table::MvccIdx, &payload.idx_table);
    put_rows(&mut batch, Table::MvccMeta, &payload.meta_table);
    let applied = codec::encode_log_id(payload.last_applied_log_id);
    batch.put(Table::MvccMeta, applied_key, applied.as_slice());
    let membership = stored::encode_membership(&payload.last_membership);
    batch.put(Table::MvccMeta, membership_key, membership.as_slice());
    assert(batch@ =~= rebuild_writes(*payload, applied_key@, membership_key@));
    batch
}

/// What rows hold under a key: the last of them counts.
pub open spec fn held(rows: Seq<Row>, k: Seq<u8>) -> Option<Seq<u8>>
    decreases rows.len(),
{
    if rows.len() == 0 {
        None
    } else if rows.last().key@ == k {
        Some(rows.last().value@)
    } else {
        held(rows.drop_last(), k)
    }
}

/// Storing rows leaves what they hold, and elsewhere what was there.
proof fn lemma_rows_after(
    before: Option<Seq<u8>>,
    table: Table,
    rows: Seq<Row>,
    t: Table,
    k: Seq<u8>,
)
    ensures
        batch::row_after(before, row_writes(table, rows), t, k) == (if t == table && held(
            rows,
            k,
        ) is Some {
            held(rows, k)
        } else {
            before
        }),
    decreases rows.len(),
{
    if rows.len() > 0 {
        lemma_rows_after(before, table, rows.drop_last(), t, k);
        assert(row_writes(table, rows).drop_last() =~= row_writes(table, rows.drop_last()));
    }
}

/// Installing a snapshot leaves exactly its rows, its place and its
/// membership, whatever was stored before.
pub proof fn law_install_replaces_the_rows(
    p: SnapshotPayload,
    applied_key: Seq<u8>,
    membership_key: Seq<u8>,
    before: Option<Seq<u8>>,
    k: Seq<u8>,
)
    ensures
        ({
            let ws = rebuild_writes(p, applied_key, membership_key);
            &&& batch::row_after(before, ws, Table::MvccKv, k) == held(p.kv_table@, k)
            &&& batch::row_after(before, ws, Table::MvccIdx, k) == held(p.idx_table@, k)
            &&& batch::row_after(before, ws, Table::MvccMeta, k) == (if k == membership_key {
                Some(stored::membership_bytes(p.last_membership))
            } else if k == applied_key {
                Some(codec::optional_bytes(p.last_applied_log_id))
            } else {
                held(p.meta_table@, k)
            })
            &&& batch::row_after(before, ws, Table::RaftLog, k) == before
            &&& batch::row_after(before, ws, Table::RaftMeta, k) == before
        }),
{
    lemma_rebuild_row(p, applied_key, membership_key, before, Table::MvccKv, k);
    lemma_rebuild_row(p, applied_key, membership_key, before, Table::MvccIdx, k);
    lemma_rebuild_row(p, applied_key, membership_key, before, Table::MvccMeta, k);
    lemma_rebuild_row(p, applied_key, membership_key, before, Table::RaftLog, k);
    lemma_rebuild_row(p, applied_key, membership_key, before, Table::RaftMeta, k);
}

/// A restart after an install finds the snapshot's place and membership:
/// what the batch leaves under the two keys holds the installed state.
pub proof fn law_installed_state_is_on_record(
    p: SnapshotPayload,
    applied_key: Seq<u8>,
    membership_key: Seq<u8>,
    old_place: Option<Seq<u8>>,
    old_membership: Option<Seq<u8>>,
    sm: FastetcdStateMachine,
    kept: Option<SnapshotMeta>,
)
    requires
        applied_key != membership_key,
        stored::reads_as(stored::membership_bytes(p.last_membership), p.last_membership),
    ensures
        ({
            let ws = rebuild_writes(p, applied_key, membership_key);
            records_state(
                batch::row_after(old_place, ws, Table::MvccMeta, applied_key),
                batch::row_after(old_membership, ws, Table::MvccMeta, membership_key),
                FastetcdStateMachine {
                    last_applied_log_id: p.last_applied_log_id,
                    last_membership: p.last_membership,
                    current_snapshot: kept,
                    ..sm
                },
            )
        }),
{
    law_install_replaces_the_rows(p, applied_key, membership_key, old_place, applied_key);
    law_install_replaces_the_rows(p, applied_key, membership_key, old_membership, membership_key);
    codec::law_log_id_reads_back(p.last_applied_log_id, seq![]);
    let b = codec::optional_bytes(p.last_applied_log_id);
    assert(b + seq![] =~= b);
}

/// What installing a snapshot leaves under a key of a table.
proof fn lemma_rebuild_row(
    p: SnapshotPayload,
    applied_key: Seq<u8>,
    membership_key: Seq<u8>,
    before: Option<Seq<u8>>,
    t: Table,
    k: Seq<u8>,
)
    ensures
        batch::row_after(
            before,
            rebuild_writes(p, applied_key, membership_key),
            t,
            k,
        ) == (match t {
            Table::MvccKv => held(p.kv_table@, k),
            Table::MvccIdx => held(p.idx_table@, k),
            Table::MvccMeta => if k == membership_key {
                Some(stored::membership_bytes(p.last_membership))
            } else if k == applied_key {
                Some(codec::optional_bytes(p.last_applied_log_id))
            } else {
                held(p.meta_table@, k)
            },
            _ => before,
        }),
{
    let c = seq![
        Write::Clear { table: Table::MvccKv },
        Write::Clear { table: Table::MvccIdx },
        Write::Clear { table: Table::MvccMeta },
    ];
    let w1 = row_writes(Table::MvccKv, p.kv_table@);
    let w2 = row_writes(Table::MvccIdx, p.idx_table@);
    let w3 = row_writes(Table::MvccMeta, p.meta_table@);
    let a = Write::Put {
        table: Table::MvccMeta,
        key: applied_key,
        value: codec::optional_bytes(p.last_applied_log_id),
    };
    let m = Write::Put {
        table: Table::MvccMeta,
        key: membership_key,
        value: stored::membership_bytes(p.last_membership),
    };
    let e = seq![a, m];
    let none = Seq::<Write>::empty();
    assert(c =~= none.push(c[0]).push(c[1]).push(c[2]));
    batch::lemma_row_after_push(before, none, c[0], t, k);
    batch::lemma_row_after_push(before, none.push(c[0]), c[1], t, k);
    batch::lemma_row_after_push(before, none.push(c[0]).push(c[1]), c[2], t, k);
    let r0 = batch::row_after(before, c, t, k);
    batch::lemma_row_after_concat(before, c, w1, t, k);
    lemma_rows_after(r0, Table::MvccKv, p.kv_table@, t, k);
    let r1 = batch::row_after(before, c + w1, t, k);
    batch::lemma_row_after_concat(before, c + w1, w2, t, k);
    lemma_rows_after(r1, Table::MvccIdx, p.idx_table@, t, k);
    let r2 = batch::row_after(before, c + w1 + w2, t, k);
    batch::lemma_row_after_concat(before, c + w1 + w2, w3, t, k);
    lemma_rows_after(r2, Table::MvccMeta, p.meta_table@, t, k);
    let r3 = batch::row_after(before, c + w1 + w2 + w3, t, k);
    batch::lemma_row_after_concat(before, c + w1 + w2 + w3, e, t, k);
    assert(e =~= none.push(a).push(m));
    batch::lemma_row_after_push(r3, none, a, t, k);
    batch::lemma_row_after_push(r3, none.push(a), m, t, k);
}

/// An entry is answered exactly when the engine answered that kind of
/// entry, and with what the engine answered; a mismatch is never answered.
pub proof fn law_entry_is_answered_in_kind(data: FastetcdLogEntry, done: Applied)
    ensures
        response_to(data, done) is Some <==> {
            ||| data is Apply && done is Mutations
            ||| data is Txn && done is Txn
            ||| data is Compact && done is Compacted
            ||| data is LeaseGrant && done is LeaseGranted
            ||| data is LeaseRevoke && done is LeaseRevoked
            ||| data is LeaseKeepAlive && done is LeaseKeptAlive
            ||| data is Noop && done is Revision
        },
        response_to(data, done) matches Some(r) ==> {
            &&& done matches Applied::Mutations { revision, results } ==> r == (
            FastetcdLogResponse::Apply { revision, results })
            &&& done matches Applied::Txn(t) ==> r == FastetcdLogResponse::Txn(t)
            &&& done matches Applied::Compacted { compact_rev } ==> r == (
            FastetcdLogResponse::Compact { compact_rev })
            &&& done matches Applied::LeaseGranted(g) ==> r == FastetcdLogResponse::LeaseGrant(g)
            &&& done matches Applied::LeaseRevoked(v) ==> r == FastetcdLogResponse::LeaseRevoke(v)
            &&& done matches Applied::LeaseKeptAlive(t) ==> r
                == FastetcdLogResponse::LeaseKeepAlive(t)
            &&& done matches Applied::Revision(revision) ==> r == (FastetcdLogResponse::Noop {
                revision,
            })
        },
{
}

/// An entry without a request is answered with the revision alone, and a
/// refusal of the engine carries its text.
pub proof fn law_entry_without_request_is_answered_with_the_revision(
    payload: EntryPayload,
    done: Applied,
)
    ensures
        payload matches EntryPayload::Normal(data) ==> answer_to(payload, done) == response_to(
            data,
            done,
        ),
        !(payload is Normal) ==> (answer_to(payload, done) is Some <==> done is Revision),
        !(payload is Normal) ==> (done matches Applied::Revision(revision) ==> answer_to(
            payload,
            done,
        ) == Some(FastetcdLogResponse::Noop { revision })),
        done is Refused ==> answer_to(payload, done) is None,
        done matches Applied::Refused(text) ==> apply_fault(done) == "apply failed: "@ + text@,
        !(done is Refused) ==> apply_fault(done)
            == "apply failed: the engine answered another request"@,
{
}

/// Applying an entry takes over its place, and the membership it carries
/// if it carries one, under that place; nothing else moves.
pub proof fn law_applying_moves_the_place(sm: FastetcdStateMachine, entry: Entry<EntryPayload>)
    ensures
        sm.moved_on(entry).last_applied_log_id == Some(entry.log_id),
        entry.payload matches EntryPayload::Membership(m) ==> {
            &&& sm.moved_on(entry).last_membership.membership == m
            &&& sm.moved_on(entry).last_membership.log_id == Some(entry.log_id)
        },
        !(entry.payload is Membership) ==> sm.moved_on(entry).last_membership
            == sm.last_membership,
        sm.moved_on(entry).current_snapshot == sm.current_snapshot,
        sm.moved_on(entry).snapshot_idx == sm.snapshot_idx,
        sm.moved_on(entry).snapshots == sm.snapshots,
{
}

/// What is recorded with an entry is its place, and its membership exactly
/// if it carries one; both read back.
pub proof fn law_staged_entry_reads_back(s: Staged, entry: Entry<EntryPayload>)
    requires
        is_staged(s, entry),
    ensures
        codec::read_optional(s.applied@) == Some(Some(entry.log_id)),
        s.membership is Some <==> entry.payload is Membership,
        entry.payload matches EntryPayload::Membership(m) ==> {
            let set = StoredMembership { log_id: Some(entry.log_id), membership: m };
            &&& s.membership->0@ == stored::membership_bytes(set)
            &&& m.wf() ==> stored::membership_of(s.membership->0@) == Ok::<
                (Option<(u64, u64, u64)>, Seq<Seq<u64>>, Seq<(u64, Seq<char>)>),
                Seq<char>,
            >(stored::membership_parts(set))
        },
{
    codec::law_log_id_reads_back(Some(entry.log_id), seq![]);
    assert(codec::optional_bytes(Some(entry.log_id)) + Seq::<u8>::empty()
        =~= codec::optional_bytes(Some(entry.log_id)));
}

/// Opening succeeds exactly when what is recorded reads, and then gives
/// what it reads as, over the given snapshots, with none counted yet.
pub proof fn law_opening_reads_what_is_recorded(
    r: Result<FastetcdStateMachine, String>,
    snapshots: SnapshotStore,
    applied: Option<Seq<u8>>,
    membership: Option<Seq<u8>>,
    latest: Option<SnapshotMeta>,
)
    requires
        is_opened(r, snapshots, applied, membership, latest),
    ensures
        r is Ok <==> (applied is Some ==> codec::read_optional(applied->0) is Some) && (
        membership is Some ==> stored::membership_of(membership->0) is Ok),
        r is Ok ==> {
            &&& applied is None ==> r->Ok_0.last_applied_log_id is None
            &&& applied is Some ==> codec::read_optional(applied->0) == Some(
                r->Ok_0.last_applied_log_id,
            )
            &&& membership is None ==> {
                &&& r->Ok_0.last_membership.log_id is None
                &&& r->Ok_0.last_membership.membership.configs@.len() == 0
                &&& r->Ok_0.last_membership.membership.nodes.entries@.len() == 0
            }
            &&& membership is Some ==> stored::membership_of(membership->0)->Ok_0
                == stored::membership_parts(r->Ok_0.last_membership)
            &&& r->Ok_0.last_membership.membership.wf()
            &&& r->Ok_0.current_snapshot == latest
            &&& r->Ok_0.snapshot_idx == 0
            &&& r->Ok_0.snapshots == snapshots
        },
{
    if r is Ok && membership is None {
        let m = r->Ok_0.last_membership;
        assert(stored::membership_parts(m).1.len() == 0);
        assert(stored::lists(m.membership.configs@).len() == 0);
        assert(stored::listed(m.membership.nodes.entries@).len() == 0);
    }
}

/// Bytes that may be absent are what is there.
pub proof fn law_recorded_bytes_are_what_is_there(b: Option<Vec<u8>>)
    ensures
        bytes_in(b) is Some <==> b is Some,
        b matches Some(v) ==> bytes_in(b) == Some(v@),
{
}

/// Entries are applied one after another, and what is recorded with each
/// replaces what was recorded before: the place always, the membership
/// where the entry sets one.
pub proof fn law_entries_are_applied_one_by_one(
    sm: FastetcdStateMachine,
    entries: Seq<Entry<EntryPayload>>,
    e: Entry<EntryPayload>,
    start: StoredMembership,
    before: Option<Seq<u8>>,
    staged: Seq<Staged>,
    s: Staged,
)
    ensures
        after_entries(sm, seq![]) == sm,
        after_entries(sm, entries.push(e)) == after_entries(sm, entries).moved_on(e),
        membership_after(start, seq![]) == start,
        e.payload matches EntryPayload::Membership(m) ==> membership_after(start, entries.push(e))
            == (StoredMembership { log_id: Some(e.log_id), membership: m }),
        !(e.payload is Membership) ==> membership_after(start, entries.push(e))
            == membership_after(start, entries),
        place_on_record(before, seq![]) == before,
        place_on_record(before, staged.push(s)) == Some(s.applied@),
        membership_on_record(before, seq![]) == before,
        s.membership matches Some(b) ==> membership_on_record(before, staged.push(s)) == Some(b@),
        s.membership is None ==> membership_on_record(before, staged.push(s))
            == membership_on_record(before, staged),
{
    assert(entries.push(e).drop_last() =~= entries);
    assert(staged.push(s).drop_last() =~= staged);
}

/// A record holds a state exactly when its place and its membership read
/// as those of the state; nothing recorded stands for nothing applied and
/// no membership set.
pub proof fn law_record_holds_place_and_membership(
    applied: Option<Seq<u8>>,
    membership: Option<Seq<u8>>,
    sm: FastetcdStateMachine,
)
    requires
        records_state(applied, membership, sm),
    ensures
        applied matches Some(b) ==> codec::read_optional(b) == Some(sm.last_applied_log_id),
        applied is None ==> sm.last_applied_log_id is None,
        membership matches Some(b) ==> stored::membership_of(b) == Ok::<
            (Option<(u64, u64, u64)>, Seq<Seq<u64>>, Seq<(u64, Seq<char>)>),
            Seq<char>,
        >(stored::membership_parts(sm.last_membership)),
        membership is None ==> sm.last_membership.log_id is None,
{
}

/// Rows hold under a key what the last of them with that key holds.
pub proof fn law_last_row_of_a_key_counts(rows: Seq<Row>, r: Row, k: Seq<u8>)
    ensures
        held(seq![], k) is None,
        r.key@ == k ==> held(rows.push(r), k) == Some(r.value@),
        r.key@ != k ==> held(rows.push(r), k) == held(rows, k),
{
    assert(rows.push(r).drop_last() =~= rows);
}

/// Rows are stored as they are, each in the table they are for.
pub proof fn law_rows_are_stored_as_they_are(table: Table, rows: Seq<Row>, i: int)
    requires
        0 <= i < rows.len(),
    ensures
        row_writes(table, rows).len() == rows.len(),
        row_writes(table, rows)[i] == (Write::Put {
            table,
            key: rows[i].key@,
            value: rows[i].value@,
        }),
{
}

} // verus!
