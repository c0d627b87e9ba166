//! Watches: live delivery, replay of history, resynchronisation after a
//! gap, cancellation and progress.
//!
//! A watch never silently skips a revision. Each watcher carries a
//! cursor, the first revision it has not been given. Live delivery gives
//! it batches at or above the cursor. When the stream has missed batches
//! each watcher is caught up from history, or, where that history is
//! gone, cancelled.

use vstd::prelude::*;
use crate::conv::record_to_kv;
use crate::keyrange;
use crate::keyrange::key_in_range;
use crate::lex::copy_bytes;
use crate::model::{KeyValue, KvRecord, KvView};
use crate::state;
use crate::state::{response_header, ResponseHeader, ServerState};
use crate::text::{dec_i64, join3};

verus! {

/// Whether an event stored a value or removed a key.
#[derive(Debug, Clone, Copy, PartialEq, Eq, Structural)]
pub enum EventKind {
    Put,
    Delete,
}

/// A change as the store reports it.
#[derive(Debug)]
pub struct MvccEvent {
    pub kind: EventKind,
    pub kv: KvRecord,
    pub prev_kv: Option<KvRecord>,
}

/// What a reported change is.
#[verifier::ext_equal]
pub struct ChangeView {
    pub kind: EventKind,
    pub kv: KvView,
    pub prev_kv: Option<KvView>,
}

impl View for MvccEvent {
    type V = ChangeView;

    open spec fn view(&self) -> ChangeView {
        ChangeView {
            kind: self.kind,
            kv: self.kv@,
            prev_kv: match self.prev_kv {
                Some(p) => Some(p@),
                None => None,
            },
        }
    }
}

/// What a list of changes is.
pub open spec fn change_views(s: Seq<MvccEvent>) -> Seq<ChangeView> {
    s.map_values(|e: MvccEvent| e@)
}

/// The changes of one revision.
#[derive(Debug)]
pub struct EventBatch {
    pub revision: i64,
    pub events: Vec<MvccEvent>,
}

/// An event as it is sent to clients; type zero is a put, one a delete.
#[derive(Debug)]
pub struct Event {
    pub event_type: i32,
    pub kv: KeyValue,
    pub prev_kv: Option<KeyValue>,
}

/// What a sent event is.
#[verifier::ext_equal]
pub struct EventView {
    pub event_type: i32,
    pub kv: KvView,
    pub prev_kv: Option<KvView>,
}

impl View for Event {
    type V = EventView;

    open spec fn view(&self) -> EventView {
        EventView {
            event_type: self.event_type,
            kv: self.kv@,
            prev_kv: match self.prev_kv {
                Some(p) => Some(p@),
                None => None,
            },
        }
    }
}

/// What a list of sent events is.
pub open spec fn event_views(s: Seq<Event>) -> Seq<EventView> {
    s.map_values(|e: Event| e@)
}

/// A message to the client of a watch stream.
#[derive(Debug)]
pub struct WatchResponse {
    pub header: ResponseHeader,
    pub watch_id: i64,
    pub created: bool,
    pub canceled: bool,
    pub compact_revision: i64,
    pub cancel_reason: String,
    pub fragment: bool,
    pub events: Vec<Event>,
}

/// What a message says.
#[verifier::ext_equal]
pub struct ResponseView {
    pub header: ResponseHeader,
    pub watch_id: i64,
    pub created: bool,
    pub canceled: bool,
    pub compact_revision: i64,
    pub cancel_reason: Seq<char>,
    pub fragment: bool,
    pub events: Seq<EventView>,
}

impl View for WatchResponse {
    type V = ResponseView;

    open spec fn view(&self) -> ResponseView {
        ResponseView {
            header: self.header,
            watch_id: self.watch_id,
            created: self.created,
            canceled: self.canceled,
            compact_revision: self.compact_revision,
            cancel_reason: self.cancel_reason@,
            fragment: self.fragment,
            events: event_views(self.events@),
        }
    }
}

/// What a list of messages says.
pub open spec fn response_views(s: Seq<WatchResponse>) -> Seq<ResponseView> {
    s.map_values(|r: WatchResponse| r@)
}

/// One more message.
proof fn lemma_responses_push(s: Seq<WatchResponse>, r: WatchResponse)
    ensures
        response_views(s.push(r)) == response_views(s).push(r@),
{
    assert(response_views(s.push(r)) =~= response_views(s).push(r@));
}

/// A message that carries events.
pub open spec fn events_message(header: ResponseHeader, watch_id: i64, events: Seq<EventView>)
    -> ResponseView {
    ResponseView {
        header,
        watch_id,
        created: false,
        canceled: false,
        compact_revision: 0,
        cancel_reason: seq![],
        fragment: false,
        events,
    }
}

/// A message without events.
pub open spec fn notice(
    header: ResponseHeader,
    watch_id: i64,
    created: bool,
    canceled: bool,
    compact_revision: i64,
    cancel_reason: Seq<char>,
) -> ResponseView {
    ResponseView {
        header,
        watch_id,
        created,
        canceled,
        compact_revision,
        cancel_reason,
        fragment: false,
        events: seq![],
    }
}

/// What one client watches.
#[derive(Debug)]
pub struct Watcher {
    pub key: Vec<u8>,
    pub range_end: Vec<u8>,
    pub progress_notify: bool,
    pub filter_no_put: bool,
    pub filter_no_delete: bool,
    pub prev_kv: bool,
    /// First revision this watcher has not been given.
    pub next_rev: i64,
}

/// What a watcher is.
#[verifier::ext_equal]
pub struct WatcherView {
    pub key: Seq<u8>,
    pub range_end: Seq<u8>,
    pub progress_notify: bool,
    pub filter_no_put: bool,
    pub filter_no_delete: bool,
    pub prev_kv: bool,
    pub next_rev: i64,
}

impl View for Watcher {
    type V = WatcherView;

    open spec fn view(&self) -> WatcherView {
        WatcherView {
            key: self.key@,
            range_end: self.range_end@,
            progress_notify: self.progress_notify,
            filter_no_put: self.filter_no_put,
            filter_no_delete: self.filter_no_delete,
            prev_kv: self.prev_kv,
            next_rev: self.next_rev,
        }
    }
}

impl WatcherView {
    /// The change is on a key that is watched.
    pub open spec fn watches(self, e: ChangeView) -> bool {
        keyrange::in_range(self.key, self.range_end, e.kv.key)
    }

    /// The change is of a kind that is not filtered out.
    pub open spec fn passes(self, e: ChangeView) -> bool {
        match e.kind {
            EventKind::Put => !self.filter_no_put,
            EventKind::Delete => !self.filter_no_delete,
        }
    }

    /// The event that a change is sent as.
    pub open spec fn sent(self, e: ChangeView) -> EventView {
        EventView {
            event_type: match e.kind {
                EventKind::Put => 0,
                EventKind::Delete => 1,
            },
            kv: e.kv,
            prev_kv: if self.prev_kv {
                e.prev_kv
            } else {
                None
            },
        }
    }

    /// The events sent for those of the changes that pass the filter, in
    /// order.
    pub open spec fn passed(self, es: Seq<ChangeView>) -> Seq<EventView>
        decreases es.len(),
    {
        if es.len() == 0 {
            seq![]
        } else if self.passes(es.last()) {
            self.passed(es.drop_last()).push(self.sent(es.last()))
        } else {
            self.passed(es.drop_last())
        }
    }

    /// The events sent for those of the changes that are watched and pass
    /// the filter, in order.
    pub open spec fn selected(self, es: Seq<ChangeView>) -> Seq<EventView>
        decreases es.len(),
    {
        if es.len() == 0 {
            seq![]
        } else if self.watches(es.last()) && self.passes(es.last()) {
            self.selected(es.drop_last()).push(self.sent(es.last()))
        } else {
            self.selected(es.drop_last())
        }
    }

    /// The same watcher with its cursor elsewhere.
    pub open spec fn at(self, next_rev: i64) -> WatcherView {
        WatcherView { next_rev, ..self }
    }
}

impl Watcher {
    /// Whether a key is watched.
    pub fn matches_key(&self, key: &[u8]) -> (r: bool)
        ensures
            r == keyrange::in_range(self.key@, self.range_end@, key@),
    {
        key_in_range(self.key.as_slice(), self.range_end.as_slice(), key)
    }

    /// Whether a change is of a kind that is not filtered out.
    pub fn passes_filter(&self, event: &MvccEvent) -> (r: bool)
        ensures
            r == self@.passes(event@),
    {
        match event.kind {
            EventKind::Put => !self.filter_no_put,
            EventKind::Delete => !self.filter_no_delete,
        }
    }

    /// A change as it is sent to this watcher.
    pub fn to_pb(&self, e: &MvccEvent) -> (r: Event)
        ensures
            r@ == self@.sent(e@),
    {
        Event {
            event_type: match e.kind {
                EventKind::Put => 0,
                EventKind::Delete => 1,
            },
            kv: record_to_kv(&e.kv),
            prev_kv: if self.prev_kv {
                match &e.prev_kv {
                    Some(p) => Some(record_to_kv(p)),
                    None => None,
                }
            } else {
                None
            },
        }
    }
}

/// Soft cap on the payload of one message of history.
pub const REPLAY_CHUNK_BYTES: usize = 0x10_0000;

/// Bytes of keys and values that an event carries.
pub open spec fn payload(e: EventView) -> nat {
    e.kv.key.len() + e.kv.value.len() + (match e.prev_kv {
        Some(p) => p.key.len() + p.value.len(),
        None => 0,
    })
}

/// Bytes that a list of events carries.
pub open spec fn total_payload(s: Seq<EventView>) -> nat
    decreases s.len(),
{
    if s.len() == 0 {
        0
    } else {
        total_payload(s.drop_last()) + payload(s.last())
    }
}

/// History may be cut before the `j`-th event: enough has been gathered,
/// and the event begins another revision.
pub open spec fn cut_at(s: Seq<EventView>, j: int) -> bool {
    &&& 0 < j < s.len()
    &&& total_payload(s.take(j)) >= REPLAY_CHUNK_BYTES
    &&& s[j].kv.mod_revision != s[j - 1].kv.mod_revision
}

/// The first place from `j` on where history may be cut, or its end.
pub open spec fn cut(s: Seq<EventView>, j: int) -> int
    decreases s.len() - j,
{
    if j >= s.len() {
        s.len() as int
    } else if cut_at(s, j) {
        j
    } else {
        cut(s, j + 1)
    }
}

/// History as the messages that carry it: each is cut as early as it may
/// be.
pub open spec fn chunks(s: Seq<EventView>) -> Seq<Seq<EventView>>
    decreases s.len(),
    via chunks_end
{
    if s.len() == 0 {
        seq![]
    } else {
        seq![s.take(cut(s, 1))] + chunks(s.skip(cut(s, 1)))
    }
}

#[via_fn]
proof fn chunks_end(s: Seq<EventView>) {
    if s.len() > 0 {
        lemma_cut(s, 1);
    }
}

/// Where the first cut lies.
proof fn lemma_cut(s: Seq<EventView>, j: int)
    requires
        0 <= j <= s.len(),
    ensures
        j <= cut(s, j) <= s.len(),
        cut(s, j) < s.len() ==> cut_at(s, cut(s, j)),
        forall|k: int| j <= k < cut(s, j) ==> !cut_at(s, k),
    decreases s.len() - j,
{
    if j < s.len() && !cut_at(s, j) {
        lemma_cut(s, j + 1);
    }
}

/// A place with no cut before it and a cut at it is the first cut.
proof fn lemma_cut_is(s: Seq<EventView>, j: int, c: int)
    requires
        0 <= j <= c <= s.len(),
        c < s.len() ==> cut_at(s, c),
        forall|k: int| j <= k < c ==> !cut_at(s, k),
    ensures
        cut(s, j) == c,
    decreases c - j,
{
    if j < c {
        lemma_cut_is(s, j + 1, c);
    }
}

/// The events of several messages, one after the other.
pub open spec fn flat(g: Seq<Seq<EventView>>) -> Seq<EventView>
    decreases g.len(),
{
    if g.len() == 0 {
        seq![]
    } else {
        g[0] + flat(g.skip(1))
    }
}

/// The messages of a replay carry all of its events, in order and once;
/// none is empty; and no revision is divided between two of them.
pub proof fn law_replay_is_complete_and_divides_no_revision(s: Seq<EventView>)
    ensures
        flat(chunks(s)) == s,
        forall|i: int| 0 <= i < chunks(s).len() ==> (#[trigger] chunks(s)[i]).len() > 0,
        forall|i: int|
            #![trigger chunks(s)[i]]
            0 < i < chunks(s).len() ==> chunks(s)[i - 1].last().kv.mod_revision
                != chunks(s)[i][0].kv.mod_revision,
    decreases s.len(),
{
    if s.len() > 0 {
        lemma_cut(s, 1);
        let c = cut(s, 1);
        let rest = s.skip(c);
        law_replay_is_complete_and_divides_no_revision(rest);
        let all = chunks(s);
        assert(all =~= seq![s.take(c)] + chunks(rest));
        assert(all.skip(1) =~= chunks(rest));
        assert(s =~= s.take(c) + rest);
        assert forall|i: int| 0 <= i < all.len() implies (#[trigger] all[i]).len() > 0 by {
            if i > 0 {
                assert(all[i] == chunks(rest)[i - 1]);
            }
        }
        assert forall|i: int| #![trigger all[i]] 0 < i < all.len() implies all[
            i - 1
        ].last().kv.mod_revision != all[i][0].kv.mod_revision by {
            if i > 1 {
                assert(all[i] == chunks(rest)[i - 1]);
                assert(all[i - 1] == chunks(rest)[i - 2]);
            } else {
                assert(all[1] == chunks(rest)[0]);
                assert(rest.len() > 0);
                lemma_cut(rest, 1);
                assert(all[1][0] == rest[0]);
                assert(all[0].last() == s[c - 1]);
                assert(cut_at(s, c));
            }
        }
    }
}

/// Every message of a replay but the last carries at least the cap, so a
/// replay is not spread over needlessly many messages.
pub proof fn law_replay_chunks_are_full(s: Seq<EventView>, i: int)
    requires
        0 <= i < chunks(s).len() - 1,
    ensures
        total_payload(chunks(s)[i]) >= REPLAY_CHUNK_BYTES,
    decreases s.len(),
{
    lemma_cut(s, 1);
    let c = cut(s, 1);
    let rest = s.skip(c);
    assert(chunks(s) =~= seq![s.take(c)] + chunks(rest));
    if i > 0 {
        assert(chunks(s)[i] == chunks(rest)[i - 1]);
        law_replay_chunks_are_full(rest, i - 1);
    } else {
        assert(chunks(s)[0] == s.take(c));
        assert(rest.len() > 0);
        assert(cut_at(s, c));
    }
}

/// What reading a watcher's history gave.
#[derive(Debug)]
pub enum History {
    /// The changes on the watched keys, in revision order.
    Events(Vec<MvccEvent>),
    /// History below this revision is gone.
    Compacted { compact_rev: i64 },
    /// It could not be read.
    Failed(String),
}

/// A reading of history, and the compaction point just before it.
#[derive(Debug)]
pub struct HistoryRead {
    pub compact_rev: i64,
    pub history: History,
}

/// Outcome of sending a watcher its history.
#[derive(Debug)]
pub enum Replay {
    /// Everything up to the asked revision was delivered.
    Done,
    /// History below this revision is gone.
    Compacted { compact_rev: i64 },
    /// History could not be read.
    Failed(String),
}

/// What a replay comes to.
pub enum ReplayView {
    Done(Seq<EventView>),
    Compacted(i64),
    Failed(Seq<char>),
}

/// What sending a watcher its history up to a revision comes to: nothing
/// where it already has it; otherwise what the reading allows.
pub open spec fn replayed(w: WatcherView, upto: i64, read: HistoryRead) -> ReplayView {
    if w.next_rev > upto {
        ReplayView::Done(seq![])
    } else if w.next_rev < read.compact_rev {
        ReplayView::Compacted(read.compact_rev)
    } else {
        match read.history {
            History::Events(es) => ReplayView::Done(w.passed(change_views(es@))),
            History::Compacted { compact_rev } => ReplayView::Compacted(compact_rev),
            History::Failed(e) => ReplayView::Failed(e@),
        }
    }
}

/// The messages that carry events to a watcher.
pub open spec fn replay_messages(header: ResponseHeader, watch_id: i64, events: Seq<EventView>)
    -> Seq<ResponseView> {
    chunks(events).map_values(|c: Seq<EventView>| events_message(header, watch_id, c))
}

/// The interval of revisions to read for a watcher: those after the
/// first number, up to the second; `None` where nothing is missing.
pub fn history_interval(w: &Watcher, upto: i64) -> (r: Option<(i64, i64)>)
    requires
        w.next_rev > i64::MIN,
    ensures
        r == (if w.next_rev > upto {
            None::<(i64, i64)>
        } else {
            Some(((w.next_rev - 1) as i64, upto))
        }),
{
    if w.next_rev > upto {
        None
    } else {
        Some((w.next_rev - 1, upto))
    }
}

/// A message that carries events.
fn events_response(header: ResponseHeader, watch_id: i64, events: Vec<Event>) -> (r: WatchResponse)
    ensures
        r@ == events_message(header, watch_id, event_views(events@)),
{
    let r = WatchResponse {
        header,
        watch_id,
        created: false,
        canceled: false,
        compact_revision: 0,
        cancel_reason: String::new(),
        fragment: false,
        events,
    };
    assert(r@.cancel_reason =~= seq![]);
    r
}

/// A message without events.
fn notice_response(
    header: ResponseHeader,
    watch_id: i64,
    created: bool,
    canceled: bool,
    compact_revision: i64,
    cancel_reason: String,
) -> (r: WatchResponse)
    ensures
        r@ == notice(header, watch_id, created, canceled, compact_revision, cancel_reason@),
{
    let r = WatchResponse {
        header,
        watch_id,
        created,
        canceled,
        compact_revision,
        cancel_reason,
        fragment: false,
        events: Vec::new(),
    };
    assert(r@.events =~= seq![]);
    r
}

/// Bytes that a sent event carries, stopping at the largest number.
fn event_bytes(e: &Event) -> (r: usize)
    ensures
        payload(e@) <= usize::MAX ==> r == payload(e@),
        payload(e@) > usize::MAX ==> r == usize::MAX,
{
    let base = e.kv.key.len().saturating_add(e.kv.value.len());
    match &e.prev_kv {
        Some(p) => base.saturating_add(p.key.len().saturating_add(p.value.len())),
        None => base,
    }
}

/// The events of changes that pass a watcher's filter.
fn passed_events(w: &Watcher, events: &Vec<MvccEvent>) -> (r: Vec<Event>)
    ensures
        event_views(r@) == w@.passed(change_views(events@)),
{
    let ghost all = change_views(events@);
    let mut out: Vec<Event> = Vec::new();
    let mut i: usize = 0;
    assert(event_views(out@) =~= w@.passed(all.take(0)));
    while i < events.len()
        invariant
            i <= events@.len(),
            all == change_views(events@),
            event_views(out@) == w@.passed(all.take(i as int)),
        decreases events@.len() - i,
    {
        let ghost before = out@;
        assert(all.take(i + 1).drop_last() =~= all.take(i as int));
        assert(all.take(i + 1).last() == events@[i as int]@);
        if w.passes_filter(&events[i]) {
            let e = w.to_pb(&events[i]);
            out.push(e);
            assert(event_views(out@) =~= event_views(before).push(e@));
        }
        i += 1;
    }
    assert(all.take(i as int) =~= all);
    out
}

/// Payload of one more event.
proof fn lemma_payload_push(s: Seq<EventView>, e: EventView)
    ensures
        total_payload(s.push(e)) == total_payload(s) + payload(e),
{
    assert(s.push(e).drop_last() =~= s);
}

/// Where the first message of a list of events ends.
fn first_cut(events: &Vec<Event>) -> (c: usize)
    requires
        events@.len() > 0,
    ensures
        c == cut(event_views(events@), 1),
        0 < c <= events@.len(),
{
    let ghost all = event_views(events@);
    let mut chunk_bytes: usize = event_bytes(&events[0]);
    let mut i: usize = 1;
    proof {
        assert(all.take(1) =~= seq![].push(all[0]));
        lemma_payload_push(seq![], all[0]);
    }
    while i < events.len()
        invariant
            0 < i <= events@.len(),
            all == event_views(events@),
            total_payload(all.take(i as int)) <= usize::MAX ==> chunk_bytes == total_payload(
                all.take(i as int),
            ),
            total_payload(all.take(i as int)) > usize::MAX ==> chunk_bytes == usize::MAX,
            forall|k: int| 1 <= k < i ==> !cut_at(all, k),
        decreases events@.len() - i,
    {
        if chunk_bytes >= REPLAY_CHUNK_BYTES && events[i].kv.mod_revision
            != events[i - 1].kv.mod_revision {
            assert(all[i as int].kv.mod_revision != all[i - 1].kv.mod_revision);
            proof {
                lemma_cut_is(all, 1, i as int);
            }
            return i;
        }
        assert(all[i as int] == events@[i as int]@ && all[i - 1] == events@[i - 1]@);
        chunk_bytes = chunk_bytes.saturating_add(event_bytes(&events[i]));
        proof {
            assert(all.take(i + 1) =~= all.take(i as int).push(all[i as int]));
            lemma_payload_push(all.take(i as int), all[i as int]);
        }
        i += 1;
    }
    proof {
        lemma_cut_is(all, 1, i as int);
    }
    i
}

/// Cut a watcher's events into messages, between revisions only.
fn chunk_events(header: ResponseHeader, watch_id: i64, events: Vec<Event>) -> (r: Vec<
    WatchResponse,
>)
    ensures
        response_views(r@) == replay_messages(header, watch_id, event_views(events@)),
{
    let ghost all = event_views(events@);
    let mut rest = events;
    let mut out: Vec<WatchResponse> = Vec::new();
    assert(response_views(out@) + replay_messages(header, watch_id, all) =~= replay_messages(
        header,
        watch_id,
        all,
    ));
    while rest.len() > 0
        invariant
            replay_messages(header, watch_id, all) == response_views(out@) + replay_messages(
                header,
                watch_id,
                event_views(rest@),
            ),
        decreases rest@.len(),
    {
        let ghost now = event_views(rest@);
        let c = first_cut(&rest);
        let tail = rest.split_off(c);
        let ghost m = |x: Seq<EventView>| events_message(header, watch_id, x);
        proof {
            assert(event_views(rest@) =~= now.take(c as int));
            assert(event_views(tail@) =~= now.skip(c as int));
            assert(chunks(now) =~= seq![now.take(c as int)] + chunks(now.skip(c as int)));
            assert(chunks(now).map_values(m) =~= seq![m(now.take(c as int))] + chunks(
                now.skip(c as int),
            ).map_values(m));
        }
        let resp = events_response(header, watch_id, rest);
        let ghost before = response_views(out@);
        proof {
            lemma_responses_push(out@, resp);
        }
        out.push(resp);
        rest = tail;
        assert(response_views(out@) + replay_messages(header, watch_id, event_views(rest@))
            =~= before + replay_messages(header, watch_id, now));
    }
    assert(event_views(rest@) =~= seq![]);
    assert(response_views(out@) + replay_messages(header, watch_id, seq![]) =~= response_views(
        out@,
    ));
    out
}

/// Send a watcher every event in `[next_rev, upto]` that it selects, in
/// revision order, as messages under the cap. The cursor is not moved.
pub fn replay_history(
    state: &ServerState,
    watch_id: i64,
    watcher: &Watcher,
    upto: i64,
    read: &HistoryRead,
) -> (r: (Replay, Vec<WatchResponse>))
    ensures
        match replayed(watcher@, upto, *read) {
            ReplayView::Done(events) => r.0 is Done && response_views(r.1@) == replay_messages(
                state::header_of(*state, upto),
                watch_id,
                events,
            ),
            ReplayView::Compacted(c) => r.0 == (Replay::Compacted { compact_rev: c })
                && r.1@.len() == 0,
            ReplayView::Failed(e) => (r.0 matches Replay::Failed(t) && t@ == e) && r.1@.len() == 0,
        },
{
    let none: Vec<WatchResponse> = Vec::new();
    if watcher.next_rev > upto {
        assert(response_views(none@) =~= replay_messages(
            state::header_of(*state, upto),
            watch_id,
            seq![],
        ));
        return (Replay::Done, none);
    }
    if watcher.next_rev < read.compact_rev {
        return (Replay::Compacted { compact_rev: read.compact_rev }, none);
    }
    match &read.history {
        History::Compacted { compact_rev } => (
            Replay::Compacted { compact_rev: *compact_rev },
            none,
        ),
        History::Failed(e) => (Replay::Failed(e.clone()), none),
        History::Events(es) => {
            let events = passed_events(watcher, es);
            let header = response_header(state, upto);
            (Replay::Done, chunk_events(header, watch_id, events))
        },
    }
}

/// A watcher and the number its client knows it by.
#[derive(Debug)]
pub struct WatchEntry {
    pub id: i64,
    pub watcher: Watcher,
}

/// What an entry is.
#[verifier::ext_equal]
pub struct EntryView {
    pub id: i64,
    pub w: WatcherView,
}

impl View for WatchEntry {
    type V = EntryView;

    open spec fn view(&self) -> EntryView {
        EntryView { id: self.id, w: self.watcher@ }
    }
}

/// What a list of entries is.
pub open spec fn entry_views(s: Seq<WatchEntry>) -> Seq<EntryView> {
    s.map_values(|e: WatchEntry| e@)
}

/// The watchers of one connection, and the newest revision that the
/// connection has accounted for.
#[derive(Debug)]
pub struct WatchStreamState {
    pub watchers: Vec<WatchEntry>,
    pub next_auto_id: i64,
    pub last_rev: i64,
}

/// What a connection's state is.
#[verifier::ext_equal]
pub struct StreamView {
    pub watchers: Seq<EntryView>,
    pub next_auto_id: i64,
    pub last_rev: i64,
}

impl View for WatchStreamState {
    type V = StreamView;

    open spec fn view(&self) -> StreamView {
        StreamView {
            watchers: entry_views(self.watchers@),
            next_auto_id: self.next_auto_id,
            last_rev: self.last_rev,
        }
    }
}

impl StreamView {
    /// No number is used twice, and every watcher has been given, or does
    /// not want, everything the connection has accounted for.
    pub open spec fn wf(self) -> bool {
        &&& forall|i: int, j: int|
            0 <= i < j < self.watchers.len() ==> (#[trigger] self.watchers[i]).id != (
            #[trigger] self.watchers[j]).id
        &&& forall|i: int|
            0 <= i < self.watchers.len() ==> (#[trigger] self.watchers[i]).w.next_rev
                > self.last_rev
    }
}

/// The first position from `i` on of an entry with a number, or the end.
pub open spec fn find_id(ws: Seq<EntryView>, id: i64, i: int) -> int
    decreases ws.len() - i,
{
    if i >= ws.len() {
        ws.len() as int
    } else if ws[i].id == id {
        i
    } else {
        find_id(ws, id, i + 1)
    }
}

/// The entries without the one of a number.
pub open spec fn drop_id(ws: Seq<EntryView>, id: i64) -> Seq<EntryView> {
    let i = find_id(ws, id, 0);
    if i < ws.len() {
        ws.remove(i)
    } else {
        ws
    }
}

/// Where the first entry of a number stands.
proof fn lemma_find_id(ws: Seq<EntryView>, id: i64, i: int)
    requires
        0 <= i <= ws.len(),
    ensures
        i <= find_id(ws, id, i) <= ws.len(),
        find_id(ws, id, i) < ws.len() ==> ws[find_id(ws, id, i)].id == id,
        forall|k: int| i <= k < find_id(ws, id, i) ==> (#[trigger] ws[k]).id != id,
    decreases ws.len() - i,
{
    if i < ws.len() && ws[i].id != id {
        lemma_find_id(ws, id, i + 1);
    }
}

/// Dropping an entry keeps numbers distinct, removes that number, and
/// leaves the other entries.
proof fn lemma_drop_id(s: StreamView, id: i64)
    requires
        s.wf(),
    ensures
        ({
            let ws = drop_id(s.watchers, id);
            &&& (StreamView { watchers: ws, ..s }).wf()
            &&& forall|i: int| 0 <= i < ws.len() ==> (#[trigger] ws[i]).id != id
        }),
{
    lemma_find_id(s.watchers, id, 0);
    let k = find_id(s.watchers, id, 0);
    let ws = drop_id(s.watchers, id);
    if k < s.watchers.len() {
        assert forall|i: int| 0 <= i < ws.len() implies ws[i] == s.watchers[if i < k {
            i
        } else {
            i + 1
        }] by {}
    }
}

impl WatchStreamState {
    /// A connection without watchers, accounting for changes after
    /// `subscribed_at`.
    pub fn new(subscribed_at: i64) -> (r: WatchStreamState)
        ensures
            r@ == (StreamView {
                watchers: seq![],
                next_auto_id: 0,
                last_rev: subscribed_at,
            }),
            r@.wf(),
    {
        let r = WatchStreamState {
            watchers: Vec::new(),
            next_auto_id: 0,
            last_rev: subscribed_at,
        };
        assert(r@.watchers =~= seq![]);
        r
    }

    /// The next number for a watcher whose client did not choose one.
    pub fn next_id(&mut self) -> (r: i64)
        requires
            old(self).next_auto_id < i64::MAX,
        ensures
            r == old(self).next_auto_id + 1,
            final(self)@ == (StreamView { next_auto_id: r, ..old(self)@ }),
    {
        self.next_auto_id = self.next_auto_id + 1;
        self.next_auto_id
    }

    /// Take the watcher of a number out; whether there was one.
    pub fn remove_watcher(&mut self, id: i64) -> (existed: bool)
        ensures
            final(self)@ == (StreamView {
                watchers: drop_id(old(self)@.watchers, id),
                ..old(self)@
            }),
            existed == (find_id(old(self)@.watchers, id, 0) < old(self)@.watchers.len()),
    {
        let ghost ws = self@.watchers;
        let mut i: usize = 0;
        while i < self.watchers.len()
            invariant
                i <= self.watchers@.len(),
                self@ == old(self)@,
                ws == self@.watchers,
                find_id(ws, id, 0) == find_id(ws, id, i as int),
            decreases self.watchers@.len() - i,
        {
            assert(ws[i as int].id == self.watchers@[i as int].id);
            if self.watchers[i].id == id {
                self.watchers.remove(i);
                assert(entry_views(self.watchers@) =~= ws.remove(i as int));
                return true;
            }
            i += 1;
        }
        false
    }

    /// Put a watcher under a number, in place of one already there.
    pub fn insert_watcher(&mut self, id: i64, watcher: Watcher)
        ensures
            final(self)@ == (StreamView {
                watchers: drop_id(old(self)@.watchers, id).push(
                    EntryView { id, w: watcher@ },
                ),
                ..old(self)@
            }),
    {
        self.remove_watcher(id);
        let ghost before = self@.watchers;
        self.watchers.push(WatchEntry { id, watcher });
        assert(self@.watchers =~= before.push(EntryView { id, w: watcher@ }));
    }
}

/// What a client asks to watch.
#[derive(Debug)]
pub struct WatchCreateRequest {
    pub key: Vec<u8>,
    pub range_end: Vec<u8>,
    pub start_revision: i64,
    pub progress_notify: bool,
    pub filters: Vec<i32>,
    pub prev_kv: bool,
    pub watch_id: i64,
}

/// Whether a list of filters holds a number.
fn has_filter(filters: &Vec<i32>, f: i32) -> (r: bool)
    ensures
        r == filters@.contains(f),
{
    let mut i: usize = 0;
    while i < filters.len()
        invariant
            i <= filters@.len(),
            forall|j: int| 0 <= j < i ==> filters@[j] != f,
        decreases filters@.len() - i,
    {
        if filters[i] == f {
            assert(filters@[i as int] == f);
            return true;
        }
        i += 1;
    }
    false
}

/// The number a new watcher gets.
pub open spec fn created_id(s: StreamView, c: WatchCreateRequest) -> i64 {
    if c.watch_id > 0 {
        c.watch_id
    } else {
        (s.next_auto_id + 1) as i64
    }
}

/// The watcher a request asks for: it starts at the revision the client
/// names, or after the current one. Filter zero drops puts, one deletes.
pub open spec fn created_watcher(c: WatchCreateRequest, current_rev: i64) -> WatcherView {
    WatcherView {
        key: c.key@,
        range_end: c.range_end@,
        progress_notify: c.progress_notify,
        filter_no_put: c.filters@.contains(0),
        filter_no_delete: c.filters@.contains(1),
        prev_kv: c.prev_kv,
        next_rev: if c.start_revision > 0 {
            c.start_revision
        } else {
            (current_rev + 1) as i64
        },
    }
}

/// The text that a compacted watch is cancelled with.
pub open spec fn compacted_text(start: i64, compact_rev: i64) -> Seq<char> {
    "watch revision "@ + crate::text::dec_int(start as int)
        + " has been compacted (compact_rev = "@ + crate::text::dec_int(compact_rev as int) + ")"@
}

fn compacted_reason(start: i64, compact_rev: i64) -> (r: String)
    ensures
        r@ == compacted_text(start, compact_rev),
{
    let mut s = join3(
        "watch revision ",
        dec_i64(start).as_str(),
        " has been compacted (compact_rev = ",
    );
    s.append(dec_i64(compact_rev).as_str());
    s.append(")");
    s
}

/// What the state and the messages are after a request to watch.
pub open spec fn created(
    state: ServerState,
    s: StreamView,
    c: WatchCreateRequest,
    current_rev: i64,
    compact_rev: i64,
    read: HistoryRead,
    cancel_rev: i64,
) -> (StreamView, Seq<ResponseView>) {
    let id = created_id(s, c);
    let w = created_watcher(c, current_rev);
    let header = state::header_of(state, current_rev);
    let numbered = if c.watch_id > 0 {
        s
    } else {
        StreamView { next_auto_id: id, ..s }
    };
    if c.start_revision > 0 && c.start_revision < compact_rev {
        (
            numbered,
            seq![
                notice(
                    header,
                    id,
                    true,
                    true,
                    compact_rev,
                    compacted_text(c.start_revision, compact_rev),
                ),
            ],
        )
    } else {
        let ack = seq![notice(header, id, true, false, 0, seq![])];
        match replayed(w, current_rev, read) {
            ReplayView::Done(events) => {
                let next = if w.next_rev > current_rev {
                    w.next_rev
                } else {
                    (current_rev + 1) as i64
                };
                (
                    StreamView {
                        watchers: drop_id(numbered.watchers, id).push(
                            EntryView { id, w: w.at(next) },
                        ),
                        ..numbered
                    },
                    ack + replay_messages(header, id, events),
                )
            },
            ReplayView::Compacted(gone) => (
                numbered,
                ack.push(
                    notice(
                        state::header_of(state, cancel_rev),
                        id,
                        false,
                        true,
                        gone,
                        compacted_text(c.start_revision, gone),
                    ),
                ),
            ),
            ReplayView::Failed(e) => (
                numbered,
                ack.push(
                    notice(
                        state::header_of(state, cancel_rev),
                        id,
                        false,
                        true,
                        0,
                        "watch history could not be read: "@ + e,
                    ),
                ),
            ),
        }
    }
}

/// Start a watch.
///
/// `current_rev` and `compact_rev` are read while the connection is
/// locked, so that every batch above `current_rev` is still ahead of it.
/// `read` is the watcher's history from its start revision up to
/// `current_rev`, looked at only where the watcher starts in the past;
/// `cancel_rev` is the revision read for a cancellation.
pub fn handle_create(
    state: &ServerState,
    ss: &mut WatchStreamState,
    create: &WatchCreateRequest,
    current_rev: i64,
    compact_rev: i64,
    read: &HistoryRead,
    cancel_rev: i64,
) -> (out: Vec<WatchResponse>)
    requires
        create.watch_id > 0 || old(ss).next_auto_id < i64::MAX,
        0 < create.start_revision < compact_rev || current_rev < i64::MAX,
    ensures
        final(ss)@ == created(
            *state,
            old(ss)@,
            *create,
            current_rev,
            compact_rev,
            *read,
            cancel_rev,
        ).0,
        response_views(out@) == created(
            *state,
            old(ss)@,
            *create,
            current_rev,
            compact_rev,
            *read,
            cancel_rev,
        ).1,
{
    let watch_id: i64 = if create.watch_id > 0 {
        create.watch_id
    } else {
        ss.next_id()
    };
    let mut out: Vec<WatchResponse> = Vec::new();
    let header = response_header(state, current_rev);
    if create.start_revision > 0 && create.start_revision < compact_rev {
        let resp = notice_response(
            header,
            watch_id,
            true,
            true,
            compact_rev,
            compacted_reason(create.start_revision, compact_rev),
        );
        out.push(resp);
        assert(response_views(out@) =~= seq![resp@]);
        return out;
    }
    let next_rev: i64 = if create.start_revision > 0 {
        create.start_revision
    } else {
        current_rev + 1
    };
    let mut watcher = Watcher {
        key: copy_bytes(create.key.as_slice()),
        range_end: copy_bytes(create.range_end.as_slice()),
        progress_notify: create.progress_notify,
        filter_no_put: has_filter(&create.filters, 0),
        filter_no_delete: has_filter(&create.filters, 1),
        prev_kv: create.prev_kv,
        next_rev,
    };
    let ghost w = watcher@;
    assert(w =~= created_watcher(*create, current_rev));
    let ack = notice_response(header, watch_id, true, false, 0, String::new());
    assert(ack@ =~= notice(header, watch_id, true, false, 0, seq![]));
    out.push(ack);
    assert(response_views(out@) =~= seq![ack@]);
    let (outcome, mut messages) = replay_history(state, watch_id, &watcher, current_rev, read);
    match outcome {
        Replay::Done => {
            let ghost sent = response_views(messages@);
            let ghost first = out@;
            let ghost more = messages@;
            out.append(&mut messages);
            assert(response_views(out@) =~= response_views(first) + response_views(more));
            if watcher.next_rev <= current_rev {
                watcher.next_rev = current_rev + 1;
            }
            ss.insert_watcher(watch_id, watcher);
        },
        Replay::Compacted { compact_rev: gone } => {
            let resp = notice_response(
                response_header(state, cancel_rev),
                watch_id,
                false,
                true,
                gone,
                compacted_reason(create.start_revision, gone),
            );
            proof {
                lemma_responses_push(out@, resp);
            }
            out.push(resp);
        },
        Replay::Failed(e) => {
            let resp = notice_response(
                response_header(state, cancel_rev),
                watch_id,
                false,
                true,
                0,
                String::from_str("watch history could not be read: ").concat(e.as_str()),
            );
            proof {
                lemma_responses_push(out@, resp);
            }
            out.push(resp);
        },
    }
    out
}

/// End a watch at its client's request. Ending one that does not exist is
/// answered alike.
pub fn handle_cancel(
    state: &ServerState,
    ss: &mut WatchStreamState,
    watch_id: i64,
    current_rev: i64,
) -> (r: WatchResponse)
    ensures
        final(ss)@ == (StreamView {
            watchers: drop_id(old(ss)@.watchers, watch_id),
            ..old(ss)@
        }),
        r@ == notice(
            state::header_of(*state, current_rev),
            watch_id,
            false,
            true,
            0,
            seq![],
        ),
{
    ss.remove_watcher(watch_id);
    let r = notice_response(
        response_header(state, current_rev),
        watch_id,
        false,
        true,
        0,
        String::new(),
    );
    assert(r@.cancel_reason =~= seq![]);
    r
}

/// The message of progress for a whole connection.
pub open spec fn progress_message(header: ResponseHeader) -> ResponseView {
    notice(header, -1i64, false, false, 0, seq![])
}

fn progress_response(header: ResponseHeader) -> (r: WatchResponse)
    ensures
        r@ == progress_message(header),
{
    let r = notice_response(header, -1, false, false, 0, String::new());
    assert(r@.cancel_reason =~= seq![]);
    r
}

/// Answer a request for progress: nothing where nothing is watched.
pub fn handle_progress(state: &ServerState, ss: &WatchStreamState, current_rev: i64) -> (r: Option<
    WatchResponse,
>)
    ensures
        r is Some <==> ss@.watchers.len() > 0,
        r is Some ==> r->0@ == progress_message(state::header_of(*state, current_rev)),
{
    if ss.watchers.len() == 0 {
        return None;
    }
    Some(progress_response(response_header(state, current_rev)))
}

/// What a client sends on a watch connection.
#[derive(Debug)]
pub enum WatchRequest {
    Create(WatchCreateRequest),
    Cancel { watch_id: i64 },
    Progress,
}

/// What was read of the store for a request: the current and the
/// compacted revision, the history that a new watcher starts with, and
/// the revision read for a cancellation.
#[derive(Debug)]
pub struct StoreReading {
    pub current_rev: i64,
    pub compact_rev: i64,
    pub history: HistoryRead,
    pub cancel_rev: i64,
}

/// What the state of a connection and the messages are after a request;
/// one that asks for nothing changes nothing.
pub open spec fn served(
    state: ServerState,
    s: StreamView,
    req: Option<WatchRequest>,
    store: StoreReading,
) -> (StreamView, Seq<ResponseView>) {
    let header = state::header_of(state, store.current_rev);
    match req {
        None => (s, seq![]),
        Some(WatchRequest::Create(c)) => created(
            state,
            s,
            c,
            store.current_rev,
            store.compact_rev,
            store.history,
            store.cancel_rev,
        ),
        Some(WatchRequest::Cancel { watch_id }) => (
            StreamView { watchers: drop_id(s.watchers, watch_id), ..s },
            seq![notice(header, watch_id, false, true, 0, seq![])],
        ),
        Some(WatchRequest::Progress) => (
            s,
            if s.watchers.len() > 0 {
                seq![progress_message(header)]
            } else {
                seq![]
            },
        ),
    }
}

/// The watch service: the requests of each connection, in their order.
#[derive(Debug)]
pub struct WatchService {
    pub state: ServerState,
}

impl WatchService {
    /// A service over the given state.
    pub fn new(state: ServerState) -> (r: WatchService)
        ensures
            r.state == state,
    {
        WatchService { state }
    }

    /// Serve one request of a connection: the messages to send.
    pub fn watch(
        &self,
        ss: &mut WatchStreamState,
        req: &Option<WatchRequest>,
        store: &StoreReading,
    ) -> (out: Vec<WatchResponse>)
        requires
            req matches Some(WatchRequest::Create(c)) ==> {
                &&& c.watch_id > 0 || old(ss).next_auto_id < i64::MAX
                &&& 0 < c.start_revision < store.compact_rev || store.current_rev < i64::MAX
            },
        ensures
            final(ss)@ == served(self.state, old(ss)@, *req, *store).0,
            response_views(out@) == served(self.state, old(ss)@, *req, *store).1,
    {
        let mut out: Vec<WatchResponse> = Vec::new();
        assert(response_views(out@) =~= seq![]);
        match req {
            None => {},
            Some(WatchRequest::Create(create)) => {
                out = handle_create(
                    &self.state,
                    ss,
                    create,
                    store.current_rev,
                    store.compact_rev,
                    &store.history,
                    store.cancel_rev,
                );
            },
            Some(WatchRequest::Cancel { watch_id }) => {
                let resp = handle_cancel(&self.state, ss, *watch_id, store.current_rev);
                out.push(resp);
                assert(response_views(out@) =~= seq![resp@]);
            },
            Some(WatchRequest::Progress) => {
                if let Some(resp) = handle_progress(&self.state, ss, store.current_rev) {
                    out.push(resp);
                    assert(response_views(out@) =~= seq![resp@]);
                }
            },
        }
        out
    }
}

/// Some watcher asked for periodic progress.
pub open spec fn wants_progress(s: StreamView) -> bool {
    exists|i: int| 0 <= i < s.watchers.len() && (#[trigger] s.watchers[i]).w.progress_notify
}

/// What a tick of the progress timer sends: nothing where no watcher
/// asked for it.
pub fn progress_notify_tick(state: &ServerState, ss: &WatchStreamState, current_rev: i64) -> (r:
    Option<WatchResponse>)
    ensures
        r is Some <==> wants_progress(ss@),
        r is Some ==> r->0@ == progress_message(state::header_of(*state, current_rev)),
{
    let mut i: usize = 0;
    while i < ss.watchers.len()
        invariant
            i <= ss.watchers@.len(),
            forall|j: int| 0 <= j < i ==> !(#[trigger] ss@.watchers[j]).w.progress_notify,
        decreases ss.watchers@.len() - i,
    {
        assert(ss@.watchers[i as int].w.progress_notify
            == ss.watchers@[i as int].watcher.progress_notify);
        if ss.watchers[i].watcher.progress_notify {
            return Some(progress_response(response_header(state, current_rev)));
        }
        i += 1;
    }
    None
}

/// The watcher after a batch: a cursor at or below the batch moves past
/// it.
pub open spec fn advanced(e: EntryView, revision: i64) -> EntryView {
    if revision < e.w.next_rev {
        e
    } else {
        EntryView { w: e.w.at((revision + 1) as i64), ..e }
    }
}

/// The watchers after a batch.
pub open spec fn all_advanced(ws: Seq<EntryView>, revision: i64) -> Seq<EntryView> {
    ws.map_values(|e: EntryView| advanced(e, revision))
}

/// The messages of a batch: for each watcher whose cursor has reached it,
/// and that selects some of its changes, those changes.
pub open spec fn deliveries(
    ws: Seq<EntryView>,
    revision: i64,
    changes: Seq<ChangeView>,
    header: ResponseHeader,
) -> Seq<ResponseView>
    decreases ws.len(),
{
    if ws.len() == 0 {
        seq![]
    } else {
        let e = ws.last();
        let rest = deliveries(ws.drop_last(), revision, changes, header);
        let events = e.w.selected(changes);
        if revision < e.w.next_rev || events.len() == 0 {
            rest
        } else {
            rest.push(events_message(header, e.id, events))
        }
    }
}

/// What a batch leads to.
#[derive(Debug)]
pub enum Forward {
    /// The connection missed batches: catch its watchers up from history.
    Resync,
    /// These messages.
    Deliver(Vec<WatchResponse>),
}

/// The events of the changes that a watcher selects.
fn selected_events(w: &Watcher, events: &Vec<MvccEvent>) -> (r: Vec<Event>)
    ensures
        event_views(r@) == w@.selected(change_views(events@)),
{
    let ghost all = change_views(events@);
    let mut out: Vec<Event> = Vec::new();
    let mut i: usize = 0;
    assert(event_views(out@) =~= w@.selected(all.take(0)));
    while i < events.len()
        invariant
            i <= events@.len(),
            all == change_views(events@),
            event_views(out@) == w@.selected(all.take(i as int)),
        decreases events@.len() - i,
    {
        let ghost before = out@;
        assert(all.take(i + 1).drop_last() =~= all.take(i as int));
        assert(all.take(i + 1).last() == events@[i as int]@);
        if w.matches_key(events[i].kv.key.as_slice()) && w.passes_filter(&events[i]) {
            let e = w.to_pb(&events[i]);
            out.push(e);
            assert(event_views(out@) =~= event_views(before).push(e@));
        }
        i += 1;
    }
    assert(all.take(i as int) =~= all);
    out
}

/// The batch does not follow on from what the connection has accounted
/// for.
pub open spec fn leaves_gap(s: StreamView, revision: i64) -> bool {
    revision > s.last_rev && revision != s.last_rev + 1
}

/// Deliver a batch to the watchers of a connection, or find that batches
/// before it were missed.
pub fn forward_events(state: &ServerState, ss: &mut WatchStreamState, batch: &EventBatch) -> (r:
    Forward)
    requires
        batch.revision < i64::MAX,
    ensures
        leaves_gap(old(ss)@, batch.revision) ==> r is Resync && final(ss)@ == old(ss)@,
        !leaves_gap(old(ss)@, batch.revision) ==> {
            &&& final(ss)@ == (StreamView {
                watchers: all_advanced(old(ss)@.watchers, batch.revision),
                last_rev: if batch.revision > old(ss)@.last_rev {
                    batch.revision
                } else {
                    old(ss)@.last_rev
                },
                ..old(ss)@
            })
            &&& r matches Forward::Deliver(out) && response_views(out@) == deliveries(
                old(ss)@.watchers,
                batch.revision,
                change_views(batch.events@),
                state::header_of(*state, batch.revision),
            )
        },
{
    let revision: i64 = batch.revision;
    if revision > ss.last_rev {
        if revision - 1 != ss.last_rev {
            return Forward::Resync;
        }
        ss.last_rev = revision;
    }
    let ghost ws = entry_views(ss.watchers@);
    let ghost changes = change_views(batch.events@);
    let header = response_header(state, revision);
    let mut out: Vec<WatchResponse> = Vec::new();
    let mut watchers: Vec<WatchEntry> = Vec::new();
    std::mem::swap(&mut watchers, &mut ss.watchers);
    let ghost entries = watchers@;
    let mut moved: Vec<WatchEntry> = Vec::new();
    assert(response_views(out@) =~= deliveries(ws.take(0), revision, changes, header));
    assert(entry_views(moved@) =~= all_advanced(ws.take(0), revision));
    for entry in it: watchers
        invariant
            it.seq() == entries,
            ws == entry_views(entries),
            changes == change_views(batch.events@),
            revision == batch.revision,
            revision < i64::MAX,
            entry_views(moved@) == all_advanced(ws.take(it.index() as int), revision),
            response_views(out@) == deliveries(
                ws.take(it.index() as int),
                revision,
                changes,
                header,
            ),
    {
        let ghost i = it.index() as int;
        let ghost before = moved@;
        let ghost sent = out@;
        let mut entry = entry;
        assert(ws[i] == entry@);
        assert(ws.take(i + 1).drop_last() =~= ws.take(i));
        assert(ws.take(i + 1).last() == ws[i]);
        if revision >= entry.watcher.next_rev {
            let events = selected_events(&entry.watcher, &batch.events);
            entry.watcher.next_rev = revision + 1;
            if events.len() > 0 {
                let resp = events_response(header, entry.id, events);
                proof {
                    lemma_responses_push(out@, resp);
                }
                out.push(resp);
            } else {
                assert(event_views(events@).len() == 0);
            }
        }
        moved.push(entry);
        assert(entry_views(moved@) =~= entry_views(before).push(advanced(ws[i], revision)));
        assert(entry_views(moved@) =~= all_advanced(ws.take(i + 1), revision));
    }
    assert(ws.take(ws.len() as int) =~= ws);
    ss.watchers = moved;
    Forward::Deliver(out)
}

/// How often watchers were caught up from history, and how often one was
/// cancelled because its history was gone.
#[derive(Debug, Clone, Copy, PartialEq, Eq, Structural)]
pub struct WatchCounters {
    pub resyncs: u64,
    pub lag_cancels: u64,
}

/// Number of watchers caught up from history.
pub fn resync_count(c: &WatchCounters) -> (r: u64)
    ensures
        r == c.resyncs,
{
    c.resyncs
}

/// Number of watchers cancelled because missed history was gone or could
/// not be read.
pub fn lag_cancel_count(c: &WatchCounters) -> (r: u64)
    ensures
        r == c.lag_cancels,
{
    c.lag_cancels
}

/// The text that a watcher whose missed history is gone is cancelled
/// with.
pub open spec fn fell_behind_text(next_rev: i64, compact_rev: i64) -> Seq<char> {
    "watcher fell behind and required revision "@ + crate::text::dec_int(next_rev as int)
        + " has been compacted (compact_rev = "@ + crate::text::dec_int(compact_rev as int) + ")"@
}

fn fell_behind_reason(next_rev: i64, compact_rev: i64) -> (r: String)
    ensures
        r@ == fell_behind_text(next_rev, compact_rev),
{
    let mut s = join3(
        "watcher fell behind and required revision ",
        dec_i64(next_rev).as_str(),
        " has been compacted (compact_rev = ",
    );
    s.append(dec_i64(compact_rev).as_str());
    s.append(")");
    s
}

/// The watchers that a catch-up leaves: those that have everything, and
/// those that could be given what they missed, moved past it.
pub open spec fn resynced(ws: Seq<EntryView>, reads: Seq<HistoryRead>, upto: i64) -> Seq<EntryView>
    decreases ws.len(),
{
    if ws.len() == 0 {
        seq![]
    } else {
        let e = ws.last();
        let rest = resynced(ws.drop_last(), reads, upto);
        if e.w.next_rev > upto {
            rest.push(e)
        } else if replayed(e.w, upto, reads[ws.len() - 1]) is Done {
            rest.push(EntryView { w: e.w.at((upto + 1) as i64), ..e })
        } else {
            rest
        }
    }
}

/// The messages of history that a catch-up sends.
pub open spec fn resync_messages(
    ws: Seq<EntryView>,
    reads: Seq<HistoryRead>,
    upto: i64,
    header: ResponseHeader,
) -> Seq<ResponseView>
    decreases ws.len(),
{
    if ws.len() == 0 {
        seq![]
    } else {
        let e = ws.last();
        let rest = resync_messages(ws.drop_last(), reads, upto, header);
        match replayed(e.w, upto, reads[ws.len() - 1]) {
            ReplayView::Done(events) => rest + replay_messages(header, e.id, events),
            _ => rest,
        }
    }
}

/// The cancellations that a catch-up sends.
pub open spec fn resync_cancels(
    ws: Seq<EntryView>,
    reads: Seq<HistoryRead>,
    upto: i64,
    header: ResponseHeader,
) -> Seq<ResponseView>
    decreases ws.len(),
{
    if ws.len() == 0 {
        seq![]
    } else {
        let e = ws.last();
        let rest = resync_cancels(ws.drop_last(), reads, upto, header);
        match replayed(e.w, upto, reads[ws.len() - 1]) {
            ReplayView::Done(_) => rest,
            ReplayView::Compacted(gone) => rest.push(
                notice(header, e.id, false, true, gone, fell_behind_text(e.w.next_rev, gone)),
            ),
            ReplayView::Failed(t) => rest.push(
                notice(
                    header,
                    e.id,
                    false,
                    true,
                    0,
                    "watcher fell behind and its history could not be read: "@ + t,
                ),
            ),
        }
    }
}

/// How many watchers have missed something.
pub open spec fn behind(ws: Seq<EntryView>, upto: i64) -> nat
    decreases ws.len(),
{
    if ws.len() == 0 {
        0
    } else {
        behind(ws.drop_last(), upto) + (if ws.last().w.next_rev > upto {
            0nat
        } else {
            1nat
        })
    }
}

/// Catch every watcher of a connection up to a revision from history, and
/// cancel those whose missed history is gone or unreadable. `reads` holds
/// a reading of history for each watcher, in order; `cancel_rev` is the
/// revision read for the cancellations.
pub fn resync(
    state: &ServerState,
    ss: &mut WatchStreamState,
    upto: i64,
    reads: &Vec<HistoryRead>,
    cancel_rev: i64,
    counters: &mut WatchCounters,
) -> (out: Vec<WatchResponse>)
    requires
        upto < i64::MAX,
        reads@.len() == old(ss)@.watchers.len(),
    ensures
        final(ss)@ == (StreamView {
            watchers: resynced(old(ss)@.watchers, reads@, upto),
            last_rev: if upto > old(ss)@.last_rev {
                upto
            } else {
                old(ss)@.last_rev
            },
            ..old(ss)@
        }),
        response_views(out@) == resync_messages(
            old(ss)@.watchers,
            reads@,
            upto,
            state::header_of(*state, upto),
        ) + resync_cancels(
            old(ss)@.watchers,
            reads@,
            upto,
            state::header_of(*state, cancel_rev),
        ),
        final(counters).resyncs == (old(counters).resyncs + behind(old(ss)@.watchers, upto))
            % 0x1_0000_0000_0000_0000,
        final(counters).lag_cancels == (old(counters).lag_cancels + resync_cancels(
            old(ss)@.watchers,
            reads@,
            upto,
            state::header_of(*state, cancel_rev),
        ).len()) % 0x1_0000_0000_0000_0000,
{
    let ghost ws = entry_views(ss.watchers@);
    let ghost head = state::header_of(*state, upto);
    let ghost cancel_head = state::header_of(*state, cancel_rev);
    let cancel_header = response_header(state, cancel_rev);
    let mut watchers: Vec<WatchEntry> = Vec::new();
    std::mem::swap(&mut watchers, &mut ss.watchers);
    let ghost entries = watchers@;
    let mut kept: Vec<WatchEntry> = Vec::new();
    let mut out: Vec<WatchResponse> = Vec::new();
    let mut cancels: Vec<WatchResponse> = Vec::new();
    let mut i: usize = 0;
    assert(entry_views(kept@) =~= resynced(ws.take(0), reads@, upto));
    assert(response_views(out@) =~= resync_messages(ws.take(0), reads@, upto, head));
    assert(response_views(cancels@) =~= resync_cancels(ws.take(0), reads@, upto, cancel_head));
    for entry in it: watchers
        invariant
            it.seq() == entries,
            i == it.index(),
            ws == entry_views(entries),
            reads@.len() == entries.len(),
            upto < i64::MAX,
            head == state::header_of(*state, upto),
            cancel_head == cancel_header,
            entry_views(kept@) == resynced(ws.take(it.index() as int), reads@, upto),
            response_views(out@) == resync_messages(
                ws.take(it.index() as int),
                reads@,
                upto,
                head,
            ),
            response_views(cancels@) == resync_cancels(
                ws.take(it.index() as int),
                reads@,
                upto,
                cancel_head,
            ),
            counters.resyncs == (old(counters).resyncs + behind(
                ws.take(it.index() as int),
                upto,
            )) % 0x1_0000_0000_0000_0000,
            counters.lag_cancels == (old(counters).lag_cancels + cancels@.len())
                % 0x1_0000_0000_0000_0000,
    {
        let ghost k = it.index() as int;
        let ghost kept0 = kept@;
        let ghost out0 = out@;
        let mut entry = entry;
        assert(ws[k] == entry@);
        assert(ws.take(k + 1).drop_last() =~= ws.take(k));
        assert(ws.take(k + 1).last() == ws[k]);
        assert(ws.take(k + 1).len() == k + 1);
        if entry.watcher.next_rev > upto {
            let ghost none = replay_messages(head, entry.id, seq![]);
            kept.push(entry);
            assert(entry_views(kept@) =~= entry_views(kept0).push(ws[k]));
            assert(response_views(out@) + none =~= response_views(out@));
        } else {
            counters.resyncs = counters.resyncs.wrapping_add(1);
            let (outcome, mut messages) = replay_history(
                state,
                entry.id,
                &entry.watcher,
                upto,
                &reads[i],
            );
            match outcome {
                Replay::Done => {
                    let ghost more = messages@;
                    out.append(&mut messages);
                    assert(response_views(out@) =~= response_views(out0) + response_views(more));
                    entry.watcher.next_rev = upto + 1;
                    kept.push(entry);
                    assert(entry_views(kept@) =~= entry_views(kept0).push(entry@));
                },
                Replay::Compacted { compact_rev } => {
                    let resp = notice_response(
                        cancel_header,
                        entry.id,
                        false,
                        true,
                        compact_rev,
                        fell_behind_reason(entry.watcher.next_rev, compact_rev),
                    );
                    proof {
                        lemma_responses_push(cancels@, resp);
                    }
                    cancels.push(resp);
                    counters.lag_cancels = counters.lag_cancels.wrapping_add(1);
                },
                Replay::Failed(e) => {
                    let resp = notice_response(
                        cancel_header,
                        entry.id,
                        false,
                        true,
                        0,
                        String::from_str(
                            "watcher fell behind and its history could not be read: ",
                        ).concat(e.as_str()),
                    );
                    proof {
                        lemma_responses_push(cancels@, resp);
                    }
                    cancels.push(resp);
                    counters.lag_cancels = counters.lag_cancels.wrapping_add(1);
                },
            }
        }
        assert(i < reads.len());
        i += 1;
    }
    assert(ws.take(ws.len() as int) =~= ws);
    assert(response_views(cancels@).len() == cancels@.len());
    let ghost first = out@;
    let ghost more = cancels@;
    out.append(&mut cancels);
    assert(response_views(out@) =~= response_views(first) + response_views(more));
    ss.watchers = kept;
    if upto > ss.last_rev {
        ss.last_rev = upto;
    }
    out
}

/// What a watcher is to be given of a history for the revisions from
/// `from` to `to`: the changes of each that it selects, in order. A
/// history tells the changes of each revision.
pub open spec fn owed(w: WatcherView, h: spec_fn(int) -> Seq<ChangeView>, from: int, to: int)
    -> Seq<EventView>
    decreases to - from + 1,
{
    if from > to {
        seq![]
    } else {
        owed(w, h, from, to - 1) + w.selected(h(to))
    }
}

/// The changes on the keys that are watched.
pub open spec fn watched(w: WatcherView, es: Seq<ChangeView>) -> Seq<ChangeView>
    decreases es.len(),
{
    if es.len() == 0 {
        seq![]
    } else if w.watches(es.last()) {
        watched(w, es.drop_last()).push(es.last())
    } else {
        watched(w, es.drop_last())
    }
}

/// What reading a watcher's history gives: the changes on its keys, from
/// one revision to another.
pub open spec fn faithful(
    w: WatcherView,
    h: spec_fn(int) -> Seq<ChangeView>,
    from: int,
    to: int,
) -> Seq<ChangeView>
    decreases to - from + 1,
{
    if from > to {
        seq![]
    } else {
        faithful(w, h, from, to - 1) + watched(w, h(to))
    }
}

/// The events of the messages to one watcher, in order.
pub open spec fn given(msgs: Seq<ResponseView>, id: i64) -> Seq<EventView>
    decreases msgs.len(),
{
    if msgs.len() == 0 {
        seq![]
    } else if msgs.last().watch_id == id {
        given(msgs.drop_last(), id) + msgs.last().events
    } else {
        given(msgs.drop_last(), id)
    }
}

/// What a watcher is owed does not depend on its cursor, and what it is
/// owed for two adjoining spans is what it is owed for both: deliveries
/// that each give a span, one after the other, give every revision once
/// and in order.
pub proof fn law_adjoining_spans_join(
    w: WatcherView,
    h: spec_fn(int) -> Seq<ChangeView>,
    from: int,
    mid: int,
    to: int,
    cursor: i64,
)
    requires
        from <= mid <= to + 1,
    ensures
        owed(w, h, from, mid - 1) + owed(w, h, mid, to) == owed(w, h, from, to),
        owed(w.at(cursor), h, from, to) == owed(w, h, from, to),
    decreases to - mid + 1,
{
    lemma_owed_at(w, h, from, to, cursor);
    if mid > to {
        assert(owed(w, h, from, mid - 1) + owed(w, h, mid, to) =~= owed(w, h, from, to));
    } else {
        law_adjoining_spans_join(w, h, from, mid, to - 1, cursor);
        assert(owed(w, h, from, mid - 1) + owed(w, h, mid, to) =~= owed(w, h, from, mid - 1)
            + owed(w, h, mid, to - 1) + w.selected(h(to)));
    }
}

proof fn lemma_owed_at(
    w: WatcherView,
    h: spec_fn(int) -> Seq<ChangeView>,
    from: int,
    to: int,
    cursor: i64,
)
    ensures
        owed(w.at(cursor), h, from, to) == owed(w, h, from, to),
    decreases to - from + 1,
{
    if from <= to {
        lemma_owed_at(w, h, from, to - 1, cursor);
        lemma_selected_at(w, h(to), cursor);
    }
}

proof fn lemma_selected_at(w: WatcherView, es: Seq<ChangeView>, cursor: i64)
    ensures
        w.at(cursor).selected(es) == w.selected(es),
    decreases es.len(),
{
    if es.len() > 0 {
        lemma_selected_at(w, es.drop_last(), cursor);
    }
}

proof fn lemma_passed_concat(w: WatcherView, a: Seq<ChangeView>, b: Seq<ChangeView>)
    ensures
        w.passed(a + b) == w.passed(a) + w.passed(b),
    decreases b.len(),
{
    if b.len() == 0 {
        assert(a + b =~= a);
        assert(w.passed(a) + w.passed(b) =~= w.passed(a));
    } else {
        assert((a + b).drop_last() =~= a + b.drop_last());
        lemma_passed_concat(w, a, b.drop_last());
        assert(w.passed(a + b) =~= w.passed(a) + w.passed(b));
    }
}

proof fn lemma_passed_watched(w: WatcherView, es: Seq<ChangeView>)
    ensures
        w.passed(watched(w, es)) == w.selected(es),
    decreases es.len(),
{
    if es.len() > 0 {
        lemma_passed_watched(w, es.drop_last());
        if w.watches(es.last()) {
            let t = watched(w, es);
            assert(t.drop_last() =~= watched(w, es.drop_last()));
        }
    }
}

proof fn lemma_passed_faithful(
    w: WatcherView,
    h: spec_fn(int) -> Seq<ChangeView>,
    from: int,
    to: int,
)
    ensures
        w.passed(faithful(w, h, from, to)) == owed(w, h, from, to),
    decreases to - from + 1,
{
    if from <= to {
        lemma_passed_faithful(w, h, from, to - 1);
        lemma_passed_concat(w, faithful(w, h, from, to - 1), watched(w, h(to)));
        lemma_passed_watched(w, h(to));
    }
}

proof fn lemma_given_concat(a: Seq<ResponseView>, b: Seq<ResponseView>, id: i64)
    ensures
        given(a + b, id) == given(a, id) + given(b, id),
    decreases b.len(),
{
    if b.len() == 0 {
        assert(a + b =~= a);
        assert(given(a, id) + given(b, id) =~= given(a, id));
    } else {
        assert((a + b).drop_last() =~= a + b.drop_last());
        lemma_given_concat(a, b.drop_last(), id);
        assert(given(a + b, id) =~= given(a, id) + given(b, id));
    }
}

proof fn lemma_given_one(m: ResponseView, id: i64)
    ensures
        given(seq![m], id) == (if m.watch_id == id {
            m.events
        } else {
            seq![]
        }),
{
    let one = seq![m];
    assert(one.drop_last() =~= seq![]);
    assert(given(one.drop_last(), id) =~= seq![]);
    assert(one.last() == m);
    if m.watch_id == id {
        assert(given(one, id) =~= m.events);
    }
}

/// The messages of a replay give a watcher all of its events, and others
/// none.
proof fn lemma_given_replay(header: ResponseHeader, to: i64, events: Seq<EventView>, id: i64)
    ensures
        given(replay_messages(header, to, events), id) == (if id == to {
            events
        } else {
            seq![]
        }),
    decreases events.len(),
{
    let msgs = replay_messages(header, to, events);
    if events.len() == 0 {
        assert(msgs =~= seq![]);
        assert(events =~= seq![]);
    } else {
        lemma_cut(events, 1);
        let c = cut(events, 1);
        let rest = events.skip(c);
        let m = |x: Seq<EventView>| events_message(header, to, x);
        assert(chunks(events) =~= seq![events.take(c)] + chunks(rest));
        let first = seq![events_message(header, to, events.take(c))];
        assert(msgs =~= first + replay_messages(header, to, rest));
        lemma_given_replay(header, to, rest, id);
        lemma_given_concat(first, replay_messages(header, to, rest), id);
        lemma_given_one(events_message(header, to, events.take(c)), id);
        assert(given(first, id) =~= (if id == to {
            events.take(c)
        } else {
            seq![]
        }));
        assert(events =~= events.take(c) + rest);
        assert(given(msgs, id) =~= (if id == to {
            events
        } else {
            seq![]
        }));
    }
}

/// Live delivery gives each watcher exactly what it is owed between its
/// old cursor and its new one: a batch that follows on is given once, a
/// batch already accounted for is not given again.
pub proof fn law_live_delivery_has_no_gap(
    s: StreamView,
    h: spec_fn(int) -> Seq<ChangeView>,
    revision: i64,
    header: ResponseHeader,
    i: int,
)
    requires
        s.wf(),
        !leaves_gap(s, revision),
        revision < i64::MAX,
        0 <= i < s.watchers.len(),
    ensures
        ({
            let e = s.watchers[i];
            let e2 = all_advanced(s.watchers, revision)[i];
            &&& e2.id == e.id
            &&& e2.w.next_rev >= e.w.next_rev
            &&& given(deliveries(s.watchers, revision, h(revision as int), header), e.id) == owed(
                e.w,
                h,
                e.w.next_rev as int,
                e2.w.next_rev - 1,
            )
        }),
{
    let e = s.watchers[i];
    lemma_given_deliveries(s, s.watchers.len() as int, revision, h(revision as int), header, i);
    assert(s.watchers.take(s.watchers.len() as int) =~= s.watchers);
    if revision >= e.w.next_rev {
        assert(e.w.next_rev == revision);
        assert(owed(e.w, h, revision as int, revision as int) =~= owed(
            e.w,
            h,
            revision as int,
            revision - 1,
        ) + e.w.selected(h(revision as int)));
        assert(owed(e.w, h, revision as int, revision - 1) =~= seq![]);
        assert(owed(e.w, h, revision as int, revision as int) =~= e.w.selected(
            h(revision as int),
        ));
    }
}

proof fn lemma_given_deliveries(
    s: StreamView,
    n: int,
    revision: i64,
    changes: Seq<ChangeView>,
    header: ResponseHeader,
    i: int,
)
    requires
        s.wf(),
        0 <= n <= s.watchers.len(),
        0 <= i < s.watchers.len(),
    ensures
        given(deliveries(s.watchers.take(n), revision, changes, header), s.watchers[i].id) == (
        if i < n && revision >= s.watchers[i].w.next_rev {
            s.watchers[i].w.selected(changes)
        } else {
            seq![]
        }),
    decreases n,
{
    if n > 0 {
        lemma_given_deliveries(s, n - 1, revision, changes, header, i);
        let ws = s.watchers.take(n);
        assert(ws.drop_last() =~= s.watchers.take(n - 1));
        assert(ws.last() == s.watchers[n - 1]);
        let rest = deliveries(ws.drop_last(), revision, changes, header);
        let events = ws.last().w.selected(changes);
        if !(revision < ws.last().w.next_rev || events.len() == 0) {
            let msgs = rest.push(events_message(header, ws.last().id, events));
            assert(msgs.drop_last() =~= rest);
            if i == n - 1 {
                assert(given(msgs, s.watchers[i].id) =~= events);
            }
        } else if i == n - 1 && revision >= s.watchers[i].w.next_rev {
            assert(events =~= seq![]);
        }
    }
}

/// A catch-up gives each watcher whose history is there exactly what it
/// is owed between its old cursor and the revision caught up to, and
/// keeps it with its cursor past that revision.
pub proof fn law_resync_leaves_no_gap(
    s: StreamView,
    h: spec_fn(int) -> Seq<ChangeView>,
    reads: Seq<HistoryRead>,
    upto: i64,
    header: ResponseHeader,
    i: int,
)
    requires
        s.wf(),
        upto < i64::MAX,
        0 <= i < s.watchers.len(),
        reads.len() == s.watchers.len(),
        s.watchers[i].w.next_rev <= upto ==> {
            &&& s.watchers[i].w.next_rev >= reads[i].compact_rev
            &&& reads[i].history matches History::Events(es) && change_views(es@) == faithful(
                s.watchers[i].w,
                h,
                s.watchers[i].w.next_rev as int,
                upto as int,
            )
        },
    ensures
        ({
            let e = s.watchers[i];
            let next = if e.w.next_rev > upto {
                e.w.next_rev
            } else {
                (upto + 1) as i64
            };
            &&& resynced(s.watchers, reads, upto).contains(EntryView { id: e.id, w: e.w.at(next) })
            &&& given(resync_messages(s.watchers, reads, upto, header), e.id) == owed(
                e.w,
                h,
                e.w.next_rev as int,
                next - 1,
            )
        }),
{
    let e = s.watchers[i];
    lemma_resync(s, reads, upto, header, i, s.watchers.len() as int);
    assert(s.watchers.take(s.watchers.len() as int) =~= s.watchers);
    if e.w.next_rev <= upto {
        lemma_passed_faithful(e.w, h, e.w.next_rev as int, upto as int);
    } else {
        assert(e.w.at(e.w.next_rev) =~= e.w);
    }
}

/// What a catch-up of the first `n` watchers does for the `i`-th.
proof fn lemma_resync(
    s: StreamView,
    reads: Seq<HistoryRead>,
    upto: i64,
    header: ResponseHeader,
    i: int,
    n: int,
)
    requires
        s.wf(),
        0 <= n <= s.watchers.len(),
        0 <= i < s.watchers.len(),
        reads.len() == s.watchers.len(),
    ensures
        ({
            let ws = s.watchers.take(n);
            let e = s.watchers[i];
            let out = replayed(e.w, upto, reads[i]);
            &&& given(resync_messages(ws, reads, upto, header), e.id) == (if i < n {
                match out {
                    ReplayView::Done(events) => events,
                    _ => seq![],
                }
            } else {
                seq![]
            })
            &&& i < n && e.w.next_rev > upto ==> resynced(ws, reads, upto).contains(e)
            &&& i < n && e.w.next_rev <= upto && out is Done ==> resynced(
                ws,
                reads,
                upto,
            ).contains(EntryView { id: e.id, w: e.w.at((upto + 1) as i64) })
            &&& i < n && !(out is Done) ==> resync_cancels(ws, reads, upto, header).contains(
                cancel_of(e, out, header),
            )
            &&& !(out is Done) || i >= n ==> (forall|k: int|
                0 <= k < resynced(ws, reads, upto).len() ==> (#[trigger] resynced(
                    ws,
                    reads,
                    upto,
                )[k]).id != e.id)
        }),
    decreases n,
{
    if n > 0 {
        lemma_resync(s, reads, upto, header, i, n - 1);
        let ws = s.watchers.take(n);
        let e = s.watchers[i];
        let last = s.watchers[n - 1];
        assert(ws.drop_last() =~= s.watchers.take(n - 1));
        assert(ws.last() == last);
        let out = replayed(last.w, upto, reads[n - 1]);
        let rest = resync_messages(ws.drop_last(), reads, upto, header);
        match out {
            ReplayView::Done(events) => {
                lemma_given_replay(header, last.id, events, e.id);
                lemma_given_concat(rest, replay_messages(header, last.id, events), e.id);
                if i == n - 1 {
                    assert(given(rest, e.id) + events =~= events);
                } else {
                    assert(given(rest, e.id) + Seq::<EventView>::empty() =~= given(rest, e.id));
                }
            },
            _ => {},
        }
        let k0 = resynced(ws.drop_last(), reads, upto);
        let k1 = resynced(ws, reads, upto);
        if k1 != k0 {
            assert(k1.len() == k0.len() + 1);
            assert(forall|k: int| 0 <= k < k0.len() ==> k1[k] == k0[k]);
            assert(k1[k0.len() as int].id == last.id);
        }
        if i < n - 1 {
            let kept = if e.w.next_rev > upto {
                e
            } else {
                EntryView { id: e.id, w: e.w.at((upto + 1) as i64) }
            };
            if k0.contains(kept) {
                let k = choose|k: int| 0 <= k < k0.len() && k0[k] == kept;
                assert(k1[k] == kept);
            }
            let c0 = resync_cancels(ws.drop_last(), reads, upto, header);
            let c1 = resync_cancels(ws, reads, upto, header);
            let mine = cancel_of(e, replayed(e.w, upto, reads[i]), header);
            if c0.contains(mine) {
                let k = choose|k: int| 0 <= k < c0.len() && c0[k] == mine;
                assert(c1[k] == mine);
            }
        } else if i == n - 1 {
            if e.w.next_rev > upto || out is Done {
                assert(k1.last() == k1[k0.len() as int]);
            } else {
                let c0 = resync_cancels(ws.drop_last(), reads, upto, header);
                let c1 = resync_cancels(ws, reads, upto, header);
                assert(c1[c0.len() as int] == cancel_of(e, out, header));
            }
        }
    }
}

/// The cancellation of a watcher whose catch-up failed.
pub open spec fn cancel_of(e: EntryView, out: ReplayView, header: ResponseHeader) -> ResponseView {
    match out {
        ReplayView::Compacted(gone) => notice(
            header,
            e.id,
            false,
            true,
            gone,
            fell_behind_text(e.w.next_rev, gone),
        ),
        ReplayView::Failed(t) => notice(
            header,
            e.id,
            false,
            true,
            0,
            "watcher fell behind and its history could not be read: "@ + t,
        ),
        ReplayView::Done(_) => notice(header, e.id, false, true, 0, seq![]),
    }
}

/// A watcher whose missed history is gone or unreadable is not left open
/// with a hole: it is given nothing, it is told so, with the compaction
/// point where there is one, and it is no longer among the watchers.
pub proof fn law_lost_history_cancels(
    s: StreamView,
    reads: Seq<HistoryRead>,
    upto: i64,
    header: ResponseHeader,
    i: int,
)
    requires
        s.wf(),
        0 <= i < s.watchers.len(),
        reads.len() == s.watchers.len(),
        !(replayed(s.watchers[i].w, upto, reads[i]) is Done),
    ensures
        ({
            let e = s.watchers[i];
            &&& given(resync_messages(s.watchers, reads, upto, header), e.id) == Seq::<
                EventView,
            >::empty()
            &&& resync_cancels(s.watchers, reads, upto, header).contains(
                cancel_of(e, replayed(e.w, upto, reads[i]), header),
            )
            &&& forall|k: int|
                0 <= k < resynced(s.watchers, reads, upto).len() ==> (#[trigger] resynced(
                    s.watchers,
                    reads,
                    upto,
                )[k]).id != e.id
        }),
{
    lemma_resync(s, reads, upto, header, i, s.watchers.len() as int);
    assert(s.watchers.take(s.watchers.len() as int) =~= s.watchers);
}

/// Delivering a batch, catching up and cancelling keep every watcher
/// given, or not wanting, all that its connection has accounted for.
pub proof fn law_cursors_stay_ahead(
    s: StreamView,
    revision: i64,
    reads: Seq<HistoryRead>,
    upto: i64,
    id: i64,
)
    requires
        s.wf(),
        revision < i64::MAX,
        upto < i64::MAX,
        reads.len() == s.watchers.len(),
    ensures
        !leaves_gap(s, revision) ==> (StreamView {
            watchers: all_advanced(s.watchers, revision),
            last_rev: if revision > s.last_rev {
                revision
            } else {
                s.last_rev
            },
            ..s
        }).wf(),
        (StreamView {
            watchers: resynced(s.watchers, reads, upto),
            last_rev: if upto > s.last_rev {
                upto
            } else {
                s.last_rev
            },
            ..s
        }).wf(),
        (StreamView { watchers: drop_id(s.watchers, id), ..s }).wf(),
{
    lemma_drop_id(s, id);
    lemma_resynced_wf(s, reads, upto, s.watchers.len() as int);
    assert(s.watchers.take(s.watchers.len() as int) =~= s.watchers);
}

proof fn lemma_resynced_wf(s: StreamView, reads: Seq<HistoryRead>, upto: i64, n: int)
    requires
        s.wf(),
        upto < i64::MAX,
        0 <= n <= s.watchers.len(),
        reads.len() == s.watchers.len(),
    ensures
        ({
            let ws = resynced(s.watchers.take(n), reads, upto);
            &&& (StreamView {
                watchers: ws,
                last_rev: if upto > s.last_rev {
                    upto
                } else {
                    s.last_rev
                },
                ..s
            }).wf()
            &&& forall|k: int, m: int|
                0 <= k < ws.len() && n <= m < s.watchers.len() ==> (#[trigger] ws[k]).id != (
                #[trigger] s.watchers[m]).id
        }),
    decreases n,
{
    if n > 0 {
        lemma_resynced_wf(s, reads, upto, n - 1);
        assert(s.watchers.take(n).drop_last() =~= s.watchers.take(n - 1));
        assert(s.watchers.take(n).last() == s.watchers[n - 1]);
        let e = s.watchers[n - 1];
        let before = resynced(s.watchers.take(n - 1), reads, upto);
        let after = resynced(s.watchers.take(n), reads, upto);
        if after != before {
            let x = after.last();
            assert(after =~= before.push(x));
            assert(x.id == e.id);
            assert forall|k: int, m: int|
                0 <= k < after.len() && n <= m < s.watchers.len() implies (#[trigger] after[k]).id
                != (#[trigger] s.watchers[m]).id by {
                if k < before.len() {
                    assert(after[k] == before[k]);
                }
            }
            let top = if upto > s.last_rev {
                upto
            } else {
                s.last_rev
            };
            let sv = StreamView { watchers: before, last_rev: top, ..s };
            assert(before == sv.watchers);
            assert(e.w.next_rev > s.last_rev);
            assert(x.w.next_rev > top);
            lemma_push_wf(sv, x);
        }
    }
}

/// One more watcher with a number of its own and its cursor ahead.
proof fn lemma_push_wf(s: StreamView, x: EntryView)
    requires
        s.wf(),
        x.w.next_rev > s.last_rev,
        forall|k: int| 0 <= k < s.watchers.len() ==> (#[trigger] s.watchers[k]).id != x.id,
    ensures
        (StreamView { watchers: s.watchers.push(x), ..s }).wf(),
{
    let t = StreamView { watchers: s.watchers.push(x), ..s };
    assert forall|i: int, j: int| 0 <= i < j < t.watchers.len() implies (
    #[trigger] t.watchers[i]).id != (#[trigger] t.watchers[j]).id by {
        assert(t.watchers[i] == s.watchers[i]);
        if j < s.watchers.len() {
            assert(t.watchers[j] == s.watchers[j]);
        }
    }
    assert forall|i: int| 0 <= i < t.watchers.len() implies (#[trigger] t.watchers[i]).w.next_rev
        > t.last_rev by {
        if i < s.watchers.len() {
            assert(t.watchers[i] == s.watchers[i]);
        }
    }
}

/// Starting a watch keeps the other watchers, and gives the new one
/// exactly what it is owed from the revision it starts at up to the
/// current one; live delivery takes over right after.
pub proof fn law_created_watch_starts_without_gap(
    state: ServerState,
    s: StreamView,
    c: WatchCreateRequest,
    h: spec_fn(int) -> Seq<ChangeView>,
    current_rev: i64,
    compact_rev: i64,
    read: HistoryRead,
    cancel_rev: i64,
)
    requires
        s.wf(),
        c.watch_id > 0 || s.next_auto_id < i64::MAX,
        s.last_rev <= current_rev < i64::MAX,
        c.start_revision <= 0 || c.start_revision >= compact_rev,
        0 < c.start_revision <= current_rev ==> {
            &&& c.start_revision >= read.compact_rev
            &&& read.history matches History::Events(es) && change_views(es@) == faithful(
                created_watcher(c, current_rev),
                h,
                c.start_revision as int,
                current_rev as int,
            )
        },
    ensures
        ({
            let (s2, msgs) = created(
                state,
                s,
                c,
                current_rev,
                compact_rev,
                read,
                cancel_rev,
            );
            let id = created_id(s, c);
            let w = created_watcher(c, current_rev);
            let next = if w.next_rev > current_rev {
                w.next_rev
            } else {
                (current_rev + 1) as i64
            };
            &&& s2.wf()
            &&& s2.watchers == drop_id(s.watchers, id).push(EntryView { id, w: w.at(next) })
            &&& given(msgs, id) == owed(w, h, w.next_rev as int, next - 1)
        }),
{
    let id = created_id(s, c);
    let w = created_watcher(c, current_rev);
    let header = state::header_of(state, current_rev);
    let ack = seq![notice(header, id, true, false, 0, seq![])];
    let next = if w.next_rev > current_rev {
        w.next_rev
    } else {
        (current_rev + 1) as i64
    };
    lemma_drop_id(s, id);
    let numbered = StreamView { next_auto_id: if c.watch_id > 0 {
        s.next_auto_id
    } else {
        id
    }, watchers: drop_id(s.watchers, id), ..s };
    lemma_push_wf(numbered, EntryView { id, w: w.at(next) });
    let events = if w.next_rev > current_rev {
        seq![]
    } else {
        w.passed(faithful(w, h, w.next_rev as int, current_rev as int))
    };
    assert(replayed(w, current_rev, read) == ReplayView::Done(events));
    lemma_passed_faithful(w, h, w.next_rev as int, current_rev as int);
    lemma_given_replay(header, id, events, id);
    lemma_given_concat(ack, replay_messages(header, id, events), id);
    lemma_given_one(notice(header, id, true, false, 0, seq![]), id);
    assert(given(ack, id) =~= seq![]);
    assert(given(ack + replay_messages(header, id, events), id) =~= events);
}

/// A change is sent as what it is: type zero for a put and one for a
/// delete, with each attribute of its pair. The pair it replaced goes with
/// it, whole, exactly when the watcher asked for it and there was one,
/// whether the change is a put or a delete.
pub proof fn law_change_is_sent_whole(w: Watcher, e: MvccEvent, r: Event)
    requires
        r@ == w@.sent(e@),
    ensures
        e.kind is Put ==> r.event_type == 0,
        e.kind is Delete ==> r.event_type == 1,
        r.kv.key@ == e.kv.key@,
        r.kv.value@ == e.kv.value@,
        r.kv.create_revision == e.kv.create_revision,
        r.kv.mod_revision == e.kv.mod_revision,
        r.kv.version == e.kv.version,
        r.kv.lease == e.kv.lease,
        r.prev_kv is Some <==> w.prev_kv && e.prev_kv is Some,
        r.prev_kv is Some ==> {
            &&& r.prev_kv->0.key@ == e.prev_kv->0.key@
            &&& r.prev_kv->0.value@ == e.prev_kv->0.value@
            &&& r.prev_kv->0.create_revision == e.prev_kv->0.create_revision
            &&& r.prev_kv->0.mod_revision == e.prev_kv->0.mod_revision
            &&& r.prev_kv->0.version == e.prev_kv->0.version
            &&& r.prev_kv->0.lease == e.prev_kv->0.lease
        },
{
}

/// For every watcher and change, the event sent carries the change's pair,
/// its previous pair exactly if the watcher asked for that, and its type.
pub proof fn law_sent_event_carries_the_change(w: WatcherView, e: ChangeView)
    ensures
        w.sent(e).kv == e.kv,
        w.prev_kv ==> w.sent(e).prev_kv == e.prev_kv,
        !w.prev_kv ==> w.sent(e).prev_kv is None,
        w.sent(e).event_type == 0 <==> e.kind is Put,
        w.sent(e).event_type == 1 <==> e.kind is Delete,
{
}

/// Each filter drops changes of its own kind and no other; what a watcher
/// looks at does not depend on the filters.
pub proof fn law_each_filter_drops_its_own_kind(w: Watcher, e: MvccEvent)
    ensures
        !w.filter_no_put && !w.filter_no_delete ==> w@.passes(e@),
        e.kind is Put ==> (w@.passes(e@) <==> !w.filter_no_put),
        e.kind is Delete ==> (w@.passes(e@) <==> !w.filter_no_delete),
        w@.watches(e@) <==> keyrange::in_range(w.key@, w.range_end@, e.kv.key@),
{
}

/// What a watcher is sent for one list of changes after another is what it
/// is sent for the first, then what it is sent for the second; one change
/// gives its event where it is watched and passes the filter, and nothing
/// otherwise.
pub proof fn law_selection_goes_change_by_change(
    w: WatcherView,
    a: Seq<ChangeView>,
    b: Seq<ChangeView>,
    e: ChangeView,
)
    ensures
        w.selected(a + b) == w.selected(a) + w.selected(b),
        w.passed(a + b) == w.passed(a) + w.passed(b),
        w.selected(seq![]) == Seq::<EventView>::empty(),
        w.passed(seq![]) == Seq::<EventView>::empty(),
        keyrange::in_range(w.key, w.range_end, e.kv.key) && w.passes(e) ==> w.selected(seq![e])
            == seq![w.sent(e)],
        !keyrange::in_range(w.key, w.range_end, e.kv.key) || !w.passes(e) ==> w.selected(seq![e])
            == Seq::<EventView>::empty(),
        w.passes(e) ==> w.passed(seq![e]) == seq![w.sent(e)],
        !w.passes(e) ==> w.passed(seq![e]) == Seq::<EventView>::empty(),
    decreases b.len(),
{
    reveal_with_fuel(WatcherView::selected, 2);
    reveal_with_fuel(WatcherView::passed, 2);
    assert(seq![e].drop_last() =~= seq![]);
    if b.len() == 0 {
        assert(a + b =~= a);
        assert(w.selected(a) + w.selected(b) =~= w.selected(a));
        assert(w.passed(a) + w.passed(b) =~= w.passed(a));
    } else {
        law_selection_goes_change_by_change(w, a, b.drop_last(), e);
        assert((a + b).drop_last() =~= a + b.drop_last());
        assert((a + b).last() == b.last());
        assert(w.selected(a + b) =~= w.selected(a) + w.selected(b));
        assert(w.passed(a + b) =~= w.passed(a) + w.passed(b));
    }
}

/// A list of changes, of events or of messages says what its items say,
/// one by one and in order.
pub proof fn law_lists_say_what_their_items_say(
    changes: Seq<MvccEvent>,
    events: Seq<Event>,
    messages: Seq<WatchResponse>,
)
    ensures
        change_views(changes).len() == changes.len(),
        forall|i: int| 0 <= i < changes.len() ==> #[trigger] change_views(changes)[i]
            == changes[i]@,
        event_views(events).len() == events.len(),
        forall|i: int| 0 <= i < events.len() ==> #[trigger] event_views(events)[i] == events[i]@,
        response_views(messages).len() == messages.len(),
        forall|i: int|
            0 <= i < messages.len() ==> #[trigger] response_views(messages)[i] == messages[i]@,
{
}

/// A message that carries events announces nothing else, and is sent to
/// the watcher it is for.
pub proof fn law_events_come_without_announcement(
    r: WatchResponse,
    header: ResponseHeader,
    watch_id: i64,
    events: Seq<EventView>,
)
    requires
        r@ == events_message(header, watch_id, events),
    ensures
        r.header == header,
        r.watch_id == watch_id,
        !r.created,
        !r.canceled,
        !r.fragment,
        r.compact_revision == 0,
        r.cancel_reason@.len() == 0,
        r.events@.len() == events.len(),
        forall|i: int| 0 <= i < events.len() ==> (#[trigger] r.events@[i])@ == events[i],
{
    assert(event_views(r.events@) == events);
    assert forall|i: int| 0 <= i < events.len() implies (#[trigger] r.events@[i])@
        == events[i] by {
        assert(event_views(r.events@)[i] == events[i]);
    }
}

/// A notice carries no events, and announces what it was made to.
pub proof fn law_notice_announces_what_it_was_made_to(
    r: WatchResponse,
    header: ResponseHeader,
    watch_id: i64,
    created: bool,
    canceled: bool,
    compact_revision: i64,
    reason: Seq<char>,
)
    requires
        r@ == notice(header, watch_id, created, canceled, compact_revision, reason),
    ensures
        r.header == header,
        r.watch_id == watch_id,
        r.created == created,
        r.canceled == canceled,
        r.compact_revision == compact_revision,
        r.cancel_reason@ == reason,
        !r.fragment,
        r.events@.len() == 0,
{
    assert(event_views(r.events@).len() == 0);
}

/// A progress message is for no single watcher: it has the number minus
/// one, announces nothing and carries nothing.
pub proof fn law_progress_is_for_the_whole_connection(r: WatchResponse, header: ResponseHeader)
    requires
        r@ == progress_message(header),
    ensures
        r.header == header,
        r.watch_id == -1,
        !r.created,
        !r.canceled,
        r.compact_revision == 0,
        r.cancel_reason@.len() == 0,
        r.events@.len() == 0,
{
    assert(event_views(r.events@).len() == 0);
}

/// An event weighs the bytes of its key and value, and of those of its
/// previous pair where it carries one; a list weighs what its events do;
/// and a message of history is meant to weigh one mebibyte.
pub proof fn law_events_weigh_their_bytes(a: Seq<EventView>, b: Seq<EventView>, e: EventView)
    ensures
        e.prev_kv is None ==> payload(e) == e.kv.key.len() + e.kv.value.len(),
        e.prev_kv is Some ==> payload(e) == e.kv.key.len() + e.kv.value.len()
            + e.prev_kv->0.key.len() + e.prev_kv->0.value.len(),
        total_payload(seq![]) == 0,
        total_payload(seq![e]) == payload(e),
        total_payload(a + b) == total_payload(a) + total_payload(b),
        REPLAY_CHUNK_BYTES == 1024 * 1024,
    decreases b.len(),
{
    reveal_with_fuel(total_payload, 2);
    assert(seq![e].drop_last() =~= seq![]);
    if b.len() == 0 {
        assert(a + b =~= a);
    } else {
        law_events_weigh_their_bytes(a, b.drop_last(), e);
        assert((a + b).drop_last() =~= a + b.drop_last());
        assert((a + b).last() == b.last());
    }
}

/// A message of history is closed at the first revision that begins once
/// the cap is reached: inside a message, what comes before the beginning
/// of a revision is below the cap.
pub proof fn law_replay_chunks_are_closed_early(s: Seq<EventView>, i: int, j: int)
    requires
        0 <= i < chunks(s).len(),
        0 < j < chunks(s)[i].len(),
        chunks(s)[i][j].kv.mod_revision != chunks(s)[i][j - 1].kv.mod_revision,
    ensures
        total_payload(chunks(s)[i].take(j)) < REPLAY_CHUNK_BYTES,
    decreases s.len(),
{
    lemma_cut(s, 1);
    let c = cut(s, 1);
    let rest = chunks(s.skip(c));
    assert(chunks(s) == seq![s.take(c)] + rest);
    if i == 0 {
        assert(chunks(s)[0] == s.take(c));
        assert(!cut_at(s, j));
        assert(s.take(c).take(j) =~= s.take(j));
    } else {
        assert(chunks(s)[i] == rest[i - 1]);
        law_replay_chunks_are_closed_early(s.skip(c), i - 1, j);
    }
}

/// What a replay comes to: nothing is sent where nothing is missing; a
/// watcher that would start below the compaction point, known before the
/// reading or found by it, is told that point; otherwise it is sent, in
/// order, what was read and passes its filter.
pub proof fn law_replay_sends_history_or_says_why_not(
    w: WatcherView,
    upto: i64,
    read: HistoryRead,
)
    ensures
        w.next_rev > upto ==> replayed(w, upto, read) == ReplayView::Done(seq![]),
        w.next_rev <= upto && w.next_rev < read.compact_rev ==> replayed(w, upto, read)
            == ReplayView::Compacted(read.compact_rev),
        w.next_rev <= upto && w.next_rev >= read.compact_rev ==> {
            &&& read.history matches History::Events(es) ==> replayed(w, upto, read)
                == ReplayView::Done(w.passed(change_views(es@)))
            &&& read.history matches History::Compacted { compact_rev } ==> replayed(w, upto, read)
                == ReplayView::Compacted(compact_rev)
            &&& read.history matches History::Failed(e) ==> replayed(w, upto, read)
                == ReplayView::Failed(e@)
        },
        replayed(w, upto, read) is Done <==> w.next_rev > upto || (w.next_rev >= read.compact_rev
            && read.history is Events),
{
}

/// A replay is sent to its watcher alone, under the header it is given, as
/// many messages as there are pieces of it.
pub proof fn law_replay_is_sent_to_its_watcher(
    header: ResponseHeader,
    watch_id: i64,
    events: Seq<EventView>,
    i: int,
)
    requires
        0 <= i < replay_messages(header, watch_id, events).len(),
    ensures
        replay_messages(header, watch_id, events).len() == chunks(events).len(),
        replay_messages(header, watch_id, events)[i].header == header,
        replay_messages(header, watch_id, events)[i].watch_id == watch_id,
        replay_messages(header, watch_id, events)[i].events == chunks(events)[i],
        !replay_messages(header, watch_id, events)[i].created,
        !replay_messages(header, watch_id, events)[i].canceled,
{
}

/// A connection is what its fields hold: each watcher under its number, in
/// order, the number given last and the revision accounted for.
pub proof fn law_connection_is_what_its_fields_hold(ss: WatchStreamState, i: int)
    ensures
        ss@.watchers.len() == ss.watchers@.len(),
        ss@.next_auto_id == ss.next_auto_id,
        ss@.last_rev == ss.last_rev,
        0 <= i < ss.watchers@.len() ==> {
            let e = ss.watchers@[i];
            &&& ss@.watchers[i].id == e.id
            &&& ss@.watchers[i].w.key == e.watcher.key@
            &&& ss@.watchers[i].w.range_end == e.watcher.range_end@
            &&& ss@.watchers[i].w.progress_notify == e.watcher.progress_notify
            &&& ss@.watchers[i].w.filter_no_put == e.watcher.filter_no_put
            &&& ss@.watchers[i].w.filter_no_delete == e.watcher.filter_no_delete
            &&& ss@.watchers[i].w.prev_kv == e.watcher.prev_kv
            &&& ss@.watchers[i].w.next_rev == e.watcher.next_rev
        },
{
}

/// Moving a watcher's cursor changes nothing else about it.
pub proof fn law_cursor_moves_alone(w: WatcherView, next_rev: i64)
    ensures
        w.at(next_rev).next_rev == next_rev,
        w.at(next_rev).key == w.key,
        w.at(next_rev).range_end == w.range_end,
        w.at(next_rev).progress_notify == w.progress_notify,
        w.at(next_rev).filter_no_put == w.filter_no_put,
        w.at(next_rev).filter_no_delete == w.filter_no_delete,
        w.at(next_rev).prev_kv == w.prev_kv,
{
}

/// Ending a watch takes out the watcher of that number and leaves every
/// other where it stands among the rest.
pub proof fn law_ended_watch_leaves_the_others(s: StreamView, id: i64, e: EntryView)
    requires
        s.wf(),
    ensures
        drop_id(s.watchers, id).contains(e) <==> s.watchers.contains(e) && e.id != id,
        find_id(s.watchers, id, 0) < s.watchers.len() <==> (exists|i: int|
            0 <= i < s.watchers.len() && (#[trigger] s.watchers[i]).id == id),
        forall|i: int|
            0 <= i < s.watchers.len() && (#[trigger] s.watchers[i]).id == id ==> drop_id(
                s.watchers,
                id,
            ) == s.watchers.take(i) + s.watchers.skip(i + 1),
        (forall|i: int| 0 <= i < s.watchers.len() ==> (#[trigger] s.watchers[i]).id != id)
            ==> drop_id(s.watchers, id) == s.watchers,
{
    let ws = s.watchers;
    lemma_find_id(ws, id, 0);
    lemma_drop_id(s, id);
    let k = find_id(ws, id, 0);
    let d = drop_id(ws, id);
    if k < ws.len() {
        assert(ws[k].id == id);
        assert(d =~= ws.take(k) + ws.skip(k + 1));
        if ws.contains(e) && e.id != id {
            let i = choose|i: int| 0 <= i < ws.len() && ws[i] == e;
            if i < k {
                assert(d[i] == e);
            } else {
                assert(i != k);
                assert(d[i - 1] == e);
            }
        }
        if d.contains(e) {
            let i = choose|i: int| 0 <= i < d.len() && d[i] == e;
            if i < k {
                assert(ws[i] == e);
            } else {
                assert(ws[i + 1] == e);
            }
        }
        assert forall|i: int| 0 <= i < ws.len() && (#[trigger] ws[i]).id == id implies d
            == ws.take(i) + ws.skip(i + 1) by {
            if i < k {
                assert(ws[i].id != ws[k].id);
            }
            if k < i {
                assert(ws[k].id != ws[i].id);
            }
        }
    } else {
        if ws.contains(e) {
            let i = choose|i: int| 0 <= i < ws.len() && ws[i] == e;
            assert(ws[i].id != id);
        }
    }
}

/// A client that chose a number gets that number; any other gets the one
/// after the last given.
pub proof fn law_watch_number_is_the_clients_or_the_next(s: StreamView, c: WatchCreateRequest)
    requires
        c.watch_id > 0 || s.next_auto_id < i64::MAX,
    ensures
        c.watch_id > 0 ==> created_id(s, c) == c.watch_id,
        c.watch_id <= 0 ==> created_id(s, c) == s.next_auto_id + 1,
{
}

/// A new watcher looks at the keys, keeps to the filters and starts at the
/// revision that its request names, or after the current revision where it
/// names none. Filter zero is against puts, one against deletes.
pub proof fn law_new_watcher_is_what_was_asked_for(
    c: WatchCreateRequest,
    current_rev: i64,
    e: ChangeView,
)
    requires
        c.start_revision > 0 || current_rev < i64::MAX,
    ensures
        ({
            let w = created_watcher(c, current_rev);
            &&& w.watches(e) <==> keyrange::in_range(c.key@, c.range_end@, e.kv.key)
            &&& e.kind is Put ==> (w.passes(e) <==> !c.filters@.contains(0))
            &&& e.kind is Delete ==> (w.passes(e) <==> !c.filters@.contains(1))
            &&& w.sent(e).prev_kv == (if c.prev_kv {
                e.prev_kv
            } else {
                None
            })
            &&& w.prev_kv == c.prev_kv
            &&& w.progress_notify == c.progress_notify
            &&& c.start_revision > 0 ==> w.next_rev == c.start_revision
            &&& c.start_revision <= 0 ==> w.next_rev == current_rev + 1
        }),
{
}

/// A request to watch is always acknowledged, first and under the number
/// of the watcher, with the current revision. Where it starts below the
/// compaction point it is cancelled at once, told that point, and watches
/// nothing.
pub proof fn law_watch_is_acknowledged_first(
    state: ServerState,
    s: StreamView,
    c: WatchCreateRequest,
    current_rev: i64,
    compact_rev: i64,
    read: HistoryRead,
    cancel_rev: i64,
)
    ensures
        ({
            let (s2, msgs) = created(
                state,
                s,
                c,
                current_rev,
                compact_rev,
                read,
                cancel_rev,
            );
            let gone = 0 < c.start_revision < compact_rev;
            &&& msgs.len() >= 1
            &&& msgs[0].created
            &&& msgs[0].watch_id == created_id(s, c)
            &&& msgs[0].header == state::header_of(state, current_rev)
            &&& msgs[0].events.len() == 0
            &&& msgs[0].canceled <==> gone
            &&& gone ==> {
                &&& msgs.len() == 1
                &&& msgs[0].compact_revision == compact_rev
                &&& msgs[0].cancel_reason == "watch revision "@ + crate::text::dec_int(
                    c.start_revision as int,
                ) + " has been compacted (compact_rev = "@ + crate::text::dec_int(
                    compact_rev as int,
                ) + ")"@
                &&& s2.watchers == s.watchers
            }
            &&& !gone ==> msgs[0].compact_revision == 0 && msgs[0].cancel_reason.len() == 0
            &&& s2.last_rev == s.last_rev
            &&& c.watch_id > 0 ==> s2.next_auto_id == s.next_auto_id
            &&& c.watch_id <= 0 ==> s2.next_auto_id == (s.next_auto_id + 1) as i64
        }),
{
}

/// A watch whose history was gone or unreadable when it was read is
/// acknowledged and then cancelled, and watches nothing: it is told the
/// compaction point, or why the history could not be read.
pub proof fn law_watch_without_history_is_cancelled(
    state: ServerState,
    s: StreamView,
    c: WatchCreateRequest,
    current_rev: i64,
    compact_rev: i64,
    read: HistoryRead,
    cancel_rev: i64,
)
    requires
        c.start_revision <= 0 || c.start_revision >= compact_rev,
    ensures
        ({
            let (s2, msgs) = created(
                state,
                s,
                c,
                current_rev,
                compact_rev,
                read,
                cancel_rev,
            );
            let out = replayed(created_watcher(c, current_rev), current_rev, read);
            &&& !(out is Done) ==> {
                &&& s2.watchers == s.watchers
                &&& msgs.len() == 2
                &&& msgs[1].canceled && !msgs[1].created
                &&& msgs[1].watch_id == created_id(s, c)
                &&& msgs[1].header == state::header_of(state, cancel_rev)
                &&& msgs[1].events.len() == 0
            }
            &&& out matches ReplayView::Compacted(gone) ==> {
                &&& msgs[1].compact_revision == gone
                &&& msgs[1].cancel_reason == "watch revision "@ + crate::text::dec_int(
                    c.start_revision as int,
                ) + " has been compacted (compact_rev = "@ + crate::text::dec_int(gone as int)
                    + ")"@
            }
            &&& out matches ReplayView::Failed(e) ==> {
                &&& msgs[1].compact_revision == 0
                &&& msgs[1].cancel_reason == "watch history could not be read: "@ + e
            }
        }),
{
}

/// Requests on a connection do what they say and nothing else: an empty
/// one nothing; one for progress changes nothing, and is answered exactly
/// when something is watched; one to end a watch is answered with the
/// cancellation of that number.
pub proof fn law_requests_do_what_they_say(
    state: ServerState,
    s: StreamView,
    watch_id: i64,
    store: StoreReading,
)
    ensures
        served(state, s, None, store) == (s, Seq::<ResponseView>::empty()),
        served(state, s, Some(WatchRequest::Progress), store).0 == s,
        s.watchers.len() == 0 ==> served(state, s, Some(WatchRequest::Progress), store).1.len()
            == 0,
        s.watchers.len() > 0 ==> {
            let out = served(state, s, Some(WatchRequest::Progress), store).1;
            &&& out.len() == 1
            &&& out[0].watch_id == -1
            &&& !out[0].created && !out[0].canceled
            &&& out[0].events.len() == 0
            &&& out[0].header == state::header_of(state, store.current_rev)
        },
        ({
            let (s2, out) = served(state, s, Some(WatchRequest::Cancel { watch_id }), store);
            &&& s2.watchers == drop_id(s.watchers, watch_id)
            &&& s2.next_auto_id == s.next_auto_id
            &&& s2.last_rev == s.last_rev
            &&& out.len() == 1
            &&& out[0].watch_id == watch_id
            &&& out[0].canceled && !out[0].created
            &&& out[0].compact_revision == 0
            &&& out[0].cancel_reason.len() == 0
            &&& out[0].events.len() == 0
            &&& out[0].header == state::header_of(state, store.current_rev)
        }),
{
}

/// A request to create a watch is served with the revisions and the
/// history that were read for it.
pub proof fn law_create_is_served_from_its_reading(
    state: ServerState,
    s: StreamView,
    c: WatchCreateRequest,
    store: StoreReading,
)
    ensures
        served(state, s, Some(WatchRequest::Create(c)), store) == created(
            state,
            s,
            c,
            store.current_rev,
            store.compact_rev,
            store.history,
            store.cancel_rev,
        ),
{
}

/// Periodic progress is wanted exactly when some watcher asked for it.
pub proof fn law_progress_is_wanted_iff_asked_for(s: StreamView)
    ensures
        wants_progress(s) <==> exists|i: int|
            0 <= i < s.watchers.len() && (#[trigger] s.watchers[i]).w.progress_notify,
{
}

/// A batch leaves a gap exactly when revisions lie between it and what the
/// connection has accounted for.
pub proof fn law_gap_is_a_missing_revision(s: StreamView, revision: i64)
    ensures
        leaves_gap(s, revision) <==> revision - s.last_rev > 1,
{
}

/// Each message of a batch is for a watcher whose cursor the batch has
/// reached, carries some events, and those are what that watcher selects
/// of the batch.
pub proof fn law_delivery_is_for_a_watcher_that_wants_it(
    ws: Seq<EntryView>,
    revision: i64,
    changes: Seq<ChangeView>,
    header: ResponseHeader,
    k: int,
)
    requires
        0 <= k < deliveries(ws, revision, changes, header).len(),
    ensures
        ({
            let m = deliveries(ws, revision, changes, header)[k];
            &&& m.events.len() > 0
            &&& m.header == header
            &&& !m.created && !m.canceled
            &&& exists|i: int|
                0 <= i < ws.len() && (#[trigger] ws[i]).id == m.watch_id && ws[i].w.next_rev
                    <= revision && m.events == ws[i].w.selected(changes)
        }),
    decreases ws.len(),
{
    let e = ws.last();
    let rest = deliveries(ws.drop_last(), revision, changes, header);
    if k < rest.len() {
        law_delivery_is_for_a_watcher_that_wants_it(
            ws.drop_last(),
            revision,
            changes,
            header,
            k,
        );
        let m = rest[k];
        let i = choose|i: int|
            0 <= i < ws.drop_last().len() && (#[trigger] ws.drop_last()[i]).id == m.watch_id
                && ws.drop_last()[i].w.next_rev <= revision && m.events
                == ws.drop_last()[i].w.selected(changes);
        assert(ws[i] == ws.drop_last()[i]);
    } else {
        assert(ws[ws.len() - 1] == e);
    }
}

/// A watcher below a batch moves just past it; one that is ahead stays.
pub proof fn law_cursor_moves_just_past_a_batch(ws: Seq<EntryView>, revision: i64, i: int)
    requires
        revision < i64::MAX,
        0 <= i < ws.len(),
    ensures
        all_advanced(ws, revision).len() == ws.len(),
        ws[i].w.next_rev > revision ==> all_advanced(ws, revision)[i] == ws[i],
        ws[i].w.next_rev <= revision ==> {
            &&& all_advanced(ws, revision)[i].id == ws[i].id
            &&& all_advanced(ws, revision)[i].w == ws[i].w.at((revision + 1) as i64)
        },
{
}

/// The watchers behind are those whose cursor is not past the revision,
/// each counted once.
pub proof fn law_watchers_behind_are_counted_once(ws: Seq<EntryView>, e: EntryView, upto: i64)
    ensures
        behind(seq![], upto) == 0,
        behind(ws.push(e), upto) == behind(ws, upto) + (if e.w.next_rev <= upto {
            1nat
        } else {
            0nat
        }),
{
    assert(ws.push(e).drop_last() =~= ws);
}

/// One more watcher to catch up: one that is ahead is kept as it is, one
/// whose history is there is kept with its cursor just past the revision,
/// any other is dropped; the others fare as they would without it.
pub proof fn law_catch_up_treats_watchers_apart(
    ws: Seq<EntryView>,
    e: EntryView,
    reads: Seq<HistoryRead>,
    upto: i64,
    header: ResponseHeader,
)
    requires
        upto < i64::MAX,
        reads.len() == ws.len() + 1,
    ensures
        ({
            let all = ws.push(e);
            let out = replayed(e.w, upto, reads.last());
            &&& e.w.next_rev > upto ==> resynced(all, reads, upto) == resynced(
                ws,
                reads,
                upto,
            ).push(e)
            &&& e.w.next_rev <= upto && out is Done ==> resynced(all, reads, upto) == resynced(
                ws,
                reads,
                upto,
            ).push(EntryView { id: e.id, w: e.w.at((upto + 1) as i64) })
            &&& !(out is Done) ==> resynced(all, reads, upto) == resynced(ws, reads, upto)
            &&& out matches ReplayView::Done(events) ==> {
                &&& resync_messages(all, reads, upto, header) == resync_messages(
                    ws,
                    reads,
                    upto,
                    header,
                ) + replay_messages(header, e.id, events)
                &&& resync_cancels(all, reads, upto, header) == resync_cancels(
                    ws,
                    reads,
                    upto,
                    header,
                )
            }
            &&& !(out is Done) ==> {
                let cs = resync_cancels(all, reads, upto, header);
                &&& resync_messages(all, reads, upto, header) == resync_messages(
                    ws,
                    reads,
                    upto,
                    header,
                )
                &&& cs.drop_last() == resync_cancels(ws, reads, upto, header)
                &&& cs.len() == resync_cancels(ws, reads, upto, header).len() + 1
                &&& cs.last().watch_id == e.id
                &&& cs.last().canceled && !cs.last().created
                &&& cs.last().header == header
                &&& cs.last().events.len() == 0
            }
            &&& out matches ReplayView::Compacted(gone) ==> {
                let m = resync_cancels(all, reads, upto, header).last();
                &&& m.compact_revision == gone
                &&& m.cancel_reason == "watcher fell behind and required revision "@
                    + crate::text::dec_int(e.w.next_rev as int)
                    + " has been compacted (compact_rev = "@ + crate::text::dec_int(gone as int)
                    + ")"@
            }
            &&& out matches ReplayView::Failed(t) ==> {
                let m = resync_cancels(all, reads, upto, header).last();
                &&& m.compact_revision == 0
                &&& m.cancel_reason
                    == "watcher fell behind and its history could not be read: "@ + t
            }
        }),
{
    let all = ws.push(e);
    assert(all.drop_last() =~= ws);
    assert(all.last() == e);
    assert(reads[all.len() - 1] == reads.last());
    let cs = resync_cancels(all, reads, upto, header);
    if !(replayed(e.w, upto, reads.last()) is Done) {
        assert(cs.drop_last() =~= resync_cancels(ws, reads, upto, header));
    }
}

/// What a watcher is owed for one revision is what it selects of that
/// revision's changes; for no revision it is owed nothing.
pub proof fn law_owed_revision_by_revision(
    w: WatcherView,
    h: spec_fn(int) -> Seq<ChangeView>,
    from: int,
    to: int,
)
    ensures
        from > to ==> owed(w, h, from, to).len() == 0,
        from <= to ==> owed(w, h, from, to) == owed(w, h, from, to - 1) + w.selected(h(to)),
        from <= to ==> faithful(w, h, from, to) == faithful(w, h, from, to - 1) + watched(
            w,
            h(to),
        ),
        from > to ==> faithful(w, h, from, to).len() == 0,
{
}

/// The changes that are watched are those on the watched keys, one by one
/// and in order; the events given to a watcher are those of the messages
/// with its number.
pub proof fn law_watched_and_given_go_one_by_one(
    w: WatcherView,
    es: Seq<ChangeView>,
    e: ChangeView,
    msgs: Seq<ResponseView>,
    m: ResponseView,
    id: i64,
)
    ensures
        watched(w, seq![]).len() == 0,
        keyrange::in_range(w.key, w.range_end, e.kv.key) ==> watched(w, es.push(e)) == watched(
            w,
            es,
        ).push(e),
        !keyrange::in_range(w.key, w.range_end, e.kv.key) ==> watched(w, es.push(e)) == watched(
            w,
            es,
        ),
        given(seq![], id).len() == 0,
        m.watch_id == id ==> given(msgs.push(m), id) == given(msgs, id) + m.events,
        m.watch_id != id ==> given(msgs.push(m), id) == given(msgs, id),
{
    assert(es.push(e).drop_last() =~= es);
    assert(msgs.push(m).drop_last() =~= msgs);
}

/// A watcher cancelled for want of history is told so under its number.
pub proof fn law_cancellation_says_what_is_gone(
    e: EntryView,
    out: ReplayView,
    header: ResponseHeader,
)
    requires
        !(out is Done),
    ensures
        cancel_of(e, out, header).watch_id == e.id,
        cancel_of(e, out, header).canceled,
        !cancel_of(e, out, header).created,
        cancel_of(e, out, header).header == header,
        cancel_of(e, out, header).events.len() == 0,
        out matches ReplayView::Compacted(gone) ==> cancel_of(e, out, header).compact_revision
            == gone && cancel_of(e, out, header).cancel_reason
            == "watcher fell behind and required revision "@ + crate::text::dec_int(
            e.w.next_rev as int,
        ) + " has been compacted (compact_rev = "@ + crate::text::dec_int(gone as int) + ")"@,
        out matches ReplayView::Failed(t) ==> cancel_of(e, out, header).compact_revision == 0
            && cancel_of(e, out, header).cancel_reason
            == "watcher fell behind and its history could not be read: "@ + t,
{
}

/// A watch whose history is there is acknowledged and then sent its
/// history, and nothing else; it is kept under its number, in place of one
/// that had it, with its cursor past what it was sent.
pub proof fn law_watch_with_history_is_kept(
    state: ServerState,
    s: StreamView,
    c: WatchCreateRequest,
    current_rev: i64,
    compact_rev: i64,
    read: HistoryRead,
    cancel_rev: i64,
)
    requires
        s.wf(),
        current_rev < i64::MAX,
        c.start_revision <= 0 || c.start_revision >= compact_rev,
        replayed(created_watcher(c, current_rev), current_rev, read) is Done,
    ensures
        ({
            let (s2, msgs) = created(
                state,
                s,
                c,
                current_rev,
                compact_rev,
                read,
                cancel_rev,
            );
            let id = created_id(s, c);
            let w = created_watcher(c, current_rev);
            let events = replayed(w, current_rev, read)->Done_0;
            let kept = s2.watchers.last();
            &&& msgs.skip(1) == replay_messages(
                state::header_of(state, current_rev),
                id,
                events,
            )
            &&& kept.id == id
            &&& w.next_rev > current_rev ==> kept.w == w
            &&& w.next_rev <= current_rev ==> kept.w == w.at((current_rev + 1) as i64)
            &&& forall|e: EntryView|
                #![trigger s2.watchers.drop_last().contains(e)]
                s2.watchers.drop_last().contains(e) <==> s.watchers.contains(e) && e.id != id
        }),
{
    let id = created_id(s, c);
    let w = created_watcher(c, current_rev);
    let header = state::header_of(state, current_rev);
    let events = replayed(w, current_rev, read)->Done_0;
    let (s2, msgs) = created(state, s, c, current_rev, compact_rev, read, cancel_rev);
    assert(msgs.skip(1) =~= replay_messages(header, id, events));
    assert(s2.watchers.drop_last() =~= drop_id(s.watchers, id));
    assert forall|e: EntryView|
        #![trigger s2.watchers.drop_last().contains(e)]
        s2.watchers.drop_last().contains(e) <==> s.watchers.contains(e) && e.id != id by {
        law_ended_watch_leaves_the_others(s, id, e);
    }
}

} // verus!
