use fastetcd::auth::AuthState;
use fastetcd::model::KvRecord;
use fastetcd::space::SpaceGuard;
use fastetcd::state::{RaftMetrics, ServerState};
use fastetcd::watch::{
    forward_events, handle_cancel, handle_create, handle_progress, lag_cancel_count,
    progress_notify_tick, resync, resync_count, EventBatch, EventKind, Forward, History,
    history_interval, HistoryRead, MvccEvent, StoreReading, WatchCounters, WatchCreateRequest,
    WatchRequest, WatchResponse, WatchService, WatchStreamState, Watcher,
};

fn state() -> ServerState {
    ServerState::new(
        1,
        1,
        RaftMetrics { current_term: 1, current_leader: Some(1), last_log_index: None, last_applied: None },
        AuthState::default(),
        SpaceGuard::disabled(),
    )
}

fn record(key: &[u8], value: &[u8], rev: i64) -> KvRecord {
    KvRecord {
        key: key.to_vec(),
        create_revision: 1,
        mod_revision: rev,
        version: 1,
        value: value.to_vec(),
        lease: 0,
        deleted: false,
    }
}

fn put(key: &[u8], value: &[u8], rev: i64) -> MvccEvent {
    MvccEvent { kind: EventKind::Put, kv: record(key, value, rev), prev_kv: None }
}

fn batch(revision: i64, events: Vec<MvccEvent>) -> EventBatch {
    EventBatch { revision, events }
}

fn watch(key: &[u8], range_end: &[u8]) -> WatchCreateRequest {
    WatchCreateRequest {
        key: key.to_vec(),
        range_end: range_end.to_vec(),
        start_revision: 0,
        progress_notify: false,
        filters: Vec::new(),
        prev_kv: false,
        watch_id: 0,
    }
}

fn nothing() -> HistoryRead {
    HistoryRead { compact_rev: 0, history: History::Events(Vec::new()) }
}

fn history(events: Vec<MvccEvent>) -> HistoryRead {
    HistoryRead { compact_rev: 0, history: History::Events(events) }
}

fn create(ss: &mut WatchStreamState, req: &WatchCreateRequest, current: i64) -> i64 {
    let out = handle_create(&state(), ss, req, current, 0, &nothing(), current);
    assert_eq!(out.len(), 1);
    assert!(out[0].created && !out[0].canceled);
    assert!(out[0].events.is_empty());
    assert!(out[0].watch_id > 0);
    out[0].watch_id
}

fn deliver(ss: &mut WatchStreamState, b: EventBatch) -> Vec<WatchResponse> {
    match forward_events(&state(), ss, &b) {
        Forward::Deliver(out) => out,
        Forward::Resync => panic!("no batch was missed"),
    }
}

fn revisions(out: &[WatchResponse]) -> Vec<i64> {
    out.iter().flat_map(|r| r.events.iter().map(|e| e.kv.mod_revision)).collect()
}

#[test]
fn watch_receives_put_event() {
    let mut ss = WatchStreamState::new(0);
    let ack = handle_create(&state(), &mut ss, &watch(b"foo", b""), 0, 0, &nothing(), 0);
    assert_eq!(ack.len(), 1);
    assert!(ack[0].created);
    assert!(!ack[0].canceled);
    assert_eq!(ack[0].events.len(), 0);
    let id = ack[0].watch_id;
    assert!(id > 0);
    let out = deliver(&mut ss, batch(1, vec![put(b"foo", b"bar", 1)]));
    assert_eq!(out.len(), 1);
    assert_eq!(out[0].watch_id, id);
    assert_eq!(out[0].events.len(), 1);
    assert_eq!(out[0].events[0].event_type, 0);
    assert_eq!(out[0].events[0].kv.key, b"foo");
    assert_eq!(out[0].events[0].kv.value, b"bar");
    assert_eq!(out[0].header.revision, 1);
    // The same batch again brings nothing.
    assert!(deliver(&mut ss, batch(1, vec![put(b"foo", b"bar", 1)])).is_empty());
}

#[test]
fn watch_range_only_matches_in_range() {
    let mut ss = WatchStreamState::new(0);
    create(&mut ss, &watch(b"a", b"c"), 0);
    let mut seen: Vec<Vec<u8>> = Vec::new();
    for b in [
        batch(1, vec![put(b"a", b"1", 1)]),
        batch(2, vec![put(b"z", b"99", 2)]),
        batch(3, vec![put(b"b", b"2", 3)]),
    ] {
        for r in deliver(&mut ss, b) {
            seen.extend(r.events.into_iter().map(|e| e.kv.key));
        }
    }
    seen.sort();
    assert_eq!(seen, vec![b"a".to_vec(), b"b".to_vec()]);
    // The end of the range is not in it.
    assert!(deliver(&mut ss, batch(4, vec![put(b"c", b"3", 4)])).is_empty());
}

#[test]
fn watch_with_prev_kv_returns_prior_value() {
    let mut ss = WatchStreamState::new(1);
    create(&mut ss, &WatchCreateRequest { prev_kv: true, ..watch(b"k", b"") }, 1);
    create(&mut ss, &watch(b"k", b""), 1);
    let change = MvccEvent { prev_kv: Some(record(b"k", b"v0", 1)), ..put(b"k", b"v1", 2) };
    let out = deliver(&mut ss, batch(2, vec![change]));
    assert_eq!(out[0].events[0].prev_kv.as_ref().unwrap().value, b"v0");
    assert!(out[1].events[0].prev_kv.is_none());
}

#[test]
fn watch_cancel_stops_events() {
    let mut ss = WatchStreamState::new(0);
    let id = create(&mut ss, &watch(b"x", b""), 0);
    let r = handle_cancel(&state(), &mut ss, id, 0);
    assert!(r.canceled && !r.created);
    assert_eq!((r.watch_id, r.header.revision), (id, 0));
    assert!(deliver(&mut ss, batch(1, vec![put(b"x", b"v", 1)])).is_empty());
}

#[test]
fn watch_at_compacted_revision_returns_canceled() {
    let mut ss = WatchStreamState::new(2);
    let req = WatchCreateRequest { start_revision: 1, ..watch(b"k", b"") };
    let out = handle_create(&state(), &mut ss, &req, 2, 2, &nothing(), 2);
    assert_eq!(out.len(), 1);
    assert!(out[0].created);
    assert!(out[0].canceled);
    assert_eq!(out[0].compact_revision, 2);
    assert_eq!(out[0].cancel_reason, "watch revision 1 has been compacted (compact_rev = 2)");
    assert!(ss.watchers.is_empty());
}

#[test]
fn a_watch_from_the_past_is_replayed_then_goes_live() {
    let mut ss = WatchStreamState::new(3);
    let req = WatchCreateRequest { start_revision: 2, ..watch(b"k", b"") };
    let read = history(vec![put(b"k", b"2", 2), put(b"k", b"3", 3)]);
    let out = handle_create(&state(), &mut ss, &req, 3, 0, &read, 3);
    assert_eq!(revisions(&out), vec![2, 3]);
    let live = deliver(&mut ss, batch(4, vec![put(b"k", b"4", 4)]));
    assert_eq!(revisions(&live), vec![4]);
}

#[test]
fn unreadable_history_cancels_the_new_watch() {
    let mut ss = WatchStreamState::new(3);
    let req = WatchCreateRequest { start_revision: 2, ..watch(b"k", b"") };
    let read = HistoryRead { compact_rev: 0, history: History::Failed(String::from("io")) };
    let out = handle_create(&state(), &mut ss, &req, 3, 0, &read, 4);
    assert_eq!(out.len(), 2);
    assert!(out[1].canceled);
    assert_eq!(out[1].cancel_reason, "watch history could not be read: io");
    assert_eq!(out[1].header.revision, 4);
    assert!(ss.watchers.is_empty());
}

#[test]
fn filters_drop_puts_and_deletes() {
    let mut ss = WatchStreamState::new(0);
    create(&mut ss, &WatchCreateRequest { filters: vec![0], ..watch(b"k", b"") }, 0);
    create(&mut ss, &WatchCreateRequest { filters: vec![1], ..watch(b"k", b"") }, 0);
    let delete = MvccEvent { kind: EventKind::Delete, ..put(b"k", b"", 1) };
    let out = deliver(&mut ss, batch(1, vec![delete, put(b"k", b"v", 1)]));
    assert_eq!(out.len(), 2);
    assert_eq!(out[0].events.len(), 1);
    assert_eq!(out[0].events[0].event_type, 1);
    assert_eq!(out[1].events.len(), 1);
    assert_eq!(out[1].events[0].event_type, 0);
}

#[test]
fn numbers_are_taken_from_the_client_or_given_out() {
    let mut ss = WatchStreamState::new(0);
    let first = create(&mut ss, &watch(b"a", b""), 0);
    let second = create(&mut ss, &watch(b"b", b""), 0);
    assert_ne!(first, second);
    let own = create(&mut ss, &WatchCreateRequest { watch_id: 40, ..watch(b"c", b"") }, 0);
    assert_eq!(own, 40);
    assert_eq!(ss.watchers.len(), 3);
}

#[test]
fn progress_is_reported_on_request_and_by_tick() {
    let mut ss = WatchStreamState::new(6);
    create(&mut ss, &watch(b"a", b""), 6);
    assert!(progress_notify_tick(&state(), &ss, 6).is_none());
    create(&mut ss, &WatchCreateRequest { progress_notify: true, ..watch(b"a", b"") }, 6);
    let tick = progress_notify_tick(&state(), &ss, 6).unwrap();
    assert!(tick.events.is_empty());
    assert_eq!(tick.header.revision, 6);
    let asked = handle_progress(&state(), &ss, 6).unwrap();
    assert_eq!(asked.watch_id, -1);
}

/// The changes of a flood of writes under `lag/`, one for each revision.
fn flood(from: i64, to: i64) -> Vec<MvccEvent> {
    let value = vec![b'x'; 8 * 1024];
    (from..=to).map(|r| put(format!("lag/{r:05}").as_bytes(), &value, r)).collect()
}

#[test]
fn lagging_watch_is_resynced_or_cancelled_never_gapped() {
    let puts: i64 = 3000;
    // With history intact every revision comes once, in order.
    let mut counters = WatchCounters { resyncs: 0, lag_cancels: 0 };
    let mut ss = WatchStreamState::new(0);
    create(&mut ss, &watch(b"lag/", b"lag0"), 0);
    let mut seen: Vec<i64> = Vec::new();
    for r in 1..=1000 {
        seen.extend(revisions(&deliver(&mut ss, batch(r, flood(r, r)))));
    }
    // What follows is missed, but for the last batch.
    let late = batch(puts, flood(puts, puts));
    assert!(matches!(forward_events(&state(), &mut ss, &late), Forward::Resync));
    let reads = vec![history(flood(1001, puts))];
    let out = resync(&state(), &mut ss, puts, &reads, puts, &mut counters);
    assert!(out.len() > 1);
    assert!(out.iter().all(|r| !r.canceled));
    seen.extend(revisions(&out));
    seen.extend(revisions(&deliver(&mut ss, late)));
    assert_eq!(seen.len(), 3000);
    for pair in seen.windows(2) {
        assert_eq!(pair[1], pair[0] + 1);
    }
    assert_eq!(*seen.last().unwrap(), puts);
    assert_eq!((resync_count(&counters), lag_cancel_count(&counters)), (1, 0));

    // Past a compaction the watch is cancelled.
    let mut ss = WatchStreamState::new(0);
    create(&mut ss, &watch(b"lag/", b"lag0"), 0);
    let mut seen: Vec<i64> = Vec::new();
    for r in 1..=1000 {
        seen.extend(revisions(&deliver(&mut ss, batch(r, flood(r, r)))));
    }
    let late = batch(puts, flood(puts, puts));
    assert!(matches!(forward_events(&state(), &mut ss, &late), Forward::Resync));
    let gone = History::Compacted { compact_rev: puts };
    let reads = vec![HistoryRead { compact_rev: puts, history: gone }];
    let out = resync(&state(), &mut ss, puts, &reads, puts, &mut counters);
    assert_eq!(out.len(), 1);
    assert!(out[0].canceled);
    assert_eq!(out[0].compact_revision, puts);
    assert!(!out[0].cancel_reason.is_empty());
    assert!(seen.len() < 3000);
    for pair in seen.windows(2) {
        assert_eq!(pair[1], pair[0] + 1);
    }
    assert!(ss.watchers.is_empty());
    assert_eq!((resync_count(&counters), lag_cancel_count(&counters)), (2, 1));
}

#[test]
fn a_long_replay_is_cut_between_revisions() {
    let big = vec![7u8; 600 * 1024];
    let mut events = vec![put(b"k", &big, 2), put(b"k", &big, 2), put(b"k", &big, 3)];
    events.push(put(b"k", b"", 4));
    let mut ss = WatchStreamState::new(4);
    let req = WatchCreateRequest { start_revision: 2, ..watch(b"k", b"") };
    let out = handle_create(&state(), &mut ss, &req, 4, 0, &history(events), 4);
    assert_eq!(revisions(&out), vec![2, 2, 3, 4]);
    // The two changes of one revision stay together.
    assert_eq!(out[1].events.len(), 2);
    assert!(out.len() > 2);
}

#[test]
fn a_connection_serves_its_requests_in_turn() {
    let service = WatchService::new(state());
    let mut ss = WatchStreamState::new(2);
    let store = || StoreReading { current_rev: 2, compact_rev: 0, history: nothing(), cancel_rev: 2 };
    assert!(service.watch(&mut ss, &None, &store()).is_empty());
    assert!(service.watch(&mut ss, &Some(WatchRequest::Progress), &store()).is_empty());
    let create = Some(WatchRequest::Create(watch(b"k", b"")));
    let out = service.watch(&mut ss, &create, &store());
    assert_eq!(out.len(), 1);
    assert!(out[0].created);
    let id = out[0].watch_id;
    let out = service.watch(&mut ss, &Some(WatchRequest::Progress), &store());
    assert_eq!(out[0].watch_id, -1);
    let out = service.watch(&mut ss, &Some(WatchRequest::Cancel { watch_id: id }), &store());
    assert!(out[0].canceled);
    assert!(ss.watchers.is_empty());
}

#[test]
fn only_what_is_missing_is_read() {
    let mut w = Watcher {
        key: b"k".to_vec(),
        range_end: Vec::new(),
        progress_notify: false,
        filter_no_put: false,
        filter_no_delete: false,
        prev_kv: false,
        next_rev: 4,
    };
    assert_eq!(history_interval(&w, 9), Some((3, 9)));
    w.next_rev = 10;
    assert_eq!(history_interval(&w, 9), None);
}
