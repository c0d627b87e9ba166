//! Import of another server's snapshot.
//!
//! A snapshot lists revisions of keys. Its entries come in the order of
//! the snapshot's own keys, and are either taken in for their latest live
//! values alone, or with every record's revisions kept.

use vstd::prelude::*;
use crate::keymap;
use crate::keymap::{KeyEntry, KeyMap};
use crate::lex::copy_bytes;
use crate::model::{KeyValue, KvRecord, KvView, Mutation};

verus! {

/// What an import did.
#[derive(Debug, Clone, Copy, PartialEq, Eq, Structural)]
pub struct MigrationSummary {
    /// Entries looked at, tombstones among them.
    pub scanned: u64,
    /// Tombstones met.
    pub tombstones: u64,
    /// Live keys imported.
    pub imported: usize,
    /// Revision of the target after the import.
    pub revision_after: i64,
}

/// What becomes of revision history in an import.
#[derive(Debug, Clone, Copy, PartialEq, Eq, Structural)]
pub enum MigrationMode {
    /// Import the latest live value of each key.
    LatestOnly,
    /// Keep the revisions, version and lease of each record.
    PreserveRevisions,
}

impl Default for MigrationMode {
    fn default() -> (r: MigrationMode)
        ensures
            r == MigrationMode::LatestOnly,
    {
        MigrationMode::LatestOnly
    }
}

/// One entry of a snapshot: its key, and the record in its value, if
/// there is a value and it decodes.
#[derive(Debug)]
pub struct ScanEntry {
    pub key: Vec<u8>,
    pub kv: Option<KeyValue>,
}

/// The entry marks a removal: its key ends in `t`.
pub open spec fn is_tomb(e: ScanEntry) -> bool {
    e.key@.len() > 0 && e.key@.last() == 0x74
}

/// The entry holds a record.
pub open spec fn counts(e: ScanEntry) -> bool {
    e.kv is Some
}

/// How many of the entries with a record mark a removal.
pub open spec fn tombs(es: Seq<ScanEntry>) -> nat
    decreases es.len(),
{
    if es.len() == 0 {
        0
    } else {
        tombs(es.drop_last()) + (if counts(es.last()) && is_tomb(es.last()) {
            1nat
        } else {
            0nat
        })
    }
}

/// The largest revision of the records, and at least zero.
pub open spec fn top_revision(es: Seq<ScanEntry>) -> i64
    decreases es.len(),
{
    if es.len() == 0 {
        0
    } else {
        let rest = top_revision(es.drop_last());
        if counts(es.last()) && es.last().kv->0.mod_revision > rest {
            es.last().kv->0.mod_revision
        } else {
            rest
        }
    }
}

/// What is imported of a key in its latest state.
#[verifier::ext_equal]
pub struct LatestView {
    pub mod_revision: i64,
    pub value: Seq<u8>,
    pub lease: i64,
}

/// The latest live state of each key: a removal takes its key out, and a
/// record replaces one of a lower revision.
pub open spec fn latest_of(es: Seq<ScanEntry>) -> Map<Seq<u8>, LatestView>
    decreases es.len(),
{
    if es.len() == 0 {
        Map::empty()
    } else {
        let rest = latest_of(es.drop_last());
        let e = es.last();
        if !counts(e) {
            rest
        } else {
            let kv = e.kv->0;
            if is_tomb(e) {
                rest.remove(kv.key@)
            } else if rest.contains_key(kv.key@) && rest[kv.key@].mod_revision >= kv.mod_revision {
                rest
            } else {
                rest.insert(
                    kv.key@,
                    LatestView { mod_revision: kv.mod_revision, value: kv.value@, lease: kv.lease },
                )
            }
        }
    }
}

/// What a record in a key's history is.
#[verifier::ext_equal]
pub struct HistoryView {
    pub kv: KvView,
    pub deleted: bool,
}

/// What a record says, removal mark included.
pub open spec fn history_view(r: KvRecord) -> HistoryView {
    HistoryView { kv: r@, deleted: r.deleted }
}

/// What a list of records says, removal marks included.
pub open spec fn history_views(s: Seq<KvRecord>) -> Seq<HistoryView> {
    s.map_values(|r: KvRecord| history_view(r))
}

/// The records of one key, in the order of the entries.
pub open spec fn history_of(es: Seq<ScanEntry>, key: Seq<u8>) -> Seq<HistoryView>
    decreases es.len(),
{
    if es.len() == 0 {
        seq![]
    } else {
        let rest = history_of(es.drop_last(), key);
        let e = es.last();
        if counts(e) && e.kv->0.key@ == key {
            rest.push(HistoryView { kv: e.kv->0@, deleted: is_tomb(e) })
        } else {
            rest
        }
    }
}

/// Where a record goes in an ordered list: after all whose revision is at
/// most its own.
pub open spec fn place(s: Seq<HistoryView>, rev: i64) -> int
    decreases s.len(),
{
    if s.len() == 0 || s.last().kv.mod_revision <= rev {
        s.len() as int
    } else {
        place(s.drop_last(), rev)
    }
}

/// The records in revision order; records of one revision keep the order
/// they had.
pub open spec fn by_revision(s: Seq<HistoryView>) -> Seq<HistoryView>
    decreases s.len(),
{
    if s.len() == 0 {
        seq![]
    } else {
        let t = by_revision(s.drop_last());
        t.insert(place(t, s.last().kv.mod_revision), s.last())
    }
}

/// Revisions do not descend.
pub open spec fn revisions_ascend(s: Seq<HistoryView>) -> bool {
    forall|i: int, j: int|
        0 <= i < j < s.len() ==> (#[trigger] s[i]).kv.mod_revision <= (
        #[trigger] s[j]).kv.mod_revision
}

/// Where `place` lies.
proof fn lemma_place(s: Seq<HistoryView>, rev: i64)
    ensures
        0 <= place(s, rev) <= s.len(),
        place(s, rev) > 0 ==> s[place(s, rev) - 1].kv.mod_revision <= rev,
        forall|i: int| place(s, rev) <= i < s.len() ==> (#[trigger] s[i]).kv.mod_revision > rev,
    decreases s.len(),
{
    if s.len() > 0 && s.last().kv.mod_revision > rev {
        lemma_place(s.drop_last(), rev);
        let p = place(s, rev);
        assert forall|i: int| p <= i < s.len() implies (#[trigger] s[i]).kv.mod_revision > rev by {
            if i < s.len() - 1 {
                assert(s.drop_last()[i] == s[i]);
            }
        }
    }
}

/// Ordering by revision orders by revision, and neither loses nor adds a
/// record.
pub proof fn law_by_revision_orders(s: Seq<HistoryView>)
    ensures
        revisions_ascend(by_revision(s)),
        by_revision(s).to_multiset() == s.to_multiset(),
        by_revision(s).len() == s.len(),
    decreases s.len(),
{
    broadcast use vstd::seq_lib::group_to_multiset_ensures;

    if s.len() > 0 {
        law_by_revision_orders(s.drop_last());
        let t = by_revision(s.drop_last());
        let x = s.last();
        let p = place(t, x.kv.mod_revision);
        lemma_place(t, x.kv.mod_revision);
        let u = t.insert(p, x);
        assert forall|i: int, j: int| 0 <= i < j < u.len() implies (
        #[trigger] u[i]).kv.mod_revision <= (#[trigger] u[j]).kv.mod_revision by {
            if i != p {
                assert(u[i] == t[if i < p { i } else { i - 1 }]);
            }
            if j != p {
                assert(u[j] == t[if j < p { j } else { j - 1 }]);
            }
            if j == p && i < p - 1 {
                assert(t[i].kv.mod_revision <= t[p - 1].kv.mod_revision);
            }
        }
        assert(s =~= s.drop_last().push(x));
        assert(u.to_multiset() =~= t.to_multiset().insert(x));
    }
}

/// A generation of a key: what was put from when the key came to be, and
/// the removal that ended it, if one did.
pub struct GenView {
    pub puts: Seq<HistoryView>,
    pub tomb: Option<HistoryView>,
}

/// A record as it is kept: a removal has no value.
pub open spec fn kept(h: HistoryView) -> HistoryView {
    if h.deleted {
        HistoryView { kv: KvView { value: seq![], ..h.kv }, deleted: true }
    } else {
        h
    }
}

/// The generations of a key with the given records, in revision order. A
/// put goes on with a generation that has not ended, or begins one; a
/// removal ends one.
pub open spec fn generations(s: Seq<HistoryView>) -> Seq<GenView>
    decreases s.len(),
{
    if s.len() == 0 {
        seq![]
    } else {
        let gs = generations(s.drop_last());
        let x = s.last();
        let goes_on = gs.len() > 0 && gs.last().tomb is None;
        let done = if goes_on {
            gs.drop_last()
        } else {
            gs
        };
        let puts = if goes_on {
            gs.last().puts
        } else {
            seq![]
        };
        if x.deleted {
            done.push(GenView { puts, tomb: Some(kept(x)) })
        } else {
            done.push(GenView { puts: puts.push(x), tomb: None })
        }
    }
}

/// The records of generations, one after another.
pub open spec fn laid_out(gs: Seq<GenView>) -> Seq<HistoryView>
    decreases gs.len(),
{
    if gs.len() == 0 {
        seq![]
    } else {
        let g = gs.last();
        let head = laid_out(gs.drop_last()) + g.puts;
        match g.tomb {
            Some(t) => head.push(t),
            None => head,
        }
    }
}

/// One generation of a key, ready to be loaded.
#[derive(Debug)]
pub struct BulkKey {
    pub key: Vec<u8>,
    pub puts: Vec<KvRecord>,
    pub tombstone: Option<KvRecord>,
}

/// The generation that is loaded.
pub open spec fn gen_view(b: BulkKey) -> GenView {
    GenView {
        puts: history_views(b.puts@),
        tomb: match b.tombstone {
            Some(t) => Some(history_view(t)),
            None => None,
        },
    }
}

/// The generations that are loaded.
pub open spec fn gen_views(bs: Seq<BulkKey>) -> Seq<GenView> {
    Seq::new(bs.len(), |i: int| gen_view(bs[i]))
}

/// What is loaded for a key.
pub open spec fn of_key(bs: Seq<BulkKey>, k: Seq<u8>) -> Seq<BulkKey>
    decreases bs.len(),
{
    if bs.len() == 0 {
        seq![]
    } else if bs.last().key@ == k {
        of_key(bs.drop_last(), k).push(bs.last())
    } else {
        of_key(bs.drop_last(), k)
    }
}

/// All are of one key.
pub open spec fn all_of_key(bs: Seq<BulkKey>, k: Seq<u8>) -> bool {
    forall|i: int| 0 <= i < bs.len() ==> (#[trigger] bs[i]).key@ == k
}

/// Appending what is of one key adds to that key alone.
proof fn lemma_of_key_append(a: Seq<BulkKey>, b: Seq<BulkKey>, of: Seq<u8>, k: Seq<u8>)
    requires
        all_of_key(b, of),
    ensures
        of_key(a + b, k) == (if k == of {
            of_key(a, k) + b
        } else {
            of_key(a, k)
        }),
    decreases b.len(),
{
    if b.len() == 0 {
        assert(a + b =~= a);
        assert(of_key(a, k) + b =~= of_key(a, k));
    } else {
        assert((a + b).drop_last() =~= a + b.drop_last());
        assert((a + b).last() == b.last());
        assert(b.last() == b[b.len() - 1]);
        assert forall|i: int| 0 <= i < b.drop_last().len() implies (
        #[trigger] b.drop_last()[i]).key@ == of by {
            assert(b.drop_last()[i] == b[i]);
        }
        lemma_of_key_append(a, b.drop_last(), of, k);
        if k == of {
            assert((of_key(a, k) + b.drop_last()).push(b.last()) =~= of_key(a, k) + b);
        }
    }
}

/// What an import writes.
#[derive(Debug)]
pub enum ImportPlan {
    /// One put for each live key, at one new revision; nothing where
    /// there is none.
    Apply(Vec<Mutation>),
    /// The generations of each key, with the revision they reach.
    Bulk { keys: Vec<BulkKey>, max_rev: i64 },
}

/// An import: what was counted, and what is to be written.
#[derive(Debug)]
pub struct Migration {
    pub scanned: u64,
    pub tombstones: u64,
    pub imported: usize,
    pub plan: ImportPlan,
}

/// The mutations are exactly one plain put for each live key.
pub open spec fn is_latest_import(ms: Seq<Mutation>, latest: Map<Seq<u8>, LatestView>) -> bool {
    &&& forall|i: int| 0 <= i < ms.len() ==> puts_latest(#[trigger] ms[i], latest)
    &&& forall|i: int, j: int|
        0 <= i < j < ms.len() ==> (#[trigger] ms[i])->Put_key@ != (#[trigger] ms[j])->Put_key@
    &&& forall|k: Seq<u8>| #[trigger]
        latest.contains_key(k) ==> exists|i: int|
            0 <= i < ms.len() && (#[trigger] ms[i])->Put_key@ == k
}

/// A plain put of a live key's latest value.
pub open spec fn puts_latest(m: Mutation, latest: Map<Seq<u8>, LatestView>) -> bool {
    m matches Mutation::Put { key, value, lease, prev_kv, ignore_value, ignore_lease }
        && latest.contains_key(key@) && value@ == latest[key@].value && lease
        == latest[key@].lease && !prev_kv && !ignore_value && !ignore_lease
}

/// What is loaded for each key are its own generations, in their order.
/// Nothing is loaded for a key without a record.
pub open spec fn is_bulk_import(bs: Seq<BulkKey>, es: Seq<ScanEntry>) -> bool {
    forall|k: Seq<u8>| #[trigger]
        gen_views(of_key(bs, k)) == generations(by_revision(history_of(es, k)))
}

/// How many keys are live: a generation of theirs has not ended.
pub open spec fn live_count(bs: Seq<BulkKey>) -> nat
    decreases bs.len(),
{
    if bs.len() == 0 {
        0
    } else {
        live_count(bs.drop_last()) + (if bs.last().tombstone is None {
            1nat
        } else {
            0nat
        })
    }
}

/// A key's latest state while scanning.
#[derive(Debug)]
pub struct Latest {
    pub mod_revision: i64,
    pub value: Vec<u8>,
    pub lease: i64,
}

impl View for Latest {
    type V = LatestView;

    open spec fn view(&self) -> LatestView {
        LatestView { mod_revision: self.mod_revision, value: self.value@, lease: self.lease }
    }
}

/// A map of latest states is the one of the entries.
spec fn holds_latest(m: Map<Seq<u8>, Latest>, v: Map<Seq<u8>, LatestView>) -> bool {
    &&& forall|k: Seq<u8>| #[trigger] m.contains_key(k) <==> v.contains_key(k)
    &&& forall|k: Seq<u8>| #[trigger] m.contains_key(k) ==> m[k]@ == v[k]
}

/// A map of histories is the one of the entries.
spec fn holds_history(m: Map<Seq<u8>, Vec<KvRecord>>, es: Seq<ScanEntry>) -> bool {
    &&& forall|k: Seq<u8>| #[trigger] m.contains_key(k) <==> history_of(es, k).len() > 0
    &&& forall|k: Seq<u8>| #[trigger] m.contains_key(k) ==> history_views(m[k]@) == history_of(
        es,
        k,
    )
}

/// Whether an entry's key marks a removal.
fn entry_is_tomb(e: &ScanEntry) -> (r: bool)
    ensures
        r == is_tomb(*e),
{
    e.key.len() > 0 && e.key[e.key.len() - 1] == 0x74
}

/// Take one record into the latest states.
fn take_latest(latest: &mut KeyMap<Latest>, e: &ScanEntry, Ghost(seen): Ghost<Seq<ScanEntry>>)
    requires
        old(latest).wf(),
        holds_latest(old(latest)@, latest_of(seen)),
    ensures
        final(latest).wf(),
        holds_latest(final(latest)@, latest_of(seen.push(*e))),
{
    proof {
        assert(seen.push(*e).drop_last() =~= seen);
        assert(seen.push(*e).last() == *e);
    }
    let kv = match &e.kv {
        Some(kv) => kv,
        None => {
            return ;
        },
    };
    if entry_is_tomb(e) {
        latest.remove(kv.key.as_slice());
        return ;
    }
    let stale = match latest.get(kv.key.as_slice()) {
        Some(l) => l.mod_revision >= kv.mod_revision,
        None => false,
    };
    if !stale {
        latest.insert(
            copy_bytes(kv.key.as_slice()),
            Latest {
                mod_revision: kv.mod_revision,
                value: copy_bytes(kv.value.as_slice()),
                lease: kv.lease,
            },
        );
    }
}

/// Take one record into the histories.
fn take_history(
    history: &mut KeyMap<Vec<KvRecord>>,
    e: &ScanEntry,
    Ghost(seen): Ghost<Seq<ScanEntry>>,
)
    requires
        old(history).wf(),
        holds_history(old(history)@, seen),
    ensures
        final(history).wf(),
        holds_history(final(history)@, seen.push(*e)),
{
    proof {
        assert(seen.push(*e).drop_last() =~= seen);
        assert(seen.push(*e).last() == *e);
    }
    let kv = match &e.kv {
        Some(kv) => kv,
        None => {
            assert(forall|k: Seq<u8>| history_of(seen.push(*e), k) == history_of(seen, k));
            return ;
        },
    };
    let rec = KvRecord {
        key: copy_bytes(kv.key.as_slice()),
        create_revision: kv.create_revision,
        mod_revision: kv.mod_revision,
        version: kv.version,
        value: copy_bytes(kv.value.as_slice()),
        lease: kv.lease,
        deleted: entry_is_tomb(e),
    };
    let mut records: Vec<KvRecord> = match history.remove(kv.key.as_slice()) {
        Some(v) => v,
        None => Vec::new(),
    };
    let ghost before = records@;
    assert(history_views(before) =~= history_of(seen, kv.key@));
    records.push(rec);
    assert(history_views(records@) =~= history_views(before).push(history_view(rec)));
    history.insert(copy_bytes(kv.key.as_slice()), records);
    assert forall|k: Seq<u8>| #[trigger] history_of(seen.push(*e), k) == (if k == kv.key@ {
        history_of(seen, k).push(history_view(rec))
    } else {
        history_of(seen, k)
    }) by {}
}

/// Order records by revision.
fn sort_records(records: Vec<KvRecord>) -> (r: Vec<KvRecord>)
    ensures
        history_views(r@) == by_revision(history_views(records@)),
{
    let ghost all = history_views(records@);
    let ghost given = records@;
    let mut out: Vec<KvRecord> = Vec::new();
    assert(history_views(out@) =~= by_revision(all.take(0)));
    for rec in it: records
        invariant
            it.seq() == given,
            all == history_views(given),
            history_views(out@) == by_revision(all.take(it.index() as int)),
    {
        let ghost i = it.index() as int;
        let ghost t = history_views(out@);
        assert(all.take(i + 1).drop_last() =~= all.take(i));
        assert(all.take(i + 1).last() == history_view(rec));
        let rev: i64 = rec.mod_revision;
        let mut j: usize = out.len();
        assert(t.take(j as int) =~= t);
        while j > 0 && out[j - 1].mod_revision > rev
            invariant
                j <= out@.len(),
                t == history_views(out@),
                place(t, rev) == place(t.take(j as int), rev),
            decreases j,
        {
            assert(t.take(j as int).drop_last() =~= t.take(j - 1));
            assert(t.take(j as int).last() == history_view(out@[j - 1]));
            j -= 1;
        }
        if j > 0 {
            assert(t.take(j as int).last() == history_view(out@[j - 1]));
        }
        assert(place(t, rev) == j);
        out.insert(j, rec);
        assert(history_views(out@) =~= t.insert(j as int, history_view(rec)));
    }
    assert(all.take(all.len() as int) =~= all);
    out
}

/// What is loaded for one key.
pub fn bulk_key(key: &[u8], records: Vec<KvRecord>) -> (r: Vec<BulkKey>)
    ensures
        all_of_key(r@, key@),
        gen_views(r@) == generations(by_revision(history_views(records@))),
{
    let sorted = sort_records(records);
    let ghost given = sorted@;
    let ghost s = history_views(given);
    let mut done: Vec<BulkKey> = Vec::new();
    let mut puts: Vec<KvRecord> = Vec::new();
    assert(s.take(0) =~= seq![]);
    assert(gen_views(done@) =~= generations(s.take(0)));
    for rec in it: sorted
        invariant
            it.seq() == given,
            s == history_views(given),
            all_of_key(done@, key@),
            closed_and_open(done@, puts@, generations(s.take(it.index() as int))),
    {
        let ghost i = it.index() as int;
        let ghost gs = generations(s.take(i));
        let ghost before = done@;
        let ghost had = puts@;
        assert(s.take(i + 1).drop_last() =~= s.take(i));
        assert(s.take(i + 1).last() == history_view(rec));
        proof {
            if had.len() > 0 {
                assert(gs.drop_last() =~= gen_views(before));
            } else {
                assert(history_views(had) =~= seq![]);
                assert(gs =~= gen_views(before));
                if gs.len() > 0 {
                    assert(gs.last() == gen_view(before.last()));
                }
            }
        }
        if rec.deleted {
            let tomb = KvRecord {
                key: rec.key,
                create_revision: rec.create_revision,
                mod_revision: rec.mod_revision,
                version: rec.version,
                value: Vec::new(),
                lease: rec.lease,
                deleted: true,
            };
            assert(tomb@.value =~= seq![]);
            done.push(BulkKey { key: copy_bytes(key), puts, tombstone: Some(tomb) });
            puts = Vec::new();
            assert(gen_views(done@) =~= gen_views(before).push(gen_view(done@.last())));
        } else {
            puts.push(rec);
            assert(history_views(puts@) =~= history_views(had).push(history_view(rec)));
        }
    }
    assert(s.take(s.len() as int) =~= s);
    if puts.len() > 0 {
        let ghost before = done@;
        done.push(BulkKey { key: copy_bytes(key), puts, tombstone: None });
        assert(gen_views(done@) =~= gen_views(before).push(gen_view(done@.last())));
    }
    done
}

/// The generations are those that ended, and, where there are puts after
/// them, one that has not.
spec fn closed_and_open(done: Seq<BulkKey>, puts: Seq<KvRecord>, gs: Seq<GenView>) -> bool {
    &&& forall|i: int| 0 <= i < done.len() ==> (#[trigger] done[i]).tombstone is Some
    &&& gs == (if puts.len() > 0 {
        gen_views(done).push(GenView { puts: history_views(puts), tomb: None })
    } else {
        gen_views(done)
    })
}

/// The puts of the latest states.
fn latest_mutations(entries: Vec<KeyEntry<Latest>>, Ghost(latest): Ghost<Map<Seq<u8>, LatestView>>)
    -> (r: Vec<Mutation>)
    requires
        keymap::keys_ascend(entries@),
        holds_latest(keymap::as_map(entries@), latest),
    ensures
        is_latest_import(r@, latest),
        r@.len() == entries@.len(),
{
    let ghost given = entries@;
    let ghost m = keymap::as_map(given);
    let mut out: Vec<Mutation> = Vec::new();
    for e in it: entries
        invariant
            it.seq() == given,
            m == keymap::as_map(given),
            keymap::keys_ascend(given),
            holds_latest(m, latest),
            out@.len() == it.index(),
            forall|i: int|
                0 <= i < out@.len() ==> puts_latest(#[trigger] out@[i], latest)
                    && out@[i]->Put_key@ == given[i].key@,
    {
        proof {
            keymap::lemma_entry(given, it.index() as int);
            assert(m.contains_key(e.key@));
        }
        out.push(
            Mutation::Put {
                key: e.key,
                value: e.value.value,
                lease: e.value.lease,
                prev_kv: false,
                ignore_value: false,
                ignore_lease: false,
            },
        );
    }
    proof {
        assert forall|i: int, j: int| 0 <= i < j < out@.len() implies (
        #[trigger] out@[i])->Put_key@ != (#[trigger] out@[j])->Put_key@ by {
            crate::lex::lemma_lex_irreflexive(given[i].key@);
            assert(crate::lex::lex_lt(given[i].key@, given[j].key@));
        }
        assert forall|k: Seq<u8>| #[trigger] latest.contains_key(k) implies exists|i: int|
            0 <= i < out@.len() && (#[trigger] out@[i])->Put_key@ == k by {
            assert(m.contains_key(k));
            let i = choose|i: int| keymap::stands_at(given, k, i);
            assert(out@[i]->Put_key@ == k);
        }
    }
    out
}

/// How many generations have not ended.
fn count_live(bs: &Vec<BulkKey>) -> (r: usize)
    ensures
        r == live_count(bs@),
{
    let mut live: usize = 0;
    let mut i: usize = 0;
    assert(bs@.take(0) =~= seq![]);
    while i < bs.len()
        invariant
            i <= bs@.len(),
            live == live_count(bs@.take(i as int)),
            live <= i,
        decreases bs@.len() - i,
    {
        assert(bs@.take(i + 1).drop_last() =~= bs@.take(i as int));
        if bs[i].tombstone.is_none() {
            live += 1;
        }
        i += 1;
    }
    assert(bs@.take(i as int) =~= bs@);
    live
}

/// The key is that of one of the first `n` entries.
spec fn is_among(entries: Seq<KeyEntry<Vec<KvRecord>>>, n: int, k: Seq<u8>) -> bool {
    exists|j: int| 0 <= j < n && (#[trigger] entries[j]).key@ == k
}

/// The generations of each key.
fn bulk_keys(entries: Vec<KeyEntry<Vec<KvRecord>>>, Ghost(es): Ghost<Seq<ScanEntry>>) -> (r: Vec<
    BulkKey,
>)
    requires
        keymap::keys_ascend(entries@),
        holds_history(keymap::as_map(entries@), es),
    ensures
        is_bulk_import(r@, es),
{
    let ghost given = entries@;
    let ghost m = keymap::as_map(given);
    let mut out: Vec<BulkKey> = Vec::new();
    assert forall|k: Seq<u8>| #[trigger] gen_views(of_key(out@, k)) == Seq::<GenView>::empty() by {
        assert(gen_views(of_key(out@, k)) =~= Seq::<GenView>::empty());
    }
    for e in it: entries
        invariant
            it.seq() == given,
            m == keymap::as_map(given),
            keymap::keys_ascend(given),
            holds_history(m, es),
            forall|k: Seq<u8>| #[trigger]
                gen_views(of_key(out@, k)) == (if is_among(given, it.index() as int, k) {
                    generations(by_revision(history_of(es, k)))
                } else {
                    seq![]
                }),
    {
        let ghost n = it.index() as int;
        proof {
            keymap::lemma_entry(given, n);
            assert(m.contains_key(e.key@));
        }
        let ghost before = out@;
        let mut bs = bulk_key(e.key.as_slice(), e.value);
        let ghost added = bs@;
        out.append(&mut bs);
        assert(out@ =~= before + added);
        proof {
            assert forall|k: Seq<u8>| #[trigger] gen_views(of_key(out@, k)) == (if is_among(
                given,
                n + 1,
                k,
            ) {
                generations(by_revision(history_of(es, k)))
            } else {
                seq![]
            }) by {
                lemma_of_key_append(before, added, e.key@, k);
                assert(is_among(given, n + 1, k) == (is_among(given, n, k) || given[n].key@ == k));
                assert(gen_views(of_key(before, k)) == gen_views(of_key(before, k)));
                if k == e.key@ {
                    if is_among(given, n, k) {
                        let j = choose|j: int| 0 <= j < n && (#[trigger] given[j]).key@ == k;
                        crate::lex::lemma_lex_irreflexive(k);
                        assert(crate::lex::lex_lt(given[j].key@, given[n].key@));
                    }
                    assert(gen_views(of_key(before, k)).len() == 0);
                    assert(of_key(before, k) + added =~= added);
                }
            }
        }
    }
    proof {
        assert forall|k: Seq<u8>| #[trigger] gen_views(of_key(out@, k)) == generations(
            by_revision(history_of(es, k)),
        ) by {
            if m.contains_key(k) {
                let i = choose|i: int| keymap::stands_at(given, k, i);
                assert(given[i].key@ == k);
                assert(is_among(given, given.len() as int, k));
            } else {
                assert(history_of(es, k).len() == 0);
                assert(generations(by_revision(history_of(es, k))) =~= seq![]);
                if is_among(given, given.len() as int, k) {
                    let j = choose|j: int|
                        0 <= j < given.len() && (#[trigger] given[j]).key@ == k;
                    keymap::lemma_entry(given, j);
                }
            }
        }
    }
    out
}

/// Whether the source and the target allow an import. `from` and `to` are
/// how the two paths are written in a message.
pub fn check_paths(
    from: &str,
    from_exists: bool,
    to: &str,
    to_exists: bool,
    to_entries: usize,
    force: bool,
) -> (r: Result<(), String>)
    ensures
        r is Ok <==> from_exists && (!to_exists || force || to_entries == 0),
        r is Err && !from_exists ==> r->Err_0@ == "source snapshot "@ + from@ + " does not exist"@,
        r is Err && from_exists ==> r->Err_0@ == "target "@ + to@
            + " exists and is not empty; pass force=true to overwrite"@,
{
    if !from_exists {
        return Err(crate::text::join3("source snapshot ", from, " does not exist"));
    }
    if to_exists && !force && to_entries > 0 {
        return Err(
            crate::text::join3(
                "target ",
                to,
                " exists and is not empty; pass force=true to overwrite",
            ),
        );
    }
    Ok(())
}

/// What importing the entries of a snapshot in a mode counts and writes.
pub open spec fn is_migration(m: Migration, es: Seq<ScanEntry>, mode: MigrationMode) -> bool {
    &&& m.scanned == es.len()
    &&& m.tombstones == tombs(es)
    &&& match mode {
        MigrationMode::LatestOnly => m.plan matches ImportPlan::Apply(ms) && m.imported == ms@.len()
            && is_latest_import(ms@, latest_of(es)),
        MigrationMode::PreserveRevisions => m.plan matches ImportPlan::Bulk { keys, max_rev }
            && max_rev == top_revision(es) && m.imported == live_count(keys@) && is_bulk_import(
            keys@,
            es,
        ),
    }
}

/// Import the entries of a snapshot, in their order, in the given mode.
pub fn migrate_snapshot_with_mode(entries: &Vec<ScanEntry>, mode: MigrationMode) -> (m: Migration)
    ensures
        is_migration(m, entries@, mode),
{
    let ghost es = entries@;
    let mut latest: KeyMap<Latest> = KeyMap::new();
    let mut history: KeyMap<Vec<KvRecord>> = KeyMap::new();
    let mut tombstones: u64 = 0;
    let mut max_rev: i64 = 0;
    let mut i: usize = 0;
    assert(es.take(0) =~= seq![]);
    while i < entries.len()
        invariant
            i <= entries@.len(),
            es == entries@,
            latest.wf(),
            history.wf(),
            tombstones == tombs(es.take(i as int)),
            tombstones <= i,
            max_rev == top_revision(es.take(i as int)),
            mode == MigrationMode::LatestOnly ==> holds_latest(
                latest@,
                latest_of(es.take(i as int)),
            ),
            mode == MigrationMode::PreserveRevisions ==> holds_history(
                history@,
                es.take(i as int),
            ),
        decreases entries@.len() - i,
    {
        let e = &entries[i];
        let ghost seen = es.take(i as int);
        assert(es.take(i + 1) =~= seen.push(*e));
        assert(seen.push(*e).drop_last() =~= seen);
        if let Some(kv) = &e.kv {
            if entry_is_tomb(e) {
                tombstones += 1;
            }
            if kv.mod_revision > max_rev {
                max_rev = kv.mod_revision;
            }
        }
        match mode {
            MigrationMode::LatestOnly => {
                take_latest(&mut latest, e, Ghost(seen));
            },
            MigrationMode::PreserveRevisions => {
                take_history(&mut history, e, Ghost(seen));
            },
        }
        i += 1;
    }
    assert(es.take(i as int) =~= es);
    let scanned: u64 = entries.len() as u64;
    match mode {
        MigrationMode::LatestOnly => {
            let ms = latest_mutations(latest.into_entries(), Ghost(latest_of(es)));
            Migration { scanned, tombstones, imported: ms.len(), plan: ImportPlan::Apply(ms) }
        },
        MigrationMode::PreserveRevisions => {
            let keys = bulk_keys(history.into_entries(), Ghost(es));
            Migration {
                scanned,
                tombstones,
                imported: count_live(&keys),
                plan: ImportPlan::Bulk { keys, max_rev },
            }
        },
    }
}

/// Import the latest live values of a snapshot.
pub fn migrate_snapshot(entries: &Vec<ScanEntry>) -> (m: Migration)
    ensures
        is_migration(m, entries@, MigrationMode::LatestOnly),
{
    migrate_snapshot_with_mode(entries, MigrationMode::default())
}

impl Migration {
    /// What the import did, once it is written: `applied` is the revision
    /// that writing puts gave, or the current one where there were none.
    pub fn summary(&self, applied: i64) -> (r: MigrationSummary)
        ensures
            r.scanned == self.scanned,
            r.tombstones == self.tombstones,
            r.imported == self.imported,
            r.revision_after == (match self.plan {
                ImportPlan::Apply(_) => applied,
                ImportPlan::Bulk { max_rev, .. } => max_rev,
            }),
    {
        MigrationSummary {
            scanned: self.scanned,
            tombstones: self.tombstones,
            imported: self.imported,
            revision_after: match &self.plan {
                ImportPlan::Apply(_) => applied,
                ImportPlan::Bulk { max_rev, .. } => *max_rev,
            },
        }
    }
}

/// A key whose last record removes it is not imported as live.
pub proof fn law_removed_key_is_not_live(es: Seq<ScanEntry>, e: ScanEntry)
    requires
        counts(e),
        is_tomb(e),
    ensures
        !latest_of(es.push(e)).contains_key(e.kv->0.key@),
{
    assert(es.push(e).drop_last() =~= es);
}

/// What is imported for a live key is of the highest revision among its
/// records since it was last removed; a lower one does not displace it.
pub proof fn law_latest_revision_wins(es: Seq<ScanEntry>, e: ScanEntry)
    requires
        counts(e),
        !is_tomb(e),
    ensures
        ({
            let k = e.kv->0.key@;
            let after = latest_of(es.push(e));
            &&& after.contains_key(k)
            &&& after[k].mod_revision >= e.kv->0.mod_revision
            &&& latest_of(es).contains_key(k) ==> after[k].mod_revision >= latest_of(
                es,
            )[k].mod_revision
        }),
{
    assert(es.push(e).drop_last() =~= es);
}

/// Every record of a key is kept, at its own revisions and in their
/// order; of a removal all but a value.
pub proof fn law_every_record_is_kept(bs: Seq<BulkKey>, es: Seq<ScanEntry>, k: Seq<u8>)
    requires
        is_bulk_import(bs, es),
    ensures
        laid_out(gen_views(of_key(bs, k))) == by_revision(history_of(es, k)).map_values(
            |h: HistoryView| kept(h),
        ),
{
    assert(gen_views(of_key(bs, k)) == generations(by_revision(history_of(es, k))));
    lemma_laid_out(by_revision(history_of(es, k)));
}

proof fn lemma_laid_out(s: Seq<HistoryView>)
    ensures
        laid_out(generations(s)) == s.map_values(|h: HistoryView| kept(h)),
    decreases s.len(),
{
    if s.len() == 0 {
        assert(laid_out(generations(s)) =~= s.map_values(|h: HistoryView| kept(h)));
    } else {
        let f = |h: HistoryView| kept(h);
        lemma_laid_out(s.drop_last());
        let gs = generations(s.drop_last());
        let g = generations(s);
        assert(s.map_values(f) =~= s.drop_last().map_values(f).push(kept(s.last())));
        if gs.len() > 0 && gs.last().tomb is None {
            assert(g.drop_last() =~= gs.drop_last());
            if !s.last().deleted {
                assert(laid_out(gs.drop_last()) + gs.last().puts.push(s.last()) =~= (laid_out(
                    gs.drop_last(),
                ) + gs.last().puts).push(s.last()));
            }
        } else {
            assert(g.drop_last() =~= gs);
            assert(laid_out(gs) + seq![] =~= laid_out(gs));
            assert(laid_out(gs) + seq![].push(s.last()) =~= laid_out(gs).push(s.last()));
        }
    }
}

/// Only a key's last generation can be live, and it is exactly where the
/// key's last record is a put: what was put again after a removal is live.
pub proof fn law_key_put_last_is_live(s: Seq<HistoryView>)
    requires
        s.len() > 0,
    ensures
        generations(s).len() > 0,
        generations(s).last().tomb is None <==> !s.last().deleted,
        forall|i: int|
            0 <= i < generations(s).len() - 1 ==> (#[trigger] generations(s)[i]).tomb is Some,
    decreases s.len(),
{
    if s.len() > 1 {
        law_key_put_last_is_live(s.drop_last());
    }
    let gs = generations(s.drop_last());
    assert forall|i: int| 0 <= i < generations(s).len() - 1 implies (
    #[trigger] generations(s)[i]).tomb is Some by {
        assert(generations(s)[i] == gs[i]);
        assert(gs[i] == gs.last() || i < gs.len() - 1);
    }
}

/// An entry touches the key of its own record and no other: what is live
/// under any other key stays live, with the same revision, value and
/// lease, whether the entry puts or removes; and an entry without a record
/// touches nothing.
pub proof fn law_entry_touches_its_own_key_alone(es: Seq<ScanEntry>, e: ScanEntry, k: Seq<u8>)
    requires
        e.kv is Some ==> e.kv->0.key@ != k,
    ensures
        latest_of(es.push(e)).contains_key(k) <==> latest_of(es).contains_key(k),
        latest_of(es).contains_key(k) ==> {
            &&& latest_of(es.push(e))[k].mod_revision == latest_of(es)[k].mod_revision
            &&& latest_of(es.push(e))[k].value == latest_of(es)[k].value
            &&& latest_of(es.push(e))[k].lease == latest_of(es)[k].lease
        },
{
    assert(es.push(e).drop_last() =~= es);
}

/// A key is live exactly when its own last record is a put: one whose
/// entry's key does not end in `t`.
pub proof fn law_key_is_live_iff_put_last(es: Seq<ScanEntry>, k: Seq<u8>, i: int)
    requires
        0 <= i < es.len(),
        es[i].kv is Some,
        es[i].kv->0.key@ == k,
        forall|j: int| i < j < es.len() && (#[trigger] es[j]).kv is Some ==> es[j].kv->0.key@ != k,
    ensures
        latest_of(es).contains_key(k) <==> !(es[i].key@.len() > 0 && es[i].key@.last() == 0x74),
    decreases es.len(),
{
    let rest = es.drop_last();
    assert(es =~= rest.push(es.last()));
    if i < es.len() - 1 {
        assert(es[es.len() - 1] == es.last());
        assert forall|j: int| i < j < rest.len() && (#[trigger] rest[j]).kv is Some implies rest[j].kv->0.key@
            != k by {
            assert(rest[j] == es[j]);
        }
        law_entry_touches_its_own_key_alone(rest, es.last(), k);
        law_key_is_live_iff_put_last(rest, k, i);
    }
}

/// A key without a record is not live.
pub proof fn law_key_without_record_is_not_live(es: Seq<ScanEntry>, k: Seq<u8>)
    requires
        forall|j: int|
            0 <= j < es.len() && (#[trigger] es[j]).kv is Some ==> es[j].kv->0.key@ != k,
    ensures
        !latest_of(es).contains_key(k),
    decreases es.len(),
{
    if es.len() > 0 {
        let rest = es.drop_last();
        assert(es =~= rest.push(es.last()));
        assert(es[es.len() - 1] == es.last());
        assert forall|j: int| 0 <= j < rest.len() && (#[trigger] rest[j]).kv is Some implies rest[j].kv->0.key@
            != k by {
            assert(rest[j] == es[j]);
        }
        law_entry_touches_its_own_key_alone(rest, es.last(), k);
        law_key_without_record_is_not_live(rest, k);
    }
}

/// A put of a key that is not live, or is live at a lower revision, is
/// what the key then holds: its revision, value and lease. One that is not
/// newer changes nothing.
pub proof fn law_newer_put_takes_over(es: Seq<ScanEntry>, e: ScanEntry)
    requires
        e.kv is Some,
        e.key@.len() == 0 || e.key@.last() != 0x74,
    ensures
        ({
            let k = e.kv->0.key@;
            let before = latest_of(es);
            let after = latest_of(es.push(e));
            &&& after.contains_key(k)
            &&& !before.contains_key(k) || before[k].mod_revision < e.kv->0.mod_revision ==> {
                &&& after[k].mod_revision == e.kv->0.mod_revision
                &&& after[k].value == e.kv->0.value@
                &&& after[k].lease == e.kv->0.lease
            }
            &&& before.contains_key(k) && before[k].mod_revision >= e.kv->0.mod_revision
                ==> after[k] == before[k]
        }),
{
    assert(es.push(e).drop_last() =~= es);
}

/// What is live under a key is one of that key's own puts, whole.
pub proof fn law_live_value_was_put(es: Seq<ScanEntry>, k: Seq<u8>)
    requires
        latest_of(es).contains_key(k),
    ensures
        exists|i: int|
            0 <= i < es.len() && (#[trigger] es[i]).kv is Some && es[i].kv->0.key@ == k && !(
            es[i].key@.len() > 0 && es[i].key@.last() == 0x74) && es[i].kv->0.mod_revision
                == latest_of(es)[k].mod_revision && es[i].kv->0.value@ == latest_of(es)[k].value
                && es[i].kv->0.lease == latest_of(es)[k].lease,
    decreases es.len(),
{
    let rest = es.drop_last();
    let e = es.last();
    assert(es[es.len() - 1] == e);
    if latest_of(rest).contains_key(k) && latest_of(es)[k] == latest_of(rest)[k] {
        law_live_value_was_put(rest, k);
        let i = choose|i: int|
            0 <= i < rest.len() && (#[trigger] rest[i]).kv is Some && rest[i].kv->0.key@ == k && !(
            rest[i].key@.len() > 0 && rest[i].key@.last() == 0x74) && rest[i].kv->0.mod_revision
                == latest_of(rest)[k].mod_revision && rest[i].kv->0.value@ == latest_of(rest)[k].value
                && rest[i].kv->0.lease == latest_of(rest)[k].lease;
        assert(es[i] == rest[i]);
    }
}

/// Removals are counted one by one: an entry counts where it has a record
/// and its key ends in `t`.
pub proof fn law_removals_are_counted(es: Seq<ScanEntry>, e: ScanEntry)
    ensures
        tombs(seq![]) == 0,
        tombs(es.push(e)) == tombs(es) + (if e.kv is Some && e.key@.len() > 0 && e.key@.last()
            == 0x74 {
            1nat
        } else {
            0nat
        }),
{
    assert(es.push(e).drop_last() =~= es);
}

/// The revision an import reaches is that of one of its records and no
/// lower than any of them; it is zero where none is above that.
pub proof fn law_import_reaches_its_newest_record(es: Seq<ScanEntry>)
    ensures
        top_revision(es) >= 0,
        forall|i: int|
            0 <= i < es.len() && (#[trigger] es[i]).kv is Some ==> es[i].kv->0.mod_revision
                <= top_revision(es),
        top_revision(es) > 0 ==> exists|i: int|
            0 <= i < es.len() && (#[trigger] es[i]).kv is Some && es[i].kv->0.mod_revision
                == top_revision(es),
    decreases es.len(),
{
    if es.len() > 0 {
        let rest = es.drop_last();
        law_import_reaches_its_newest_record(rest);
        assert(es[es.len() - 1] == es.last());
        assert forall|i: int| 0 <= i < es.len() && (#[trigger] es[i]).kv is Some implies es[i].kv->0.mod_revision
            <= top_revision(es) by {
            if i < rest.len() {
                assert(rest[i] == es[i]);
            }
        }
        if top_revision(es) > 0 && top_revision(es) == top_revision(rest) {
            let i = choose|i: int|
                0 <= i < rest.len() && (#[trigger] rest[i]).kv is Some
                    && rest[i].kv->0.mod_revision == top_revision(rest);
            assert(es[i] == rest[i]);
        }
    }
}

/// The history of a key gains each record of that key, with each of its
/// attributes, as a removal where the entry's key ends in `t`; the records
/// of other keys, and entries without one, do not touch it.
pub proof fn law_history_gains_each_record(es: Seq<ScanEntry>, e: ScanEntry, k: Seq<u8>)
    ensures
        history_of(seq![], k).len() == 0,
        e.kv is None || e.kv->0.key@ != k ==> history_of(es.push(e), k) == history_of(es, k),
        e.kv is Some && e.kv->0.key@ == k ==> {
            let after = history_of(es.push(e), k);
            let kv = e.kv->0;
            &&& after.len() == history_of(es, k).len() + 1
            &&& after.drop_last() == history_of(es, k)
            &&& after.last().kv.key == kv.key@
            &&& after.last().kv.value == kv.value@
            &&& after.last().kv.create_revision == kv.create_revision
            &&& after.last().kv.mod_revision == kv.mod_revision
            &&& after.last().kv.version == kv.version
            &&& after.last().kv.lease == kv.lease
            &&& after.last().deleted <==> e.key@.len() > 0 && e.key@.last() == 0x74
        },
{
    assert(es.push(e).drop_last() =~= es);
    if e.kv is Some && e.kv->0.key@ == k {
        assert(history_of(es.push(e), k).drop_last() =~= history_of(es, k));
    }
}

/// Ordering by revision is stable: a record that came later goes after
/// those of its own revision, and before those above it.
pub proof fn law_later_record_goes_after_its_equals(s: Seq<HistoryView>, x: HistoryView)
    ensures
        ({
            let t = by_revision(s);
            let p = place(t, x.kv.mod_revision);
            &&& 0 <= p <= t.len()
            &&& by_revision(s.push(x)) == t.insert(p, x)
            &&& forall|i: int| 0 <= i < p ==> (#[trigger] t[i]).kv.mod_revision
                <= x.kv.mod_revision
            &&& forall|i: int| p <= i < t.len() ==> (#[trigger] t[i]).kv.mod_revision
                > x.kv.mod_revision
        }),
{
    assert(s.push(x).drop_last() =~= s);
    law_by_revision_orders(s);
    lemma_place(by_revision(s), x.kv.mod_revision);
}

/// A record is kept as it is, but for the value of a removal, which has
/// none.
pub proof fn law_kept_record_loses_at_most_a_removals_value(h: HistoryView)
    ensures
        !h.deleted ==> kept(h) == h,
        kept(h).deleted == h.deleted,
        kept(h).kv.key == h.kv.key,
        kept(h).kv.create_revision == h.kv.create_revision,
        kept(h).kv.mod_revision == h.kv.mod_revision,
        kept(h).kv.version == h.kv.version,
        kept(h).kv.lease == h.kv.lease,
        h.deleted ==> kept(h).kv.value.len() == 0,
{
}

/// A generation is made of puts, and is ended by a removal or by nothing.
pub proof fn law_generations_are_puts_and_a_removal(s: Seq<HistoryView>, i: int, j: int)
    requires
        0 <= i < generations(s).len(),
    ensures
        0 <= j < generations(s)[i].puts.len() ==> !generations(s)[i].puts[j].deleted,
        generations(s)[i].tomb is Some ==> generations(s)[i].tomb->0.deleted,
    decreases s.len(),
{
    if s.len() > 0 {
        let gs = generations(s.drop_last());
        if i < gs.len() {
            law_generations_are_puts_and_a_removal(s.drop_last(), i, j);
        }
        if gs.len() > 0 && 0 <= j < gs.last().puts.len() {
            law_generations_are_puts_and_a_removal(s.drop_last(), gs.len() - 1, j);
        }
    }
}

/// One more record: a put goes on with the generation that is open, or
/// begins one; a removal ends the open one, or stands alone; generations
/// that have ended stay.
pub proof fn law_record_joins_the_open_generation(s: Seq<HistoryView>, x: HistoryView)
    ensures
        generations(seq![]).len() == 0,
        ({
            let gs = generations(s);
            let open = gs.len() > 0 && gs.last().tomb is None;
            let after = generations(s.push(x));
            &&& open ==> after.len() == gs.len() && after.drop_last() == gs.drop_last()
            &&& !open ==> after.len() == gs.len() + 1 && after.drop_last() == gs
            &&& !x.deleted ==> after.last().tomb is None
            &&& !x.deleted && open ==> after.last().puts == gs.last().puts.push(x)
            &&& !x.deleted && !open ==> after.last().puts == seq![x]
            &&& x.deleted ==> after.last().tomb == Some(kept(x))
            &&& x.deleted && open ==> after.last().puts == gs.last().puts
            &&& x.deleted && !open ==> after.last().puts.len() == 0
        }),
{
    let gs = generations(s);
    let after = generations(s.push(x));
    assert(s.push(x).drop_last() =~= s);
    if gs.len() > 0 && gs.last().tomb is None {
        assert(after.drop_last() =~= gs.drop_last());
    } else {
        assert(after.drop_last() =~= gs);
        assert(Seq::<HistoryView>::empty().push(x) =~= seq![x]);
    }
}

/// The records of generations stand one generation after another, the
/// removal that ended one after its puts.
pub proof fn law_generations_are_laid_out_in_order(gs: Seq<GenView>, g: GenView)
    ensures
        laid_out(seq![]).len() == 0,
        g.tomb is None ==> laid_out(gs.push(g)) == laid_out(gs) + g.puts,
        g.tomb matches Some(t) ==> laid_out(gs.push(g)) == (laid_out(gs) + g.puts).push(t),
{
    assert(gs.push(g).drop_last() =~= gs);
}

/// A generation that is loaded holds the records it is made of, each with
/// its attributes and whether it is a removal.
pub proof fn law_loaded_generation_holds_its_records(bs: Seq<BulkKey>, i: int, j: int)
    requires
        0 <= i < bs.len(),
    ensures
        gen_views(bs).len() == bs.len(),
        gen_views(bs)[i].puts.len() == bs[i].puts@.len(),
        0 <= j < bs[i].puts@.len() ==> {
            let h = gen_views(bs)[i].puts[j];
            let r = bs[i].puts@[j];
            &&& h.deleted == r.deleted
            &&& h.kv.key == r.key@
            &&& h.kv.value == r.value@
            &&& h.kv.create_revision == r.create_revision
            &&& h.kv.mod_revision == r.mod_revision
            &&& h.kv.version == r.version
            &&& h.kv.lease == r.lease
        },
        gen_views(bs)[i].tomb is Some <==> bs[i].tombstone is Some,
        bs[i].tombstone matches Some(r) ==> {
            let h = gen_views(bs)[i].tomb->0;
            &&& h.deleted == r.deleted
            &&& h.kv.key == r.key@
            &&& h.kv.value == r.value@
            &&& h.kv.create_revision == r.create_revision
            &&& h.kv.mod_revision == r.mod_revision
            &&& h.kv.version == r.version
            &&& h.kv.lease == r.lease
        },
{
}

/// What is loaded for a key is what is loaded under it, in order; a
/// generation without a removal at its end is counted as live.
pub proof fn law_loaded_generations_are_counted_by_key(
    bs: Seq<BulkKey>,
    b: BulkKey,
    k: Seq<u8>,
)
    ensures
        of_key(seq![], k).len() == 0,
        b.key@ == k ==> of_key(bs.push(b), k) == of_key(bs, k).push(b),
        b.key@ != k ==> of_key(bs.push(b), k) == of_key(bs, k),
        live_count(seq![]) == 0,
        b.tombstone is None ==> live_count(bs.push(b)) == live_count(bs) + 1,
        b.tombstone is Some ==> live_count(bs.push(b)) == live_count(bs),
{
    assert(bs.push(b).drop_last() =~= bs);
}

/// An import of the latest values puts each live key once, and no other:
/// its value and lease as they are, with nothing kept or handed back.
pub proof fn law_live_keys_are_put_once(
    ms: Seq<Mutation>,
    latest: Map<Seq<u8>, LatestView>,
    i: int,
    j: int,
)
    requires
        is_latest_import(ms, latest),
        0 <= i < ms.len(),
        0 <= j < ms.len(),
    ensures
        ms[i] is Put,
        latest.contains_key(ms[i]->Put_key@),
        ms[i]->Put_value@ == latest[ms[i]->Put_key@].value,
        ms[i]->Put_lease == latest[ms[i]->Put_key@].lease,
        !ms[i]->Put_prev_kv,
        !ms[i]->Put_ignore_value,
        !ms[i]->Put_ignore_lease,
        ms[i]->Put_key@ == ms[j]->Put_key@ ==> i == j,
        forall|k: Seq<u8>| #[trigger]
            latest.contains_key(k) ==> exists|m: int|
                0 <= m < ms.len() && (#[trigger] ms[m])->Put_key@ == k,
{
    assert(puts_latest(ms[i], latest));
    if i != j && ms[i]->Put_key@ == ms[j]->Put_key@ {
        if i < j {
            assert(ms[i]->Put_key@ != ms[j]->Put_key@);
        } else {
            assert(ms[j]->Put_key@ != ms[i]->Put_key@);
        }
    }
}

/// An import counts every entry it was given, with or without a record,
/// and every removal. In the one mode it puts the live keys, and counts
/// them; in the other it loads generations, counts those that are live,
/// and reaches the newest revision.
pub proof fn law_import_counts_what_it_saw(
    m: Migration,
    es: Seq<ScanEntry>,
    mode: MigrationMode,
)
    requires
        is_migration(m, es, mode),
    ensures
        m.scanned == es.len(),
        m.tombstones == tombs(es),
        m.plan is Apply <==> mode is LatestOnly,
        m.plan is Bulk <==> mode is PreserveRevisions,
        m.plan matches ImportPlan::Apply(ms) ==> m.imported == ms@.len() && is_latest_import(
            ms@,
            latest_of(es),
        ),
        m.plan matches ImportPlan::Bulk { keys, max_rev } ==> {
            &&& max_rev == top_revision(es)
            &&& m.imported == live_count(keys@)
            &&& forall|k: Seq<u8>| #[trigger]
                gen_views(of_key(keys@, k)) == generations(by_revision(history_of(es, k)))
        },
{
}

} // verus!
