//! The directory of retained snapshots: file names, roll-off, and what is
//! reclaimed when it is opened.
//!
//! The directory is known by the list of its file names. Each operation
//! answers with what to do to it, in order.

use vstd::prelude::*;
use crate::membership::SnapshotMeta;
use crate::names::{self, has_name, remove_name};
use crate::parse;
use crate::stored;
use crate::text;

verus! {

/// Snapshots retained by default.
pub const DEFAULT_RETAIN: usize = 1;

/// One thing to do to the directory. Removing a name that is not there
/// does nothing.
#[derive(Debug)]
pub enum DirAction {
    Remove(String),
    Rename { from: String, to: String },
}

/// One thing to do to the directory, as a value.
#[verifier::ext_equal]
pub enum Step {
    Remove(Seq<char>),
    Rename { from: Seq<char>, to: Seq<char> },
}

impl View for DirAction {
    type V = Step;

    open spec fn view(&self) -> Step {
        match *self {
            DirAction::Remove(name) => Step::Remove(name@),
            DirAction::Rename { from, to } => Step::Rename { from: from@, to: to@ },
        }
    }
}

/// The steps of a list of actions.
pub open spec fn steps(s: Seq<DirAction>) -> Seq<Step> {
    s.map_values(|a: DirAction| a@)
}

/// The names after one step.
pub open spec fn after_step(d: Seq<Seq<char>>, a: Step) -> Seq<Seq<char>> {
    match a {
        Step::Remove(name) => names::without(d, name),
        Step::Rename { from, to } => if d.contains(from) {
            names::without(names::without(d, from), to).push(to)
        } else {
            d
        },
    }
}

/// The names after steps in turn.
pub open spec fn after(d: Seq<Seq<char>>, steps: Seq<Step>) -> Seq<Seq<char>>
    decreases steps.len(),
{
    if steps.len() == 0 {
        d
    } else {
        after_step(after(d, steps.drop_last()), steps.last())
    }
}

/// The name of the body of the snapshot that covers an index: twenty
/// digits.
pub open spec fn snap_name_of(index: u64) -> Seq<char> {
    text::dec_fixed(index as nat, 20) + ".snap"@
}

/// The name of the metadata of the snapshot that covers an index.
pub open spec fn meta_name_of(index: u64) -> Seq<char> {
    text::dec_fixed(index as nat, 20) + ".meta"@
}

/// The index that the name of a body gives.
pub open spec fn body_index(name: Seq<char>) -> Option<u64> {
    if parse::has_suffix(name, ".snap"@) {
        parse::number(parse::cut_end(name, 5))
    } else {
        None
    }
}

/// The index that the name of metadata gives.
pub open spec fn meta_index(name: Seq<char>) -> Option<u64> {
    if parse::has_suffix(name, ".meta"@) {
        parse::number(parse::cut_end(name, 5))
    } else {
        None
    }
}

/// A name is that of an unfinished write.
pub open spec fn is_temp(name: Seq<char>) -> bool {
    parse::has_suffix(name, ".tmp"@)
}

/// The name of the body of the snapshot that covers an index.
pub fn snap_name(index: u64) -> (r: String)
    ensures
        r@ == snap_name_of(index),
{
    let mut s = text::dec_fixed_u64(index, 20);
    s.append(".snap");
    s
}

/// The name of the metadata of the snapshot that covers an index.
pub fn meta_name(index: u64) -> (r: String)
    ensures
        r@ == meta_name_of(index),
{
    let mut s = text::dec_fixed_u64(index, 20);
    s.append(".meta");
    s
}

/// The name that a file is written under before it is renamed into place.
pub fn tmp_name(name: &str) -> (r: String)
    ensures
        r@ == name@ + ".tmp"@,
{
    let mut s = String::from_str(name);
    s.append(".tmp");
    s
}

/// The name of the file that a transfer is received into.
pub fn incoming_name(transfer: u64) -> (r: String)
    ensures
        r@ == "incoming-"@ + text::dec(transfer as nat) + ".snap.tmp"@,
        is_temp(r@),
{
    let r = text::join3("incoming-", text::dec_u64(transfer).as_str(), ".snap.tmp");
    proof {
        reveal_strlit(".snap.tmp");
        reveal_strlit(".tmp");
        assert(r@.skip(r@.len() - 4) =~= ".tmp"@);
    }
    r
}

/// The index that the name of a body gives.
fn index_of_body(name: &str) -> (r: Option<u64>)
    ensures
        r == body_index(name@),
{
    proof {
        reveal_strlit(".snap");
    }
    if parse::ends_with(name, ".snap") {
        parse::parse_u64(parse::without_end(name, 5))
    } else {
        None
    }
}

/// The index that the name of metadata gives.
fn index_of_meta(name: &str) -> (r: Option<u64>)
    ensures
        r == meta_index(name@),
{
    proof {
        reveal_strlit(".meta");
    }
    if parse::ends_with(name, ".meta") {
        parse::parse_u64(parse::without_end(name, 5))
    } else {
        None
    }
}

/// An index put into an ascending list behind those that do not exceed it.
pub open spec fn put_in_order(s: Seq<u64>, x: u64) -> Seq<u64>
    decreases s.len(),
{
    if s.len() == 0 {
        seq![x]
    } else if s.last() <= x {
        s.push(x)
    } else {
        put_in_order(s.drop_last(), x).push(s.last())
    }
}

/// The indices of the bodies among names, oldest first.
pub open spec fn sorted_indices(d: Seq<Seq<char>>) -> Seq<u64>
    decreases d.len(),
{
    if d.len() == 0 {
        seq![]
    } else {
        let rest = sorted_indices(d.drop_last());
        match body_index(d.last()) {
            Some(i) => put_in_order(rest, i),
            None => rest,
        }
    }
}

/// A list ascends.
pub open spec fn ascends(s: Seq<u64>) -> bool {
    forall|i: int, j: int| 0 <= i < j < s.len() ==> #[trigger] s[i] <= #[trigger] s[j]
}

/// Nothing in a list exceeds a number.
spec fn bounded(s: Seq<u64>, m: u64) -> bool {
    forall|i: int| 0 <= i < s.len() ==> #[trigger] s[i] <= m
}

/// Putting an index into an ascending list leaves it ascending, with that
/// index more.
proof fn lemma_put_in_order(s: Seq<u64>, x: u64)
    requires
        ascends(s),
    ensures
        ascends(put_in_order(s, x)),
        put_in_order(s, x).len() == s.len() + 1,
        forall|y: u64| #[trigger]
            put_in_order(s, x).contains(y) <==> s.contains(y) || y == x,
        forall|m: u64| #[trigger] bounded(s, m) && x <= m ==> bounded(put_in_order(s, x), m),
    decreases s.len(),
{
    let r = put_in_order(s, x);
    if s.len() == 0 {
        assert(r[0] == x);
    } else if s.last() <= x {
        assert forall|y: u64| #[trigger] r.contains(y) <==> s.contains(y) || y == x by {
            vstd::seq_lib::lemma_seq_contains_after_push(s, x, y);
        }
        assert forall|i: int, j: int| 0 <= i < j < r.len() implies #[trigger] r[i]
            <= #[trigger] r[j] by {
            if j == s.len() && i < s.len() - 1 {
                assert(s[i] <= s[s.len() - 1]);
            }
        }
    } else {
        let t = s.drop_last();
        lemma_put_in_order(t, x);
        let q = put_in_order(t, x);
        assert(bounded(t, s.last()));
        assert(s =~= t.push(s.last()));
        assert forall|y: u64| #[trigger] r.contains(y) <==> s.contains(y) || y == x by {
            vstd::seq_lib::lemma_seq_contains_after_push(q, s.last(), y);
            vstd::seq_lib::lemma_seq_contains_after_push(t, s.last(), y);
        }
        assert forall|m: u64| #[trigger] bounded(s, m) && x <= m implies bounded(r, m) by {
            assert(s[s.len() - 1] <= m);
            assert(bounded(t, m));
        }
    }
}

/// Putting an index into a list places it where nothing before it exceeds
/// it and everything after it does.
proof fn lemma_put_at(s: Seq<u64>, x: u64, p: int)
    requires
        0 <= p <= s.len(),
        p > 0 ==> s[p - 1] <= x,
        forall|i: int| p <= i < s.len() ==> #[trigger] s[i] > x,
    ensures
        put_in_order(s, x) == s.insert(p, x),
    decreases s.len(),
{
    if s.len() == 0 {
        assert(s.insert(p, x) =~= seq![x]);
    } else if p == s.len() {
        assert(s.insert(p, x) =~= s.push(x));
    } else {
        let t = s.drop_last();
        assert(s[s.len() - 1] > x);
        lemma_put_at(t, x, p);
        assert(s.insert(p, x) =~= t.insert(p, x).push(s.last()));
    }
}

/// The indices of the bodies ascend, and are those that the names give.
pub proof fn lemma_sorted_indices(d: Seq<Seq<char>>)
    ensures
        ascends(sorted_indices(d)),
        forall|y: u64| #[trigger]
            sorted_indices(d).contains(y) <==> exists|k: int|
                0 <= k < d.len() && #[trigger] body_index(d[k]) == Some(y),
    decreases d.len(),
{
    if d.len() > 0 {
        let t = d.drop_last();
        lemma_sorted_indices(t);
        let rest = sorted_indices(t);
        if let Some(i) = body_index(d.last()) {
            lemma_put_in_order(rest, i);
        }
        assert forall|y: u64| #[trigger] sorted_indices(d).contains(y) <==> exists|k: int|
            0 <= k < d.len() && #[trigger] body_index(d[k]) == Some(y) by {
            if rest.contains(y) {
                let k = choose|k: int| 0 <= k < t.len() && #[trigger] body_index(t[k]) == Some(y);
                assert(body_index(d[k]) == Some(y));
            }
            if exists|k: int| 0 <= k < d.len() && #[trigger] body_index(d[k]) == Some(y) {
                let k = choose|k: int| 0 <= k < d.len() && #[trigger] body_index(d[k]) == Some(y);
                if k < t.len() {
                    assert(body_index(t[k]) == Some(y));
                }
            }
            if body_index(d.last()) == Some(y) {
                assert(body_index(d[d.len() - 1]) == Some(y));
            }
        }
    }
}

/// The name of a body gives its index, and no other kind of name is one.
pub proof fn law_names_read_back(i: u64)
    ensures
        body_index(snap_name_of(i)) == Some(i),
        meta_index(meta_name_of(i)) == Some(i),
        body_index(meta_name_of(i)) is None,
        meta_index(snap_name_of(i)) is None,
        !is_temp(snap_name_of(i)),
        !is_temp(meta_name_of(i)),
{
    reveal_strlit(".snap");
    reveal_strlit(".meta");
    reveal_strlit(".tmp");
    parse::lemma_twenty_digits_read_back(i);
    let n = text::dec_fixed(i as nat, 20);
    let s = snap_name_of(i);
    let m = meta_name_of(i);
    assert(s.skip(s.len() - 5) =~= ".snap"@);
    assert(m.skip(m.len() - 5) =~= ".meta"@);
    assert(parse::cut_end(s, 5) =~= n);
    assert(parse::cut_end(m, 5) =~= n);
    assert(s.skip(s.len() - 5)[1] == 's');
    assert(m.skip(m.len() - 5)[1] == 'm');
    assert(".snap"@[1] == 's');
    assert(".meta"@[1] == 'm');
    assert(s.skip(s.len() - 4)[0] == 's');
    assert(m.skip(m.len() - 4)[0] == 'm');
    assert(".tmp"@[0] == '.');
}

/// What is written under a temporary name is no snapshot, and is reclaimed
/// when the directory is opened.
pub proof fn law_unfinished_writes_are_temp(name: Seq<char>)
    ensures
        is_temp(name + ".tmp"@),
        body_index(name + ".tmp"@) is None,
        meta_index(name + ".tmp"@) is None,
{
    reveal_strlit(".snap");
    reveal_strlit(".meta");
    reveal_strlit(".tmp");
    let t = name + ".tmp"@;
    assert(t.skip(t.len() - 4) =~= ".tmp"@);
    if t.len() >= 5 {
        let e = t.skip(t.len() - 5);
        assert(e[4] == 'p');
        assert(e[1] == '.');
        assert(".snap"@[1] == 'n' || ".snap"@[1] == 's');
        assert(".meta"@[4] == 'a');
    }
}

/// The steps that remove unfinished writes.
pub open spec fn temp_steps(d: Seq<Seq<char>>) -> Seq<Step>
    decreases d.len(),
{
    if d.len() == 0 {
        seq![]
    } else if is_temp(d.last()) {
        temp_steps(d.drop_last()).push(Step::Remove(d.last()))
    } else {
        temp_steps(d.drop_last())
    }
}

/// The steps that move a snapshot of the older, single-snapshot layout to
/// its indexed names, or drop it where it cannot be used.
pub open spec fn legacy_steps(d: Seq<Seq<char>>, index: Option<u64>) -> Seq<Step> {
    if d.contains("current.snap"@) && d.contains("current.meta"@) && index is Some {
        seq![
            Step::Rename { from: "current.snap"@, to: snap_name_of(index->0) },
            Step::Rename { from: "current.meta"@, to: meta_name_of(index->0) },
        ]
    } else {
        seq![Step::Remove("current.snap"@), Step::Remove("current.meta"@)]
    }
}

/// The steps that remove bodies without metadata.
pub open spec fn body_orphan_steps(d: Seq<Seq<char>>, idx: Seq<u64>) -> Seq<Step>
    decreases idx.len(),
{
    if idx.len() == 0 {
        seq![]
    } else if d.contains(meta_name_of(idx.last())) {
        body_orphan_steps(d, idx.drop_last())
    } else {
        body_orphan_steps(d, idx.drop_last()).push(Step::Remove(snap_name_of(idx.last())))
    }
}

/// Metadata without a body stands under a name.
pub open spec fn is_meta_orphan(d: Seq<Seq<char>>, name: Seq<char>) -> bool {
    meta_index(name) is Some && !d.contains(snap_name_of(meta_index(name)->0))
}

/// The steps that remove metadata without a body, for names of `part`.
pub open spec fn meta_orphan_steps(d: Seq<Seq<char>>, part: Seq<Seq<char>>) -> Seq<Step>
    decreases part.len(),
{
    if part.len() == 0 {
        seq![]
    } else if is_meta_orphan(d, part.last()) {
        meta_orphan_steps(d, part.drop_last()).push(Step::Remove(part.last()))
    } else {
        meta_orphan_steps(d, part.drop_last())
    }
}

/// The steps that remove the snapshots of given indices.
pub open spec fn drop_steps(idx: Seq<u64>) -> Seq<Step>
    decreases idx.len(),
{
    if idx.len() == 0 {
        seq![]
    } else {
        drop_steps(idx.drop_last()).push(Step::Remove(snap_name_of(idx.last()))).push(
            Step::Remove(meta_name_of(idx.last())),
        )
    }
}

/// The indices that roll off when `keep` snapshots stay: the oldest.
pub open spec fn rolled_off(idx: Seq<u64>, keep: nat) -> Seq<u64> {
    if idx.len() <= keep {
        seq![]
    } else {
        idx.take(idx.len() - keep)
    }
}

/// The indices that stay when `keep` snapshots stay: the newest.
pub open spec fn kept(idx: Seq<u64>, keep: nat) -> Seq<u64> {
    if idx.len() <= keep {
        idx
    } else {
        idx.skip(idx.len() - keep)
    }
}

/// The steps that roll snapshots off until `keep` stay.
pub open spec fn prune_steps(d: Seq<Seq<char>>, keep: nat) -> Seq<Step> {
    drop_steps(rolled_off(sorted_indices(d), keep))
}

/// Everything that is done to the directory when it is opened.
pub open spec fn open_steps(d: Seq<Seq<char>>, legacy: Option<u64>, retain: nat) -> Seq<Step> {
    let a1 = temp_steps(d);
    let d1 = after(d, a1);
    let a2 = legacy_steps(d1, legacy);
    let d2 = after(d1, a2);
    let a3 = body_orphan_steps(d2, sorted_indices(d2));
    let d3 = after(d2, a3);
    let a4 = meta_orphan_steps(d3, d3);
    let d4 = after(d3, a4);
    let a5 = prune_steps(d4, retain);
    a1 + a2 + a3 + a4 + a5
}

/// The kind of the operating system, which gives its error codes their
/// meaning.
#[derive(Debug, Clone, Copy, PartialEq, Eq, Structural)]
pub enum Platform {
    Unix,
    Windows,
    Other,
}

/// An error code of the operating system says that the volume is full.
pub open spec fn full_volume(os: Platform, code: Option<i32>) -> bool {
    match os {
        Platform::Unix => code == Some(28i32),
        Platform::Windows => code == Some(39i32) || code == Some(112i32),
        Platform::Other => false,
    }
}

/// An error code of the operating system says that the volume is full.
pub fn is_out_of_space(os: Platform, code: Option<i32>) -> (r: bool)
    ensures
        r == full_volume(os, code),
{
    match code {
        Some(c) => match os {
            Platform::Unix => c == 28,
            Platform::Windows => c == 39 || c == 112,
            Platform::Other => false,
        },
        None => false,
    }
}

/// How writing a snapshot went.
#[derive(Debug, Clone, Copy, PartialEq, Eq, Structural)]
pub enum WriteOutcome {
    Written,
    /// With the error code of the operating system, where there is one.
    Failed(Option<i32>),
}

/// What follows the writing of a snapshot.
#[derive(Debug, Clone, Copy, PartialEq, Eq, Structural)]
pub enum StoreNext {
    /// It is stored; whether every older snapshot was discarded for it.
    Stored { discarded: bool },
    /// Discard every retained snapshot, and write once more.
    DiscardAndRetry,
    /// It cannot be stored.
    Failed,
}

/// A directory of retained snapshots.
#[derive(Debug)]
pub struct SnapshotStore {
    dir: String,
    retain: usize,
}

/// A file of a directory, by its path.
pub open spec fn joined(dir: Seq<char>, name: Seq<char>) -> Seq<char> {
    if dir.len() == 0 {
        name
    } else if dir.last() == '/' {
        dir + name
    } else {
        dir + "/"@ + name
    }
}

/// A file of a directory, by its path.
pub fn join_path(dir: &str, name: &str) -> (r: String)
    ensures
        r@ == joined(dir@, name@),
{
    let n: usize = dir.unicode_len();
    if n == 0 {
        String::from_str(name)
    } else if dir.get_char(n - 1) == '/' {
        let mut s = String::from_str(dir);
        s.append(name);
        s
    } else {
        text::join3(dir, "/", name)
    }
}

/// The index that a snapshot is filed under, by its metadata in stored
/// form: that of the last entry it covers, or zero.
pub open spec fn filed_under(bytes: Seq<u8>) -> Option<u64> {
    match stored::meta_of(bytes) {
        Some((Some(place), _, _)) => Some(place.2),
        Some((None, _, _)) => Some(0),
        None => None,
    }
}

/// The metadata in a file, as plain values, where it can be read.
pub open spec fn meta_in(file: Option<Vec<u8>>) -> Option<
    (
        Option<(u64, u64, u64)>,
        (Option<(u64, u64, u64)>, Seq<Seq<u64>>, Seq<(u64, Seq<char>)>),
        Seq<char>,
    ),
> {
    match file {
        Some(b) => stored::meta_of(b@),
        None => None,
    }
}

/// The metadata of the last of some files that can be read, if any can.
pub open spec fn is_latest(r: Option<SnapshotMeta>, files: Seq<Option<Vec<u8>>>) -> bool {
    &&& r is None <==> forall|i: int|
        0 <= i < files.len() ==> meta_in(#[trigger] files[i]) is None
    &&& r is Some ==> r->0.last_membership.membership.wf() && exists|i: int|
        0 <= i < files.len() && meta_in(#[trigger] files[i]) == Some(stored::meta_parts(r->0))
            && forall|j: int| i < j < files.len() ==> meta_in(#[trigger] files[j]) is None
}

/// A restart reports the newest snapshot as it was written: the place it
/// covers, its membership and its name.
pub proof fn law_newest_snapshot_survives_a_restart(
    meta: SnapshotMeta,
    files: Seq<Option<Vec<u8>>>,
    r: Option<SnapshotMeta>,
)
    requires
        files.len() > 0,
        meta_in(files.last()) == Some(stored::meta_parts(meta)),
        is_latest(r, files),
    ensures
        r is Some,
        stored::meta_parts(r->0) == stored::meta_parts(meta),
{
    let n = files.len() - 1;
    assert(meta_in(files[n]) is Some);
    let i = choose|i: int|
        0 <= i < files.len() && meta_in(#[trigger] files[i]) == Some(stored::meta_parts(r->0))
            && forall|j: int| i < j < files.len() ==> meta_in(#[trigger] files[j]) is None;
    assert(!(i < n));
}

impl SnapshotStore {
    /// Where the snapshots are.
    pub closed spec fn at(self) -> Seq<char> {
        self.dir@
    }

    /// How many are retained.
    pub closed spec fn limit(self) -> nat {
        self.retain as nat
    }

    /// At least one snapshot is retained.
    pub open spec fn wf(self) -> bool {
        1 <= self.limit() <= usize::MAX
    }

    /// The store of a directory, at least one snapshot retained, and what
    /// to do to the directory before it is used: drop unfinished writes,
    /// move a snapshot of the older layout, drop halves of pairs, and roll
    /// off what is beyond retention. `legacy` is the metadata of the older
    /// layout in stored form, where its file could be read.
    pub fn open(
        dir: String,
        retain: usize,
        listing: Vec<String>,
        legacy: Option<Vec<u8>>,
    ) -> (r: (SnapshotStore, Vec<DirAction>))
        ensures
            r.0.wf(),
            r.0.at() == dir@,
            r.0.limit() == (if retain == 0 {
                1
            } else {
                retain as nat
            }),
            steps(r.1@) == open_steps(
                names::texts(listing@),
                (match legacy {
                    Some(b) => filed_under(b@),
                    None => None,
                }),
                r.0.limit(),
            ),
    {
        let index: Option<u64> = match &legacy {
            Some(b) => match stored::decode_meta(b.as_slice()) {
                Some(meta) => Some(SnapshotStore::index_of(&meta)),
                None => None,
            },
            None => None,
        };
        SnapshotStore::open_at(dir, retain, listing, index)
    }

    /// The store of a directory, as `open` has it. `legacy` is the index in
    /// the metadata of the older layout, where it could be read.
    pub fn open_at(
        dir: String,
        retain: usize,
        listing: Vec<String>,
        legacy: Option<u64>,
    ) -> (r: (SnapshotStore, Vec<DirAction>))
        ensures
            r.0.wf(),
            r.0.at() == dir@,
            r.0.limit() == (if retain == 0 {
                1
            } else {
                retain as nat
            }),
            steps(r.1@) == open_steps(names::texts(listing@), legacy, r.0.limit()),
    {
        let store = SnapshotStore {
            dir,
            retain: if retain == 0 {
                1
            } else {
                retain
            },
        };
        let mut d = listing;
        let mut all: Vec<DirAction> = Vec::new();
        assert(steps(all@) =~= seq![]);

        let mut a1 = store.remove_temp_files(&d);
        apply_all(&mut d, &a1);
        let mut a2 = store.migrate_legacy(&d, legacy);
        apply_all(&mut d, &a2);
        let mut a3 = store.orphan_bodies(&d);
        apply_all(&mut d, &a3);
        let mut a4 = store.orphan_metas(&d);
        apply_all(&mut d, &a4);
        let mut a5 = store.prune_to(&d, store.retain);
        let ghost goal = open_steps(names::texts(listing@), legacy, store.limit());
        assert(goal == steps(a1@) + steps(a2@) + steps(a3@) + steps(a4@) + steps(a5@));
        all.append(&mut a1);
        all.append(&mut a2);
        all.append(&mut a3);
        all.append(&mut a4);
        all.append(&mut a5);
        assert(steps(all@) =~= goal);
        (store, all)
    }

    /// Where the snapshots are.
    pub fn dir(&self) -> (r: &str)
        ensures
            r@ == self.at(),
    {
        self.dir.as_str()
    }

    /// How many snapshots are retained.
    pub fn retain(&self) -> (r: usize)
        ensures
            r == self.limit(),
    {
        self.retain
    }

    /// The indices of the retained snapshots, oldest first.
    pub fn indices(&self, listing: &Vec<String>) -> (r: Vec<u64>)
        ensures
            r@ == sorted_indices(names::texts(listing@)),
    {
        let ghost d = names::texts(listing@);
        let mut out: Vec<u64> = Vec::new();
        let mut i: usize = 0;
        assert(d.take(0) =~= seq![]);
        while i < listing.len()
            invariant
                i <= listing@.len(),
                d == names::texts(listing@),
                out@ == sorted_indices(d.take(i as int)),
            decreases listing@.len() - i,
        {
            assert(d.take(i + 1).drop_last() =~= d.take(i as int));
            assert(d[i as int] == listing@[i as int]@);
            if let Some(x) = index_of_body(listing[i].as_str()) {
                let ghost before = out@;
                proof {
                    lemma_sorted_indices(d.take(i as int));
                }
                let mut p: usize = out.len();
                while p > 0 && out[p - 1] > x
                    invariant
                        p <= out@.len(),
                        forall|k: int| p <= k < out@.len() ==> #[trigger] out@[k] > x,
                    decreases p,
                {
                    p -= 1;
                }
                proof {
                    lemma_put_at(out@, x, p as int);
                }
                out.insert(p, x);
            }
            i += 1;
        }
        assert(d.take(i as int) =~= d);
        out
    }

    /// The path of the body of a snapshot.
    pub fn snap_path(&self, index: u64) -> (r: String)
        ensures
            r@ == joined(self.at(), snap_name_of(index)),
    {
        join_path(self.dir.as_str(), snap_name(index).as_str())
    }

    /// The path of the metadata of a snapshot.
    pub fn meta_path(&self, index: u64) -> (r: String)
        ensures
            r@ == joined(self.at(), meta_name_of(index)),
    {
        join_path(self.dir.as_str(), meta_name(index).as_str())
    }

    /// The index that a snapshot is filed under: that of the last entry it
    /// covers, or zero.
    pub fn index_of(meta: &SnapshotMeta) -> (r: u64)
        ensures
            r == (match meta.last_log_id {
                Some(l) => l.index,
                None => 0,
            }),
    {
        match meta.last_log_id {
            Some(l) => l.index,
            None => 0,
        }
    }

    /// The stored form of the metadata of a snapshot, to be written beside
    /// its body. It is read back where its membership is in order.
    pub fn meta_record(meta: &SnapshotMeta) -> (r: Vec<u8>)
        ensures
            r@ == stored::meta_bytes(*meta),
            meta.last_membership.membership.wf() ==> stored::meta_of(r@) == Some(
                stored::meta_parts(*meta),
            ),
    {
        stored::encode_meta(meta)
    }

    /// The newest metadata that can be read, of the files of the retained
    /// snapshots from the oldest to the newest: what each holds, where it
    /// could be read.
    pub fn latest_meta(&self, files: Vec<Option<Vec<u8>>>) -> (r: Option<SnapshotMeta>)
        ensures
            is_latest(r, files@),
    {
        let mut metas: Vec<Option<SnapshotMeta>> = Vec::new();
        let mut i: usize = 0;
        while i < files.len()
            invariant
                i <= files@.len(),
                metas@.len() == i,
                forall|j: int|
                    0 <= j < i ==> {
                        &&& (#[trigger] metas@[j]) is Some <==> meta_in(files@[j]) is Some
                        &&& metas@[j] is Some ==> meta_in(files@[j]) == Some(
                            stored::meta_parts(metas@[j]->0),
                        ) && metas@[j]->0.last_membership.membership.wf()
                    },
            decreases files@.len() - i,
        {
            let meta = match &files[i] {
                Some(b) => stored::decode_meta(b.as_slice()),
                None => None,
            };
            metas.push(meta);
            i += 1;
        }
        let ghost all = metas@;
        let r = self.newest(metas);
        proof {
            if r is Some {
                let i = choose|i: int|
                    0 <= i < all.len() && #[trigger] all[i] == r && forall|j: int|
                        i < j < all.len() ==> (#[trigger] all[j]) is None;
                assert(all[i] == r);
                assert(meta_in(files@[i]) == Some(stored::meta_parts(r->0)));
                assert forall|j: int| i < j < files@.len() implies meta_in(
                    #[trigger] files@[j],
                ) is None by {
                    assert(all[j] is None);
                }
            } else {
                assert forall|i: int| 0 <= i < files@.len() implies meta_in(
                    #[trigger] files@[i],
                ) is None by {
                    assert(all[i] is None);
                }
            }
            if forall|i: int| 0 <= i < files@.len() ==> meta_in(#[trigger] files@[i]) is None {
                assert forall|i: int| 0 <= i < all.len() implies (#[trigger] all[i]) is None by {
                    assert(meta_in(files@[i]) is None);
                }
            }
        }
        r
    }

    /// The newest metadata that could be read, of those of the retained
    /// snapshots from the oldest to the newest.
    pub fn newest(&self, metas: Vec<Option<SnapshotMeta>>) -> (r: Option<SnapshotMeta>)
        ensures
            r is None <==> forall|i: int| 0 <= i < metas@.len() ==> (#[trigger] metas@[i]) is None,
            r is Some ==> exists|i: int|
                0 <= i < metas@.len() && #[trigger] metas@[i] == r && forall|j: int|
                    i < j < metas@.len() ==> (#[trigger] metas@[j]) is None,
    {
        let ghost all = metas@;
        let mut left = metas;
        let mut found: Option<SnapshotMeta> = None;
        while left.len() > 0 && found.is_none()
            invariant
                left@.len() <= all.len(),
                left@ == all.take(left@.len() as int),
                forall|j: int| left@.len() < j < all.len() ==> (#[trigger] all[j]) is None,
                found is None ==> left@.len() < all.len() ==> all[left@.len() as int] is None,
                found is Some ==> left@.len() < all.len() && all[left@.len() as int] == found,
            decreases left@.len(),
        {
            let ghost n = left@.len();
            let m = left.pop();
            assert(m == Some(all[n - 1]));
            assert(left@ =~= all.take(left@.len() as int));
            if let Some(meta) = m {
                found = meta;
            }
        }
        found
    }

    /// What to do before a snapshot is written: roll off the oldest, so
    /// that with the new one no more than the limit are there.
    pub fn before_store(&self, listing: &Vec<String>) -> (r: Vec<DirAction>)
        requires
            self.wf(),
        ensures
            steps(r@) == prune_steps(names::texts(listing@), (self.limit() - 1) as nat),
    {
        self.prune_to(listing, self.retain - 1)
    }

    /// What follows the writing of a snapshot: a full volume is made room
    /// on once, at the cost of every retained snapshot.
    pub fn store(&self, os: Platform, outcome: WriteOutcome, retried: bool) -> (r: StoreNext)
        ensures
            r == (match outcome {
                WriteOutcome::Written => StoreNext::Stored { discarded: retried },
                WriteOutcome::Failed(code) => if !retried && full_volume(os, code) {
                    StoreNext::DiscardAndRetry
                } else {
                    StoreNext::Failed
                },
            }),
    {
        match outcome {
            WriteOutcome::Written => StoreNext::Stored { discarded: retried },
            WriteOutcome::Failed(code) => {
                if !retried && is_out_of_space(os, code) {
                    StoreNext::DiscardAndRetry
                } else {
                    StoreNext::Failed
                }
            },
        }
    }

    /// What to do to delete every retained snapshot.
    pub fn discard_all(&self, listing: &Vec<String>) -> (r: Vec<DirAction>)
        ensures
            steps(r@) == prune_steps(names::texts(listing@), 0),
    {
        self.prune_to(listing, 0)
    }

    /// What to do to roll off the oldest snapshots until at most `keep`
    /// remain.
    pub fn prune_to(&self, listing: &Vec<String>, keep: usize) -> (r: Vec<DirAction>)
        ensures
            steps(r@) == prune_steps(names::texts(listing@), keep as nat),
    {
        let idx = self.indices(listing);
        let mut out: Vec<DirAction> = Vec::new();
        if idx.len() <= keep {
            assert(steps(out@) =~= seq![]);
            return out;
        }
        let n: usize = idx.len() - keep;
        let mut i: usize = 0;
        assert(steps(out@) =~= drop_steps(idx@.take(0)));
        while i < n
            invariant
                i <= n <= idx@.len(),
                steps(out@) == drop_steps(idx@.take(i as int)),
            decreases n - i,
        {
            let ghost before = out@;
            out.push(DirAction::Remove(snap_name(idx[i])));
            out.push(DirAction::Remove(meta_name(idx[i])));
            assert(idx@.take(i + 1).drop_last() =~= idx@.take(i as int));
            assert(steps(out@) =~= steps(before).push(
                Step::Remove(snap_name_of(idx@[i as int])),
            ).push(Step::Remove(meta_name_of(idx@[i as int]))));
            i += 1;
        }
        out
    }

    /// What to do to drop unfinished writes.
    pub fn remove_temp_files(&self, listing: &Vec<String>) -> (r: Vec<DirAction>)
        ensures
            steps(r@) == temp_steps(names::texts(listing@)),
    {
        let ghost d = names::texts(listing@);
        let mut out: Vec<DirAction> = Vec::new();
        let mut i: usize = 0;
        assert(steps(out@) =~= temp_steps(d.take(0)));
        while i < listing.len()
            invariant
                i <= listing@.len(),
                d == names::texts(listing@),
                steps(out@) == temp_steps(d.take(i as int)),
            decreases listing@.len() - i,
        {
            assert(d.take(i + 1).drop_last() =~= d.take(i as int));
            assert(d[i as int] == listing@[i as int]@);
            let ghost before = out@;
            if parse::ends_with(listing[i].as_str(), ".tmp") {
                out.push(DirAction::Remove(listing[i].clone()));
                assert(steps(out@) =~= steps(before).push(Step::Remove(d[i as int])));
            }
            i += 1;
        }
        assert(d.take(i as int) =~= d);
        out
    }

    /// What to do with a snapshot of the older layout.
    pub fn migrate_legacy(&self, listing: &Vec<String>, legacy: Option<u64>) -> (r: Vec<DirAction>)
        ensures
            steps(r@) == legacy_steps(names::texts(listing@), legacy),
    {
        let mut out: Vec<DirAction> = Vec::new();
        let ghost goal = legacy_steps(names::texts(listing@), legacy);
        let whole = has_name(listing, "current.snap") && has_name(listing, "current.meta");
        match legacy {
            Some(index) if whole => {
                out.push(
                    DirAction::Rename {
                        from: String::from_str("current.snap"),
                        to: snap_name(index),
                    },
                );
                out.push(
                    DirAction::Rename {
                        from: String::from_str("current.meta"),
                        to: meta_name(index),
                    },
                );
            },
            _ => {
                out.push(DirAction::Remove(String::from_str("current.snap")));
                out.push(DirAction::Remove(String::from_str("current.meta")));
            },
        }
        assert(steps(out@) =~= goal);
        out
    }

    /// What to do to drop bodies without metadata.
    pub fn orphan_bodies(&self, listing: &Vec<String>) -> (r: Vec<DirAction>)
        ensures
            steps(r@) == body_orphan_steps(
                names::texts(listing@),
                sorted_indices(names::texts(listing@)),
            ),
    {
        let ghost d = names::texts(listing@);
        let idx = self.indices(listing);
        let mut out: Vec<DirAction> = Vec::new();
        let mut i: usize = 0;
        assert(steps(out@) =~= body_orphan_steps(d, idx@.take(0)));
        while i < idx.len()
            invariant
                i <= idx@.len(),
                d == names::texts(listing@),
                steps(out@) == body_orphan_steps(d, idx@.take(i as int)),
            decreases idx@.len() - i,
        {
            assert(idx@.take(i + 1).drop_last() =~= idx@.take(i as int));
            let ghost before = out@;
            if !has_name(listing, meta_name(idx[i]).as_str()) {
                out.push(DirAction::Remove(snap_name(idx[i])));
                assert(steps(out@) =~= steps(before).push(
                    Step::Remove(snap_name_of(idx@[i as int])),
                ));
            }
            i += 1;
        }
        assert(idx@.take(i as int) =~= idx@);
        out
    }

    /// What to do to drop metadata without a body.
    pub fn orphan_metas(&self, listing: &Vec<String>) -> (r: Vec<DirAction>)
        ensures
            steps(r@) == meta_orphan_steps(names::texts(listing@), names::texts(listing@)),
    {
        let ghost d = names::texts(listing@);
        let mut out: Vec<DirAction> = Vec::new();
        let mut i: usize = 0;
        assert(steps(out@) =~= meta_orphan_steps(d, d.take(0)));
        while i < listing.len()
            invariant
                i <= listing@.len(),
                d == names::texts(listing@),
                steps(out@) == meta_orphan_steps(d, d.take(i as int)),
            decreases listing@.len() - i,
        {
            assert(d.take(i + 1).drop_last() =~= d.take(i as int));
            assert(d[i as int] == listing@[i as int]@);
            let ghost before = out@;
            let orphan = match index_of_meta(listing[i].as_str()) {
                Some(index) => !has_name(listing, snap_name(index).as_str()),
                None => false,
            };
            if orphan {
                out.push(DirAction::Remove(listing[i].clone()));
                assert(steps(out@) =~= steps(before).push(Step::Remove(d[i as int])));
            }
            i += 1;
        }
        assert(d.take(i as int) =~= d);
        out
    }
}

/// Carry out actions on a list of names.
pub fn apply_all(listing: &mut Vec<String>, actions: &Vec<DirAction>)
    ensures
        names::texts(final(listing)@) == after(names::texts(old(listing)@), steps(actions@)),
{
    let ghost d = names::texts(listing@);
    let ghost all = steps(actions@);
    let mut i: usize = 0;
    assert(all.take(0) =~= seq![]);
    while i < actions.len()
        invariant
            i <= actions@.len(),
            all == steps(actions@),
            names::texts(listing@) == after(d, all.take(i as int)),
        decreases actions@.len() - i,
    {
        assert(all.take(i + 1).drop_last() =~= all.take(i as int));
        assert(all[i as int] == actions@[i as int]@);
        match &actions[i] {
            DirAction::Remove(name) => {
                remove_name(listing, name.as_str());
            },
            DirAction::Rename { from, to } => {
                if has_name(listing, from.as_str()) {
                    remove_name(listing, from.as_str());
                    remove_name(listing, to.as_str());
                    let ghost before = names::texts(listing@);
                    listing.push(to.clone());
                    assert(names::texts(listing@) =~= before.push(to@));
                }
            },
        }
        i += 1;
    }
    assert(all.take(i as int) =~= all);
}

/// Every step removes a name.
pub open spec fn only_removes(steps: Seq<Step>) -> bool {
    forall|i: int| 0 <= i < steps.len() ==> (#[trigger] steps[i]) is Remove
}

/// Steps that only remove leave the names that they do not name.
proof fn lemma_after_removes(d: Seq<Seq<char>>, steps: Seq<Step>, x: Seq<char>)
    requires
        only_removes(steps),
    ensures
        after(d, steps).contains(x) <==> d.contains(x) && !steps.contains(Step::Remove(x)),
    decreases steps.len(),
{
    if steps.len() > 0 {
        let t = steps.drop_last();
        assert(forall|i: int| 0 <= i < t.len() ==> #[trigger] t[i] == steps[i]);
        lemma_after_removes(d, t, x);
        assert(steps =~= t.push(steps.last()));
        vstd::seq_lib::lemma_seq_contains_after_push(t, steps.last(), Step::Remove(x));
        assert(steps[steps.len() - 1] is Remove);
        names::lemma_without(after(d, t), steps.last()->Remove_0, x);
    }
}

/// Steps after steps are steps in turn.
proof fn lemma_after_concat(d: Seq<Seq<char>>, a: Seq<Step>, b: Seq<Step>)
    ensures
        after(d, a + b) == after(after(d, a), b),
    decreases b.len(),
{
    if b.len() == 0 {
        assert(a + b =~= a);
    } else {
        lemma_after_concat(d, a, b.drop_last());
        assert((a + b).drop_last() =~= a + b.drop_last());
    }
}

/// Dropping snapshots removes their two names each.
proof fn lemma_drop_steps(idx: Seq<u64>, x: Seq<char>)
    ensures
        only_removes(drop_steps(idx)),
        drop_steps(idx).contains(Step::Remove(x)) <==> exists|k: int|
            0 <= k < idx.len() && (x == snap_name_of(#[trigger] idx[k]) || x == meta_name_of(
                idx[k],
            )),
    decreases idx.len(),
{
    if idx.len() > 0 {
        let t = idx.drop_last();
        lemma_drop_steps(t, x);
        let a = Step::Remove(snap_name_of(idx.last()));
        let b = Step::Remove(meta_name_of(idx.last()));
        let s = drop_steps(t);
        vstd::seq_lib::lemma_seq_contains_after_push(s, a, Step::Remove(x));
        vstd::seq_lib::lemma_seq_contains_after_push(s.push(a), b, Step::Remove(x));
        if s.contains(Step::Remove(x)) {
            let k = choose|k: int|
                0 <= k < t.len() && (x == snap_name_of(#[trigger] t[k]) || x == meta_name_of(
                    t[k],
                ));
            assert(idx[k] == t[k]);
        }
        if x == snap_name_of(idx.last()) || x == meta_name_of(idx.last()) {
            assert(idx[idx.len() - 1] == idx.last());
        }
        if exists|k: int|
            0 <= k < idx.len() && (x == snap_name_of(#[trigger] idx[k]) || x == meta_name_of(
                idx[k],
            )) {
            let k = choose|k: int|
                0 <= k < idx.len() && (x == snap_name_of(#[trigger] idx[k]) || x == meta_name_of(
                    idx[k],
                ));
            if k < t.len() {
                assert(t[k] == idx[k]);
            }
        }
    }
}

/// Two indices share no name.
proof fn lemma_names_differ(i: u64, j: u64)
    ensures
        snap_name_of(i) == snap_name_of(j) <==> i == j,
        meta_name_of(i) == meta_name_of(j) <==> i == j,
        snap_name_of(i) != meta_name_of(j),
{
    law_names_read_back(i);
    law_names_read_back(j);
}

/// Roll-off keeps the newest: at most `keep` snapshots remain, body and
/// metadata of an index stay or go together, and nothing that went is
/// newer than anything that stayed. Every other file stays.
pub proof fn law_roll_off_keeps_the_newest(d: Seq<Seq<char>>, keep: nat)
    ensures
        ({
            let idx = sorted_indices(d);
            let left = after(d, prune_steps(d, keep));
            &&& kept(idx, keep).len() <= keep
            &&& rolled_off(idx, keep) + kept(idx, keep) == idx
            &&& ascends(idx)
            &&& forall|i: u64| #[trigger]
                left.contains(snap_name_of(i)) <==> d.contains(snap_name_of(i)) && !rolled_off(
                    idx,
                    keep,
                ).contains(i)
            &&& forall|i: u64| #[trigger]
                left.contains(meta_name_of(i)) <==> d.contains(meta_name_of(i)) && !rolled_off(
                    idx,
                    keep,
                ).contains(i)
            &&& forall|i: u64| #[trigger]
                left.contains(snap_name_of(i)) ==> kept(idx, keep).contains(i)
            &&& forall|x: Seq<char>|
                body_index(x) is None && meta_index(x) is None ==> (#[trigger] left.contains(x)
                    <==> d.contains(x))
        }),
{
    let idx = sorted_indices(d);
    let gone = rolled_off(idx, keep);
    let stays = kept(idx, keep);
    let acts = prune_steps(d, keep);
    let left = after(d, acts);
    lemma_sorted_indices(d);
    assert(gone + stays =~= idx);
    assert forall|x: Seq<char>| #[trigger] left.contains(x) <==> d.contains(x) && !(exists|k: int|
        0 <= k < gone.len() && (x == snap_name_of(#[trigger] gone[k]) || x == meta_name_of(
            gone[k],
        ))) by {
        lemma_drop_steps(gone, x);
        lemma_after_removes(d, acts, x);
    }
    assert forall|i: u64| #[trigger] left.contains(snap_name_of(i)) <==> d.contains(
        snap_name_of(i),
    ) && !gone.contains(i) by {
        if gone.contains(i) {
            let k = choose|k: int| 0 <= k < gone.len() && gone[k] == i;
            assert(snap_name_of(i) == snap_name_of(gone[k]));
        }
        assert forall|k: int| 0 <= k < gone.len() && !gone.contains(i) implies snap_name_of(i)
            != snap_name_of(#[trigger] gone[k]) && snap_name_of(i) != meta_name_of(gone[k]) by {
            lemma_names_differ(i, gone[k]);
        }
    }
    assert forall|i: u64| #[trigger] left.contains(meta_name_of(i)) <==> d.contains(
        meta_name_of(i),
    ) && !gone.contains(i) by {
        if gone.contains(i) {
            let k = choose|k: int| 0 <= k < gone.len() && gone[k] == i;
            assert(meta_name_of(i) == meta_name_of(gone[k]));
        }
        assert forall|k: int| 0 <= k < gone.len() && !gone.contains(i) implies meta_name_of(i)
            != snap_name_of(#[trigger] gone[k]) && meta_name_of(i) != meta_name_of(gone[k]) by {
            lemma_names_differ(i, gone[k]);
            lemma_names_differ(gone[k], i);
        }
    }
    assert forall|i: u64| #[trigger] left.contains(snap_name_of(i)) implies stays.contains(i) by {
        law_names_read_back(i);
        let m = choose|m: int| 0 <= m < d.len() && d[m] == snap_name_of(i);
        assert(body_index(d[m]) == Some(i));
        assert(idx.contains(i));
        let p = choose|p: int| 0 <= p < idx.len() && idx[p] == i;
        if p < gone.len() {
            assert(gone[p] == i);
        } else {
            assert(stays[p - gone.len()] == i);
        }
    }
    assert forall|x: Seq<char>| body_index(x) is None && meta_index(x) is None implies (
    #[trigger] left.contains(x) <==> d.contains(x)) by {
        assert forall|k: int| 0 <= k < gone.len() implies x != snap_name_of(#[trigger] gone[k])
            && x != meta_name_of(gone[k]) by {
            law_names_read_back(gone[k]);
        }
    }
}

/// Writing a snapshot never needs room for more than the limit: when the
/// body is about to be written, one place is free.
pub proof fn law_room_is_made_before_the_write(d: Seq<Seq<char>>, limit: nat)
    requires
        limit >= 1,
    ensures
        kept(sorted_indices(d), (limit - 1) as nat).len() + 1 <= limit,
        forall|i: u64| #[trigger]
            after(d, prune_steps(d, (limit - 1) as nat)).contains(snap_name_of(i)) ==> kept(
                sorted_indices(d),
                (limit - 1) as nat,
            ).contains(i),
{
    law_roll_off_keeps_the_newest(d, (limit - 1) as nat);
}

/// Discarding leaves no snapshot under its name.
pub proof fn law_discarding_empties_the_store(d: Seq<Seq<char>>, i: u64)
    ensures
        !after(d, prune_steps(d, 0)).contains(snap_name_of(i)),
{
    law_roll_off_keeps_the_newest(d, 0);
    assert(kept(sorted_indices(d), 0).len() == 0);
}

/// Removing unfinished writes names exactly them.
proof fn lemma_temp_steps(d: Seq<Seq<char>>, x: Seq<char>)
    ensures
        only_removes(temp_steps(d)),
        temp_steps(d).contains(Step::Remove(x)) <==> is_temp(x) && d.contains(x),
    decreases d.len(),
{
    if d.len() > 0 {
        let t = d.drop_last();
        lemma_temp_steps(t, x);
        assert(d =~= t.push(d.last()));
        vstd::seq_lib::lemma_seq_contains_after_push(t, d.last(), x);
        vstd::seq_lib::lemma_seq_contains_after_push(
            temp_steps(t),
            Step::Remove(d.last()),
            Step::Remove(x),
        );
    }
}

/// Removing bodies without metadata names exactly them.
proof fn lemma_body_orphan_steps(d: Seq<Seq<char>>, idx: Seq<u64>, x: Seq<char>)
    ensures
        only_removes(body_orphan_steps(d, idx)),
        body_orphan_steps(d, idx).contains(Step::Remove(x)) <==> exists|k: int|
            0 <= k < idx.len() && x == snap_name_of(#[trigger] idx[k]) && !d.contains(
                meta_name_of(idx[k]),
            ),
    decreases idx.len(),
{
    if idx.len() > 0 {
        let t = idx.drop_last();
        lemma_body_orphan_steps(d, t, x);
        let s = body_orphan_steps(d, t);
        vstd::seq_lib::lemma_seq_contains_after_push(
            s,
            Step::Remove(snap_name_of(idx.last())),
            Step::Remove(x),
        );
        if s.contains(Step::Remove(x)) {
            let k = choose|k: int|
                0 <= k < t.len() && x == snap_name_of(#[trigger] t[k]) && !d.contains(
                    meta_name_of(t[k]),
                );
            assert(idx[k] == t[k]);
        }
        assert(idx[idx.len() - 1] == idx.last());
        if exists|k: int|
            0 <= k < idx.len() && x == snap_name_of(#[trigger] idx[k]) && !d.contains(
                meta_name_of(idx[k]),
            ) {
            let k = choose|k: int|
                0 <= k < idx.len() && x == snap_name_of(#[trigger] idx[k]) && !d.contains(
                    meta_name_of(idx[k]),
                );
            if k < t.len() {
                assert(t[k] == idx[k]);
            }
        }
    }
}

/// Removing metadata without a body names exactly it.
proof fn lemma_meta_orphan_steps(d: Seq<Seq<char>>, part: Seq<Seq<char>>, x: Seq<char>)
    ensures
        only_removes(meta_orphan_steps(d, part)),
        meta_orphan_steps(d, part).contains(Step::Remove(x)) <==> is_meta_orphan(d, x)
            && part.contains(x),
    decreases part.len(),
{
    if part.len() > 0 {
        let t = part.drop_last();
        lemma_meta_orphan_steps(d, t, x);
        assert(part =~= t.push(part.last()));
        vstd::seq_lib::lemma_seq_contains_after_push(t, part.last(), x);
        vstd::seq_lib::lemma_seq_contains_after_push(
            meta_orphan_steps(d, t),
            Step::Remove(part.last()),
            Step::Remove(x),
        );
    }
}

/// Moving an older snapshot brings in no unfinished write.
proof fn lemma_legacy_steps(d: Seq<Seq<char>>, legacy: Option<u64>, x: Seq<char>)
    requires
        is_temp(x),
        !d.contains(x),
    ensures
        !after(d, legacy_steps(d, legacy)).contains(x),
{
    let acts = legacy_steps(d, legacy);
    let d0 = after(d, acts.drop_last().drop_last());
    let d1 = after(d, acts.drop_last());
    assert(acts.drop_last().drop_last() =~= seq![]);
    assert(acts.drop_last().last() == acts[0]);
    if acts[0] is Rename {
        let i = legacy->0;
        law_names_read_back(i);
        names::lemma_without(d0, "current.snap"@, x);
        let e = names::without(d0, "current.snap"@);
        names::lemma_without(e, snap_name_of(i), x);
        names::lemma_contains_push(names::without(e, snap_name_of(i)), snap_name_of(i), x);
        names::lemma_without(d1, "current.meta"@, x);
        let f = names::without(d1, "current.meta"@);
        names::lemma_without(f, meta_name_of(i), x);
        names::lemma_contains_push(names::without(f, meta_name_of(i)), meta_name_of(i), x);
    } else {
        names::lemma_without(d0, "current.snap"@, x);
        names::lemma_without(d1, "current.meta"@, x);
    }
}

/// A directory holds no name twice, and gives an index only under the name
/// that the store writes for it.
pub open spec fn is_own(d: Seq<Seq<char>>) -> bool {
    &&& d.no_duplicates()
    &&& forall|x: Seq<char>| #[trigger]
        d.contains(x) ==> {
            &&& body_index(x) matches Some(i) ==> x == snap_name_of(i)
            &&& meta_index(x) matches Some(i) ==> x == meta_name_of(i)
        }
}

/// Of some indices, those whose metadata is there.
pub open spec fn with_meta(d: Seq<Seq<char>>, idx: Seq<u64>) -> Seq<u64>
    decreases idx.len(),
{
    if idx.len() == 0 {
        seq![]
    } else if d.contains(meta_name_of(idx.last())) {
        with_meta(d, idx.drop_last()).push(idx.last())
    } else {
        with_meta(d, idx.drop_last())
    }
}

/// The indices that have both body and metadata, oldest first.
pub open spec fn pairs(d: Seq<Seq<char>>) -> Seq<u64> {
    with_meta(d, sorted_indices(d))
}

/// A list ascends, without repetitions.
pub open spec fn climbs(s: Seq<u64>) -> bool {
    forall|i: int, j: int| 0 <= i < j < s.len() ==> #[trigger] s[i] < #[trigger] s[j]
}

/// Lists that climb over the same numbers are the same.
proof fn lemma_same_members(a: Seq<u64>, b: Seq<u64>)
    requires
        climbs(a),
        climbs(b),
        forall|x: u64| #[trigger] a.contains(x) <==> b.contains(x),
    ensures
        a == b,
    decreases a.len(),
{
    if a.len() == 0 || b.len() == 0 {
        if a.len() > 0 {
            assert(a.contains(a[0]));
        }
        if b.len() > 0 {
            assert(b.contains(b[0]));
            assert(a.contains(b[0]));
        }
        assert(a =~= b);
    } else {
        let x = a.last();
        let y = b.last();
        assert(a.contains(x));
        assert(b.contains(y));
        assert(a.contains(y) && b.contains(x));
        let i = choose|i: int| 0 <= i < a.len() && a[i] == y;
        let j = choose|j: int| 0 <= j < b.len() && b[j] == x;
        assert(y <= x) by {
            if i < a.len() - 1 {
                assert(a[i] < a[a.len() - 1]);
            }
        }
        assert(x <= y) by {
            if j < b.len() - 1 {
                assert(b[j] < b[b.len() - 1]);
            }
        }
        let s = a.drop_last();
        let t = b.drop_last();
        assert forall|z: u64| #[trigger] s.contains(z) <==> t.contains(z) by {
            if s.contains(z) {
                let k = choose|k: int| 0 <= k < s.len() && s[k] == z;
                assert(a[k] == z && a[k] < a[a.len() - 1]);
                assert(a.contains(z));
                assert(b.contains(z));
                let m = choose|m: int| 0 <= m < b.len() && b[m] == z;
                assert(t[m] == z);
            }
            if t.contains(z) {
                let k = choose|k: int| 0 <= k < t.len() && t[k] == z;
                assert(b[k] == z && b[k] < b[b.len() - 1]);
                assert(b.contains(z));
                assert(a.contains(z));
                let m = choose|m: int| 0 <= m < a.len() && a[m] == z;
                assert(s[m] == z);
            }
        }
        lemma_same_members(s, t);
        assert(a =~= s.push(x));
        assert(b =~= t.push(y));
    }
}

/// Putting a new index into a list that climbs leaves one that climbs.
proof fn lemma_put_new(s: Seq<u64>, x: u64)
    requires
        climbs(s),
        !s.contains(x),
    ensures
        climbs(put_in_order(s, x)),
    decreases s.len(),
{
    let r = put_in_order(s, x);
    if s.len() > 0 {
        assert(s.contains(s[s.len() - 1]));
        if s.last() <= x {
            assert forall|i: int, j: int| 0 <= i < j < r.len() implies #[trigger] r[i]
                < #[trigger] r[j] by {
                if j == s.len() && i < s.len() - 1 {
                    assert(s[i] < s[s.len() - 1]);
                }
            }
        } else {
            let t = s.drop_last();
            assert forall|k: int| 0 <= k < t.len() implies #[trigger] t[k] != x by {
                assert(s.contains(s[k]));
            }
            lemma_put_new(t, x);
            lemma_put_in_order(t, x);
            let q = put_in_order(t, x);
            assert forall|i: int| 0 <= i < q.len() implies #[trigger] q[i] < s.last() by {
                assert(q.contains(q[i]));
                if q[i] != x {
                    assert(t.contains(q[i]));
                    let k = choose|k: int| 0 <= k < t.len() && t[k] == q[i];
                    assert(s[k] < s[s.len() - 1]);
                }
            }
        }
    }
}

/// In a directory of the store's own, the indices climb, and are those
/// under whose names there is a body.
proof fn lemma_own_indices(d: Seq<Seq<char>>)
    requires
        is_own(d),
    ensures
        climbs(sorted_indices(d)),
        forall|i: u64| #[trigger]
            sorted_indices(d).contains(i) <==> d.contains(snap_name_of(i)),
    decreases d.len(),
{
    lemma_sorted_indices(d);
    assert forall|i: u64| #[trigger] sorted_indices(d).contains(i) <==> d.contains(
        snap_name_of(i),
    ) by {
        law_names_read_back(i);
        if sorted_indices(d).contains(i) {
            let k = choose|k: int| 0 <= k < d.len() && #[trigger] body_index(d[k]) == Some(i);
            assert(d.contains(d[k]));
        }
        if d.contains(snap_name_of(i)) {
            let k = choose|k: int| 0 <= k < d.len() && d[k] == snap_name_of(i);
            assert(body_index(d[k]) == Some(i));
        }
    }
    if d.len() > 0 {
        let t = d.drop_last();
        assert(d =~= t.push(d.last()));
        assert forall|x: Seq<char>| #[trigger] t.contains(x) implies d.contains(x) by {
            names::lemma_contains_push(t, d.last(), x);
        }
        assert(t.no_duplicates());
        lemma_own_indices(t);
        if let Some(i) = body_index(d.last()) {
            assert(d.contains(d[d.len() - 1]));
            assert(d.last() == snap_name_of(i));
            if t.contains(snap_name_of(i)) {
                let k = choose|k: int| 0 <= k < t.len() && t[k] == snap_name_of(i);
                assert(d[k] == d[d.len() - 1]);
            }
            lemma_put_new(sorted_indices(t), i);
        }
    }
}

/// The indices with metadata climb as all do.
proof fn lemma_with_meta(d: Seq<Seq<char>>, idx: Seq<u64>)
    requires
        climbs(idx),
    ensures
        climbs(with_meta(d, idx)),
        forall|i: u64| #[trigger]
            with_meta(d, idx).contains(i) <==> idx.contains(i) && d.contains(meta_name_of(i)),
    decreases idx.len(),
{
    if idx.len() > 0 {
        let t = idx.drop_last();
        lemma_with_meta(d, t);
        let s = with_meta(d, t);
        let r = with_meta(d, idx);
        let x = idx.last();
        assert(idx =~= t.push(x));
        assert forall|i: u64| #[trigger] r.contains(i) <==> idx.contains(i) && d.contains(
            meta_name_of(i),
        ) by {
            vstd::seq_lib::lemma_seq_contains_after_push(t, x, i);
            vstd::seq_lib::lemma_seq_contains_after_push(s, x, i);
        }
        assert forall|i: int, j: int| 0 <= i < j < r.len() implies #[trigger] r[i]
            < #[trigger] r[j] by {
            if j == s.len() {
                assert(s.contains(s[i]));
                assert(t.contains(s[i]));
                let k = choose|k: int| 0 <= k < t.len() && t[k] == s[i];
                assert(idx[k] < idx[idx.len() - 1]);
            }
        }
    }
}

/// A step of opening keeps a directory the store's own: what it renames
/// goes to a name of the store.
proof fn lemma_after_keeps_own(d: Seq<Seq<char>>, acts: Seq<Step>)
    requires
        is_own(d),
        forall|k: int|
            0 <= k < acts.len() ==> (#[trigger] acts[k] matches Step::Rename { to, .. }
                ==> exists|i: u64| to == snap_name_of(i) || to == meta_name_of(i)),
    ensures
        is_own(after(d, acts)),
    decreases acts.len(),
{
    if acts.len() > 0 {
        let s = acts.drop_last();
        assert(forall|k: int| 0 <= k < s.len() ==> #[trigger] s[k] == acts[k]);
        lemma_after_keeps_own(d, s);
        let e = after(d, s);
        let act = acts[acts.len() - 1];
        assert(act == acts.last());
        match act {
            Step::Remove(name) => {
                lemma_own_without(e, name);
            },
            Step::Rename { from, to } => {
                if e.contains(from) {
                    lemma_own_without(e, from);
                    let f = names::without(e, from);
                    lemma_own_without(f, to);
                    let i = choose|i: u64| to == snap_name_of(i) || to == meta_name_of(i);
                    names::lemma_without(f, to, to);
                    lemma_own_push(names::without(f, to), to, i);
                }
            },
        }
    }
}

proof fn lemma_own_without(d: Seq<Seq<char>>, name: Seq<char>)
    requires
        is_own(d),
    ensures
        is_own(names::without(d, name)),
{
    names::lemma_without_keeps(d, name);
    assert forall|x: Seq<char>| #[trigger] names::without(d, name).contains(x) implies d.contains(
        x,
    ) by {
        names::lemma_without(d, name, x);
    }
}

proof fn lemma_own_push(d: Seq<Seq<char>>, name: Seq<char>, i: u64)
    requires
        is_own(d),
        !d.contains(name),
        name == snap_name_of(i) || name == meta_name_of(i),
    ensures
        is_own(d.push(name)),
{
    law_names_read_back(i);
    names::lemma_push_new(d, name);
    assert forall|x: Seq<char>| #[trigger] d.push(name).contains(x) implies d.contains(x) || x
        == name by {
        names::lemma_contains_push(d, name, x);
    }
}

/// Whether a name is there after a snapshot of the older layout is moved.
proof fn lemma_moved(d: Seq<Seq<char>>, legacy: Option<u64>, x: Seq<char>)
    ensures
        after(d, legacy_steps(d, legacy)).contains(x) <==> (d.contains(x) && x != "current.snap"@
            && x != "current.meta"@) || (d.contains("current.snap"@) && d.contains(
            "current.meta"@,
        ) && legacy is Some && (x == snap_name_of(legacy->0) || x == meta_name_of(legacy->0))),
{
    let acts = legacy_steps(d, legacy);
    let d0 = after(d, acts.drop_last().drop_last());
    let d1 = after(d, acts.drop_last());
    assert(acts.drop_last().drop_last() =~= seq![]);
    assert(acts.drop_last().last() == acts[0]);
    assert(acts.last() == acts[1]);
    assert(d0 == d);
    if acts[0] is Rename {
        let i = legacy->0;
        let e = names::without(d0, "current.snap"@);
        let f = names::without(d1, "current.meta"@);
        lemma_current_names(i);
        assert forall|y: Seq<char>| #[trigger] d1.contains(y) <==> (d.contains(y) && y
            != "current.snap"@) || y == snap_name_of(i) by {
            names::lemma_without(d0, "current.snap"@, y);
            names::lemma_without(e, snap_name_of(i), y);
            names::lemma_contains_push(names::without(e, snap_name_of(i)), snap_name_of(i), y);
        }
        assert(d1.contains("current.meta"@));
        names::lemma_without(d1, "current.meta"@, x);
        names::lemma_without(f, meta_name_of(i), x);
        names::lemma_contains_push(names::without(f, meta_name_of(i)), meta_name_of(i), x);
    } else {
        names::lemma_without(d0, "current.snap"@, x);
        names::lemma_without(d1, "current.meta"@, x);
    }
}

/// The names of the older layout are not those of an index.
proof fn lemma_current_names(i: u64)
    ensures
        "current.snap"@ != "current.meta"@,
        snap_name_of(i) != "current.snap"@,
        snap_name_of(i) != "current.meta"@,
        meta_name_of(i) != "current.snap"@,
        meta_name_of(i) != "current.meta"@,
{
    reveal_strlit("current.snap");
    reveal_strlit("current.meta");
    reveal_strlit(".snap");
    reveal_strlit(".meta");
    parse::lemma_twenty_digits_read_back(i);
    assert("current.snap"@[8] == 's');
    assert("current.meta"@[8] == 'm');
    assert(snap_name_of(i).len() == 25);
    assert(meta_name_of(i).len() == 25);
}

/// Opening leaves no unfinished write, no half of a pair, and at most the
/// retained number of snapshots, whatever the directory held. Of a
/// directory of the store's own the newest pairs are the ones that stay,
/// that of the older layout among them where there is one; and opening
/// again changes nothing.
pub proof fn law_open_reconciles_the_directory(
    d: Seq<Seq<char>>,
    legacy: Option<u64>,
    retain: nat,
)
    ensures
        ({
            let left = after(d, open_steps(d, legacy, retain));
            let moved = after(d, legacy_steps(d, legacy));
            &&& forall|x: Seq<char>| #[trigger] left.contains(x) ==> !is_temp(x)
            &&& forall|i: u64| #[trigger]
                left.contains(snap_name_of(i)) <==> left.contains(meta_name_of(i))
            &&& exists|stay: Seq<u64>|
                stay.len() <= retain && forall|i: u64| #[trigger]
                    left.contains(snap_name_of(i)) ==> #[trigger] stay.contains(i)
            &&& is_own(d) ==> {
                &&& is_own(left)
                &&& climbs(pairs(moved))
                &&& sorted_indices(left) == kept(pairs(moved), retain)
                &&& forall|again: Option<u64>| #[trigger]
                    after(left, open_steps(left, again, retain)) == left
            }
        }),
{
    let a1 = temp_steps(d);
    let d1 = after(d, a1);
    let a2 = legacy_steps(d1, legacy);
    let d2 = after(d1, a2);
    let a3 = body_orphan_steps(d2, sorted_indices(d2));
    let d3 = after(d2, a3);
    let a4 = meta_orphan_steps(d3, d3);
    let d4 = after(d3, a4);
    let a5 = prune_steps(d4, retain);
    let left = after(d, open_steps(d, legacy, retain));
    assert(left == after(d4, a5)) by {
        lemma_after_concat(d, a1, a2);
        lemma_after_concat(d, a1 + a2, a3);
        lemma_after_concat(d, a1 + a2 + a3, a4);
        lemma_after_concat(d, a1 + a2 + a3 + a4, a5);
    }
    law_roll_off_keeps_the_newest(d4, retain);
    assert forall|x: Seq<char>| #[trigger] left.contains(x) implies !is_temp(x) by {
        if is_temp(x) {
            lemma_temp_steps(d, x);
            lemma_after_removes(d, a1, x);
            lemma_legacy_steps(d1, legacy, x);
            lemma_body_orphan_steps(d2, sorted_indices(d2), x);
            lemma_after_removes(d2, a3, x);
            lemma_meta_orphan_steps(d3, d3, x);
            lemma_after_removes(d3, a4, x);
            lemma_drop_steps(rolled_off(sorted_indices(d4), retain), x);
            lemma_after_removes(d4, a5, x);
        }
    }
    assert forall|i: u64| d4.contains(snap_name_of(i)) <==> d4.contains(meta_name_of(i)) by {
        lemma_pairs(d2, i);
    }
    assert forall|i: u64| #[trigger] left.contains(snap_name_of(i)) <==> left.contains(
        meta_name_of(i),
    ) by {
        assert(d4.contains(snap_name_of(i)) <==> d4.contains(meta_name_of(i)));
        assert(left.contains(meta_name_of(i)) <==> d4.contains(meta_name_of(i)) && !rolled_off(
            sorted_indices(d4),
            retain,
        ).contains(i));
    }
    let stay = kept(sorted_indices(d4), retain);
    assert(stay.len() <= retain && forall|i: u64| #[trigger]
        left.contains(snap_name_of(i)) ==> #[trigger] stay.contains(i));
    if is_own(d) {
        lemma_open_own(d, legacy, retain);
    }
}

/// What opening leaves of a directory of the store's own.
proof fn lemma_open_own(d: Seq<Seq<char>>, legacy: Option<u64>, retain: nat)
    requires
        is_own(d),
    ensures
        ({
            let left = after(d, open_steps(d, legacy, retain));
            let moved = after(d, legacy_steps(d, legacy));
            &&& is_own(left)
            &&& climbs(pairs(moved))
            &&& sorted_indices(left) == kept(pairs(moved), retain)
            &&& forall|again: Option<u64>| #[trigger]
                after(left, open_steps(left, again, retain)) == left
        }),
{
    let a1 = temp_steps(d);
    let d1 = after(d, a1);
    let a2 = legacy_steps(d1, legacy);
    let d2 = after(d1, a2);
    let idx2 = sorted_indices(d2);
    let a3 = body_orphan_steps(d2, idx2);
    let d3 = after(d2, a3);
    let a4 = meta_orphan_steps(d3, d3);
    let d4 = after(d3, a4);
    let idx = sorted_indices(d4);
    let a5 = prune_steps(d4, retain);
    let left = after(d, open_steps(d, legacy, retain));
    let moved = after(d, legacy_steps(d, legacy));
    assert(left == after(d4, a5)) by {
        lemma_after_concat(d, a1, a2);
        lemma_after_concat(d, a1 + a2, a3);
        lemma_after_concat(d, a1 + a2 + a3, a4);
        lemma_after_concat(d, a1 + a2 + a3 + a4, a5);
    }
    lemma_temp_steps(d, ""@);
    lemma_body_orphan_steps(d2, idx2, ""@);
    lemma_meta_orphan_steps(d3, d3, ""@);
    lemma_drop_steps(rolled_off(idx, retain), ""@);
    if legacy is Some {
        assert(snap_name_of(legacy->0) == snap_name_of(legacy->0));
    }
    lemma_after_keeps_own(d, a1);
    lemma_after_keeps_own(d1, a2);
    lemma_after_keeps_own(d2, a3);
    lemma_after_keeps_own(d3, a4);
    lemma_after_keeps_own(d4, a5);
    lemma_after_keeps_own(d, legacy_steps(d, legacy));
    lemma_own_indices(d4);
    lemma_own_indices(moved);
    lemma_own_indices(left);
    lemma_with_meta(moved, sorted_indices(moved));
    law_roll_off_keeps_the_newest(d4, retain);
    lemma_current_temp();
    assert forall|x: Seq<char>| #[trigger] d1.contains(x) <==> d.contains(x) && !is_temp(x) by {
        lemma_temp_steps(d, x);
        lemma_after_removes(d, a1, x);
    }
    assert forall|i: u64| #[trigger] idx.contains(i) <==> pairs(moved).contains(i) by {
        lemma_pair_stays(d2, i);
        law_names_read_back(i);
        lemma_moved(d1, legacy, snap_name_of(i));
        lemma_moved(d1, legacy, meta_name_of(i));
        lemma_moved(d, legacy, snap_name_of(i));
        lemma_moved(d, legacy, meta_name_of(i));
        assert(sorted_indices(moved).contains(i) <==> moved.contains(snap_name_of(i)));
    }
    lemma_same_members(idx, pairs(moved));
    let stays = kept(idx, retain);
    let gone = rolled_off(idx, retain);
    assert(climbs(stays));
    assert forall|i: u64| #[trigger] sorted_indices(left).contains(i) <==> stays.contains(i) by {
        assert(left.contains(snap_name_of(i)) <==> d4.contains(snap_name_of(i)) && !gone.contains(
            i,
        ));
        if stays.contains(i) {
            let k = choose|k: int| 0 <= k < stays.len() && stays[k] == i;
            assert(idx[k + gone.len()] == i);
            assert(idx.contains(i));
            if gone.contains(i) {
                let m = choose|m: int| 0 <= m < gone.len() && gone[m] == i;
                assert(idx[m] < idx[k + gone.len()]);
            }
        }
    }
    lemma_same_members(sorted_indices(left), stays);
    assert forall|again: Option<u64>| #[trigger]
        after(left, open_steps(left, again, retain)) == left by {
        lemma_reopen(d, legacy, retain, again);
    }
}

/// No name of the older layout is that of an unfinished write.
proof fn lemma_current_temp()
    ensures
        !is_temp("current.snap"@),
        !is_temp("current.meta"@),
{
    reveal_strlit("current.snap");
    reveal_strlit("current.meta");
    reveal_strlit(".tmp");
    assert("current.snap"@.skip(8)[0] == 's');
    assert("current.meta"@.skip(8)[0] == 'm');
    assert(".tmp"@[0] == '.');
}

/// Dropping halves of pairs keeps exactly the bodies that have metadata.
proof fn lemma_pair_stays(d2: Seq<Seq<char>>, i: u64)
    ensures
        ({
            let d3 = after(d2, body_orphan_steps(d2, sorted_indices(d2)));
            let d4 = after(d3, meta_orphan_steps(d3, d3));
            d4.contains(snap_name_of(i)) <==> d2.contains(snap_name_of(i)) && d2.contains(
                meta_name_of(i),
            )
        }),
{
    let idx = sorted_indices(d2);
    let a3 = body_orphan_steps(d2, idx);
    let d3 = after(d2, a3);
    let a4 = meta_orphan_steps(d3, d3);
    let s = snap_name_of(i);
    law_names_read_back(i);
    lemma_sorted_indices(d2);
    lemma_body_orphan_steps(d2, idx, s);
    lemma_after_removes(d2, a3, s);
    lemma_meta_orphan_steps(d3, d3, s);
    lemma_after_removes(d3, a4, s);
    if d2.contains(s) {
        let k = choose|k: int| 0 <= k < d2.len() && d2[k] == s;
        assert(body_index(d2[k]) == Some(i));
        assert(idx.contains(i));
        let p = choose|p: int| 0 <= p < idx.len() && idx[p] == i;
        if !d2.contains(meta_name_of(i)) {
            assert(s == snap_name_of(idx[p]));
        } else {
            assert forall|k: int| 0 <= k < idx.len() && s == snap_name_of(
                #[trigger] idx[k],
            ) implies d2.contains(meta_name_of(idx[k])) by {
                lemma_names_differ(i, idx[k]);
            }
        }
    }
}

/// Steps that there are none of.
proof fn lemma_no_temp(d: Seq<Seq<char>>)
    requires
        forall|x: Seq<char>| #[trigger] d.contains(x) ==> !is_temp(x),
    ensures
        temp_steps(d) == Seq::<Step>::empty(),
    decreases d.len(),
{
    if d.len() > 0 {
        let t = d.drop_last();
        assert(d =~= t.push(d.last()));
        assert forall|x: Seq<char>| #[trigger] t.contains(x) implies !is_temp(x) by {
            names::lemma_contains_push(t, d.last(), x);
        }
        assert(d.contains(d[d.len() - 1]));
        lemma_no_temp(t);
    }
}

proof fn lemma_no_body_orphan(d: Seq<Seq<char>>, idx: Seq<u64>)
    requires
        forall|i: u64| #[trigger] idx.contains(i) ==> d.contains(meta_name_of(i)),
    ensures
        body_orphan_steps(d, idx) == Seq::<Step>::empty(),
    decreases idx.len(),
{
    if idx.len() > 0 {
        let t = idx.drop_last();
        assert(idx =~= t.push(idx.last()));
        assert forall|i: u64| #[trigger] t.contains(i) implies d.contains(meta_name_of(i)) by {
            vstd::seq_lib::lemma_seq_contains_after_push(t, idx.last(), i);
        }
        assert(idx.contains(idx[idx.len() - 1]));
        lemma_no_body_orphan(d, t);
    }
}

proof fn lemma_no_meta_orphan(d: Seq<Seq<char>>, part: Seq<Seq<char>>)
    requires
        forall|x: Seq<char>| #[trigger] part.contains(x) ==> !is_meta_orphan(d, x),
    ensures
        meta_orphan_steps(d, part) == Seq::<Step>::empty(),
    decreases part.len(),
{
    if part.len() > 0 {
        let t = part.drop_last();
        assert(part =~= t.push(part.last()));
        assert forall|x: Seq<char>| #[trigger] t.contains(x) implies !is_meta_orphan(d, x) by {
            names::lemma_contains_push(t, part.last(), x);
        }
        assert(part.contains(part[part.len() - 1]));
        lemma_no_meta_orphan(d, t);
    }
}

/// A directory that is in order is left as it is by opening.
proof fn lemma_in_order_stays(left: Seq<Seq<char>>, again: Option<u64>, retain: nat)
    requires
        is_own(left),
        forall|x: Seq<char>| #[trigger] left.contains(x) ==> !is_temp(x),
        forall|i: u64| #[trigger]
            left.contains(snap_name_of(i)) <==> left.contains(meta_name_of(i)),
        !left.contains("current.snap"@),
        !left.contains("current.meta"@),
        sorted_indices(left).len() <= retain,
    ensures
        after(left, open_steps(left, again, retain)) == left,
{
    lemma_own_indices(left);
    lemma_no_temp(left);
    let none = Seq::<Step>::empty();
    let a2 = legacy_steps(left, again);
    assert(after(left, none) == left);
    assert(a2 == seq![Step::Remove("current.snap"@), Step::Remove("current.meta"@)]);
    names::lemma_without_keeps(left, "current.snap"@);
    names::lemma_without_keeps(left, "current.meta"@);
    assert(a2.drop_last().drop_last() =~= none);
    assert(a2.drop_last().last() == a2[0]);
    assert(after(left, a2.drop_last()) == left);
    assert(after(left, a2) == left);
    assert forall|i: u64| #[trigger] sorted_indices(left).contains(i) implies left.contains(
        meta_name_of(i),
    ) by {
        assert(left.contains(snap_name_of(i)));
    }
    lemma_no_body_orphan(left, sorted_indices(left));
    assert forall|x: Seq<char>| #[trigger] left.contains(x) implies !is_meta_orphan(left, x) by {
        if let Some(i) = meta_index(x) {
            assert(x == meta_name_of(i));
            assert(left.contains(snap_name_of(i)) <==> left.contains(meta_name_of(i)));
        }
    }
    lemma_no_meta_orphan(left, left);
    assert(prune_steps(left, retain) == none);
    assert(open_steps(left, again, retain) =~= a2);
}

/// Opening again changes nothing.
proof fn lemma_reopen(d: Seq<Seq<char>>, legacy: Option<u64>, retain: nat, again: Option<u64>)
    requires
        is_own(d),
        is_own(after(d, open_steps(d, legacy, retain))),
        sorted_indices(after(d, open_steps(d, legacy, retain))).len() <= retain,
    ensures
        ({
            let left = after(d, open_steps(d, legacy, retain));
            after(left, open_steps(left, again, retain)) == left
        }),
{
    let a1 = temp_steps(d);
    let d1 = after(d, a1);
    let a2 = legacy_steps(d1, legacy);
    let d2 = after(d1, a2);
    let a3 = body_orphan_steps(d2, sorted_indices(d2));
    let d3 = after(d2, a3);
    let a4 = meta_orphan_steps(d3, d3);
    let d4 = after(d3, a4);
    let a5 = prune_steps(d4, retain);
    let left = after(d, open_steps(d, legacy, retain));
    assert(left == after(d4, a5)) by {
        lemma_after_concat(d, a1, a2);
        lemma_after_concat(d, a1 + a2, a3);
        lemma_after_concat(d, a1 + a2 + a3, a4);
        lemma_after_concat(d, a1 + a2 + a3 + a4, a5);
    }
    law_roll_off_keeps_the_newest(d4, retain);
    assert forall|x: Seq<char>| #[trigger] left.contains(x) implies d2.contains(x) by {
        lemma_body_orphan_steps(d2, sorted_indices(d2), x);
        lemma_after_removes(d2, a3, x);
        lemma_meta_orphan_steps(d3, d3, x);
        lemma_after_removes(d3, a4, x);
        lemma_drop_steps(rolled_off(sorted_indices(d4), retain), x);
        lemma_after_removes(d4, a5, x);
    }
    assert forall|x: Seq<char>| #[trigger] left.contains(x) implies !is_temp(x) by {
        if is_temp(x) {
            lemma_temp_steps(d, x);
            lemma_after_removes(d, a1, x);
            lemma_legacy_steps(d1, legacy, x);
        }
    }
    if legacy is Some {
        lemma_current_names(legacy->0);
    }
    lemma_moved(d1, legacy, "current.snap"@);
    lemma_moved(d1, legacy, "current.meta"@);
    assert forall|i: u64| #[trigger] left.contains(snap_name_of(i)) <==> left.contains(
        meta_name_of(i),
    ) by {
        lemma_pairs(d2, i);
        assert(left.contains(meta_name_of(i)) <==> d4.contains(meta_name_of(i)) && !rolled_off(
            sorted_indices(d4),
            retain,
        ).contains(i));
    }
    lemma_in_order_stays(left, again, retain);
}

/// A directory after the pair of an index was written into it, in place of
/// one already there.
pub open spec fn with_pair(d: Seq<Seq<char>>, i: u64) -> Seq<Seq<char>> {
    with_file(with_file(d, snap_name_of(i)), meta_name_of(i))
}

/// A directory after a file was written into it, in place of one already
/// there.
pub open spec fn with_file(d: Seq<Seq<char>>, name: Seq<char>) -> Seq<Seq<char>> {
    names::without(d, name).push(name)
}

/// An index among others that climb.
pub open spec fn joined_in(s: Seq<u64>, i: u64) -> Seq<u64> {
    if s.contains(i) {
        s
    } else {
        put_in_order(s, i)
    }
}

proof fn lemma_with_file(d: Seq<Seq<char>>, name: Seq<char>, i: u64)
    requires
        is_own(d),
        name == snap_name_of(i) || name == meta_name_of(i),
    ensures
        is_own(with_file(d, name)),
        forall|x: Seq<char>| #[trigger]
            with_file(d, name).contains(x) <==> d.contains(x) || x == name,
{
    lemma_own_without(d, name);
    names::lemma_without(d, name, name);
    lemma_own_push(names::without(d, name), name, i);
    assert forall|x: Seq<char>| #[trigger] with_file(d, name).contains(x) <==> d.contains(x) || x
        == name by {
        names::lemma_without(d, name, x);
        names::lemma_contains_push(names::without(d, name), name, x);
    }
}

/// The indices after the pair of an index, or its body alone, was written.
proof fn lemma_written(d: Seq<Seq<char>>, i: u64)
    requires
        is_own(d),
    ensures
        is_own(with_file(d, snap_name_of(i))),
        is_own(with_pair(d, i)),
        sorted_indices(with_file(d, snap_name_of(i))) == joined_in(sorted_indices(d), i),
        sorted_indices(with_pair(d, i)) == joined_in(sorted_indices(d), i),
        joined_in(sorted_indices(d), i).len() <= sorted_indices(d).len() + 1,
{
    let e = with_file(d, snap_name_of(i));
    let f = with_pair(d, i);
    let s = sorted_indices(d);
    let r = joined_in(s, i);
    lemma_with_file(d, snap_name_of(i), i);
    lemma_with_file(e, meta_name_of(i), i);
    lemma_own_indices(d);
    lemma_own_indices(e);
    lemma_own_indices(f);
    lemma_sorted_indices(d);
    lemma_put_in_order(s, i);
    if !s.contains(i) {
        lemma_put_new(s, i);
    }
    assert forall|j: u64| #[trigger] sorted_indices(e).contains(j) <==> r.contains(j) by {
        lemma_names_differ(i, j);
        assert(e.contains(snap_name_of(j)) <==> d.contains(snap_name_of(j)) || i == j);
        assert(s.contains(j) <==> d.contains(snap_name_of(j)));
    }
    assert forall|j: u64| #[trigger] sorted_indices(f).contains(j) <==> r.contains(j) by {
        lemma_names_differ(j, i);
        assert(f.contains(snap_name_of(j)) <==> e.contains(snap_name_of(j)));
        assert(sorted_indices(e).contains(j) <==> e.contains(snap_name_of(j)));
    }
    lemma_same_members(sorted_indices(e), r);
    lemma_same_members(sorted_indices(f), r);
}

/// Roll-off of a directory of the store's own leaves exactly the newest.
proof fn lemma_rolled(d: Seq<Seq<char>>, keep: nat)
    requires
        is_own(d),
    ensures
        is_own(after(d, prune_steps(d, keep))),
        sorted_indices(after(d, prune_steps(d, keep))) == kept(sorted_indices(d), keep),
{
    let idx = sorted_indices(d);
    let gone = rolled_off(idx, keep);
    let stays = kept(idx, keep);
    let left = after(d, prune_steps(d, keep));
    lemma_drop_steps(gone, ""@);
    lemma_after_keeps_own(d, prune_steps(d, keep));
    lemma_own_indices(d);
    lemma_own_indices(left);
    law_roll_off_keeps_the_newest(d, keep);
    assert(climbs(stays));
    assert forall|i: u64| #[trigger] sorted_indices(left).contains(i) <==> stays.contains(i) by {
        assert(left.contains(snap_name_of(i)) <==> d.contains(snap_name_of(i)) && !gone.contains(
            i,
        ));
        if stays.contains(i) {
            let k = choose|k: int| 0 <= k < stays.len() && stays[k] == i;
            assert(idx[k + gone.len()] == i);
            assert(idx.contains(i));
            if gone.contains(i) {
                let m = choose|m: int| 0 <= m < gone.len() && gone[m] == i;
                assert(idx[m] < idx[k + gone.len()]);
            }
        }
    }
    lemma_same_members(sorted_indices(left), stays);
}

/// Storing a snapshot leaves the newest of those before, one fewer than
/// the limit, and the new one; where the volume was full at first, only the
/// new one, whether or not the body of the failed write was left behind.
/// At no moment are there more than the limit.
pub proof fn law_storing_keeps_the_newest_and_the_new_one(
    d: Seq<Seq<char>>,
    limit: nat,
    i: u64,
)
    requires
        is_own(d),
        limit >= 1,
    ensures
        ({
            let rolled = after(d, prune_steps(d, (limit - 1) as nat));
            let half = with_file(rolled, snap_name_of(i));
            let newest = kept(sorted_indices(d), (limit - 1) as nat);
            &&& sorted_indices(rolled) == newest
            &&& sorted_indices(rolled).len() < limit
            &&& sorted_indices(half).len() <= limit
            &&& sorted_indices(with_pair(rolled, i)) == joined_in(newest, i)
            &&& sorted_indices(with_pair(rolled, i)).len() <= limit
            &&& sorted_indices(with_pair(after(rolled, prune_steps(rolled, 0)), i)) == seq![i]
            &&& sorted_indices(with_pair(after(half, prune_steps(half, 0)), i)) == seq![i]
            &&& forall|x: Seq<char>| #[trigger]
                with_pair(rolled, i).contains(x) ==> d.contains(x) || x == snap_name_of(i) || x
                    == meta_name_of(i)
        }),
{
    let keep = (limit - 1) as nat;
    let rolled = after(d, prune_steps(d, keep));
    let half = with_file(rolled, snap_name_of(i));
    lemma_rolled(d, keep);
    lemma_written(rolled, i);
    lemma_rolled(rolled, 0);
    lemma_rolled(half, 0);
    let bare = after(rolled, prune_steps(rolled, 0));
    let swept = after(half, prune_steps(half, 0));
    assert(sorted_indices(bare) =~= seq![]);
    assert(sorted_indices(swept) =~= seq![]);
    lemma_written(bare, i);
    lemma_written(swept, i);
    lemma_with_file(rolled, snap_name_of(i), i);
    lemma_with_file(half, meta_name_of(i), i);
    assert forall|x: Seq<char>| #[trigger] with_pair(rolled, i).contains(x) implies d.contains(x)
        || x == snap_name_of(i) || x == meta_name_of(i) by {
        assert(half.contains(x) || x == meta_name_of(i));
        lemma_drop_steps(rolled_off(sorted_indices(d), keep), x);
        lemma_after_removes(d, prune_steps(d, keep), x);
    }
}

/// Once halves of pairs are dropped, body and metadata of an index are
/// both there or both gone.
proof fn lemma_pairs(d2: Seq<Seq<char>>, i: u64)
    ensures
        ({
            let d3 = after(d2, body_orphan_steps(d2, sorted_indices(d2)));
            let d4 = after(d3, meta_orphan_steps(d3, d3));
            d4.contains(snap_name_of(i)) <==> d4.contains(meta_name_of(i))
        }),
{
    let idx = sorted_indices(d2);
    let a3 = body_orphan_steps(d2, idx);
    let d3 = after(d2, a3);
    let a4 = meta_orphan_steps(d3, d3);
    let s = snap_name_of(i);
    let m = meta_name_of(i);
    law_names_read_back(i);
    lemma_sorted_indices(d2);
    lemma_body_orphan_steps(d2, idx, s);
    lemma_after_removes(d2, a3, s);
    lemma_body_orphan_steps(d2, idx, m);
    lemma_after_removes(d2, a3, m);
    lemma_meta_orphan_steps(d3, d3, s);
    lemma_after_removes(d3, a4, s);
    lemma_meta_orphan_steps(d3, d3, m);
    lemma_after_removes(d3, a4, m);
    assert forall|k: int| 0 <= k < idx.len() implies m != snap_name_of(#[trigger] idx[k]) by {
        lemma_names_differ(idx[k], i);
    }
    if d2.contains(s) {
        let k = choose|k: int| 0 <= k < d2.len() && d2[k] == s;
        assert(body_index(d2[k]) == Some(i));
        assert(idx.contains(i));
        let p = choose|p: int| 0 <= p < idx.len() && idx[p] == i;
        if !d2.contains(m) {
            assert(s == snap_name_of(idx[p]));
        } else {
            assert forall|k: int| 0 <= k < idx.len() && s == snap_name_of(
                #[trigger] idx[k],
            ) implies d2.contains(meta_name_of(idx[k])) by {
                lemma_names_differ(i, idx[k]);
            }
        }
    }
}

/// One name comes before another in a listing.
pub open spec fn sorts_before(a: Seq<char>, b: Seq<char>) -> bool
    decreases a.len(),
{
    if b.len() == 0 {
        false
    } else if a.len() == 0 {
        true
    } else if a[0] == b[0] {
        sorts_before(a.skip(1), b.skip(1))
    } else {
        a[0] < b[0]
    }
}

proof fn lemma_not_before_itself(a: Seq<char>)
    ensures
        !sorts_before(a, a),
    decreases a.len(),
{
    if a.len() > 0 {
        lemma_not_before_itself(a.skip(1));
    }
}

/// Names of one length that differ in order keep it when extended, and
/// one is never on both sides of the other.
proof fn lemma_before_extends(a: Seq<char>, b: Seq<char>, x: Seq<char>, y: Seq<char>)
    requires
        a.len() == b.len(),
        sorts_before(a, b),
    ensures
        sorts_before(a + x, b + y),
        !sorts_before(b + y, a + x),
    decreases a.len(),
{
    let p = a + x;
    let q = b + y;
    assert(p[0] == a[0] && q[0] == b[0]);
    if a[0] == b[0] {
        assert(p.skip(1) =~= a.skip(1) + x);
        assert(q.skip(1) =~= b.skip(1) + y);
        lemma_before_extends(a.skip(1), b.skip(1), x, y);
    }
}

/// After a common beginning, what follows decides.
proof fn lemma_before_after_prefix(p: Seq<char>, x: char, y: char)
    ensures
        sorts_before(p.push(x), p.push(y)) <==> x < y,
    decreases p.len(),
{
    let a = p.push(x);
    let b = p.push(y);
    if p.len() == 0 {
        assert(a.skip(1) =~= b.skip(1));
        lemma_not_before_itself(a.skip(1));
    } else {
        assert(a.skip(1) =~= p.skip(1).push(x));
        assert(b.skip(1) =~= p.skip(1).push(y));
        lemma_before_after_prefix(p.skip(1), x, y);
    }
}

/// Digits of a fixed width sort as the numbers do.
proof fn lemma_digits_sort(a: nat, b: nat, w: nat)
    requires
        a < parse::pow10(w),
        b < parse::pow10(w),
    ensures
        sorts_before(text::dec_fixed(a, w), text::dec_fixed(b, w)) <==> a < b,
    decreases w,
{
    if w > 0 {
        let m = (w - 1) as nat;
        lemma_digits_sort(a / 10, b / 10, m);
        lemma_digits_sort(b / 10, a / 10, m);
        parse::lemma_fixed_reads_back(a / 10, m);
        parse::lemma_fixed_reads_back(b / 10, m);
        let p = text::dec_fixed(a / 10, m);
        let q = text::dec_fixed(b / 10, m);
        let x = text::digit_char((a % 10) as int);
        let y = text::digit_char((b % 10) as int);
        assert(p.push(x) =~= p + seq![x]);
        assert(q.push(y) =~= q + seq![y]);
        if a / 10 < b / 10 {
            lemma_before_extends(p, q, seq![x], seq![y]);
        } else if b / 10 < a / 10 {
            lemma_before_extends(q, p, seq![y], seq![x]);
        } else {
            lemma_before_after_prefix(p, x, y);
            assert(x < y <==> a % 10 < b % 10);
        }
    }
}

/// The names of bodies sort as the indices do, so that a listing in order
/// of names is one from the oldest to the newest.
pub proof fn law_names_sort_by_index(i: u64, j: u64)
    ensures
        sorts_before(snap_name_of(i), snap_name_of(j)) <==> i < j,
{
    parse::lemma_twenty_digits_read_back(i);
    parse::lemma_twenty_digits_read_back(j);
    assert(parse::pow10(20) == 100_000_000_000_000_000_000) by {
        reveal_with_fuel(parse::pow10, 21);
    }
    lemma_digits_sort(i as nat, j as nat, 20);
    lemma_digits_sort(j as nat, i as nat, 20);
    let a = text::dec_fixed(i as nat, 20);
    let b = text::dec_fixed(j as nat, 20);
    if i < j {
        lemma_before_extends(a, b, ".snap"@, ".snap"@);
    } else if j < i {
        lemma_before_extends(b, a, ".snap"@, ".snap"@);
    } else {
        lemma_not_before_itself(snap_name_of(i));
    }
}

/// Removing a name takes that name out and leaves every other; renaming
/// one that is there takes it out and brings in the new one, and renaming
/// one that is not there does nothing.
pub proof fn law_step_touches_the_names_it_names(
    d: Seq<Seq<char>>,
    name: Seq<char>,
    to: Seq<char>,
    x: Seq<char>,
)
    ensures
        after_step(d, Step::Remove(name)).contains(x) <==> d.contains(x) && x != name,
        d.contains(name) ==> (after_step(d, Step::Rename { from: name, to }).contains(x) <==> x
            == to || (d.contains(x) && x != name)),
        !d.contains(name) ==> after_step(d, Step::Rename { from: name, to }) == d,
{
    names::lemma_without(d, name, x);
    names::lemma_without(names::without(d, name), to, x);
    names::lemma_contains_push(names::without(names::without(d, name), to), to, x);
}

/// Steps are carried out one after another, and an action is the step that
/// it holds.
pub proof fn law_steps_are_carried_out_in_order(
    d: Seq<Seq<char>>,
    ss: Seq<Step>,
    s: Step,
    acts: Seq<DirAction>,
    i: int,
)
    ensures
        after(d, seq![]) == d,
        after(d, ss.push(s)) == after_step(after(d, ss), s),
        steps(acts).len() == acts.len(),
        0 <= i < acts.len() ==> {
            &&& acts[i] matches DirAction::Remove(name) ==> steps(acts)[i] == Step::Remove(name@)
            &&& acts[i] matches DirAction::Rename { from, to } ==> steps(acts)[i] == (
            Step::Rename { from: from@, to: to@ })
        },
{
    assert(ss.push(s).drop_last() =~= ss);
}

/// A snapshot is kept under its index in twenty digits, the body and the
/// metadata each with its own ending, and nothing else is taken for one.
pub proof fn law_snapshot_is_named_by_its_index(i: u64, name: Seq<char>)
    ensures
        snap_name_of(i) == text::dec_fixed(i as nat, 20) + ".snap"@,
        meta_name_of(i) == text::dec_fixed(i as nat, 20) + ".meta"@,
        !parse::has_suffix(name, ".snap"@) ==> body_index(name) is None,
        !parse::has_suffix(name, ".meta"@) ==> meta_index(name) is None,
        parse::has_suffix(name, ".snap"@) ==> body_index(name) == parse::number(
            name.take(name.len() - 5),
        ),
        parse::has_suffix(name, ".meta"@) ==> meta_index(name) == parse::number(
            name.take(name.len() - 5),
        ),
        is_temp(name) <==> parse::has_suffix(name, ".tmp"@),
        DEFAULT_RETAIN == 1,
{
}

/// The indices of a directory are those that its names give, one for each
/// body, in ascending order.
pub proof fn law_indices_are_those_of_the_bodies(d: Seq<Seq<char>>, x: Seq<char>, i: u64)
    ensures
        sorted_indices(seq![]).len() == 0,
        body_index(x) is None ==> sorted_indices(d.push(x)) == sorted_indices(d),
        body_index(x) is Some ==> sorted_indices(d.push(x)).len() == sorted_indices(d).len() + 1,
        sorted_indices(d).contains(i) <==> exists|k: int|
            0 <= k < d.len() && #[trigger] body_index(d[k]) == Some(i),
        forall|a: int, b: int|
            0 <= a < b < sorted_indices(d).len() ==> #[trigger] sorted_indices(d)[a]
                <= #[trigger] sorted_indices(d)[b],
{
    assert(d.push(x).drop_last() =~= d);
    lemma_sorted_indices(d);
    if body_index(x) is Some {
        lemma_put_in_order(sorted_indices(d), body_index(x)->0);
    }
}

/// Opening removes exactly the unfinished writes, each once; then a body
/// exactly where its metadata is missing, and metadata exactly where its
/// body is; and of a snapshot that rolls off both.
pub proof fn law_opening_removes_what_is_unfinished(
    d: Seq<Seq<char>>,
    part: Seq<Seq<char>>,
    x: Seq<char>,
    idx: Seq<u64>,
    i: u64,
)
    ensures
        temp_steps(seq![]).len() == 0,
        parse::has_suffix(x, ".tmp"@) ==> temp_steps(d.push(x)) == temp_steps(d).push(
            Step::Remove(x),
        ),
        !parse::has_suffix(x, ".tmp"@) ==> temp_steps(d.push(x)) == temp_steps(d),
        body_orphan_steps(d, seq![]).len() == 0,
        d.contains(meta_name_of(i)) ==> body_orphan_steps(d, idx.push(i)) == body_orphan_steps(
            d,
            idx,
        ),
        !d.contains(meta_name_of(i)) ==> body_orphan_steps(d, idx.push(i)) == body_orphan_steps(
            d,
            idx,
        ).push(Step::Remove(snap_name_of(i))),
        meta_orphan_steps(d, seq![]).len() == 0,
        meta_index(x) is Some && !d.contains(snap_name_of(meta_index(x)->0)) ==> meta_orphan_steps(
            d,
            part.push(x),
        ) == meta_orphan_steps(d, part).push(Step::Remove(x)),
        meta_index(x) is None || d.contains(snap_name_of(meta_index(x)->0)) ==> meta_orphan_steps(
            d,
            part.push(x),
        ) == meta_orphan_steps(d, part),
        drop_steps(seq![]).len() == 0,
        drop_steps(idx.push(i)) == drop_steps(idx).push(Step::Remove(snap_name_of(i))).push(
            Step::Remove(meta_name_of(i)),
        ),
{
    assert(d.push(x).drop_last() =~= d);
    assert(idx.push(i).drop_last() =~= idx);
    assert(part.push(x).drop_last() =~= part);
}

/// A snapshot of the older layout is moved to the names of its index where
/// both halves are there and it can be read, and dropped otherwise; either
/// way the older names are gone.
pub proof fn law_older_layout_is_moved_or_dropped(
    d: Seq<Seq<char>>,
    index: Option<u64>,
    x: Seq<char>,
)
    ensures
        ({
            let left = after(d, legacy_steps(d, index));
            let whole = d.contains("current.snap"@) && d.contains("current.meta"@) && index
                is Some;
            &&& whole ==> (left.contains(x) <==> x == snap_name_of(index->0) || x == meta_name_of(
                index->0,
            ) || (d.contains(x) && x != "current.snap"@ && x != "current.meta"@))
            &&& !whole ==> (left.contains(x) <==> d.contains(x) && x != "current.snap"@ && x
                != "current.meta"@)
        }),
{
    lemma_moved(d, index, x);
}

/// As many of the newest stay as are to be kept, or all where there are no
/// more; the rest, which are the oldest, roll off.
pub proof fn law_as_many_stay_as_are_to_be_kept(idx: Seq<u64>, keep: nat)
    ensures
        idx.len() <= keep ==> kept(idx, keep) == idx && rolled_off(idx, keep).len() == 0,
        idx.len() > keep ==> kept(idx, keep).len() == keep && rolled_off(idx, keep).len()
            == idx.len() - keep,
        rolled_off(idx, keep) + kept(idx, keep) == idx,
{
    assert(rolled_off(idx, keep) + kept(idx, keep) =~= idx);
}

/// Rolling off is dropping the snapshots that roll off; opening drops
/// unfinished writes, moves the older layout, drops halves of pairs and
/// rolls off, each on what the one before leaves.
pub proof fn law_opening_goes_step_by_step(
    d: Seq<Seq<char>>,
    legacy: Option<u64>,
    retain: nat,
)
    ensures
        prune_steps(d, retain) == drop_steps(rolled_off(sorted_indices(d), retain)),
        ({
            let d1 = after(d, temp_steps(d));
            let d2 = after(d1, legacy_steps(d1, legacy));
            let d3 = after(d2, body_orphan_steps(d2, sorted_indices(d2)));
            let d4 = after(d3, meta_orphan_steps(d3, d3));
            after(d, open_steps(d, legacy, retain)) == after(d4, prune_steps(d4, retain))
        }),
{
    let a1 = temp_steps(d);
    let d1 = after(d, a1);
    let a2 = legacy_steps(d1, legacy);
    let d2 = after(d1, a2);
    let a3 = body_orphan_steps(d2, sorted_indices(d2));
    let d3 = after(d2, a3);
    let a4 = meta_orphan_steps(d3, d3);
    let d4 = after(d3, a4);
    let a5 = prune_steps(d4, retain);
    lemma_after_concat(d, a1, a2);
    lemma_after_concat(d, a1 + a2, a3);
    lemma_after_concat(d, a1 + a2 + a3, a4);
    lemma_after_concat(d, a1 + a2 + a3 + a4, a5);
}

/// A full volume is told by the codes of its operating system: 28 on Unix,
/// 39 or 112 on Windows; where the codes mean nothing, never.
pub proof fn law_full_volume_is_told_by_its_code(code: i32)
    ensures
        full_volume(Platform::Unix, Some(code)) <==> code == 28,
        full_volume(Platform::Windows, Some(code)) <==> code == 39 || code == 112,
        !full_volume(Platform::Other, Some(code)),
        !full_volume(Platform::Unix, None),
        !full_volume(Platform::Windows, None),
        !full_volume(Platform::Other, None),
{
}

/// A path is the directory and the name with one slash between them; a
/// slash that is there already is not doubled, and no directory is the
/// name alone.
pub proof fn law_path_has_one_slash_between(dir: Seq<char>, name: Seq<char>)
    ensures
        joined(seq![], name) == name,
        joined(dir.push('/'), name) == dir.push('/') + name,
        dir.len() > 0 && dir.last() != '/' ==> joined(dir, name) == dir + "/"@ + name,
{
}

/// A snapshot is filed under the index of the last entry it covers, and
/// under zero where it covers none; one whose metadata does not read is
/// filed nowhere.
pub proof fn law_snapshot_is_filed_under_its_place(
    bytes: Seq<u8>,
    meta: SnapshotMeta,
    file: Option<Vec<u8>>,
)
    ensures
        stored::meta_of(bytes) is None ==> filed_under(bytes) is None,
        stored::meta_of(bytes) == Some(stored::meta_parts(meta)) ==> {
            &&& meta.last_log_id matches Some(l) ==> filed_under(bytes) == Some(l.index)
            &&& meta.last_log_id is None ==> filed_under(bytes) == Some(0u64)
        },
        file is None ==> meta_in(file) is None,
        file matches Some(b) ==> meta_in(file) == stored::meta_of(b@),
{
}

/// The metadata that is reported is that of the newest file that reads:
/// of no file that is followed by one that reads, and none where none
/// reads.
pub proof fn law_newest_readable_metadata_is_reported(
    r: Option<SnapshotMeta>,
    files: Seq<Option<Vec<u8>>>,
    i: int,
)
    requires
        is_latest(r, files),
        0 <= i < files.len(),
        meta_in(files[i]) is Some,
        forall|j: int| i < j < files.len() ==> meta_in(#[trigger] files[j]) is None,
    ensures
        r is Some,
        meta_in(files[i]) == Some(stored::meta_parts(r->0)),
        r->0.last_membership.membership.wf(),
{
    assert(!(meta_in(files[i]) is None));
    let k = choose|k: int|
        0 <= k < files.len() && meta_in(#[trigger] files[k]) == Some(stored::meta_parts(r->0))
            && forall|j: int| k < j < files.len() ==> meta_in(#[trigger] files[j]) is None;
    if k < i {
        assert(meta_in(files[i]) is None);
    }
    if i < k {
        assert(meta_in(files[k]) is None);
    }
}

/// A file that is written into a directory is there, once, and every other
/// file stays.
pub proof fn law_written_file_joins_the_others(
    d: Seq<Seq<char>>,
    name: Seq<char>,
    x: Seq<char>,
    i: u64,
)
    ensures
        with_file(d, name).contains(x) <==> x == name || d.contains(x),
        with_pair(d, i).contains(x) <==> x == snap_name_of(i) || x == meta_name_of(i)
            || d.contains(x),
{
    names::lemma_without(d, name, x);
    names::lemma_contains_push(names::without(d, name), name, x);
    let b = with_file(d, snap_name_of(i));
    names::lemma_without(d, snap_name_of(i), x);
    names::lemma_contains_push(names::without(d, snap_name_of(i)), snap_name_of(i), x);
    names::lemma_without(b, meta_name_of(i), x);
    names::lemma_contains_push(names::without(b, meta_name_of(i)), meta_name_of(i), x);
}

/// The pairs of a directory are the indices whose body and metadata are
/// both there, in order.
pub proof fn law_pairs_have_both_halves(d: Seq<Seq<char>>, idx: Seq<u64>, i: u64)
    ensures
        with_meta(d, seq![]).len() == 0,
        d.contains(meta_name_of(i)) ==> with_meta(d, idx.push(i)) == with_meta(d, idx).push(i),
        !d.contains(meta_name_of(i)) ==> with_meta(d, idx.push(i)) == with_meta(d, idx),
        pairs(d) == with_meta(d, sorted_indices(d)),
        idx.contains(i) ==> joined_in(idx, i) == idx,
        !idx.contains(i) ==> joined_in(idx, i) == put_in_order(idx, i),
{
    assert(idx.push(i).drop_last() =~= idx);
}

} // verus!
