//! The replicated log held in memory.

use vstd::prelude::*;
use crate::idmap::{self, IdMap};
use crate::kv_log_store::{IndexBound, LogState};
use crate::types::LogId;

verus! {

/// An entry of the log.
#[derive(Debug)]
pub struct Entry<P> {
    pub log_id: LogId,
    pub payload: P,
}

/// A vote for a leader of a term, and whether a quorum granted it.
#[derive(Debug, Clone, Copy, PartialEq, Eq, Structural)]
pub struct Vote {
    pub term: u64,
    pub node_id: u64,
    pub committed: bool,
}

/// A log store in memory.
#[derive(Debug)]
pub struct MemLogStore<P> {
    log: IdMap<Entry<P>>,
    last_purged_log_id: Option<LogId>,
    vote: Option<Vote>,
    committed: Option<LogId>,
}

/// An index lies within two bounds.
pub open spec fn within(lo: IndexBound, i: u64, hi: IndexBound) -> bool {
    (match lo {
        IndexBound::Included(a) => a <= i,
        IndexBound::Excluded(a) => a < i,
        IndexBound::Unbounded => true,
    }) && (match hi {
        IndexBound::Included(b) => i <= b,
        IndexBound::Excluded(b) => i < b,
        IndexBound::Unbounded => true,
    })
}

/// An index lies within two bounds.
fn is_within(lo: IndexBound, i: u64, hi: IndexBound) -> (r: bool)
    ensures
        r == within(lo, i, hi),
{
    (match lo {
        IndexBound::Included(a) => a <= i,
        IndexBound::Excluded(a) => a < i,
        IndexBound::Unbounded => true,
    }) && (match hi {
        IndexBound::Included(b) => i <= b,
        IndexBound::Excluded(b) => i < b,
        IndexBound::Unbounded => true,
    })
}

/// The log after entries were stored under their indices in turn.
pub open spec fn stored<P>(log: Map<u64, Entry<P>>, entries: Seq<Entry<P>>) -> Map<u64, Entry<P>>
    decreases entries.len(),
{
    if entries.len() == 0 {
        log
    } else {
        stored(log, entries.drop_last()).insert(entries.last().log_id.index, entries.last())
    }
}

impl<P> MemLogStore<P> {
    /// The entries by index.
    pub closed spec fn log(self) -> Map<u64, Entry<P>> {
        self.log@
    }

    /// What was purged last.
    pub closed spec fn purged(self) -> Option<LogId> {
        self.last_purged_log_id
    }

    /// The vote that was saved last.
    pub closed spec fn voted(self) -> Option<Vote> {
        self.vote
    }

    /// The commit position that was saved last.
    pub closed spec fn commit(self) -> Option<LogId> {
        self.committed
    }

    /// The entries are kept in order of their indices.
    pub closed spec fn wf(self) -> bool {
        self.log.wf()
    }

    /// An empty log.
    pub fn new() -> (r: MemLogStore<P>)
        ensures
            r.wf(),
            r.log() == Map::<u64, Entry<P>>::empty(),
            r.purged() is None,
            r.voted() is None,
            r.commit() is None,
    {
        MemLogStore { log: IdMap::new(), last_purged_log_id: None, vote: None, committed: None }
    }

    /// The entries within a range of indices, in order.
    pub fn try_get_log_entries(&self, lo: IndexBound, hi: IndexBound) -> (r: Vec<&Entry<P>>)
        requires
            self.wf(),
        ensures
            exists|at: Seq<u64>| #[trigger]
                listed(self.log(), at, lo, hi) && r@.len() == at.len() && forall|j: int|
                    #![trigger r@[j]]
                    0 <= j < r@.len() ==> *r@[j] == self.log()[at[j]],
    {
        let mut out: Vec<&Entry<P>> = Vec::new();
        let ghost mut at: Seq<u64> = seq![];
        let ghost s = self.log.entries@;
        let n: usize = self.log.entries.len();
        let mut i: usize = 0;
        while i < n
            invariant
                i <= n == self.log.entries@.len(),
                s == self.log.entries@,
                self.wf(),
                out@.len() == at.len(),
                forall|j: int, k: int|
                    0 <= j < k < at.len() ==> #[trigger] at[j] < #[trigger] at[k],
                forall|j: int|
                    0 <= j < at.len() ==> self.log@.contains_key(#[trigger] at[j]) && within(
                        lo,
                        at[j],
                        hi,
                    ) && *out@[j] == self.log@[at[j]],
                forall|j: int|
                    0 <= j < at.len() ==> exists|m: int|
                        0 <= m < i && (#[trigger] s[m]).id == #[trigger] at[j],
                forall|m: int|
                    0 <= m < i && within(lo, (#[trigger] s[m]).id, hi) ==> at.contains(s[m].id),
            decreases n - i,
        {
            let e = &self.log.entries[i];
            proof {
                idmap::lemma_entry(s, i as int);
            }
            let ghost before = at;
            if is_within(lo, e.id, hi) {
                out.push(&e.value);
                proof {
                    at = at.push(e.id);
                    assert(at[before.len() as int] == e.id);
                    assert forall|m: int| 0 <= m < i + 1 && within(
                        lo,
                        (#[trigger] s[m]).id,
                        hi,
                    ) implies at.contains(s[m].id) by {
                        if m < i {
                            let p = choose|p: int| 0 <= p < before.len() && before[p] == s[m].id;
                            assert(at[p] == s[m].id);
                        }
                    }
                    assert forall|j: int| 0 <= j < at.len() implies exists|m: int|
                        0 <= m < i + 1 && (#[trigger] s[m]).id == #[trigger] at[j] by {
                        if j < before.len() {
                            assert(before[j] == at[j]);
                            let m = choose|m: int|
                                0 <= m < i && (#[trigger] s[m]).id == before[j];
                            assert(s[m].id == at[j]);
                        } else {
                            assert(s[i as int].id == at[j]);
                        }
                    }
                }
            } else {
                assert forall|j: int| 0 <= j < at.len() implies exists|m: int|
                    0 <= m < i + 1 && (#[trigger] s[m]).id == #[trigger] at[j] by {
                    let m = choose|m: int| 0 <= m < i && (#[trigger] s[m]).id == at[j];
                    assert(s[m].id == at[j]);
                }
            }
            i += 1;
        }
        proof {
            assert forall|k: u64| #[trigger] self.log@.contains_key(k) && within(
                lo,
                k,
                hi,
            ) implies at.contains(k) by {
                let m = idmap::lemma_present(s, k);
                assert(s[m].id == k);
            }
            assert(listed(self.log(), at, lo, hi));
        }
        out
    }

    /// How far the log reaches: to the entry of the highest index or,
    /// with none held, to what was purged last.
    pub fn get_log_state(&self) -> (r: LogState)
        requires
            self.wf(),
        ensures
            r.last_purged_log_id == self.purged(),
            self.log().dom().is_empty() ==> r.last_log_id == self.purged(),
            !self.log().dom().is_empty() ==> exists|i: u64|
                #![trigger self.log().contains_key(i)]
                self.log().contains_key(i) && (forall|j: u64| #[trigger]
                    self.log().contains_key(j) ==> j <= i) && r.last_log_id == Some(
                    self.log()[i].log_id,
                ),
    {
        let n: usize = self.log.entries.len();
        let ghost s = self.log.entries@;
        let last_log_id: Option<LogId>;
        if n == 0 {
            last_log_id = self.last_purged_log_id;
            assert forall|k: u64| !self.log().contains_key(k) by {
                if self.log().contains_key(k) {
                    let m = idmap::lemma_present(s, k);
                }
            }
        } else {
            let e = &self.log.entries[n - 1];
            last_log_id = Some(e.value.log_id);
            proof {
                idmap::lemma_entry(s, n - 1);
                assert(self.log().contains_key(e.id));
                assert(self.log().dom().contains(e.id));
                assert forall|j: u64| #[trigger] self.log().contains_key(j) implies j <= e.id by {
                    let m = idmap::lemma_present(s, j);
                    assert(s[m].id == j);
                }
            }
        }
        LogState { last_purged_log_id: self.last_purged_log_id, last_log_id }
    }

    /// Save a vote.
    pub fn save_vote(&mut self, vote: Vote)
        requires
            old(self).wf(),
        ensures
            final(self).wf(),
            final(self).voted() == Some(vote),
            final(self).log() == old(self).log(),
            final(self).purged() == old(self).purged(),
            final(self).commit() == old(self).commit(),
    {
        self.vote = Some(vote);
    }

    /// The vote that was saved last.
    pub fn read_vote(&self) -> (r: Option<Vote>)
        ensures
            r == self.voted(),
    {
        self.vote
    }

    /// Save the commit position.
    pub fn save_committed(&mut self, committed: Option<LogId>)
        requires
            old(self).wf(),
        ensures
            final(self).wf(),
            final(self).commit() == committed,
            final(self).log() == old(self).log(),
            final(self).purged() == old(self).purged(),
            final(self).voted() == old(self).voted(),
    {
        self.committed = committed;
    }

    /// The commit position that was saved last.
    pub fn read_committed(&self) -> (r: Option<LogId>)
        ensures
            r == self.commit(),
    {
        self.committed
    }

    /// Store entries under their indices.
    pub fn append(&mut self, entries: Vec<Entry<P>>)
        requires
            old(self).wf(),
        ensures
            final(self).wf(),
            final(self).log() == stored(old(self).log(), entries@),
            final(self).purged() == old(self).purged(),
            final(self).voted() == old(self).voted(),
            final(self).commit() == old(self).commit(),
    {
        let ghost given = entries@;
        let ghost start = *self;
        for entry in it: entries
            invariant
                it.seq() == given,
                self.wf(),
                self.log() == stored(start.log(), given.take(it.index())),
                self.purged() == start.purged(),
                self.voted() == start.voted(),
                self.commit() == start.commit(),
        {
            proof {
                let k = it.index();
                assert(given.take(k + 1).drop_last() =~= given.take(k));
                assert(entry == given[k]);
            }
            self.log.insert(entry.log_id.index, entry);
        }
        assert(given.take(given.len() as int) =~= given);
    }

    /// Drop the entries from an index on.
    pub fn truncate(&mut self, log_id: LogId)
        requires
            old(self).wf(),
        ensures
            final(self).wf(),
            final(self).log() == old(self).log().restrict(Set::new(|k: u64| k < log_id.index)),
            final(self).purged() == old(self).purged(),
            final(self).voted() == old(self).voted(),
            final(self).commit() == old(self).commit(),
    {
        self.log.keep_below(log_id.index);
    }

    /// Drop the entries up to an index, and record it as purged.
    pub fn purge(&mut self, log_id: LogId)
        requires
            old(self).wf(),
        ensures
            final(self).wf(),
            final(self).log() == old(self).log().restrict(Set::new(|k: u64| k > log_id.index)),
            final(self).purged() == Some(log_id),
            final(self).voted() == old(self).voted(),
            final(self).commit() == old(self).commit(),
    {
        self.log.keep_above(log_id.index);
        self.last_purged_log_id = Some(log_id);
    }
}

/// A list holds, in ascending order, exactly the indices of a log that lie
/// within two bounds.
pub open spec fn listed<P>(
    log: Map<u64, Entry<P>>,
    at: Seq<u64>,
    lo: IndexBound,
    hi: IndexBound,
) -> bool {
    &&& forall|j: int, k: int| 0 <= j < k < at.len() ==> #[trigger] at[j] < #[trigger] at[k]
    &&& forall|j: int|
        0 <= j < at.len() ==> log.contains_key(#[trigger] at[j]) && within(lo, at[j], hi)
    &&& forall|k: u64| #[trigger] log.contains_key(k) && within(lo, k, hi) ==> at.contains(k)
}

/// An index lies within its bounds exactly when neither bound leaves it
/// out: an included one holds itself, an excluded one does not, and no
/// bound leaves nothing out.
pub proof fn law_bounds_hold_what_they_say(a: u64, i: u64, b: u64)
    ensures
        within(IndexBound::Included(a), i, IndexBound::Included(b)) <==> a <= i <= b,
        within(IndexBound::Included(a), i, IndexBound::Excluded(b)) <==> a <= i < b,
        within(IndexBound::Excluded(a), i, IndexBound::Included(b)) <==> a < i <= b,
        within(IndexBound::Excluded(a), i, IndexBound::Excluded(b)) <==> a < i < b,
        within(IndexBound::Unbounded, i, IndexBound::Included(b)) <==> i <= b,
        within(IndexBound::Unbounded, i, IndexBound::Excluded(b)) <==> i < b,
        within(IndexBound::Included(a), i, IndexBound::Unbounded) <==> a <= i,
        within(IndexBound::Excluded(a), i, IndexBound::Unbounded) <==> a < i,
        within(IndexBound::Unbounded, i, IndexBound::Unbounded),
{
}

/// Entries are stored one by one: each stands under its own index, in
/// place of one that was there, and touches no other index.
pub proof fn law_entry_is_stored_under_its_index<P>(
    log: Map<u64, Entry<P>>,
    entries: Seq<Entry<P>>,
    e: Entry<P>,
    i: u64,
)
    ensures
        stored(log, seq![]) == log,
        stored(log, entries.push(e)).contains_key(e.log_id.index),
        stored(log, entries.push(e))[e.log_id.index] == e,
        i != e.log_id.index ==> (stored(log, entries.push(e)).contains_key(i) <==> stored(
            log,
            entries,
        ).contains_key(i)),
        i != e.log_id.index && stored(log, entries).contains_key(i) ==> stored(
            log,
            entries.push(e),
        )[i] == stored(log, entries)[i],
{
    assert(entries.push(e).drop_last() =~= entries);
}

/// A reading lists each index of the log that lies within its bounds once,
/// in ascending order, and no other.
pub proof fn law_reading_lists_the_indices_within<P>(
    log: Map<u64, Entry<P>>,
    at: Seq<u64>,
    lo: IndexBound,
    hi: IndexBound,
    k: u64,
    i: int,
    j: int,
)
    requires
        listed(log, at, lo, hi),
    ensures
        at.contains(k) <==> log.contains_key(k) && within(lo, k, hi),
        0 <= i < j < at.len() ==> at[i] < at[j],
{
    if at.contains(k) {
        let m = choose|m: int| 0 <= m < at.len() && at[m] == k;
        assert(log.contains_key(at[m]) && within(lo, at[m], hi));
    }
}

} // verus!
