//! A map keyed by numbers, kept as a list in key order.

use vstd::prelude::*;

verus! {

/// A number and what it maps to.
#[derive(Debug)]
pub struct IdEntry<V> {
    pub id: u64,
    pub value: V,
}

/// A map keyed by numbers.
#[derive(Debug)]
pub struct IdMap<V> {
    pub entries: Vec<IdEntry<V>>,
}

/// The numbers are in strictly ascending order.
pub open spec fn ids_ascend<V>(s: Seq<IdEntry<V>>) -> bool {
    forall|i: int, j: int| 0 <= i < j < s.len() ==> (#[trigger] s[i]).id < (#[trigger] s[j]).id
}

/// A number stands at a position.
pub open spec fn id_at<V>(s: Seq<IdEntry<V>>, k: u64, i: int) -> bool {
    0 <= i < s.len() && s[i].id == k
}

/// The map that a list of entries stands for.
pub open spec fn as_map<V>(s: Seq<IdEntry<V>>) -> Map<u64, V> {
    Map::new(
        |k: u64| exists|i: int| id_at(s, k, i),
        |k: u64| s[choose|i: int| id_at(s, k, i)].value,
    )
}

/// An entry is what its number maps to.
pub proof fn lemma_entry<V>(s: Seq<IdEntry<V>>, i: int)
    requires
        ids_ascend(s),
        0 <= i < s.len(),
    ensures
        as_map(s).contains_key(s[i].id),
        as_map(s)[s[i].id] == s[i].value,
{
    let k = s[i].id;
    assert(id_at(s, k, i));
    let j = choose|j: int| id_at(s, k, j);
    assert(i == j);
}

/// A number in the map has an entry.
pub proof fn lemma_present<V>(s: Seq<IdEntry<V>>, k: u64) -> (i: int)
    requires
        ids_ascend(s),
        as_map(s).contains_key(k),
    ensures
        id_at(s, k, i),
        as_map(s)[k] == s[i].value,
{
    let i = choose|i: int| id_at(s, k, i);
    lemma_entry(s, i);
    i
}

/// Two maps agree on a number.
spec fn agree_at<V>(a: Map<u64, V>, b: Map<u64, V>, k: u64) -> bool {
    a.contains_key(k) == b.contains_key(k) && (a.contains_key(k) ==> a[k] == b[k])
}

/// Maps that agree on every number are equal.
proof fn lemma_same_map<V>(a: Map<u64, V>, b: Map<u64, V>)
    requires
        forall|k: u64| #[trigger] agree_at(a, b, k),
    ensures
        a == b,
{
    assert forall|k: u64| a.dom().contains(k) == b.dom().contains(k) by {
        assert(agree_at(a, b, k));
    }
    assert forall|k: u64| a.dom().contains(k) implies a[k] == b[k] by {
        assert(agree_at(a, b, k));
    }
    assert(a =~= b);
}

impl<V> View for IdMap<V> {
    type V = Map<u64, V>;

    open spec fn view(&self) -> Map<u64, V> {
        as_map(self.entries@)
    }
}

impl<V> IdMap<V> {
    /// The entries are in order.
    pub open spec fn wf(self) -> bool {
        ids_ascend(self.entries@)
    }

    /// An empty map.
    pub fn new() -> (r: IdMap<V>)
        ensures
            r.wf(),
            r@ == Map::<u64, V>::empty(),
            r.entries@.len() == 0,
    {
        let r = IdMap { entries: Vec::new() };
        assert(r@ =~= Map::<u64, V>::empty());
        r
    }

    /// The number of entries below a number.
    pub fn position(&self, id: u64) -> (p: usize)
        requires
            self.wf(),
        ensures
            p <= self.entries@.len(),
            forall|i: int| 0 <= i < p ==> (#[trigger] self.entries@[i]).id < id,
            forall|i: int| p <= i < self.entries@.len() ==> (#[trigger] self.entries@[i]).id >= id,
    {
        let mut lo: usize = 0;
        let mut hi: usize = self.entries.len();
        while lo < hi
            invariant
                lo <= hi <= self.entries@.len(),
                self.wf(),
                forall|i: int| 0 <= i < lo ==> (#[trigger] self.entries@[i]).id < id,
                forall|i: int|
                    hi <= i < self.entries@.len() ==> (#[trigger] self.entries@[i]).id >= id,
            decreases hi - lo,
        {
            let mid: usize = lo + (hi - lo) / 2;
            if self.entries[mid].id < id {
                lo = mid + 1;
            } else {
                hi = mid;
            }
        }
        lo
    }

    /// Where a number stands, if it is in the map.
    pub fn find(&self, id: u64) -> (r: Option<usize>)
        requires
            self.wf(),
        ensures
            r is Some <==> self@.contains_key(id),
            r is Some ==> id_at(self.entries@, id, r->0 as int) && self@[id]
                == self.entries@[r->0 as int].value,
    {
        let p = self.position(id);
        if p < self.entries.len() && self.entries[p].id == id {
            proof {
                lemma_entry(self.entries@, p as int);
            }
            Some(p)
        } else {
            proof {
                if self@.contains_key(id) {
                    let i = lemma_present(self.entries@, id);
                    assert(self.entries@[i].id == id);
                }
            }
            None
        }
    }

    /// What a number maps to.
    pub fn get(&self, id: u64) -> (r: Option<&V>)
        requires
            self.wf(),
        ensures
            r is Some <==> self@.contains_key(id),
            r is Some ==> *r->0 == self@[id],
    {
        match self.find(id) {
            Some(p) => Some(&self.entries[p].value),
            None => None,
        }
    }

    /// Whether a number is in the map.
    pub fn contains(&self, id: u64) -> (r: bool)
        requires
            self.wf(),
        ensures
            r == self@.contains_key(id),
    {
        self.find(id).is_some()
    }

    /// Map a number to a value; what it mapped to.
    pub fn insert(&mut self, id: u64, value: V) -> (r: Option<V>)
        requires
            old(self).wf(),
        ensures
            final(self).wf(),
            final(self)@ == old(self)@.insert(id, value),
            r is Some <==> old(self)@.contains_key(id),
            r is Some ==> r->0 == old(self)@[id],
    {
        let removed = self.remove(id);
        let ghost before = self.entries@;
        let p = self.position(id);
        let e = IdEntry { id, value };
        proof {
            assert forall|i: int| p <= i < before.len() implies (#[trigger] before[i]).id > id by {
                if before[i].id == id {
                    lemma_entry(before, i);
                }
            }
        }
        self.entries.insert(p, e);
        let ghost after = self.entries@;
        proof {
            assert(after =~= before.insert(p as int, e));
            assert forall|i: int, j: int| 0 <= i < j < after.len() implies (
            #[trigger] after[i]).id < (#[trigger] after[j]).id by {
                if i != p {
                    assert(after[i] == before[if i < p { i } else { i - 1 }]);
                }
                if j != p {
                    assert(after[j] == before[if j < p { j } else { j - 1 }]);
                }
            }
            assert(after[p as int] == e);
            lemma_entry(after, p as int);
            let goal = as_map(before).insert(id, value);
            assert forall|k: u64| #[trigger] agree_at(as_map(after), goal, k) by {
                if k != id && as_map(after).contains_key(k) {
                    let i = lemma_present(after, k);
                    let i2 = if i < p { i } else { i - 1 };
                    assert(after[i] == before[i2]);
                    lemma_entry(before, i2);
                }
                if k != id && as_map(before).contains_key(k) {
                    let i2 = lemma_present(before, k);
                    let i = if i2 < p { i2 } else { i2 + 1 };
                    assert(after[i] == before[i2]);
                    lemma_entry(after, i);
                }
            }
            lemma_same_map(as_map(after), goal);
            assert(old(self)@.remove(id).insert(id, value) =~= old(self)@.insert(id, value));
        }
        removed
    }

    /// Take a number out; what it mapped to.
    pub fn remove(&mut self, id: u64) -> (r: Option<V>)
        requires
            old(self).wf(),
        ensures
            final(self).wf(),
            final(self)@ == old(self)@.remove(id),
            r is Some <==> old(self)@.contains_key(id),
            r is Some ==> r->0 == old(self)@[id],
    {
        let p = match self.find(id) {
            None => {
                assert(self@.remove(id) =~= self@);
                return None;
            },
            Some(p) => p,
        };
        let ghost before = self.entries@;
        let e = self.entries.remove(p);
        let ghost after = self.entries@;
        proof {
            assert(after =~= before.remove(p as int));
            assert forall|i: int, j: int| 0 <= i < j < after.len() implies (
            #[trigger] after[i]).id < (#[trigger] after[j]).id by {
                assert(after[i] == before[if i < p { i } else { i + 1 }]);
                assert(after[j] == before[if j < p { j } else { j + 1 }]);
            }
            let goal = as_map(before).remove(id);
            assert forall|k: u64| #[trigger] agree_at(as_map(after), goal, k) by {
                if as_map(after).contains_key(k) {
                    let i = lemma_present(after, k);
                    let i2 = if i < p { i } else { i + 1 };
                    assert(after[i] == before[i2]);
                    lemma_entry(before, i2);
                    assert(k != id);
                }
                if k != id && as_map(before).contains_key(k) {
                    let i2 = lemma_present(before, k);
                    assert(i2 != p);
                    let i = if i2 < p { i2 } else { i2 - 1 };
                    assert(after[i] == before[i2]);
                    lemma_entry(after, i);
                }
            }
            lemma_same_map(as_map(after), goal);
        }
        Some(e.value)
    }

    /// The numbers of the map, in ascending order.
    pub fn ids(&self) -> (r: Vec<u64>)
        requires
            self.wf(),
        ensures
            r@.len() == self.entries@.len(),
            forall|i: int, j: int| 0 <= i < j < r@.len() ==> #[trigger] r@[i] < #[trigger] r@[j],
            forall|k: u64| #[trigger] r@.contains(k) <==> self@.contains_key(k),
    {
        let mut r: Vec<u64> = Vec::new();
        let mut i: usize = 0;
        while i < self.entries.len()
            invariant
                i <= self.entries@.len(),
                r@.len() == i,
                forall|j: int| 0 <= j < i ==> #[trigger] r@[j] == self.entries@[j].id,
            decreases self.entries@.len() - i,
        {
            r.push(self.entries[i].id);
            i += 1;
        }
        proof {
            assert forall|k: u64| #[trigger] r@.contains(k) <==> self@.contains_key(k) by {
                if r@.contains(k) {
                    let j = choose|j: int| 0 <= j < r@.len() && r@[j] == k;
                    lemma_entry(self.entries@, j);
                }
                if self@.contains_key(k) {
                    let j = lemma_present(self.entries@, k);
                    assert(r@[j] == k);
                }
            }
        }
        r
    }

    /// Keep the numbers below one.
    pub fn keep_below(&mut self, id: u64)
        requires
            old(self).wf(),
        ensures
            final(self).wf(),
            final(self)@ == old(self)@.restrict(Set::new(|k: u64| k < id)),
    {
        let ghost before = self.entries@;
        let p = self.position(id);
        self.entries.truncate(p);
        let ghost after = self.entries@;
        proof {
            let goal = as_map(before).restrict(Set::new(|k: u64| k < id));
            assert forall|i: int| 0 <= i < after.len() implies after[i] == before[i] by {}
            assert forall|k: u64| #[trigger] agree_at(as_map(after), goal, k) by {
                if as_map(after).contains_key(k) {
                    let i = lemma_present(after, k);
                    assert(before[i].id == k);
                    lemma_entry(before, i);
                }
                if k < id && as_map(before).contains_key(k) {
                    let i = lemma_present(before, k);
                    assert(before[i].id == k);
                    assert(after[i] == before[i]);
                    lemma_entry(after, i);
                }
            }
            lemma_same_map(as_map(after), goal);
        }
    }

    /// Keep the numbers above one.
    pub fn keep_above(&mut self, id: u64)
        requires
            old(self).wf(),
        ensures
            final(self).wf(),
            final(self)@ == old(self)@.restrict(Set::new(|k: u64| k > id)),
    {
        let ghost before = self.entries@;
        let mut p: usize = self.position(id);
        if p < self.entries.len() && self.entries[p].id == id {
            p += 1;
        }
        assert(forall|i: int| p <= i < before.len() ==> (#[trigger] before[i]).id > id);
        assert(forall|i: int| 0 <= i < p ==> (#[trigger] before[i]).id <= id);
        let tail = self.entries.split_off(p);
        self.entries = tail;
        let ghost after = self.entries@;
        proof {
            let goal = as_map(before).restrict(Set::new(|k: u64| k > id));
            assert forall|i: int| 0 <= i < after.len() implies #[trigger] after[i] == before[i
                + p] by {}
            assert(ids_ascend(after));
            assert forall|k: u64| #[trigger] agree_at(as_map(after), goal, k) by {
                if as_map(after).contains_key(k) {
                    let i = lemma_present(after, k);
                    assert(before[i + p].id == k);
                    lemma_entry(before, i + p);
                }
                if k > id && as_map(before).contains_key(k) {
                    let i = lemma_present(before, k);
                    assert(i >= p);
                    assert(after[i - p] == before[i]);
                    lemma_entry(after, i - p);
                }
            }
            lemma_same_map(as_map(after), goal);
        }
    }
}

/// A list of entries in order is the map that takes each entry's number to
/// its value, and no other number to anything.
pub proof fn law_map_is_its_entries<V>(m: IdMap<V>, k: u64)
    requires
        m.wf(),
    ensures
        m@.contains_key(k) <==> exists|i: int|
            0 <= i < m.entries@.len() && (#[trigger] m.entries@[i]).id == k,
        forall|i: int|
            0 <= i < m.entries@.len() ==> m@[(#[trigger] m.entries@[i]).id]
                == m.entries@[i].value,
        forall|i: int, j: int|
            0 <= i < j < m.entries@.len() ==> (#[trigger] m.entries@[i]).id < (
            #[trigger] m.entries@[j]).id,
{
    if m@.contains_key(k) {
        let i = lemma_present(m.entries@, k);
        assert(m.entries@[i].id == k);
    }
    if exists|i: int| 0 <= i < m.entries@.len() && (#[trigger] m.entries@[i]).id == k {
        let i = choose|i: int| 0 <= i < m.entries@.len() && (#[trigger] m.entries@[i]).id == k;
        lemma_entry(m.entries@, i);
    }
    assert forall|i: int| 0 <= i < m.entries@.len() implies m@[(#[trigger] m.entries@[i]).id]
        == m.entries@[i].value by {
        lemma_entry(m.entries@, i);
    }
}

} // verus!
