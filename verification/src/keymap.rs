//! A map keyed by byte strings, kept as a list in key order.

use vstd::prelude::*;
use crate::lex;
use crate::lex::{bytes_eq, bytes_lt};

verus! {

/// A key and what it maps to.
#[derive(Debug)]
pub struct KeyEntry<V> {
    pub key: Vec<u8>,
    pub value: V,
}

/// A map keyed by byte strings.
#[derive(Debug)]
pub struct KeyMap<V> {
    entries: Vec<KeyEntry<V>>,
}

/// The keys are in strictly ascending order.
pub open spec fn keys_ascend<V>(s: Seq<KeyEntry<V>>) -> bool {
    forall|i: int, j: int|
        0 <= i < j < s.len() ==> lex::lex_lt((#[trigger] s[i]).key@, (#[trigger] s[j]).key@)
}

/// A key stands at a position.
pub open spec fn stands_at<V>(s: Seq<KeyEntry<V>>, k: Seq<u8>, i: int) -> bool {
    0 <= i < s.len() && s[i].key@ == k
}

/// The map that a list of entries stands for.
pub open spec fn as_map<V>(s: Seq<KeyEntry<V>>) -> Map<Seq<u8>, V> {
    Map::new(
        |k: Seq<u8>| exists|i: int| stands_at(s, k, i),
        |k: Seq<u8>| s[choose|i: int| stands_at(s, k, i)].value,
    )
}

/// An entry is what its key maps to.
pub proof fn lemma_entry<V>(s: Seq<KeyEntry<V>>, i: int)
    requires
        keys_ascend(s),
        0 <= i < s.len(),
    ensures
        as_map(s).contains_key(s[i].key@),
        as_map(s)[s[i].key@] == s[i].value,
{
    let k = s[i].key@;
    assert(stands_at(s, k, i));
    let j = choose|j: int| stands_at(s, k, j);
    if i != j {
        lex::lemma_lex_irreflexive(k);
    }
}

/// A key that no entry has is not in the map.
proof fn lemma_absent<V>(s: Seq<KeyEntry<V>>, k: Seq<u8>)
    requires
        forall|i: int| 0 <= i < s.len() ==> (#[trigger] s[i]).key@ != k,
    ensures
        !as_map(s).contains_key(k),
{
}

/// Maps that agree on every key are equal.
proof fn lemma_same_map<V>(a: Map<Seq<u8>, V>, b: Map<Seq<u8>, V>)
    requires
        forall|k: Seq<u8>| #[trigger] agree_at(a, b, k),
    ensures
        a == b,
{
    assert forall|k: Seq<u8>| a.dom().contains(k) == b.dom().contains(k) by {
        assert(agree_at(a, b, k));
    }
    assert forall|k: Seq<u8>| a.dom().contains(k) implies a[k] == b[k] by {
        assert(agree_at(a, b, k));
    }
    assert(a =~= b);
}

/// Two maps agree on a key.
spec fn agree_at<V>(a: Map<Seq<u8>, V>, b: Map<Seq<u8>, V>, k: Seq<u8>) -> bool {
    a.contains_key(k) == b.contains_key(k) && (a.contains_key(k) ==> a[k] == b[k])
}

impl<V> View for KeyMap<V> {
    type V = Map<Seq<u8>, V>;

    closed spec fn view(&self) -> Map<Seq<u8>, V> {
        as_map(self.entries@)
    }
}

impl<V> KeyMap<V> {
    /// The entries are in key order.
    pub closed spec fn wf(self) -> bool {
        keys_ascend(self.entries@)
    }

    /// An empty map.
    pub fn new() -> (r: KeyMap<V>)
        ensures
            r.wf(),
            r@ == Map::<Seq<u8>, V>::empty(),
    {
        let r = KeyMap { entries: Vec::new() };
        assert(r@ =~= Map::<Seq<u8>, V>::empty());
        r
    }

    /// Where a key stands, or would stand: the number of smaller keys.
    fn position(&self, key: &[u8]) -> (p: usize)
        requires
            self.wf(),
        ensures
            p <= self.entries@.len(),
            forall|i: int| 0 <= i < p ==> lex::lex_lt((#[trigger] self.entries@[i]).key@, key@),
            forall|i: int|
                p <= i < self.entries@.len() ==> lex::lex_le(
                    key@,
                    (#[trigger] self.entries@[i]).key@,
                ),
    {
        let mut lo: usize = 0;
        let mut hi: usize = self.entries.len();
        while lo < hi
            invariant
                lo <= hi <= self.entries@.len(),
                self.wf(),
                forall|i: int|
                    0 <= i < lo ==> lex::lex_lt((#[trigger] self.entries@[i]).key@, key@),
                forall|i: int|
                    hi <= i < self.entries@.len() ==> lex::lex_le(
                        key@,
                        (#[trigger] self.entries@[i]).key@,
                    ),
            decreases hi - lo,
        {
            let mid: usize = lo + (hi - lo) / 2;
            let ghost m = self.entries@[mid as int].key@;
            if bytes_lt(self.entries[mid].key.as_slice(), key) {
                assert forall|i: int| 0 <= i < mid + 1 implies lex::lex_lt(
                    (#[trigger] self.entries@[i]).key@,
                    key@,
                ) by {
                    if i < mid {
                        lex::lemma_lex_transitive(self.entries@[i].key@, m, key@);
                    }
                }
                lo = mid + 1;
            } else {
                assert forall|i: int| mid <= i < self.entries@.len() implies lex::lex_le(
                    key@,
                    (#[trigger] self.entries@[i]).key@,
                ) by {
                    if i > mid {
                        lex::lemma_lex_le(m, self.entries@[i].key@);
                        lex::lemma_lex_le_trans(key@, m, self.entries@[i].key@);
                    }
                }
                hi = mid;
            }
        }
        lo
    }

    /// Whether a key stands at its position.
    fn found(&self, p: usize, key: &[u8]) -> (r: bool)
        requires
            self.wf(),
            p <= self.entries@.len(),
            forall|i: int| 0 <= i < p ==> lex::lex_lt((#[trigger] self.entries@[i]).key@, key@),
            forall|i: int|
                p <= i < self.entries@.len() ==> lex::lex_le(
                    key@,
                    (#[trigger] self.entries@[i]).key@,
                ),
        ensures
            r == self@.contains_key(key@),
            r ==> p < self.entries@.len() && self.entries@[p as int].key@ == key@
                && self@[key@] == self.entries@[p as int].value,
            !r ==> forall|i: int|
                p <= i < self.entries@.len() ==> lex::lex_lt(
                    key@,
                    (#[trigger] self.entries@[i]).key@,
                ),
    {
        proof {
            assert forall|i: int|
                0 <= i < self.entries@.len() && i != p implies (#[trigger] self.entries@[i]).key@
                != key@ by {
                lex::lemma_lex_irreflexive(key@);
                if i > p {
                    lex::lemma_lex_le_lt(
                        key@,
                        self.entries@[p as int].key@,
                        self.entries@[i].key@,
                    );
                }
            }
        }
        if p < self.entries.len() && bytes_eq(self.entries[p].key.as_slice(), key) {
            proof {
                lemma_entry(self.entries@, p as int);
            }
            true
        } else {
            proof {
                lemma_absent(self.entries@, key@);
                assert forall|i: int| p <= i < self.entries@.len() implies lex::lex_lt(
                    key@,
                    (#[trigger] self.entries@[i]).key@,
                ) by {
                    lex::lemma_lex_le(key@, self.entries@[i].key@);
                }
            }
            false
        }
    }

    /// What a key maps to.
    pub fn get(&self, key: &[u8]) -> (r: Option<&V>)
        requires
            self.wf(),
        ensures
            r is Some <==> self@.contains_key(key@),
            r is Some ==> *r->0 == self@[key@],
    {
        let p = self.position(key);
        if self.found(p, key) {
            Some(&self.entries[p].value)
        } else {
            None
        }
    }

    /// Take a key out; what it mapped to.
    pub fn remove(&mut self, key: &[u8]) -> (r: Option<V>)
        requires
            old(self).wf(),
        ensures
            final(self).wf(),
            final(self)@ == old(self)@.remove(key@),
            r is Some <==> old(self)@.contains_key(key@),
            r is Some ==> r->0 == old(self)@[key@],
    {
        let p = self.position(key);
        if !self.found(p, key) {
            assert(self@.remove(key@) =~= self@);
            return None;
        }
        let ghost before = self.entries@;
        let e = self.entries.remove(p);
        let ghost after = self.entries@;
        proof {
            assert(after =~= before.remove(p as int));
            assert forall|i: int, j: int| 0 <= i < j < after.len() implies lex::lex_lt(
                (#[trigger] after[i]).key@,
                (#[trigger] after[j]).key@,
            ) by {
                let i2 = if i < p { i } else { i + 1 };
                let j2 = if j < p { j } else { j + 1 };
                assert(after[i] == before[i2] && after[j] == before[j2]);
            }
            assert(as_map(after) == as_map(before).remove(key@)) by {
                let goal = as_map(before).remove(key@);
                assert forall|k: Seq<u8>| #[trigger] agree_at(as_map(after), goal, k) by {
                    if as_map(after).contains_key(k) {
                        let i = choose|i: int| stands_at(after, k, i);
                        let i2 = if i < p { i } else { i + 1 };
                        assert(after[i] == before[i2]);
                        lemma_entry(after, i);
                        lemma_entry(before, i2);
                        lex::lemma_lex_irreflexive(key@);
                        assert(k != key@);
                    }
                    if as_map(before).contains_key(k) && k != key@ {
                        let i2 = choose|i: int| stands_at(before, k, i);
                        let i = if i2 < p { i2 } else { i2 - 1 };
                        assert(i2 != p);
                        assert(after[i] == before[i2]);
                        lemma_entry(after, i);
                    }
                }
                lemma_same_map(as_map(after), goal);
            }
        }
        Some(e.value)
    }

    /// Map a key to a value, in place of what it mapped to.
    pub fn insert(&mut self, key: Vec<u8>, value: V)
        requires
            old(self).wf(),
        ensures
            final(self).wf(),
            final(self)@ == old(self)@.insert(key@, value),
    {
        let ghost k0 = key@;
        let p = self.position(key.as_slice());
        let ghost before = self.entries@;
        let here = self.found(p, key.as_slice());
        let e = KeyEntry { key, value };
        if here {
            self.entries.set(p, e);
            assert(self.entries@ =~= before.update(p as int, e));
        } else {
            self.entries.insert(p, e);
            assert(self.entries@ =~= before.insert(p as int, e));
        }
        let ghost after = self.entries@;
        proof {
            let shift: int = if here { 0 } else { 1 };
            assert forall|i: int, j: int| 0 <= i < j < after.len() implies lex::lex_lt(
                (#[trigger] after[i]).key@,
                (#[trigger] after[j]).key@,
            ) by {
                if i != p {
                    assert(after[i] == before[if i < p { i } else { i - shift }]);
                }
                if j != p {
                    assert(after[j] == before[if j < p { j } else { j - shift }]);
                }
                if here && (i == p || j == p) {
                    assert(before[p as int].key@ == k0);
                    assert(lex::lex_lt(before[i].key@, before[j].key@));
                }
            }
            assert(after[p as int] == e);
            lemma_entry(after, p as int);
            assert(as_map(after) == as_map(before).insert(k0, value)) by {
                let goal = as_map(before).insert(k0, value);
                assert forall|k: Seq<u8>| #[trigger] agree_at(as_map(after), goal, k) by {
                    if k != k0 && as_map(after).contains_key(k) {
                        let i = choose|i: int| stands_at(after, k, i);
                        let i2 = if i < p { i } else { i - shift };
                        assert(i != p);
                        assert(after[i] == before[i2]);
                        lemma_entry(after, i);
                        lemma_entry(before, i2);
                    }
                    if k != k0 && as_map(before).contains_key(k) {
                        let i2 = choose|i: int| stands_at(before, k, i);
                        let i = if i2 < p { i2 } else { i2 + shift };
                        if here {
                            assert(i2 != p);
                        }
                        assert(after[i] == before[i2]);
                        lemma_entry(after, i);
                    }
                }
                lemma_same_map(as_map(after), goal);
            }
        }
    }

    /// The entries, in key order.
    pub fn into_entries(self) -> (r: Vec<KeyEntry<V>>)
        requires
            self.wf(),
        ensures
            keys_ascend(r@),
            as_map(r@) == self@,
    {
        self.entries
    }
}

/// A list of entries in order is the map that takes each entry's key to
/// its value, and no other key to anything.
pub proof fn law_map_is_its_entries<V>(s: Seq<KeyEntry<V>>, k: Seq<u8>)
    requires
        keys_ascend(s),
    ensures
        as_map(s).contains_key(k) <==> exists|i: int|
            0 <= i < s.len() && (#[trigger] s[i]).key@ == k,
        forall|i: int|
            0 <= i < s.len() && (#[trigger] s[i]).key@ == k ==> as_map(s)[k] == s[i].value,
        forall|i: int, j: int|
            0 <= i < j < s.len() ==> lex::lex_lt((#[trigger] s[i]).key@, (#[trigger] s[j]).key@),
{
    if as_map(s).contains_key(k) {
        let i = choose|i: int| stands_at(s, k, i);
        assert(s[i].key@ == k);
    }
    if exists|i: int| 0 <= i < s.len() && (#[trigger] s[i]).key@ == k {
        let i = choose|i: int| 0 <= i < s.len() && (#[trigger] s[i]).key@ == k;
        lemma_entry(s, i);
    }
    assert forall|i: int| 0 <= i < s.len() && (#[trigger] s[i]).key@ == k implies as_map(s)[k]
        == s[i].value by {
        lemma_entry(s, i);
    }
}

} // verus!
