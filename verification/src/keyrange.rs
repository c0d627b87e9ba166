//! Key ranges as etcd requests write them: a key and a range end.
//!
//! An empty range end names the single key. A range end of one zero byte
//! names every key from `key` on. Any other range end names the keys from
//! `key` up to, and without, the range end.

use vstd::prelude::*;
use crate::lex;
use crate::lex::{bytes_eq, bytes_le, bytes_lt, copy_bytes};

verus! {

/// Whether `k` lies in the range that `key` and `range_end` name.
pub open spec fn in_range(key: Seq<u8>, range_end: Seq<u8>, k: Seq<u8>) -> bool {
    if range_end.len() == 0 {
        k == key
    } else if range_end == seq![0u8] {
        lex::lex_le(key, k)
    } else {
        lex::lex_le(key, k) && lex::lex_lt(k, range_end)
    }
}

/// Whether a byte string is the single zero byte.
pub fn is_zero_byte(s: &[u8]) -> (r: bool)
    ensures
        r == (s@ == seq![0u8]),
{
    if s.len() == 1 {
        assert(s@.len() == 1);
        assert(s@[0] == 0 ==> s@ =~= seq![0u8]);
        s[0] == 0
    } else {
        false
    }
}

/// Whether `k` lies in the range that `key` and `range_end` name.
pub fn key_in_range(key: &[u8], range_end: &[u8], k: &[u8]) -> (r: bool)
    ensures
        r == in_range(key@, range_end@, k@),
{
    if range_end.len() == 0 {
        bytes_eq(k, key)
    } else if is_zero_byte(range_end) {
        bytes_le(key, k)
    } else {
        bytes_le(key, k) && bytes_lt(k, range_end)
    }
}

/// The position of the last byte of `p` below `0xff`, or -1.
pub open spec fn last_below_ff(p: Seq<u8>) -> int
    decreases p.len(),
{
    if p.len() == 0 {
        -1
    } else if p.last() < 0xff {
        p.len() - 1
    } else {
        last_below_ff(p.drop_last())
    }
}

/// The range end that selects the keys starting with `p`: the last byte
/// below `0xff` is incremented and what follows it dropped; a prefix
/// without such a byte gives the single zero byte.
pub open spec fn prefix_end(p: Seq<u8>) -> Seq<u8> {
    let i = last_below_ff(p);
    if i < 0 {
        seq![0u8]
    } else {
        p.take(i).push((p[i] + 1) as u8)
    }
}

/// Where the last byte below `0xff` stands.
proof fn lemma_last_below_ff(p: Seq<u8>)
    ensures
        -1 <= last_below_ff(p) < p.len(),
        last_below_ff(p) >= 0 ==> p[last_below_ff(p)] < 0xff,
        forall|j: int| last_below_ff(p) < j < p.len() ==> p[j] == 0xff,
    decreases p.len(),
{
    if p.len() > 0 && p.last() == 0xff {
        lemma_last_below_ff(p.drop_last());
        assert forall|j: int| last_below_ff(p) < j < p.len() implies p[j] == 0xff by {
            if j < p.len() - 1 {
                assert(p.drop_last()[j] == p[j]);
            }
        }
    }
}

/// Build the range end that selects every key with `prefix` as its
/// leading bytes.
pub fn prefix_range_end(prefix: &[u8]) -> (r: Vec<u8>)
    ensures
        r@ == prefix_end(prefix@),
{
    let mut i: usize = prefix.len();
    assert(prefix@.take(i as int) =~= prefix@);
    while i > 0
        invariant
            i <= prefix@.len(),
            last_below_ff(prefix@) == last_below_ff(prefix@.take(i as int)),
        decreases i,
    {
        let b: u8 = prefix[i - 1];
        assert(prefix@.take(i as int).last() == b);
        assert(prefix@.take(i as int).drop_last() =~= prefix@.take(i - 1));
        if b < 0xff {
            let mut end = copy_bytes(vstd::slice::slice_subrange(prefix, 0, i - 1));
            end.push(b + 1);
            assert(end@ =~= prefix@.take(i - 1).push((b + 1) as u8));
            return end;
        }
        i -= 1;
    }
    let mut end: Vec<u8> = Vec::new();
    end.push(0);
    assert(end@ =~= seq![0u8]);
    end
}

/// A prefix query selects exactly the keys that start with the prefix.
pub proof fn law_prefix_selects_exactly_its_keys(p: Seq<u8>, k: Seq<u8>)
    ensures
        in_range(p, prefix_end(p), k) <==> lex::is_prefix(p, k),
{
    lemma_last_below_ff(p);
    let i = last_below_ff(p);
    let e = prefix_end(p);
    if lex::is_prefix(p, k) {
        lex::lemma_lex_prefix(p, k);
        if i >= 0 {
            assert(k.take(i) =~= k.take(p.len() as int).take(i));
            assert(e.take(i) =~= p.take(i));
            assert(k.take(i) =~= e.take(i));
            assert(k[i] == k.take(p.len() as int)[i]);
            lex::lemma_lex_at(k, e, i);
            assert(e[i] > 0);
            assert(e != seq![0u8]);
        }
    } else {
        if in_range(p, e, k) {
            if i >= 0 {
                assert(e[i] > 0);
                assert(e != seq![0u8]);
            }
            assert(lex::lex_le(p, k));
            lemma_not_prefix_above(p, k, i);
        }
    }
}

/// A key at or above `p` that does not start with `p` is at or above the
/// prefix end of `p`, and does not exist where `p` has no byte below
/// `0xff`.
proof fn lemma_not_prefix_above(p: Seq<u8>, k: Seq<u8>, i: int)
    requires
        !lex::is_prefix(p, k),
        lex::lex_le(p, k),
        i == last_below_ff(p),
    ensures
        i >= 0,
        lex::lex_le(prefix_end(p), k),
{
    lemma_last_below_ff(p);
    let e = prefix_end(p);
    let d = first_difference(p, k, 0);
    assert(p.take(0) =~= k.take(0));
    lemma_first_difference(p, k, 0);
    if d == k.len() || d == p.len() {
        if d == k.len() && d < p.len() {
            assert(p.take(d) == k.take(d));
            assert(k.take(d) =~= k);
            lex::lemma_lex_prefix(k, p);
            assert(false);
        } else {
            assert(p.take(d) =~= p);
            assert(false);
        }
    } else {
        lex::lemma_lex_at(k, p, d);
        assert(p[d] < k[d]);
        assert(i >= d);
        if i == d {
            assert(e.take(d) =~= k.take(d));
            if e[d] != k[d] {
                lex::lemma_lex_at(k, e, d);
            } else {
                assert(k.take(d + 1) =~= e) by {
                    assert(k.take(d + 1) =~= k.take(d).push(k[d]));
                }
                lex::lemma_lex_prefix(e, k);
            }
        } else {
            assert(e.take(d) =~= p.take(d));
            assert(e[d] == p[d]);
            lex::lemma_lex_at(k, e, d);
        }
    }
}

/// The first position from `i` on at which two strings differ or one ends.
spec fn first_difference(a: Seq<u8>, b: Seq<u8>, i: int) -> int
    decreases a.len() - i,
{
    if i < 0 || i >= a.len() || i >= b.len() || a[i] != b[i] {
        i
    } else {
        first_difference(a, b, i + 1)
    }
}

/// What stands before the first difference is equal.
proof fn lemma_first_difference(a: Seq<u8>, b: Seq<u8>, i: int)
    requires
        0 <= i <= a.len(),
        i <= b.len(),
        a.take(i) == b.take(i),
    ensures
        ({
            let d = first_difference(a, b, i);
            &&& i <= d <= a.len()
            &&& d <= b.len()
            &&& a.take(d) == b.take(d)
            &&& (d < a.len() && d < b.len() ==> a[d] != b[d])
        }),
    decreases a.len() - i,
{
    if i < a.len() && i < b.len() && a[i] == b[i] {
        assert(a.take(i + 1) =~= a.take(i).push(a[i]));
        assert(b.take(i + 1) =~= b.take(i).push(b[i]));
        lemma_first_difference(a, b, i + 1);
    }
}

/// A range names the key it starts at, and no key below that. Without a
/// range end it names that key alone; with a range end of one zero byte
/// every key from there on; with any other the keys below the range end.
pub proof fn law_range_runs_from_its_key(key: Seq<u8>, range_end: Seq<u8>, k: Seq<u8>)
    ensures
        in_range(key, seq![], k) <==> k == key,
        in_range(key, seq![0u8], k) <==> !lex::lex_lt(k, key),
        range_end.len() > 0 && range_end != seq![0u8] ==> (in_range(key, range_end, k) <==> (
        !lex::lex_lt(k, key) && lex::lex_lt(k, range_end))),
        in_range(key, range_end, k) ==> !lex::lex_lt(k, key),
        !in_range(key, range_end, range_end) || range_end == seq![0u8] || (range_end.len() == 0
            && key.len() == 0),
{
    lex::lemma_lex_irreflexive(key);
    lex::lemma_lex_irreflexive(range_end);
    if range_end.len() == 0 {
        assert(range_end =~= seq![]);
    }
}

/// A range cut in two at a key inside it names the same keys.
pub proof fn law_range_splits_at_a_key(a: Seq<u8>, b: Seq<u8>, c: Seq<u8>, k: Seq<u8>)
    requires
        b.len() > 0,
        b != seq![0u8],
        c.len() > 0,
        c != seq![0u8],
        lex::lex_le(a, b),
        lex::lex_le(b, c),
    ensures
        in_range(a, c, k) <==> in_range(a, b, k) || in_range(b, c, k),
        in_range(a, seq![0u8], k) <==> in_range(a, b, k) || in_range(b, seq![0u8], k),
{
    lex::lemma_lex_total(k, b);
    if lex::lex_lt(k, b) {
        lex::lemma_lex_lt_le(k, b, c);
    }
    if lex::lex_le(b, k) {
        lex::lemma_lex_le_trans(a, b, k);
    }
}

} // verus!
