//! Byte strings: their lexicographic order, comparison and copying.

use vstd::prelude::*;
use vstd::slice::slice_to_vec;

verus! {

/// `a` comes strictly before `b` in lexicographic order.
pub open spec fn lex_lt(a: Seq<u8>, b: Seq<u8>) -> bool
    decreases a.len(),
{
    if b.len() == 0 {
        false
    } else if a.len() == 0 {
        true
    } else if a[0] != b[0] {
        a[0] < b[0]
    } else {
        lex_lt(a.skip(1), b.skip(1))
    }
}

/// `a` equals `b` or comes before it.
pub open spec fn lex_le(a: Seq<u8>, b: Seq<u8>) -> bool {
    !lex_lt(b, a)
}

/// `p` is an initial segment of `s`.
pub open spec fn is_prefix(p: Seq<u8>, s: Seq<u8>) -> bool {
    p.len() <= s.len() && s.take(p.len() as int) == p
}

/// The order is irreflexive.
pub proof fn lemma_lex_irreflexive(a: Seq<u8>)
    ensures
        !lex_lt(a, a),
    decreases a.len(),
{
    if a.len() > 0 {
        lemma_lex_irreflexive(a.skip(1));
    }
}

/// The order is transitive.
pub proof fn lemma_lex_transitive(a: Seq<u8>, b: Seq<u8>, c: Seq<u8>)
    requires
        lex_lt(a, b),
        lex_lt(b, c),
    ensures
        lex_lt(a, c),
    decreases a.len(),
{
    if a.len() > 0 && b.len() > 0 && c.len() > 0 && a[0] == b[0] && b[0] == c[0] {
        lemma_lex_transitive(a.skip(1), b.skip(1), c.skip(1));
    }
}

/// Any two byte strings are equal or ordered one way.
pub proof fn lemma_lex_total(a: Seq<u8>, b: Seq<u8>)
    ensures
        a == b || lex_lt(a, b) || lex_lt(b, a),
    decreases a.len(),
{
    if a.len() == 0 {
        if b.len() == 0 {
            assert(a =~= b);
        }
    } else if b.len() > 0 && a[0] == b[0] {
        lemma_lex_total(a.skip(1), b.skip(1));
        if a.skip(1) == b.skip(1) {
            assert(a =~= seq![a[0]] + a.skip(1));
            assert(b =~= seq![b[0]] + b.skip(1));
        }
    }
}

/// `lex_le` is `lex_lt` or equality.
pub proof fn lemma_lex_le(a: Seq<u8>, b: Seq<u8>)
    ensures
        lex_le(a, b) <==> (lex_lt(a, b) || a == b),
{
    lemma_lex_total(a, b);
    lemma_lex_irreflexive(a);
    if lex_lt(a, b) && lex_lt(b, a) {
        lemma_lex_transitive(a, b, a);
    }
}

/// `a <= b` and `b < c` give `a < c`.
pub proof fn lemma_lex_le_lt(a: Seq<u8>, b: Seq<u8>, c: Seq<u8>)
    requires
        lex_le(a, b),
        lex_lt(b, c),
    ensures
        lex_lt(a, c),
{
    lemma_lex_le(a, b);
    if a != b {
        lemma_lex_transitive(a, b, c);
    }
}

/// `a < b` and `b <= c` give `a < c`.
pub proof fn lemma_lex_lt_le(a: Seq<u8>, b: Seq<u8>, c: Seq<u8>)
    requires
        lex_lt(a, b),
        lex_le(b, c),
    ensures
        lex_lt(a, c),
{
    lemma_lex_le(b, c);
    if b != c {
        lemma_lex_transitive(a, b, c);
    }
}

/// `a <= b` and `b <= c` give `a <= c`.
pub proof fn lemma_lex_le_trans(a: Seq<u8>, b: Seq<u8>, c: Seq<u8>)
    requires
        lex_le(a, b),
        lex_le(b, c),
    ensures
        lex_le(a, c),
{
    lemma_lex_le(a, b);
    lemma_lex_le(b, c);
    lemma_lex_le(a, c);
    if a != b && b != c {
        lemma_lex_transitive(a, b, c);
    }
}

/// The immediate successor of a byte string is the string followed by a
/// zero byte: nothing lies strictly between the two.
pub proof fn lemma_lex_successor(a: Seq<u8>, k: Seq<u8>)
    ensures
        lex_lt(k, a.push(0)) <==> lex_le(k, a),
    decreases a.len(),
{
    let s = a.push(0);
    if a.len() == 0 {
        if k.len() > 0 {
            assert(s.skip(1) =~= Seq::<u8>::empty());
            assert(!lex_lt(k.skip(1), s.skip(1)));
        }
        assert(lex_lt(k, s) <==> k.len() == 0);
        assert(lex_lt(a, k) <==> k.len() > 0);
    } else if k.len() > 0 && k[0] == a[0] {
        assert(s.skip(1) =~= a.skip(1).push(0));
        lemma_lex_successor(a.skip(1), k.skip(1));
    }
}

/// The order between two strings with a common head is that of the rest.
pub proof fn lemma_lex_common_prefix(p: Seq<u8>, a: Seq<u8>, b: Seq<u8>)
    ensures
        lex_lt(p + a, p + b) <==> lex_lt(a, b),
    decreases p.len(),
{
    if p.len() == 0 {
        assert(p + a =~= a);
        assert(p + b =~= b);
    } else {
        assert((p + a).skip(1) =~= p.skip(1) + a);
        assert((p + b).skip(1) =~= p.skip(1) + b);
        lemma_lex_common_prefix(p.skip(1), a, b);
    }
}

/// A strict order is decided at the first position where the strings
/// differ, or by length where one is a prefix of the other.
pub proof fn lemma_lex_at(a: Seq<u8>, b: Seq<u8>, i: int)
    requires
        0 <= i < a.len(),
        i < b.len(),
        a.take(i) == b.take(i),
        a[i] != b[i],
    ensures
        lex_lt(a, b) <==> a[i] < b[i],
    decreases i,
{
    let p = a.take(i);
    assert(a =~= p + a.skip(i));
    assert(b =~= p + b.skip(i));
    lemma_lex_common_prefix(p, a.skip(i), b.skip(i));
}

/// A string that starts with `b` does not come before `b`.
pub proof fn lemma_lex_prefix(a: Seq<u8>, b: Seq<u8>)
    requires
        is_prefix(a, b),
    ensures
        lex_lt(a, b) <==> a.len() < b.len(),
        !lex_lt(b, a),
{
    let e = Seq::<u8>::empty();
    assert(a =~= a + e);
    assert(b =~= a + b.skip(a.len() as int));
    lemma_lex_common_prefix(a, e, b.skip(a.len() as int));
    lemma_lex_common_prefix(a, b.skip(a.len() as int), e);
}

/// Equality of two byte slices.
pub fn bytes_eq(a: &[u8], b: &[u8]) -> (r: bool)
    ensures
        r == (a@ == b@),
{
    if a.len() != b.len() {
        return false;
    }
    let mut i: usize = 0;
    while i < a.len()
        invariant
            i <= a@.len(),
            a@.len() == b@.len(),
            a@.take(i as int) == b@.take(i as int),
        decreases a@.len() - i,
    {
        if a[i] != b[i] {
            assert(a@[i as int] != b@[i as int]);
            return false;
        }
        assert(a@.take(i + 1) =~= a@.take(i as int).push(a@[i as int]));
        assert(b@.take(i + 1) =~= b@.take(i as int).push(b@[i as int]));
        i += 1;
    }
    assert(a@.take(i as int) =~= a@);
    assert(b@.take(i as int) =~= b@);
    true
}

/// Strict lexicographic comparison of two byte slices.
pub fn bytes_lt(a: &[u8], b: &[u8]) -> (r: bool)
    ensures
        r == lex_lt(a@, b@),
{
    let mut i: usize = 0;
    while i < a.len() && i < b.len()
        invariant
            i <= a@.len(),
            i <= b@.len(),
            a@.take(i as int) == b@.take(i as int),
        decreases a@.len() - i,
    {
        if a[i] != b[i] {
            proof {
                lemma_lex_at(a@, b@, i as int);
            }
            return a[i] < b[i];
        }
        assert(a@.take(i + 1) =~= a@.take(i as int).push(a@[i as int]));
        assert(b@.take(i + 1) =~= b@.take(i as int).push(b@[i as int]));
        i += 1;
    }
    proof {
        if i == a@.len() {
            assert(a@.take(i as int) =~= a@);
            lemma_lex_prefix(a@, b@);
        } else {
            assert(b@.take(i as int) =~= b@);
            lemma_lex_prefix(b@, a@);
        }
    }
    a.len() < b.len()
}

/// Non-strict lexicographic comparison of two byte slices.
pub fn bytes_le(a: &[u8], b: &[u8]) -> (r: bool)
    ensures
        r == lex_le(a@, b@),
{
    !bytes_lt(b, a)
}

/// An owned copy of a byte slice.
pub fn copy_bytes(s: &[u8]) -> (r: Vec<u8>)
    ensures
        r@ == s@,
{
    slice_to_vec(s)
}

/// Byte strings are ordered by the first byte in which they differ,
/// whatever follows it, and a string comes before every longer one that
/// starts with it; the order is strict and leaves no two apart.
pub proof fn law_first_difference_decides(
    p: Seq<u8>,
    x: u8,
    y: u8,
    a: Seq<u8>,
    b: Seq<u8>,
)
    ensures
        x < y ==> lex_lt(p.push(x) + a, p.push(y) + b),
        x > y ==> !lex_lt(p.push(x) + a, p.push(y) + b),
        lex_lt(p, p.push(x) + a),
        !lex_lt(a, a),
        a != b ==> (lex_lt(a, b) <==> !lex_lt(b, a)),
        lex_le(a, b) <==> !lex_lt(b, a),
{
    let s = seq![x] + a;
    let t = seq![y] + b;
    assert(p.push(x) + a =~= p + s);
    assert(p.push(y) + b =~= p + t);
    lemma_lex_common_prefix(p, s, t);
    lemma_lex_common_prefix(p, seq![], s);
    assert(p + Seq::<u8>::empty() =~= p);
    lemma_lex_irreflexive(a);
    lemma_lex_total(a, b);
    if lex_lt(a, b) && lex_lt(b, a) {
        lemma_lex_transitive(a, b, a);
    }
}

/// A string starts with another exactly when it is that one followed by
/// something.
pub proof fn law_prefix_is_followed_by_something(p: Seq<u8>, rest: Seq<u8>, s: Seq<u8>)
    ensures
        is_prefix(p, p + rest),
        is_prefix(p, s) ==> s == p + s.skip(p.len() as int),
{
    assert((p + rest).take(p.len() as int) =~= p);
    if is_prefix(p, s) {
        assert(s =~= s.take(p.len() as int) + s.skip(p.len() as int));
    }
}

} // verus!
