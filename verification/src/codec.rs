//! Fixed-width numbers as bytes, and the stored form of log positions and
//! votes.

use vstd::prelude::*;
use crate::lex;
use crate::log_store::Vote;
use crate::types::LogId;

verus! {

/// The last `n` base-256 digits of a number, most significant first.
pub open spec fn be(x: nat, n: nat) -> Seq<u8>
    decreases n,
{
    if n == 0 {
        seq![]
    } else {
        be(x / 256, (n - 1) as nat).push((x % 256) as u8)
    }
}

/// The number that base-256 digits stand for, most significant first.
pub open spec fn from_be(s: Seq<u8>) -> nat
    decreases s.len(),
{
    if s.len() == 0 {
        0
    } else {
        from_be(s.drop_last()) * 256 + s.last() as nat
    }
}

/// The same digits, least significant first.
pub open spec fn le(x: nat, n: nat) -> Seq<u8> {
    be(x, n).reverse()
}

/// The number that base-256 digits stand for, least significant first.
pub open spec fn from_le(s: Seq<u8>) -> nat {
    from_be(s.reverse())
}

/// 256 to the power of `n`.
pub open spec fn pow256(n: nat) -> nat
    decreases n,
{
    if n == 0 {
        1
    } else {
        256 * pow256((n - 1) as nat)
    }
}

/// There are `n` digits.
pub proof fn lemma_be_len(x: nat, n: nat)
    ensures
        be(x, n).len() == n,
    decreases n,
{
    if n > 0 {
        lemma_be_len(x / 256, (n - 1) as nat);
    }
}

/// Reading back what was written gives the number, if it fits.
pub proof fn law_be_reads_back(x: nat, n: nat)
    requires
        x < pow256(n),
    ensures
        from_be(be(x, n)) == x,
        from_le(le(x, n)) == x,
    decreases n,
{
    lemma_be_len(x, n);
    if n > 0 {
        law_be_reads_back(x / 256, (n - 1) as nat);
        let s = be(x, n);
        assert(s.drop_last() =~= be(x / 256, (n - 1) as nat));
    }
    assert(le(x, n).reverse() =~= be(x, n));
}

/// Writing back what was read gives the bytes.
pub proof fn law_be_writes_back(s: Seq<u8>)
    ensures
        be(from_be(s), s.len()) == s,
        from_be(s) < pow256(s.len()),
    decreases s.len(),
{
    if s.len() > 0 {
        law_be_writes_back(s.drop_last());
        let x = from_be(s);
        assert(x / 256 == from_be(s.drop_last()));
        assert(x % 256 == s.last() as nat);
        assert(be(x, s.len()) =~= s.drop_last().push(s.last()));
        assert(s =~= s.drop_last().push(s.last()));
    } else {
        assert(be(0, 0) =~= s);
    }
}

/// Strings of one length that differ in order keep it when extended.
proof fn lemma_lex_push(a: Seq<u8>, b: Seq<u8>, x: u8, y: u8)
    requires
        a.len() == b.len(),
        lex::lex_lt(a, b),
    ensures
        lex::lex_lt(a.push(x), b.push(y)),
    decreases a.len(),
{
    if a.len() > 0 && a[0] == b[0] {
        lemma_lex_push(a.skip(1), b.skip(1), x, y);
        assert(a.push(x).skip(1) =~= a.skip(1).push(x));
        assert(b.push(y).skip(1) =~= b.skip(1).push(y));
    }
}

/// Numbers that fit are ordered as their digits are.
pub proof fn law_be_keeps_order(a: nat, b: nat, n: nat)
    requires
        a < pow256(n),
        b < pow256(n),
    ensures
        lex::lex_lt(be(a, n), be(b, n)) <==> a < b,
    decreases n,
{
    if n > 0 {
        let m = (n - 1) as nat;
        law_be_keeps_order(a / 256, b / 256, m);
        law_be_keeps_order(b / 256, a / 256, m);
        lemma_be_len(a / 256, m);
        lemma_be_len(b / 256, m);
        let p = be(a / 256, m);
        let q = be(b / 256, m);
        if a / 256 < b / 256 {
            lemma_lex_push(p, q, (a % 256) as u8, (b % 256) as u8);
        } else if b / 256 < a / 256 {
            lemma_lex_push(q, p, (b % 256) as u8, (a % 256) as u8);
            lex::lemma_lex_le(be(b, n), be(a, n));
        } else {
            let x = seq![(a % 256) as u8];
            let y = seq![(b % 256) as u8];
            assert(be(a, n) =~= p + x);
            assert(be(b, n) =~= p + y);
            lex::lemma_lex_common_prefix(p, x, y);
            assert(x.skip(1) =~= y.skip(1));
            lex::lemma_lex_irreflexive(x.skip(1));
        }
    }
}

/// The number of 64-bit values.
proof fn lemma_pow256_8()
    ensures
        pow256(8) == 0x1_0000_0000_0000_0000,
        pow256(4) == 0x1_0000_0000,
{
    reveal_with_fuel(pow256, 9);
}

/// Four digits are a 32-bit number.
pub proof fn lemma_four_bytes()
    ensures
        pow256(4) == 0x1_0000_0000,
{
    lemma_pow256_8();
}

/// A 64-bit number fits eight digits.
pub proof fn lemma_u64_fits(x: u64)
    ensures
        (x as nat) < pow256(8),
{
    lemma_pow256_8();
}

fn push_be(x: u64, n: usize) -> (r: Vec<u8>)
    ensures
        r@ == be(x as nat, n as nat),
    decreases n,
{
    if n == 0 {
        let r: Vec<u8> = Vec::new();
        assert(r@ =~= be(x as nat, 0));
        r
    } else {
        let mut r = push_be(x / 256, n - 1);
        r.push((x % 256) as u8);
        r
    }
}

/// A 64-bit number as eight bytes, most significant first.
pub fn u64_to_be(x: u64) -> (r: Vec<u8>)
    ensures
        r@ == be(x as nat, 8),
        r@.len() == 8,
{
    proof {
        lemma_be_len(x as nat, 8);
    }
    push_be(x, 8)
}

/// A 32-bit number as four bytes, most significant first.
pub fn u32_to_be(x: u32) -> (r: Vec<u8>)
    ensures
        r@ == be(x as nat, 4),
        r@.len() == 4,
{
    proof {
        lemma_be_len(x as nat, 4);
    }
    push_be(x as u64, 4)
}

/// The number that at most eight bytes stand for, most significant first.
pub fn u64_from_be(s: &[u8]) -> (r: u64)
    requires
        s@.len() <= 8,
    ensures
        r == from_be(s@),
{
    let mut x: u64 = 0;
    let mut i: usize = 0;
    assert(s@.take(0) =~= seq![]);
    while i < s.len()
        invariant
            i <= s@.len() <= 8,
            x == from_be(s@.take(i as int)),
        decreases s@.len() - i,
    {
        assert(s@.take(i + 1).drop_last() =~= s@.take(i as int));
        proof {
            law_be_writes_back(s@.take(i + 1));
            lemma_pow256_le(i as nat + 1, 8);
            lemma_pow256_8();
        }
        x = x * 256 + s[i] as u64;
        i += 1;
    }
    assert(s@.take(i as int) =~= s@);
    x
}

proof fn lemma_pow256_le(a: nat, b: nat)
    requires
        a <= b,
    ensures
        pow256(a) <= pow256(b),
    decreases b,
{
    if a < b {
        lemma_pow256_le(a, (b - 1) as nat);
    }
}

/// A log position as three plain numbers: term, node, index.
pub open spec fn log_id_parts(l: LogId) -> (u64, u64, u64) {
    (l.term, l.node_id, l.index)
}

/// The stored form of a log position: three numbers of eight bytes, least
/// significant first.
pub open spec fn bare_bytes(l: LogId) -> Seq<u8> {
    le(l.term as nat, 8) + le(l.node_id as nat, 8) + le(l.index as nat, 8)
}

/// The stored form of a log position that may be absent: a byte that says
/// whether it is there comes first.
pub open spec fn optional_bytes(l: Option<LogId>) -> Seq<u8> {
    match l {
        None => seq![0u8],
        Some(l) => seq![1u8] + bare_bytes(l),
    }
}

/// The log position at a place in a byte string.
pub open spec fn parts_at(s: Seq<u8>, at: int) -> LogId {
    LogId {
        term: from_le(s.subrange(at, at + 8)) as u64,
        node_id: from_le(s.subrange(at + 8, at + 16)) as u64,
        index: from_le(s.subrange(at + 16, at + 24)) as u64,
    }
}

/// What a stored form reads as; what follows it is not looked at.
pub open spec fn read_optional(s: Seq<u8>) -> Option<Option<LogId>> {
    if s.len() == 0 {
        None
    } else if s[0] == 0 {
        Some(None)
    } else if s[0] == 1 && s.len() >= 25 {
        Some(Some(parts_at(s, 1)))
    } else {
        None
    }
}

/// The text with which `bincode::deserialize` refuses a byte string as an
/// optional triple of numbers.
pub uninterp spec fn optional_refusal(bytes: Seq<u8>) -> Seq<char>;

/// The text with which `bincode::deserialize` refuses a byte string as a
/// triple of numbers.
pub uninterp spec fn bare_refusal(bytes: Seq<u8>) -> Seq<char>;

/// The text with which `bincode::deserialize` refuses a byte string as two
/// numbers and a flag.
pub uninterp spec fn vote_refusal(bytes: Seq<u8>) -> Seq<char>;

/// `bincode::serialize` of an optional triple of numbers. Claimed: it
/// succeeds, with a byte for presence and then the numbers at eight bytes
/// each, least significant first.
#[verifier::external_body]
fn bincode_optional(parts: Option<(u64, u64, u64)>) -> (r: Vec<u8>)
    ensures
        r@ == (match parts {
            None => seq![0u8],
            Some(p) => seq![1u8] + le(p.0 as nat, 8) + le(p.1 as nat, 8) + le(p.2 as nat, 8),
        }),
{
    bincode::serialize(&parts).unwrap_or_default()
}

/// `bincode::deserialize` of an optional triple of numbers. Claimed: it
/// succeeds on a zero byte, with nothing, and on a byte of one followed
/// by 24 more, with the numbers that these are; trailing bytes are
/// ignored, and anything else is refused, with a text that is a function
/// of the bytes.
#[verifier::external_body]
fn unbincode_optional(bytes: &[u8]) -> (r: Result<Option<(u64, u64, u64)>, String>)
    ensures
        match read_optional(bytes@) {
            None => r is Err && r->Err_0@ == optional_refusal(bytes@),
            Some(None) => r is Ok && r->Ok_0 is None,
            Some(Some(l)) => r is Ok && r->Ok_0 == Some(log_id_parts(l)),
        },
{
    bincode::deserialize(bytes).map_err(|e| e.to_string())
}

/// `bincode::serialize` of a triple of numbers. Claimed: it succeeds, with
/// the numbers at eight bytes each, least significant first.
#[verifier::external_body]
fn bincode_bare(parts: (u64, u64, u64)) -> (r: Vec<u8>)
    ensures
        r@ == le(parts.0 as nat, 8) + le(parts.1 as nat, 8) + le(parts.2 as nat, 8),
{
    bincode::serialize(&parts).unwrap_or_default()
}

/// `bincode::deserialize` of a triple of numbers. Claimed: it succeeds on
/// 24 bytes or more, with the numbers that the first 24 are, and refuses
/// fewer, with a text that is a function of the bytes.
#[verifier::external_body]
fn unbincode_bare(bytes: &[u8]) -> (r: Result<(u64, u64, u64), String>)
    ensures
        if bytes@.len() < 24 {
            r is Err && r->Err_0@ == bare_refusal(bytes@)
        } else {
            r is Ok && r->Ok_0 == log_id_parts(parts_at(bytes@, 0))
        },
{
    bincode::deserialize(bytes).map_err(|e| e.to_string())
}

/// The stored form of a vote: the term and the node at eight bytes each,
/// least significant first, and a byte that says whether it is committed.
pub open spec fn vote_bytes(v: Vote) -> Seq<u8> {
    le(v.term as nat, 8) + le(v.node_id as nat, 8) + seq![if v.committed {
        1u8
    } else {
        0u8
    }]
}

/// What a stored form reads as; what follows it is not looked at.
pub open spec fn read_vote(s: Seq<u8>) -> Option<Vote> {
    if s.len() >= 17 && s[16] <= 1 {
        Some(
            Vote {
                term: from_le(s.subrange(0, 8)) as u64,
                node_id: from_le(s.subrange(8, 16)) as u64,
                committed: s[16] == 1,
            },
        )
    } else {
        None
    }
}

/// `bincode::serialize` of two numbers and a flag. Claimed: it succeeds,
/// with the numbers at eight bytes each, least significant first, and a
/// byte of one or zero.
#[verifier::external_body]
fn bincode_vote(parts: (u64, u64, bool)) -> (r: Vec<u8>)
    ensures
        r@ == le(parts.0 as nat, 8) + le(parts.1 as nat, 8) + seq![if parts.2 {
            1u8
        } else {
            0u8
        }],
{
    bincode::serialize(&parts).unwrap_or_default()
}

/// `bincode::deserialize` of two numbers and a flag. Claimed: it succeeds
/// on 17 bytes or more of which the 17th is zero or one, with the numbers
/// and the flag that these are; trailing bytes are ignored, and anything
/// else is refused, with a text that is a function of the bytes.
#[verifier::external_body]
fn unbincode_vote(bytes: &[u8]) -> (r: Result<(u64, u64, bool), String>)
    ensures
        match read_vote(bytes@) {
            None => r is Err && r->Err_0@ == vote_refusal(bytes@),
            Some(v) => r is Ok && r->Ok_0 == (v.term, v.node_id, v.committed),
        },
{
    bincode::deserialize(bytes).map_err(|e| e.to_string())
}

/// The stored form of a vote.
pub fn encode_vote(v: Vote) -> (r: Vec<u8>)
    ensures
        r@ == vote_bytes(v),
{
    bincode_vote((v.term, v.node_id, v.committed))
}

/// The vote that a stored form holds.
pub fn decode_vote(bytes: &[u8]) -> (r: Result<Vote, String>)
    ensures
        match read_vote(bytes@) {
            None => r is Err && r->Err_0@ == vote_refusal(bytes@),
            Some(v) => r is Ok && r->Ok_0 == v,
        },
{
    match unbincode_vote(bytes) {
        Err(e) => Err(e),
        Ok(p) => Ok(Vote { term: p.0, node_id: p.1, committed: p.2 }),
    }
}

/// A vote reads back as it was stored, whatever follows it.
pub proof fn law_vote_reads_back(v: Vote, rest: Seq<u8>)
    ensures
        read_vote(vote_bytes(v) + rest) == Some(v),
{
    let s = vote_bytes(v) + rest;
    lemma_be_len(v.term as nat, 8);
    lemma_be_len(v.node_id as nat, 8);
    assert(s.subrange(0, 8) =~= le(v.term as nat, 8));
    assert(s.subrange(8, 16) =~= le(v.node_id as nat, 8));
    lemma_u64_fits(v.term);
    lemma_u64_fits(v.node_id);
    law_be_reads_back(v.term as nat, 8);
    law_be_reads_back(v.node_id as nat, 8);
}

/// The stored form of a log position.
pub fn encode_bare_log_id(l: LogId) -> (r: Vec<u8>)
    ensures
        r@ == bare_bytes(l),
{
    bincode_bare((l.term, l.node_id, l.index))
}

/// The log position that a stored form holds.
pub fn decode_bare_log_id(bytes: &[u8]) -> (r: Result<LogId, String>)
    ensures
        if bytes@.len() < 24 {
            r is Err && r->Err_0@ == bare_refusal(bytes@)
        } else {
            r is Ok && r->Ok_0 == parts_at(bytes@, 0)
        },
{
    match unbincode_bare(bytes) {
        Err(e) => Err(e),
        Ok(p) => Ok(LogId { term: p.0, node_id: p.1, index: p.2 }),
    }
}

/// The stored form of a log position that may be absent.
pub fn encode_log_id(l: Option<LogId>) -> (r: Vec<u8>)
    ensures
        r@ == optional_bytes(l),
{
    let parts: Option<(u64, u64, u64)> = match l {
        None => None,
        Some(l) => Some((l.term, l.node_id, l.index)),
    };
    let r = bincode_optional(parts);
    assert(r@ =~= optional_bytes(l));
    r
}

/// The log position that a stored form holds.
pub fn decode_log_id(bytes: &[u8]) -> (r: Result<Option<LogId>, String>)
    ensures
        match read_optional(bytes@) {
            None => r is Err && r->Err_0@ == optional_refusal(bytes@),
            Some(l) => r is Ok && r->Ok_0 == l,
        },
{
    match unbincode_optional(bytes) {
        Err(e) => Err(e),
        Ok(None) => Ok(None),
        Ok(Some(p)) => Ok(Some(LogId { term: p.0, node_id: p.1, index: p.2 })),
    }
}

/// A log position reads back as it was stored, whatever follows it.
pub proof fn law_bare_log_id_reads_back(x: LogId, rest: Seq<u8>)
    ensures
        bare_bytes(x).len() == 24,
        parts_at(bare_bytes(x) + rest, 0) == x,
{
    let s = bare_bytes(x) + rest;
    lemma_be_len(x.term as nat, 8);
    lemma_be_len(x.node_id as nat, 8);
    lemma_be_len(x.index as nat, 8);
    assert(s.subrange(0, 8) =~= le(x.term as nat, 8));
    assert(s.subrange(8, 16) =~= le(x.node_id as nat, 8));
    assert(s.subrange(16, 24) =~= le(x.index as nat, 8));
    lemma_u64_fits(x.term);
    lemma_u64_fits(x.node_id);
    lemma_u64_fits(x.index);
    law_be_reads_back(x.term as nat, 8);
    law_be_reads_back(x.node_id as nat, 8);
    law_be_reads_back(x.index as nat, 8);
}

/// A log position that may be absent reads back as it was stored,
/// whatever follows it.
pub proof fn law_log_id_reads_back(l: Option<LogId>, rest: Seq<u8>)
    ensures
        read_optional(optional_bytes(l) + rest) == Some(l),
{
    match l {
        None => {},
        Some(x) => {
            law_bare_log_id_reads_back(x, rest);
            let s = optional_bytes(l) + rest;
            let b = bare_bytes(x) + rest;
            assert(s.subrange(1, 9) =~= b.subrange(0, 8));
            assert(s.subrange(9, 17) =~= b.subrange(8, 16));
            assert(s.subrange(17, 25) =~= b.subrange(16, 24));
        },
    }
}

/// A number written most significant first ends in its lowest digit, and
/// one written least significant first starts with it.
pub proof fn law_digits_stand_in_their_places(x: nat, n: nat, i: int)
    requires
        0 <= i < n,
    ensures
        be(x, n).len() == n,
        be(x, n).last() == (x % 256) as u8,
        be(x, n).drop_last() == be(x / 256, (n - 1) as nat),
        le(x, n).len() == n,
        le(x, n)[i] == be(x, n)[n - 1 - i],
        le(x, n)[0] == (x % 256) as u8,
        pow256(n) == 256 * pow256((n - 1) as nat),
        pow256(0) == 1,
{
    lemma_be_len(x, n);
    assert(be(x, n).drop_last() =~= be(x / 256, (n - 1) as nat));
}

/// A log position is stored as its term, its node and its index, in that
/// order, eight bytes each.
pub proof fn law_log_id_is_stored_in_order(l: LogId)
    ensures
        bare_bytes(l).len() == 24,
        from_le(bare_bytes(l).subrange(0, 8)) == l.term,
        from_le(bare_bytes(l).subrange(8, 16)) == l.node_id,
        from_le(bare_bytes(l).subrange(16, 24)) == l.index,
        optional_bytes(None) == seq![0u8],
        optional_bytes(Some(l)) == seq![1u8] + bare_bytes(l),
        log_id_parts(l).0 == l.term,
        log_id_parts(l).1 == l.node_id,
        log_id_parts(l).2 == l.index,
{
    lemma_u64_fits(l.term);
    lemma_u64_fits(l.node_id);
    lemma_u64_fits(l.index);
    lemma_be_len(l.term as nat, 8);
    lemma_be_len(l.node_id as nat, 8);
    lemma_be_len(l.index as nat, 8);
    law_be_reads_back(l.term as nat, 8);
    law_be_reads_back(l.node_id as nat, 8);
    law_be_reads_back(l.index as nat, 8);
    assert(bare_bytes(l).subrange(0, 8) =~= le(l.term as nat, 8));
    assert(bare_bytes(l).subrange(8, 16) =~= le(l.node_id as nat, 8));
    assert(bare_bytes(l).subrange(16, 24) =~= le(l.index as nat, 8));
}

/// A vote is stored as its term, its node and whether it is committed, in
/// that order; a stored log position that is cut short, or a mark that is
/// neither zero nor one, reads as nothing.
pub proof fn law_vote_is_stored_in_order(v: Vote, s: Seq<u8>)
    ensures
        vote_bytes(v).len() == 17,
        from_le(vote_bytes(v).subrange(0, 8)) == v.term,
        from_le(vote_bytes(v).subrange(8, 16)) == v.node_id,
        vote_bytes(v)[16] == 1 <==> v.committed,
        vote_bytes(v)[16] == 0 <==> !v.committed,
        read_vote(s) is Some <==> s.len() >= 17 && s[16] <= 1,
        read_optional(s) is Some <==> s.len() > 0 && (s[0] == 0 || (s[0] == 1 && s.len() >= 25)),
        s.len() > 0 && s[0] == 0 ==> read_optional(s) == Some(None::<LogId>),
{
    lemma_u64_fits(v.term);
    lemma_u64_fits(v.node_id);
    lemma_be_len(v.term as nat, 8);
    lemma_be_len(v.node_id as nat, 8);
    law_be_reads_back(v.term as nat, 8);
    law_be_reads_back(v.node_id as nat, 8);
    assert(vote_bytes(v).subrange(0, 8) =~= le(v.term as nat, 8));
    assert(vote_bytes(v).subrange(8, 16) =~= le(v.node_id as nat, 8));
}

} // verus!
