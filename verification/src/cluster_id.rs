//! The cluster id that every response carries.
//!
//! Clients pin the id of a store and drain when it changes, so it must
//! differ between deployments and never change for one store.

use vstd::prelude::*;
use crate::codec;
use crate::parse;
use crate::text;

verus! {

/// The table of what belongs to this node alone.
pub fn table_node_meta() -> (r: &'static str)
    ensures
        r@ == "node_meta"@,
{
    "node_meta"
}

/// The row of the cluster id: `cluster_id`.
pub fn key_cluster_id() -> (r: Vec<u8>)
    ensures
        r@ == seq![99u8, 108u8, 117u8, 115u8, 116u8, 101u8, 114u8, 95u8, 105u8, 100u8],
{
    vec![99u8, 108u8, 117u8, 115u8, 116u8, 101u8, 114u8, 95u8, 105u8, 100u8]
}

/// The id when nothing tells the deployment apart.
pub const LEGACY_CLUSTER_ID: u64 = 1;

/// Where the cluster id came from.
#[derive(Debug, Clone, Copy, PartialEq, Eq, Structural)]
pub enum Source {
    /// An explicit setting.
    Flag,
    /// Recorded by an earlier start.
    Persisted,
    /// A store from before ids were recorded.
    Legacy,
    /// Derived from the token of the initial cluster.
    Token,
    /// Nothing to derive it from.
    Default,
}

/// The 64-bit FNV-1a hash of bytes.
pub open spec fn fnv1a(bytes: Seq<u8>) -> u64
    decreases bytes.len(),
{
    if bytes.len() == 0 {
        0xcbf2_9ce4_8422_2325u64
    } else {
        (((fnv1a(bytes.drop_last()) ^ (bytes.last() as u64)) * 0x0000_0100_0000_01b3int)
            % 0x1_0000_0000_0000_0000int) as u64
    }
}

/// A hash cut to 63 bits, one in place of zero.
pub open spec fn nonzero_63_bits(h: u64) -> u64 {
    let low = h % 0x8000_0000_0000_0000u64;
    if low == 0 {
        1u64
    } else {
        low
    }
}

/// The 64-bit FNV-1a hash of bytes.
pub fn fnv1a_64(bytes: &[u8]) -> (r: u64)
    ensures
        r == fnv1a(bytes@),
{
    let mut h: u64 = 0xcbf2_9ce4_8422_2325;
    let mut i: usize = 0;
    assert(bytes@.take(0) =~= seq![]);
    while i < bytes.len()
        invariant
            i <= bytes@.len(),
            h == fnv1a(bytes@.take(i as int)),
        decreases bytes@.len() - i,
    {
        assert(bytes@.take(i + 1).drop_last() =~= bytes@.take(i as int));
        h = h ^ (bytes[i] as u64);
        h = h.wrapping_mul(0x0000_0100_0000_01b3);
        i += 1;
    }
    assert(bytes@.take(i as int) =~= bytes@);
    h
}

/// A hash cut to 63 bits, one in place of zero.
pub fn fold_63(h: u64) -> (r: u64)
    ensures
        r == nonzero_63_bits(h),
        1 <= r < 0x8000_0000_0000_0000,
{
    let low: u64 = h & 0x7FFF_FFFF_FFFF_FFFF;
    assert(low == h % 0x8000_0000_0000_0000u64) by (bit_vector)
        requires
            low == h & 0x7FFF_FFFF_FFFF_FFFFu64,
    ;
    if low == 0 {
        LEGACY_CLUSTER_ID
    } else {
        low
    }
}

/// The id that a token gives: its hash in 63 bits, never zero.
pub fn id_from_token(token: &str) -> (r: u64)
    ensures
        r == nonzero_63_bits(fnv1a(vstd::utf8::encode_utf8(token@))),
        1 <= r < 0x8000_0000_0000_0000,
{
    fold_63(fnv1a_64(token.as_bytes()))
}

/// The rules, in order: an explicit id, the recorded one, the legacy one
/// for a store that is not new, the one that the token gives, and the
/// legacy one.
pub open spec fn chosen(
    flag: Option<u64>,
    persisted: Option<u64>,
    store_is_new: bool,
    from_token: Option<u64>,
) -> (u64, Source) {
    match (flag, persisted) {
        (Some(id), _) => (id, Source::Flag),
        (None, Some(id)) => (id, Source::Persisted),
        (None, None) => if !store_is_new {
            (LEGACY_CLUSTER_ID, Source::Legacy)
        } else {
            match from_token {
                Some(id) => (id, Source::Token),
                None => (LEGACY_CLUSTER_ID, Source::Default),
            }
        },
    }
}

/// A token that is not blank.
fn usable(token: Option<&str>) -> (r: Option<&str>)
    ensures
        match token {
            None => r is None,
            Some(t) => if parse::trimmed(t@).len() == 0 {
                r is None
            } else {
                r is Some && r->0@ == parse::trimmed(t@)
            },
        },
{
    match token {
        None => None,
        Some(t) => {
            let s = parse::trim(t);
            if s.unicode_len() == 0 {
                None
            } else {
                Some(s)
            }
        },
    }
}

/// What a token gives: nothing if it is blank, else the id of what is left
/// of it without the blanks around it.
pub open spec fn token_id(token: Option<&str>) -> Option<u64> {
    match token {
        None => None,
        Some(t) => if parse::trimmed(t@).len() == 0 {
            None
        } else {
            Some(nonzero_63_bits(fnv1a(vstd::utf8::encode_utf8(parse::trimmed(t@)))))
        },
    }
}

/// The cluster id of a store, and where it came from.
pub fn choose_id(
    flag: Option<u64>,
    persisted: Option<u64>,
    store_is_new: bool,
    token: Option<&str>,
) -> (r: (u64, Source))
    ensures
        r == chosen(flag, persisted, store_is_new, token_id(token)),
{
    if let Some(id) = flag {
        return (id, Source::Flag);
    }
    if let Some(id) = persisted {
        return (id, Source::Persisted);
    }
    if !store_is_new {
        return (LEGACY_CLUSTER_ID, Source::Legacy);
    }
    match usable(token) {
        Some(t) => (id_from_token(t), Source::Token),
        None => (LEGACY_CLUSTER_ID, Source::Default),
    }
}

/// What a start settles on.
#[derive(Debug)]
pub struct Resolved {
    pub id: u64,
    pub source: Source,
    /// What to record, if it is not recorded already.
    pub record: Option<Vec<u8>>,
    /// The recorded id that is replaced.
    pub replaces: Option<u64>,
}

/// Settle on the cluster id of a store at its start. An explicit id of
/// zero is refused.
pub fn resolve(
    flag: Option<u64>,
    persisted: Option<u64>,
    store_is_new: bool,
    token: Option<&str>,
) -> (r: Result<Resolved, String>)
    ensures
        r is Err <==> flag == Some(0u64),
        r is Err ==> r->Err_0@ == "--cluster-id must not be 0"@,
        r is Ok ==> ({
            let s = r->Ok_0;
            &&& (s.id, s.source) == chosen(flag, persisted, store_is_new, token_id(token))
            &&& s.record is Some <==> persisted != Some(s.id)
            &&& s.record is Some ==> s.record->0@ == codec::be(s.id as nat, 8)
            &&& s.replaces == (if persisted == Some(s.id) {
                None
            } else {
                persisted
            })
        }),
{
    if let Some(id) = flag {
        if id == 0 {
            return Err(String::from_str("--cluster-id must not be 0"));
        }
    }
    let (id, source) = choose_id(flag, persisted, store_is_new, token);
    let same = match persisted {
        Some(p) => p == id,
        None => false,
    };
    if same {
        Ok(Resolved { id, source, record: None, replaces: None })
    } else {
        Ok(
            Resolved {
                id,
                source,
                record: Some(codec::u64_to_be(id)),
                replaces: persisted,
            },
        )
    }
}

/// The recorded cluster id, if there is one.
pub fn read(row: Option<Vec<u8>>) -> (r: Result<Option<u64>, String>)
    ensures
        match row {
            None => r is Ok && r->Ok_0 is None,
            Some(b) => if b@.len() == 8 {
                r is Ok && r->Ok_0 == Some(codec::from_be(b@) as u64)
            } else {
                r is Err && r->Err_0@ == "persisted cluster id is "@ + text::dec(b@.len())
                    + " bytes, expected 8"@
            },
        },
{
    match row {
        None => Ok(None),
        Some(b) => {
            if b.len() == 8 {
                Ok(Some(codec::u64_from_be(b.as_slice())))
            } else {
                Err(
                    text::join3(
                        "persisted cluster id is ",
                        text::dec_u64(b.len() as u64).as_str(),
                        " bytes, expected 8",
                    ),
                )
            }
        },
    }
}

/// What a start records is what the next one reads.
pub proof fn law_recorded_id_reads_back(id: u64)
    ensures
        codec::be(id as nat, 8).len() == 8,
        codec::from_be(codec::be(id as nat, 8)) == id,
{
    codec::lemma_u64_fits(id);
    codec::lemma_be_len(id as nat, 8);
    codec::law_be_reads_back(id as nat, 8);
}

/// A store keeps its id: without an explicit one, a later start settles on
/// the recorded id, whatever the token says and however new the store is
/// taken to be.
pub proof fn law_restart_keeps_the_id(id: u64, is_new: bool, token: Option<&str>)
    ensures
        chosen(None, Some(id), is_new, token_id(token)) == (id, Source::Persisted),
{
}

/// No rule but an explicit or recorded zero gives zero.
pub proof fn law_id_is_never_zero(
    flag: Option<u64>,
    persisted: Option<u64>,
    is_new: bool,
    token: Option<&str>,
)
    requires
        flag != Some(0u64),
        persisted != Some(0u64),
    ensures
        ({
            let (id, source) = chosen(flag, persisted, is_new, token_id(token));
            id != 0
        }),
{
}

/// The hash starts at the offset basis, and each byte is mixed in by an
/// exclusive or and then a product with the prime, in 64 bits.
pub proof fn law_hash_mixes_byte_by_byte(bytes: Seq<u8>, b: u8)
    ensures
        fnv1a(seq![]) == 14695981039346656037u64,
        fnv1a(bytes.push(b)) as int == ((fnv1a(bytes) ^ (b as u64)) * 1099511628211int)
            % 18446744073709551616int,
{
    assert(bytes.push(b).drop_last() =~= bytes);
}

/// A hash is cut below the sign bit, and a cut that leaves zero becomes
/// one.
pub proof fn law_cut_hash_is_usable(h: u64)
    ensures
        1 <= nonzero_63_bits(h) < 0x8000_0000_0000_0000,
        (h as int) % 0x8000_0000_0000_0000 != 0 ==> nonzero_63_bits(h) as int == (h as int)
            % 0x8000_0000_0000_0000,
        (h as int) % 0x8000_0000_0000_0000 == 0 ==> nonzero_63_bits(h) == 1,
{
}

/// An explicit id wins over everything, a recorded one over all but that;
/// a store that was there before is given one, and so is a new one without
/// a usable token; a new one with a token is given the token's.
pub proof fn law_id_is_chosen_in_order(
    id: u64,
    persisted: Option<u64>,
    is_new: bool,
    from_token: Option<u64>,
)
    ensures
        chosen(Some(id), persisted, is_new, from_token) == (id, Source::Flag),
        chosen(None, Some(id), is_new, from_token) == (id, Source::Persisted),
        chosen(None, None, false, from_token) == (1u64, Source::Legacy),
        chosen(None, None, true, Some(id)) == (id, Source::Token),
        chosen(None, None, true, None) == (1u64, Source::Default),
{
}

/// A token gives an id unless it is blank; blanks around it do not matter,
/// so two tokens that differ in them alone give the same id.
pub proof fn law_blanks_around_a_token_do_not_matter(a: &str, b: &str)
    ensures
        token_id(None) is None,
        token_id(Some(a)) is None <==> parse::trimmed(a@).len() == 0,
        parse::trimmed(a@) == parse::trimmed(b@) ==> token_id(Some(a)) == token_id(Some(b)),
        token_id(Some(a)) matches Some(id) ==> id == nonzero_63_bits(
            fnv1a(vstd::utf8::encode_utf8(parse::trimmed(a@))),
        ),
{
}

} // verus!
