//! Password hashing, randomness and digests, made by outside crates.

use vstd::prelude::*;
use crate::parse;
use argon2::password_hash::{PasswordHash, PasswordHasher, PasswordVerifier, SaltString};
use argon2::password_hash::rand_core::OsRng;
use argon2::Argon2;
use rand::RngCore;
use sha2::{Digest, Sha256};

verus! {

/// What hashing a password with a salt gives: the encoded hash, or the
/// text of the error.
pub uninterp spec fn argon2_phc(password: Seq<char>, salt: Seq<char>) -> Result<
    Seq<char>,
    Seq<char>,
>;

/// Whether a password matches an encoded hash.
pub uninterp spec fn argon2_accepts(password: Seq<char>, phc: Seq<char>) -> bool;

/// The SHA-256 digest of a byte string.
pub uninterp spec fn sha256_of(data: Seq<u8>) -> Seq<u8>;

/// A character of the base64 alphabet.
pub open spec fn is_base64(c: char) -> bool {
    ||| 'A' <= c <= 'Z'
    ||| 'a' <= c <= 'z'
    ||| '0' <= c <= '9'
    ||| c == '+'
    ||| c == '/'
}

/// The base64 text of 16 bytes, without padding: 22 characters, of which
/// the last carries two bits.
pub open spec fn drawn_salt(s: Seq<char>) -> bool {
    &&& s.len() == 22
    &&& forall|i: int| 0 <= i < s.len() ==> is_base64(#[trigger] s[i])
    &&& s[21] == 'A' || s[21] == 'Q' || s[21] == 'g' || s[21] == 'w'
}

/// The longest password that is hashed, in bytes.
pub const MAX_PASSWORD_BYTES: u64 = 0xFFFF_FFFF;

/// A password is short enough to be hashed.
pub open spec fn hashable(password: Seq<char>) -> bool {
    vstd::utf8::encode_utf8(password).len() <= MAX_PASSWORD_BYTES
}

/// The most lanes that a hash can be made with.
pub const MAX_LANES: u64 = 0xFF_FFFF;

/// A character behind which a parameter of an encoded hash can start, and
/// before which one ends.
pub open spec fn is_mark(c: char) -> bool {
    c == '$' || c == ','
}

/// A parameter `p`, the number of lanes, stands at a place of an encoded
/// hash.
pub open spec fn lanes_at(phc: Seq<char>, i: int) -> bool {
    &&& 1 <= i && i + 2 <= phc.len()
    &&& is_mark(phc[i - 1])
    &&& phc[i] == 'p'
    &&& phc[i + 1] == '='
}

/// Where the value that starts at a place ends: before the next mark, or
/// with the text.
pub open spec fn value_end(phc: Seq<char>, i: int) -> int
    decreases phc.len() - i,
{
    if i < 0 || i >= phc.len() || is_mark(phc[i]) {
        i
    } else {
        value_end(phc, i + 1)
    }
}

/// The lanes asked for at a place are too many.
pub open spec fn excessive_at(phc: Seq<char>, i: int) -> bool {
    parse::number(phc.subrange(i + 2, value_end(phc, i + 2))) matches Some(n) && n > MAX_LANES
}

/// A number of lanes stands at `j`, and the field goes on from `i` to it.
pub open spec fn leads_to(phc: Seq<char>, i: int, j: int) -> bool {
    &&& i <= j
    &&& lanes_at(phc, j)
    &&& forall|k: int| i <= k < j ==> #[trigger] phc[k] != '$'
}

/// Another number of lanes follows in the same field: it counts in the
/// place of this one.
pub open spec fn outdone(phc: Seq<char>, i: int) -> bool {
    exists|j: int| #[trigger] leads_to(phc, i + 1, j)
}

/// The last number of lanes of a field stands at a place, and is too
/// large.
pub open spec fn too_many_at(phc: Seq<char>, i: int) -> bool {
    lanes_at(phc, i) && !outdone(phc, i) && excessive_at(phc, i)
}

/// An encoded hash asks for more lanes than one can be made with: the last
/// parameter `p` of some field is too large a number.
pub open spec fn too_many_lanes(phc: Seq<char>) -> bool {
    exists|i: int| #[trigger] too_many_at(phc, i)
}

/// A password matches an encoded hash: one that asks for too many lanes
/// matches nothing.
pub open spec fn accepts(password: Seq<char>, phc: Seq<char>) -> bool {
    !too_many_lanes(phc) && argon2_accepts(password, phc)
}

/// Whether the lanes asked for at a place are too many.
fn excessive(phc: &str, i: usize) -> (r: bool)
    requires
        lanes_at(phc@, i as int),
    ensures
        r == excessive_at(phc@, i as int),
{
    let n: usize = phc.unicode_len();
    let start: usize = i + 2;
    let mut end: usize = start;
    while end < n && phc.get_char(end) != '$' && phc.get_char(end) != ','
        invariant
            start <= end <= n == phc@.len(),
            value_end(phc@, start as int) == value_end(phc@, end as int),
        decreases n - end,
    {
        end += 1;
    }
    let value = phc.substring_char(start, end);
    assert(value@ =~= phc@.subrange(i + 2, value_end(phc@, i + 2)));
    match parse::parse_u64(value) {
        Some(lanes) => lanes > MAX_LANES,
        None => false,
    }
}

/// A place leads to a number of lanes if one stands there, or if the field
/// goes on and the next place leads to one.
proof fn lemma_one_back(phc: Seq<char>, i: int)
    requires
        0 <= i < phc.len(),
    ensures
        (exists|j: int| #[trigger] leads_to(phc, i, j)) == (lanes_at(phc, i) || (phc[i] != '$'
            && outdone(phc, i))),
{
    if lanes_at(phc, i) {
        assert(leads_to(phc, i, i));
    } else if phc[i] != '$' && outdone(phc, i) {
        let j = choose|j: int| #[trigger] leads_to(phc, i + 1, j);
        assert(leads_to(phc, i, j));
    } else if exists|j: int| #[trigger] leads_to(phc, i, j) {
        let j = choose|j: int| #[trigger] leads_to(phc, i, j);
        assert(phc[i] != '$');
        assert(leads_to(phc, i + 1, j));
    }
}

/// Whether a parameter `p` stands at a place.
fn has_lanes_at(phc: &str, i: usize) -> (r: bool)
    requires
        i < phc@.len(),
    ensures
        r == lanes_at(phc@, i as int),
{
    let n: usize = phc.unicode_len();
    if i == 0 || n - i < 2 {
        return false;
    }
    let c: char = phc.get_char(i - 1);
    (c == '$' || c == ',') && phc.get_char(i) == 'p' && phc.get_char(i + 1) == '='
}

/// Whether an encoded hash asks for more lanes than one can be made with.
pub fn asks_too_many_lanes(phc: &str) -> (r: bool)
    ensures
        r == too_many_lanes(phc@),
{
    let mut i: usize = phc.unicode_len();
    // A number of lanes follows in the field.
    let mut seen = false;
    while i > 0
        invariant
            i <= phc@.len(),
            seen == exists|j: int| #[trigger] leads_to(phc@, i as int, j),
            forall|j: int| i <= j ==> !#[trigger] too_many_at(phc@, j),
        decreases i,
    {
        i -= 1;
        proof {
            lemma_one_back(phc@, i as int);
        }
        if has_lanes_at(phc, i) {
            if !seen && excessive(phc, i) {
                assert(too_many_at(phc@, i as int));
                return true;
            }
            seen = true;
        } else if phc.get_char(i) == '$' {
            seen = false;
        }
    }
    false
}

/// `SaltString::generate` over the operating system's generator. Claimed:
/// the salt is the base64 text of 16 bytes. The bytes are random, so
/// nothing is said of them.
#[verifier::external_body]
pub(crate) fn random_salt() -> (r: String)
    ensures
        drawn_salt(r@),
{
    SaltString::generate(&mut OsRng).to_string()
}

/// `Argon2::hash_password` with the default parameters and the given
/// salt. Claimed: the outcome is a function of password and salt; a hash
/// that comes out accepts the password it was made of, and asks for the
/// one lane of the default parameters; and with a salt of the form that is
/// drawn, a password is refused exactly where it is too long.
#[verifier::external_body]
pub(crate) fn argon2_hash(password: &str, salt: &str) -> (r: Result<String, String>)
    ensures
        r is Ok <==> argon2_phc(password@, salt@) is Ok,
        r is Ok ==> r->Ok_0@ == argon2_phc(password@, salt@)->Ok_0 && argon2_accepts(
            password@,
            r->Ok_0@,
        ),
        r is Ok ==> !too_many_lanes(r->Ok_0@),
        r is Err ==> r->Err_0@ == argon2_phc(password@, salt@)->Err_0,
        drawn_salt(salt@) ==> (r is Ok <==> hashable(password@)),
{
    let salt = SaltString::from_b64(salt).map_err(|e| e.to_string())?;
    let hash = Argon2::default().hash_password(password.as_bytes(), &salt);
    hash.map(|h| h.to_string()).map_err(|e| e.to_string())
}

/// `Argon2::verify_password` against an encoded hash; a text that
/// `PasswordHash::new` does not parse matches nothing. Claimed: the
/// answer is a function of password and encoded hash. The parameters of
/// the hash are those it was encoded with; `Params::new` multiplies the
/// number of lanes before it tests it, so a hash with too many is left
/// out. The memory that the parameters ask for is taken to be there.
#[verifier::external_body]
pub(crate) fn argon2_verify(password: &str, phc: &str) -> (r: bool)
    requires
        !too_many_lanes(phc@),
    ensures
        r == argon2_accepts(password@, phc@),
{
    match PasswordHash::new(phc) {
        Ok(parsed) => Argon2::default().verify_password(password.as_bytes(), &parsed).is_ok(),
        Err(_) => false,
    }
}

/// `OsRng::fill_bytes` on a buffer of 32 bytes. Claimed: the buffer keeps
/// its length. The bytes are random, so nothing is said of them.
#[verifier::external_body]
pub(crate) fn random_token_bytes() -> (r: Vec<u8>)
    ensures
        r@.len() == 32,
{
    let mut bytes = vec![0u8; 32];
    OsRng.fill_bytes(&mut bytes);
    bytes
}

/// `Sha256::digest`. Claimed: the digest is a function of the data, 32
/// bytes long.
#[verifier::external_body]
pub(crate) fn sha256(data: &[u8]) -> (r: Vec<u8>)
    ensures
        r@ == sha256_of(data@),
        r@.len() == 32,
{
    Sha256::digest(data).to_vec()
}

/// A hash that asks for too many lanes accepts no password; any other
/// accepts what the outside function accepts.
pub proof fn law_too_many_lanes_accept_nothing(password: Seq<char>, phc: Seq<char>)
    ensures
        too_many_lanes(phc) ==> !accepts(password, phc),
        !too_many_lanes(phc) ==> accepts(password, phc) == argon2_accepts(password, phc),
        MAX_LANES == 0x100_0000 - 1,
        MAX_PASSWORD_BYTES == 0x1_0000_0000 - 1,
        hashable(password) <==> vstd::utf8::encode_utf8(password).len() < 0x1_0000_0000,
{
}

/// A hash in which no parameter `p` stands asks for no lanes, and one
/// whose only such parameter is within the limit for none too many.
pub proof fn law_lanes_within_the_limit_are_accepted(phc: Seq<char>)
    requires
        forall|i: int|
            1 <= i && i + 2 <= phc.len() && (phc[i - 1] == '$' || phc[i - 1] == ',')
                && #[trigger] phc[i] == 'p' && phc[i + 1] == '=' ==> (parse::number(
                phc.subrange(i + 2, value_end(phc, i + 2)),
            ) matches Some(n) ==> n < 0x100_0000),
    ensures
        !too_many_lanes(phc),
{
    if too_many_lanes(phc) {
        let i = choose|i: int| #[trigger] too_many_at(phc, i);
        assert(phc[i] == 'p');
    }
}

/// The value of a parameter ends at the next mark, or with the text, and
/// holds no mark.
pub proof fn law_parameter_value_holds_no_mark(phc: Seq<char>, i: int)
    requires
        0 <= i <= phc.len(),
    ensures
        i <= value_end(phc, i) <= phc.len(),
        forall|k: int|
            i <= k < value_end(phc, i) ==> #[trigger] phc[k] != '$' && phc[k] != ',',
        value_end(phc, i) < phc.len() ==> phc[value_end(phc, i)] == '$' || phc[value_end(phc, i)]
            == ',',
    decreases phc.len() - i,
{
    if i < phc.len() && !is_mark(phc[i]) {
        law_parameter_value_holds_no_mark(phc, i + 1);
    }
}

/// A field whose last parameter `p` is above the limit is too many, even
/// where an earlier one of the field is within it.
pub proof fn law_last_lanes_of_a_field_count(phc: Seq<char>, i: int)
    requires
        1 <= i && i + 2 <= phc.len(),
        phc[i - 1] == '$' || phc[i - 1] == ',',
        phc[i] == 'p' && phc[i + 1] == '=',
        parse::number(phc.subrange(i + 2, value_end(phc, i + 2))) matches Some(n) && n
            >= 0x100_0000,
        forall|j: int|
            i < j && j + 2 <= phc.len() && (phc[j - 1] == '$' || phc[j - 1] == ',')
                && #[trigger] phc[j] == 'p' && phc[j + 1] == '=' ==> exists|k: int|
                i < k < j && #[trigger] phc[k] == '$',
    ensures
        too_many_lanes(phc),
{
    assert(lanes_at(phc, i));
    if outdone(phc, i) {
        let j = choose|j: int| #[trigger] leads_to(phc, i + 1, j);
        assert(phc[j] == 'p');
        let k = choose|k: int| i < k < j && #[trigger] phc[k] == '$';
        assert(phc[k] != '$');
    }
    assert(too_many_at(phc, i));
}

/// A salt that is drawn is 22 characters of the base64 alphabet, which has
/// letters, digits, the plus sign and the slash, and no other.
pub proof fn law_drawn_salt_is_base64(s: Seq<char>, i: int)
    requires
        drawn_salt(s),
        0 <= i < s.len(),
    ensures
        s.len() == 22,
        ('A' <= s[i] && s[i] <= 'Z') || ('a' <= s[i] && s[i] <= 'z') || ('0' <= s[i] && s[i]
            <= '9') || s[i] == '+' || s[i] == '/',
        s[21] == 'A' || s[21] == 'Q' || s[21] == 'g' || s[21] == 'w',
{
    assert(is_base64(s[i]));
}

/// A number of lanes that another one of its field follows does not count,
/// however large it is.
pub proof fn law_earlier_lanes_of_a_field_do_not_count(phc: Seq<char>, i: int, j: int)
    requires
        0 <= i < j,
        j + 2 <= phc.len(),
        phc[j - 1] == '$' || phc[j - 1] == ',',
        phc[j] == 'p' && phc[j + 1] == '=',
        forall|k: int| i < k < j ==> #[trigger] phc[k] != '$',
    ensures
        !too_many_at(phc, i),
{
    assert(leads_to(phc, i + 1, j));
}

} // verus!
