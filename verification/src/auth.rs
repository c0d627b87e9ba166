//! Users, roles, passwords and session tokens.
//!
//! Records are kept by the storage engine. Each operation takes the
//! records that were read for it, and answers with the record to write
//! or with the refusal.

use vstd::prelude::*;
use crate::authz::{PermType, StoredPermission, StoredRole, StoredUser, UserIdentity};
use crate::crypto::{argon2_hash, argon2_verify, asks_too_many_lanes, random_salt, random_token_bytes};
use crate::lex::{bytes_eq, copy_bytes};
use crate::names::{self, has_name, remove_name};
use crate::state::ResponseHeader;
use crate::status::{Code, Status};
use crate::text::{join3, str_eq};
use crate::utf8::string_from_utf8;

verus! {

/// A token and the user it was issued to.
#[derive(Debug)]
pub struct TokenEntry {
    pub token: String,
    pub user: String,
}

/// The session tokens in force, and whether authentication is on.
#[derive(Debug)]
pub struct AuthState {
    enabled: bool,
    tokens: Vec<TokenEntry>,
}

/// No token occurs twice.
pub open spec fn tokens_distinct(s: Seq<TokenEntry>) -> bool {
    forall|i: int, j: int|
        0 <= i < j < s.len() ==> (#[trigger] s[i]).token@ != (#[trigger] s[j]).token@
}

/// A token occurs.
pub open spec fn has_token(s: Seq<TokenEntry>, t: Seq<char>) -> bool {
    exists|i: int| 0 <= i < s.len() && (#[trigger] s[i]).token@ == t
}

/// The user a token was issued to.
pub open spec fn token_user(s: Seq<TokenEntry>, t: Seq<char>) -> Option<Seq<char>> {
    if has_token(s, t) {
        Some(s[choose|i: int| 0 <= i < s.len() && (#[trigger] s[i]).token@ == t].user@)
    } else {
        None
    }
}

/// Among distinct tokens, an entry is what its token finds.
proof fn lemma_token_user(s: Seq<TokenEntry>, i: int)
    requires
        tokens_distinct(s),
        0 <= i < s.len(),
    ensures
        token_user(s, s[i].token@) == Some(s[i].user@),
{
    let t = s[i].token@;
    assert(has_token(s, t));
    let k = choose|k: int| 0 <= k < s.len() && (#[trigger] s[k]).token@ == t;
    assert(k == i);
}

/// The character of a hexadecimal digit, lower case.
pub open spec fn hex_char(d: int) -> char {
    if d < 10 {
        crate::text::digit_char(d)
    } else if d == 10 {
        'a'
    } else if d == 11 {
        'b'
    } else if d == 12 {
        'c'
    } else if d == 13 {
        'd'
    } else if d == 14 {
        'e'
    } else {
        'f'
    }
}

/// Two hexadecimal digits for each byte, high digit first.
pub open spec fn hex(bytes: Seq<u8>) -> Seq<char> {
    Seq::new(
        2 * bytes.len(),
        |i: int|
            if i % 2 == 0 {
                hex_char(bytes[i / 2] as int / 16)
            } else {
                hex_char(bytes[i / 2] as int % 16)
            },
    )
}

fn hex_digit_str(d: u8) -> (r: &'static str)
    requires
        d < 16,
    ensures
        r@ == seq![hex_char(d as int)],
{
    if d < 10 {
        crate::text::digit_str(d)
    } else {
        proof {
            reveal_strlit("a");
            reveal_strlit("b");
            reveal_strlit("c");
            reveal_strlit("d");
            reveal_strlit("e");
            reveal_strlit("f");
        }
        let r = if d == 10 {
            "a"
        } else if d == 11 {
            "b"
        } else if d == 12 {
            "c"
        } else if d == 13 {
            "d"
        } else if d == 14 {
            "e"
        } else {
            "f"
        };
        assert(r@ =~= seq![hex_char(d as int)]);
        r
    }
}

/// A byte string in hexadecimal.
pub fn hex_encode(bytes: &[u8]) -> (r: String)
    ensures
        r@ == hex(bytes@),
{
    let mut s = String::new();
    let mut i: usize = 0;
    assert(s@ =~= hex(bytes@.take(0)));
    while i < bytes.len()
        invariant
            i <= bytes@.len(),
            s@ == hex(bytes@.take(i as int)),
        decreases bytes@.len() - i,
    {
        let b: u8 = bytes[i];
        s.append(hex_digit_str(b / 16));
        s.append(hex_digit_str(b % 16));
        assert(s@ =~= hex(bytes@.take(i + 1))) by {
            let t = bytes@.take(i + 1);
            assert(t.len() == i + 1);
            assert forall|k: int| 0 <= k < 2 * (i + 1) implies s@[k] == hex(t)[k] by {
                if k < 2 * i {
                    assert(bytes@.take(i as int)[k / 2] == t[k / 2]);
                } else {
                    assert(k / 2 == i);
                }
            }
        }
        i += 1;
    }
    assert(bytes@.take(i as int) =~= bytes@);
    s
}

/// Hexadecimal text determines the bytes.
pub proof fn law_hex_is_injective(a: Seq<u8>, b: Seq<u8>)
    requires
        hex(a) == hex(b),
    ensures
        a == b,
{
    assert(hex(a).len() == 2 * a.len());
    assert(hex(b).len() == 2 * b.len());
    assert forall|i: int| 0 <= i < a.len() implies a[i] == b[i] by {
        let hi = 2 * i;
        let lo = 2 * i + 1;
        assert(hi / 2 == i && lo / 2 == i && hi % 2 == 0 && lo % 2 == 1);
        assert(hex(a)[hi] == hex_char(a[i] as int / 16));
        assert(hex(b)[hi] == hex_char(b[i] as int / 16));
        assert(hex(a)[lo] == hex_char(a[i] as int % 16));
        assert(hex(b)[lo] == hex_char(b[i] as int % 16));
        lemma_hex_char(a[i] as int / 16, b[i] as int / 16);
        lemma_hex_char(a[i] as int % 16, b[i] as int % 16);
    }
    assert(a =~= b);
}

/// Different digits have different characters.
proof fn lemma_hex_char(x: int, y: int)
    requires
        0 <= x < 16,
        0 <= y < 16,
        hex_char(x) == hex_char(y),
    ensures
        x == y,
{
}

impl Default for AuthState {
    fn default() -> (r: AuthState)
        ensures
            r.wf(),
            !r.enabled(),
            forall|t: Seq<char>| #[trigger] r.user_of(t) is None,
    {
        AuthState { enabled: false, tokens: Vec::new() }
    }
}

impl AuthState {
    /// No token is held twice.
    pub closed spec fn wf(self) -> bool {
        tokens_distinct(self.tokens@)
    }

    /// Whether authentication is on.
    pub closed spec fn enabled(self) -> bool {
        self.enabled
    }

    /// The user that a token stands for.
    pub closed spec fn user_of(self, token: Seq<char>) -> Option<Seq<char>> {
        token_user(self.tokens@, token)
    }

    /// Whether authentication is on.
    pub fn is_enabled(&self) -> (r: bool)
        ensures
            r == self.enabled(),
    {
        self.enabled
    }

    /// Turn authentication on or off. Tokens stay in force.
    pub fn set_enabled(&mut self, enabled: bool)
        requires
            old(self).wf(),
        ensures
            final(self).wf(),
            final(self).enabled() == enabled,
            forall|t: Seq<char>| #[trigger] final(self).user_of(t) == old(self).user_of(t),
    {
        self.enabled = enabled;
    }

    /// The user that a token stands for, if it is in force.
    pub fn user_for_token(&self, token: &str) -> (r: Option<String>)
        requires
            self.wf(),
        ensures
            r is Some <==> self.user_of(token@) is Some,
            r is Some ==> Some(r->0@) == self.user_of(token@),
    {
        let mut i: usize = 0;
        while i < self.tokens.len()
            invariant
                i <= self.tokens@.len(),
                self.wf(),
                forall|j: int| 0 <= j < i ==> (#[trigger] self.tokens@[j]).token@ != token@,
            decreases self.tokens@.len() - i,
        {
            if str_eq(self.tokens[i].token.as_str(), token) {
                proof {
                    lemma_token_user(self.tokens@, i as int);
                }
                return Some(self.tokens[i].user.clone());
            }
            i += 1;
        }
        None
    }

    /// Put a token in force for a user. The token is the hexadecimal text
    /// of the given bytes.
    pub fn register_token(&mut self, bytes: &[u8], user: &str) -> (token: String)
        requires
            old(self).wf(),
        ensures
            token@ == hex(bytes@),
            final(self).wf(),
            final(self).enabled() == old(self).enabled(),
            forall|t: Seq<char>| #[trigger]
                final(self).user_of(t) == (if t == hex(bytes@) {
                    Some(user@)
                } else {
                    old(self).user_of(t)
                }),
    {
        let token = hex_encode(bytes);
        let ghost before = self.tokens@;
        let mut i: usize = 0;
        while i < self.tokens.len()
            invariant
                i <= self.tokens@.len(),
                self.tokens@ == before,
                self.enabled == old(self).enabled,
                before == old(self).tokens@,
                tokens_distinct(before),
                token@ == hex(bytes@),
                forall|j: int| 0 <= j < i ==> (#[trigger] before[j]).token@ != token@,
            decreases self.tokens@.len() - i,
        {
            if str_eq(self.tokens[i].token.as_str(), token.as_str()) {
                let entry = TokenEntry { token: token.clone(), user: String::from_str(user) };
                self.tokens.set(i, entry);
                proof {
                    assert(self.tokens@ =~= before.update(i as int, entry));
                    lemma_set_token(before, self.tokens@, i as int, entry);
                }
                return token;
            }
            i += 1;
        }
        let entry = TokenEntry { token: token.clone(), user: String::from_str(user) };
        self.tokens.push(entry);
        proof {
            lemma_push_token(before, entry);
            assert(self.tokens@ =~= before.push(entry));
        }
        token
    }

    /// Put a fresh random token in force for a user.
    pub fn issue_token(&mut self, user: &str) -> (token: String)
        requires
            old(self).wf(),
        ensures
            final(self).wf(),
            final(self).enabled() == old(self).enabled(),
            exists|bytes: Seq<u8>| bytes.len() == 32 && token@ == #[trigger] hex(bytes),
            token@.len() == 64,
            forall|t: Seq<char>| #[trigger]
                final(self).user_of(t) == (if t == token@ {
                    Some(user@)
                } else {
                    old(self).user_of(t)
                }),
    {
        let bytes = random_token_bytes();
        self.register_token(bytes.as_slice(), user)
    }

    /// Take every token of a user out of force.
    pub fn revoke_user_tokens(&mut self, user: &str)
        requires
            old(self).wf(),
        ensures
            final(self).wf(),
            final(self).enabled() == old(self).enabled(),
            forall|t: Seq<char>| #[trigger]
                final(self).user_of(t) == (if old(self).user_of(t) == Some(user@) {
                    None
                } else {
                    old(self).user_of(t)
                }),
    {
        let ghost before = self.tokens@;
        let mut kept: Vec<TokenEntry> = Vec::new();
        let mut i: usize = 0;
        let ghost mut from: Seq<int> = seq![];
        while i < self.tokens.len()
            invariant
                i <= self.tokens@.len(),
                self.tokens@ == before,
                tokens_distinct(before),
                self.enabled == old(self).enabled,
                before == old(self).tokens@,
                from.len() == kept@.len(),
                forall|k: int| #![trigger kept@[k]] #![trigger from[k]]
                    0 <= k < kept@.len() ==> 0 <= from[k] < i && kept@[k].token@
                        == before[from[k]].token@ && kept@[k].user@ == before[from[k]].user@
                        && kept@[k].user@ != user@,
                forall|k: int, l: int|
                    0 <= k < l < from.len() ==> (#[trigger] from[k]) < (#[trigger] from[l]),
                forall|j: int|
                    0 <= j < i && (#[trigger] before[j]).user@ != user@ ==> exists|k: int|
                        0 <= k < from.len() && #[trigger] from[k] == j,
            decreases self.tokens@.len() - i,
        {
            if !str_eq(self.tokens[i].user.as_str(), user) {
                kept.push(
                    TokenEntry {
                        token: self.tokens[i].token.clone(),
                        user: self.tokens[i].user.clone(),
                    },
                );
                proof {
                    let prev = from;
                    from = from.push(i as int);
                    assert forall|j: int|
                        0 <= j < i + 1 && (#[trigger] before[j]).user@ != user@ implies exists|
                        k: int,
                    | 0 <= k < from.len() && #[trigger] from[k] == j by {
                        if j < i {
                            let k = choose|k: int| 0 <= k < prev.len() && #[trigger] prev[k] == j;
                            assert(from[k] == j);
                        } else {
                            assert(from[prev.len() as int] == j);
                        }
                    }
                }
            }
            i += 1;
        }
        self.tokens = kept;
        proof {
            let after = self.tokens@;
            assert(tokens_distinct(after)) by {
                assert forall|k: int, l: int| 0 <= k < l < after.len() implies (
                #[trigger] after[k]).token@ != (#[trigger] after[l]).token@ by {
                    assert(from[k] < from[l]);
                    assert(before[from[k]].token@ != before[from[l]].token@);
                }
            }
            assert forall|t: Seq<char>| #[trigger]
                token_user(after, t) == (if token_user(before, t) == Some(user@) {
                    None
                } else {
                    token_user(before, t)
                }) by {
                if has_token(after, t) {
                    let k = choose|k: int|
                        0 <= k < after.len() && (#[trigger] after[k]).token@ == t;
                    lemma_token_user(after, k);
                    lemma_token_user(before, from[k]);
                } else if has_token(before, t) {
                    let j = choose|j: int|
                        0 <= j < before.len() && (#[trigger] before[j]).token@ == t;
                    lemma_token_user(before, j);
                    if before[j].user@ != user@ {
                        let k = choose|k: int| 0 <= k < from.len() && #[trigger] from[k] == j;
                        assert(after[k].token@ == t);
                    }
                }
            }
        }
    }
}

/// Replacing the entry of a token.
proof fn lemma_set_token(before: Seq<TokenEntry>, after: Seq<TokenEntry>, i: int, e: TokenEntry)
    requires
        tokens_distinct(before),
        0 <= i < before.len(),
        after == before.update(i, e),
        before[i].token@ == e.token@,
    ensures
        tokens_distinct(after),
        forall|t: Seq<char>| #[trigger]
            token_user(after, t) == (if t == e.token@ {
                Some(e.user@)
            } else {
                token_user(before, t)
            }),
{
    assert forall|t: Seq<char>| #[trigger]
        token_user(after, t) == (if t == e.token@ {
            Some(e.user@)
        } else {
            token_user(before, t)
        }) by {
        if t == e.token@ {
            lemma_token_user(after, i);
        } else if has_token(before, t) {
            let j = choose|j: int| 0 <= j < before.len() && (#[trigger] before[j]).token@ == t;
            lemma_token_user(before, j);
            assert(after[j] == before[j]);
            lemma_token_user(after, j);
        } else if has_token(after, t) {
            let j = choose|j: int| 0 <= j < after.len() && (#[trigger] after[j]).token@ == t;
            assert(after[j] == before[j]);
        }
    }
}

/// Adding the entry of a new token.
proof fn lemma_push_token(before: Seq<TokenEntry>, e: TokenEntry)
    requires
        tokens_distinct(before),
        !has_token(before, e.token@),
    ensures
        tokens_distinct(before.push(e)),
        forall|t: Seq<char>| #[trigger]
            token_user(before.push(e), t) == (if t == e.token@ {
                Some(e.user@)
            } else {
                token_user(before, t)
            }),
{
    let after = before.push(e);
    assert forall|t: Seq<char>| #[trigger]
        token_user(after, t) == (if t == e.token@ {
            Some(e.user@)
        } else {
            token_user(before, t)
        }) by {
        if t == e.token@ {
            assert(after[before.len() as int] == e);
            lemma_token_user(after, before.len() as int);
        } else if has_token(before, t) {
            let j = choose|j: int| 0 <= j < before.len() && (#[trigger] before[j]).token@ == t;
            lemma_token_user(before, j);
            assert(after[j] == before[j]);
            lemma_token_user(after, j);
        } else if has_token(after, t) {
            let j = choose|j: int| 0 <= j < after.len() && (#[trigger] after[j]).token@ == t;
            assert(after[j] == before[j]);
        }
    }
}

/// A text made of a head, a name and a tail.
pub open spec fn about(head: Seq<char>, name: Seq<char>, tail: Seq<char>) -> Seq<char> {
    head + name + tail
}

fn refusal(code: Code, head: &str, name: &str, tail: &str) -> (s: Status)
    ensures
        s.says(code, about(head@, name@, tail@)),
{
    Status::from_string(code, join3(head, name, tail))
}

/// What hashing a password with a salt comes to.
pub open spec fn hashed_with(plain: Seq<char>, salt: Seq<char>, r: Result<String, Status>) -> bool {
    match crate::crypto::argon2_phc(plain, salt) {
        Ok(phc) => r is Ok && r->Ok_0@ == phc,
        Err(e) => r is Err && r->Err_0.says(Code::Internal, "argon2 hash: "@ + e),
    }
}

/// What hashing the password of a user record came to.
pub open spec fn hash_in(r: Result<StoredUser, Status>) -> Result<String, Status> {
    match r {
        Ok(u) => Ok(u.password_hash),
        Err(e) => Err(e),
    }
}

/// What hashing a password with a salt that was drawn comes to.
pub open spec fn hashed_with_drawn(
    plain: Seq<char>,
    salt: Seq<char>,
    r: Result<String, Status>,
) -> bool {
    crate::crypto::drawn_salt(salt) && hashed_with(plain, salt, r)
}

/// Hash a password with a given salt. A hash that comes out accepts the
/// password, and with a salt of the form that is drawn one comes out
/// unless the password is too long.
pub fn hash_password_with_salt(plain: &str, salt: &str) -> (r: Result<String, Status>)
    ensures
        hashed_with(plain@, salt@, r),
        r is Ok ==> crate::crypto::accepts(plain@, r->Ok_0@),
        crate::crypto::drawn_salt(salt@) ==> (r is Ok <==> crate::crypto::hashable(plain@)),
{
    match argon2_hash(plain, salt) {
        Ok(h) => Ok(h),
        Err(e) => Err(
            Status::from_string(
                Code::Internal,
                String::from_str("argon2 hash: ").concat(e.as_str()),
            ),
        ),
    }
}

/// Hash a password with a fresh random salt. A hash comes out unless the
/// password is too long, and accepts the password.
pub fn hash_password(plain: &str) -> (r: Result<String, Status>)
    ensures
        exists|salt: Seq<char>| #[trigger] hashed_with_drawn(plain@, salt, r),
        r is Ok <==> crate::crypto::hashable(plain@),
        r is Ok ==> crate::crypto::accepts(plain@, r->Ok_0@),
{
    let salt = random_salt();
    let r = hash_password_with_salt(plain, salt.as_str());
    assert(hashed_with_drawn(plain@, salt@, r));
    r
}

/// Whether a password matches an encoded hash. One that asks for more
/// lanes than a hash can be made with matches nothing.
pub fn verify_password(plain: &str, hash_phc: &str) -> (r: bool)
    ensures
        r == crate::crypto::accepts(plain@, hash_phc@),
{
    !asks_too_many_lanes(hash_phc) && argon2_verify(plain, hash_phc)
}

/// The permission kind that a wire number stands for.
pub open spec fn perm_type_of(p: i32) -> Option<PermType> {
    if p == 0 {
        Some(PermType::Read)
    } else if p == 1 {
        Some(PermType::Write)
    } else if p == 2 {
        Some(PermType::ReadWrite)
    } else {
        None
    }
}

/// The permission kind that a wire number stands for.
pub fn pb_perm_type(p: i32) -> (r: Option<PermType>)
    ensures
        r == perm_type_of(p),
{
    if p == 0 {
        Some(PermType::Read)
    } else if p == 1 {
        Some(PermType::Write)
    } else if p == 2 {
        Some(PermType::ReadWrite)
    } else {
        None
    }
}

/// A permission as the wire carries it.
#[derive(Debug)]
pub struct Permission {
    pub perm_type: i32,
    pub key: Vec<u8>,
    pub range_end: Vec<u8>,
}

/// The wire form and the stored form say the same.
pub open spec fn same_permission(w: Permission, p: StoredPermission) -> bool {
    &&& perm_type_of(w.perm_type) == Some(p.perm_type)
    &&& w.key@ == p.key@
    &&& w.range_end@ == p.range_end@
}

/// A stored permission as the wire carries it.
pub fn perm_to_pb(p: &StoredPermission) -> (w: Permission)
    ensures
        same_permission(w, *p),
{
    Permission {
        perm_type: match p.perm_type {
            PermType::Read => 0,
            PermType::Write => 1,
            PermType::ReadWrite => 2,
        },
        key: copy_bytes(p.key.as_slice()),
        range_end: copy_bytes(p.range_end.as_slice()),
    }
}

/// The persisted form of the flag that authentication is on.
pub open spec fn flag_bytes(on: bool) -> Seq<u8> {
    seq![
        if on {
            1u8
        } else {
            0u8
        },
    ]
}

/// What a persisted flag says: not zero means on, zero or nothing off.
pub open spec fn flag_is_on(bytes: Seq<u8>) -> bool {
    bytes.len() > 0 && bytes[0] != 0
}

/// A restart finds authentication as it was left.
pub proof fn law_persisted_flag_reads_back(on: bool)
    ensures
        flag_is_on(flag_bytes(on)) == on,
{
}

/// Whether authentication is on, as a client asks.
#[derive(Debug, Clone, Copy, PartialEq, Eq, Structural)]
pub struct AuthStatusResponse {
    pub header: ResponseHeader,
    pub enabled: bool,
    pub auth_revision: u64,
}

/// Answers authentication requests and decides what user and role
/// requests write.
#[derive(Debug)]
pub struct AuthService {
    pub auth: AuthState,
}

impl AuthService {
    /// A service over the given state.
    pub fn new(auth: AuthState) -> (r: AuthService)
        ensures
            r.auth == auth,
    {
        AuthService { auth }
    }

    /// Restore the persisted flag; without one the state stays as it is.
    pub fn load_persisted(persisted: Option<&Vec<u8>>, auth: &mut AuthState)
        requires
            old(auth).wf(),
        ensures
            final(auth).wf(),
            final(auth).enabled() == (match persisted {
                Some(b) => flag_is_on(b@),
                None => old(auth).enabled(),
            }),
            forall|t: Seq<char>| #[trigger] final(auth).user_of(t) == old(auth).user_of(t),
    {
        if let Some(b) = persisted {
            let on = b.len() > 0 && b[0] != 0;
            auth.set_enabled(on);
        }
    }

    /// The flag to persist to turn authentication on, which is then on:
    /// the `root` user must exist.
    pub fn auth_enable(root: Option<&StoredUser>) -> (r: Result<Vec<u8>, Status>)
        ensures
            r is Ok <==> root is Some,
            r is Ok ==> r->Ok_0@ == flag_bytes(true),
            r is Err ==> r->Err_0.says(
                Code::FailedPrecondition,
                "root user must exist before AuthEnable"@,
            ),
    {
        match root {
            Some(_) => Ok(vec![1]),
            None => Err(
                Status::new(Code::FailedPrecondition, "root user must exist before AuthEnable"),
            ),
        }
    }

    /// The flag to persist to turn authentication off.
    pub fn auth_disable() -> (r: Vec<u8>)
        ensures
            r@ == flag_bytes(false),
    {
        vec![0]
    }

    /// Whether authentication is on.
    pub fn auth_status(&self, header: ResponseHeader) -> (r: AuthStatusResponse)
        ensures
            r == (AuthStatusResponse {
                header,
                enabled: self.auth.enabled(),
                auth_revision: header.revision as u64,
            }),
    {
        AuthStatusResponse {
            header,
            enabled: self.auth.is_enabled(),
            auth_revision: header.revision as u64,
        }
    }

    /// Check a user's password. `user` is the record read under `name`.
    pub fn check_credentials(name: &str, password: &str, user: Option<&StoredUser>) -> (r: Result<
        (),
        Status,
    >)
        ensures
            r is Ok <==> (user is Some && !user->0.no_password && crate::crypto::accepts(
                password@,
                user->0.password_hash@,
            )),
            user is None ==> r is Err && r->Err_0.says(
                Code::Unauthenticated,
                about("auth: user "@, name@, " not found"@),
            ),
            user is Some && user->0.no_password ==> r is Err && r->Err_0.says(
                Code::Unauthenticated,
                "auth: user has no password (no_password set)"@,
            ),
            user is Some && !user->0.no_password && r is Err ==> r->Err_0.says(
                Code::Unauthenticated,
                "auth: invalid password"@,
            ),
    {
        match user {
            None => Err(refusal(Code::Unauthenticated, "auth: user ", name, " not found")),
            Some(u) => {
                if u.no_password {
                    Err(
                        Status::new(
                            Code::Unauthenticated,
                            "auth: user has no password (no_password set)",
                        ),
                    )
                } else if !verify_password(password, u.password_hash.as_str()) {
                    Err(Status::new(Code::Unauthenticated, "auth: invalid password"))
                } else {
                    Ok(())
                }
            },
        }
    }

    /// Authenticate: check the password and put a fresh token in force for
    /// the user.
    pub fn authenticate(&mut self, name: &str, password: &str, user: Option<&StoredUser>) -> (r:
        Result<String, Status>)
        requires
            old(self).auth.wf(),
        ensures
            final(self).auth.wf(),
            final(self).auth.enabled() == old(self).auth.enabled(),
            r is Ok <==> (user is Some && !user->0.no_password && crate::crypto::accepts(
                password@,
                user->0.password_hash@,
            )),
            r is Ok ==> exists|bytes: Seq<u8>| bytes.len() == 32 && r->Ok_0@ == #[trigger] hex(bytes),
            r is Ok ==> r->Ok_0@.len() == 64,
            forall|t: Seq<char>| #[trigger]
                final(self).auth.user_of(t) == (if r is Ok && t == r->Ok_0@ {
                    Some(user->0.name@)
                } else {
                    old(self).auth.user_of(t)
                }),
            user is None ==> r is Err && r->Err_0.says(
                Code::Unauthenticated,
                about("auth: user "@, name@, " not found"@),
            ),
            user is Some && user->0.no_password ==> r is Err && r->Err_0.says(
                Code::Unauthenticated,
                "auth: user has no password (no_password set)"@,
            ),
            user is Some && !user->0.no_password && r is Err ==> r->Err_0.says(
                Code::Unauthenticated,
                "auth: invalid password"@,
            ),
    {
        match AuthService::check_credentials(name, password, user) {
            Err(e) => Err(e),
            Ok(()) => match user {
                Some(u) => Ok(self.auth.issue_token(u.name.as_str())),
                None => Err(refusal(Code::Unauthenticated, "auth: user ", name, " not found")),
            },
        }
    }

    /// What adding a user is refused with, if anything, before its
    /// password is hashed.
    pub open spec fn user_add_fault(
        name: Seq<char>,
        password: Seq<char>,
        no_password: bool,
        exists_already: bool,
    ) -> Option<(Code, Seq<char>)> {
        if name.len() == 0 {
            Some((Code::InvalidArgument, "auth: empty user name"@))
        } else if exists_already {
            Some((Code::AlreadyExists, about("auth: user "@, name, " already exists"@)))
        } else if !no_password && password.len() == 0 {
            Some(
                (
                    Code::InvalidArgument,
                    "auth: empty password (use no_password option for passwordless users)"@,
                ),
            )
        } else {
            None
        }
    }

    /// The record of a user to add, from the outcome of hashing its
    /// password (not looked at for a user without one).
    pub fn new_user(
        name: &str,
        password: &str,
        no_password: bool,
        existing: Option<&StoredUser>,
        hashed: Result<String, Status>,
    ) -> (r: Result<StoredUser, Status>)
        ensures
            match AuthService::user_add_fault(name@, password@, no_password, existing is Some) {
                Some((code, text)) => r is Err && r->Err_0.says(code, text),
                None => if no_password {
                    r is Ok && r->Ok_0.password_hash@ == Seq::<char>::empty()
                } else {
                    match hashed {
                        Ok(h) => r is Ok && r->Ok_0.password_hash@ == h@,
                        Err(e) => r is Err && r->Err_0 == e,
                    }
                },
            },
            r is Ok ==> r->Ok_0.name@ == name@ && r->Ok_0.roles@.len() == 0 && r->Ok_0.no_password
                == no_password,
    {
        if name.is_empty() {
            return Err(Status::new(Code::InvalidArgument, "auth: empty user name"));
        }
        if existing.is_some() {
            return Err(refusal(Code::AlreadyExists, "auth: user ", name, " already exists"));
        }
        let password_hash = if no_password {
            String::new()
        } else if password.is_empty() {
            return Err(
                Status::new(
                    Code::InvalidArgument,
                    "auth: empty password (use no_password option for passwordless users)",
                ),
            );
        } else {
            match hashed {
                Ok(h) => h,
                Err(e) => {
                    return Err(e);
                },
            }
        };
        Ok(
            StoredUser {
                name: String::from_str(name),
                password_hash,
                roles: Vec::new(),
                no_password,
            },
        )
    }

    /// The record of a user to add. A user with a password can
    /// authenticate with it.
    pub fn user_add(
        name: &str,
        password: &str,
        no_password: bool,
        existing: Option<&StoredUser>,
    ) -> (r: Result<StoredUser, Status>)
        ensures
            match AuthService::user_add_fault(name@, password@, no_password, existing is Some) {
                Some((code, text)) => r is Err && r->Err_0.says(code, text),
                None => if no_password {
                    r is Ok
                } else {
                    &&& r is Ok <==> crate::crypto::hashable(password@)
                    &&& exists|salt: Seq<char>| #[trigger]
                        hashed_with_drawn(password@, salt, hash_in(r))
                },
            },
            r is Ok ==> {
                &&& r->Ok_0.name@ == name@
                &&& r->Ok_0.roles@.len() == 0
                &&& r->Ok_0.no_password == no_password
                &&& no_password ==> r->Ok_0.password_hash@ == Seq::<char>::empty()
                &&& !no_password ==> crate::crypto::accepts(
                    password@,
                    r->Ok_0.password_hash@,
                )
            },
    {
        let user = match AuthService::new_user(
            name,
            password,
            no_password,
            existing,
            Ok(String::new()),
        ) {
            Ok(u) => u,
            Err(e) => {
                return Err(e);
            },
        };
        if no_password {
            return Ok(user);
        }
        let hashed = hash_password(password);
        let r = AuthService::new_user(name, password, no_password, existing, hashed);
        proof {
            let salt = choose|salt: Seq<char>| hashed_with_drawn(password@, salt, hashed);
            assert(hashed_with_drawn(password@, salt, hash_in(r)));
        }
        r
    }

    /// The roles of a user.
    pub fn user_get(name: &str, user: Option<StoredUser>) -> (r: Result<Vec<String>, Status>)
        ensures
            match user {
                Some(u) => r is Ok && r->Ok_0@ == u.roles@,
                None => r is Err && r->Err_0.says(
                    Code::NotFound,
                    about("auth: user "@, name@, " not found"@),
                ),
            },
    {
        match user {
            Some(u) => Ok(u.roles),
            None => Err(refusal(Code::NotFound, "auth: user ", name, " not found")),
        }
    }

    /// The names among the keys of a table: those that are text, in order.
    pub fn names_of_keys(keys: Vec<Vec<u8>>) -> (r: Vec<String>)
        ensures
            names::texts(r@) == key_names(keys@),
    {
        let ghost all = keys@;
        let mut out: Vec<String> = Vec::new();
        let mut i: usize = 0;
        assert(names::texts(out@) =~= key_names(all.take(0)));
        while i < keys.len()
            invariant
                i <= keys@.len(),
                keys@ == all,
                names::texts(out@) == key_names(all.take(i as int)),
            decreases keys@.len() - i,
        {
            let ghost before = out@;
            let k = copy_bytes(keys[i].as_slice());
            let ghost head = all.take(i as int);
            assert(all.take(i + 1).drop_last() =~= head);
            assert(all.take(i + 1).last() == all[i as int]);
            match string_from_utf8(k) {
                Some(s) => {
                    out.push(s);
                    assert(names::texts(out@) =~= names::texts(before).push(s@));
                },
                None => {},
            }
            i += 1;
        }
        assert(all.take(i as int) =~= all);
        out
    }

    /// Whether a user can be deleted.
    pub fn user_delete(name: &str, user: Option<&StoredUser>) -> (r: Result<(), Status>)
        ensures
            r is Ok <==> user is Some,
            r is Err ==> r->Err_0.says(
                Code::NotFound,
                about("auth: user "@, name@, " not found"@),
            ),
    {
        match user {
            None => Err(refusal(Code::NotFound, "auth: user ", name, " not found")),
            Some(_) => Ok(()),
        }
    }

    /// The record of a user with a new password, from the outcome of
    /// hashing it.
    pub fn set_password(
        name: &str,
        password: &str,
        user: Option<StoredUser>,
        hashed: Result<String, Status>,
    ) -> (r: Result<StoredUser, Status>)
        ensures
            match user {
                None => r is Err && r->Err_0.says(
                    Code::NotFound,
                    about("auth: user "@, name@, " not found"@),
                ),
                Some(u) => if password@.len() == 0 {
                    r is Err && r->Err_0.says(Code::InvalidArgument, "auth: empty password"@)
                } else {
                    match hashed {
                        Err(e) => r is Err && r->Err_0 == e,
                        Ok(h) => r is Ok && r->Ok_0.password_hash@ == h@ && !r->Ok_0.no_password
                            && r->Ok_0.name == u.name && r->Ok_0.roles == u.roles,
                    }
                },
            },
    {
        let u = match user {
            None => {
                return Err(refusal(Code::NotFound, "auth: user ", name, " not found"));
            },
            Some(u) => u,
        };
        if password.is_empty() {
            return Err(Status::new(Code::InvalidArgument, "auth: empty password"));
        }
        match hashed {
            Err(e) => Err(e),
            Ok(h) => Ok(
                StoredUser {
                    name: u.name,
                    password_hash: h,
                    roles: u.roles,
                    no_password: false,
                },
            ),
        }
    }

    /// The record of a user with a new password, with which the user can
    /// then authenticate.
    pub fn user_change_password(name: &str, password: &str, user: Option<StoredUser>) -> (r: Result<
        StoredUser,
        Status,
    >)
        ensures
            user is None ==> r is Err && r->Err_0.says(
                Code::NotFound,
                about("auth: user "@, name@, " not found"@),
            ),
            user is Some && password@.len() == 0 ==> r is Err && r->Err_0.says(
                Code::InvalidArgument,
                "auth: empty password"@,
            ),
            user is Some && password@.len() > 0 ==> {
                &&& r is Ok <==> crate::crypto::hashable(password@)
                &&& exists|salt: Seq<char>| #[trigger]
                    hashed_with_drawn(password@, salt, hash_in(r))
            },
            r is Ok ==> {
                &&& r->Ok_0.name == user->0.name
                &&& r->Ok_0.roles == user->0.roles
                &&& !r->Ok_0.no_password
                &&& crate::crypto::accepts(password@, r->Ok_0.password_hash@)
            },
    {
        if user.is_none() || password.is_empty() {
            return AuthService::set_password(name, password, user, Ok(String::new()));
        }
        let hashed = hash_password(password);
        let r = AuthService::set_password(name, password, user, hashed);
        proof {
            let salt = choose|salt: Seq<char>| hashed_with_drawn(password@, salt, hashed);
            assert(hashed_with_drawn(password@, salt, hash_in(r)));
        }
        r
    }

    /// A user was to be deleted, or given a new password: once that is
    /// written, no token issued to the user before stays in force. A write
    /// that failed leaves every token.
    pub fn user_written(&mut self, name: &str, written: bool)
        requires
            old(self).auth.wf(),
        ensures
            final(self).auth.wf(),
            final(self).auth.enabled() == old(self).auth.enabled(),
            forall|t: Seq<char>| #[trigger]
                final(self).auth.user_of(t) == (if written && old(self).auth.user_of(t) == Some(
                    name@,
                ) {
                    None
                } else {
                    old(self).auth.user_of(t)
                }),
    {
        if written {
            self.auth.revoke_user_tokens(name);
        }
    }

    /// The record of a user with a role granted to it. A role it already
    /// has is not added again.
    pub fn user_grant_role(
        user_name: &str,
        role_name: &str,
        user: Option<StoredUser>,
        role: Option<&StoredRole>,
    ) -> (r: Result<StoredUser, Status>)
        ensures
            match user {
                None => r is Err && r->Err_0.says(
                    Code::NotFound,
                    about("auth: user "@, user_name@, " not found"@),
                ),
                Some(u) => match role {
                    None => r is Err && r->Err_0.says(
                        Code::NotFound,
                        about("auth: role "@, role_name@, " not found"@),
                    ),
                    Some(_) => {
                        &&& r is Ok
                        &&& r->Ok_0.name == u.name
                        &&& r->Ok_0.password_hash == u.password_hash
                        &&& r->Ok_0.no_password == u.no_password
                        &&& names::texts(r->Ok_0.roles@) == (if names::texts(u.roles@).contains(role_name@) {
                            names::texts(u.roles@)
                        } else {
                            names::texts(u.roles@).push(role_name@)
                        })
                    },
                },
            },
    {
        let mut u = match user {
            None => {
                return Err(refusal(Code::NotFound, "auth: user ", user_name, " not found"));
            },
            Some(u) => u,
        };
        if role.is_none() {
            return Err(refusal(Code::NotFound, "auth: role ", role_name, " not found"));
        }
        if !has_name(&u.roles, role_name) {
            let ghost before = u.roles@;
            u.roles.push(String::from_str(role_name));
            assert(names::texts(u.roles@) =~= names::texts(before).push(role_name@));
        }
        Ok(u)
    }

    /// The record of a user without a role.
    pub fn user_revoke_role(user_name: &str, role_name: &str, user: Option<StoredUser>) -> (r:
        Result<StoredUser, Status>)
        ensures
            match user {
                None => r is Err && r->Err_0.says(
                    Code::NotFound,
                    about("auth: user "@, user_name@, " not found"@),
                ),
                Some(u) => {
                    &&& r is Ok
                    &&& r->Ok_0.name == u.name
                    &&& r->Ok_0.password_hash == u.password_hash
                    &&& r->Ok_0.no_password == u.no_password
                    &&& names::texts(r->Ok_0.roles@) == names::without(names::texts(u.roles@), role_name@)
                },
            },
    {
        let mut u = match user {
            None => {
                return Err(refusal(Code::NotFound, "auth: user ", user_name, " not found"));
            },
            Some(u) => u,
        };
        remove_name(&mut u.roles, role_name);
        Ok(u)
    }

    /// The record of a role to add: no permissions yet.
    pub fn role_add(name: &str, existing: Option<&StoredRole>) -> (r: Result<StoredRole, Status>)
        ensures
            r is Ok <==> name@.len() > 0 && existing is None,
            r is Ok ==> r->Ok_0.name@ == name@ && r->Ok_0.permissions@.len() == 0,
            name@.len() == 0 ==> r is Err && r->Err_0.says(
                Code::InvalidArgument,
                "auth: empty role name"@,
            ),
            name@.len() > 0 && existing is Some ==> r is Err && r->Err_0.says(
                Code::AlreadyExists,
                about("auth: role "@, name@, " already exists"@),
            ),
    {
        if name.is_empty() {
            return Err(Status::new(Code::InvalidArgument, "auth: empty role name"));
        }
        if existing.is_some() {
            return Err(refusal(Code::AlreadyExists, "auth: role ", name, " already exists"));
        }
        Ok(StoredRole { name: String::from_str(name), permissions: Vec::new() })
    }

    /// The permissions of a role.
    pub fn role_get(name: &str, role: Option<&StoredRole>) -> (r: Result<Vec<Permission>, Status>)
        ensures
            match role {
                None => r is Err && r->Err_0.says(
                    Code::NotFound,
                    about("auth: role "@, name@, " not found"@),
                ),
                Some(x) => {
                    &&& r is Ok
                    &&& r->Ok_0@.len() == x.permissions@.len()
                    &&& forall|i: int|
                        0 <= i < x.permissions@.len() ==> same_permission(
                            #[trigger] r->Ok_0@[i],
                            x.permissions@[i],
                        )
                },
            },
    {
        let x = match role {
            None => {
                return Err(refusal(Code::NotFound, "auth: role ", name, " not found"));
            },
            Some(x) => x,
        };
        let mut out: Vec<Permission> = Vec::new();
        let mut i: usize = 0;
        while i < x.permissions.len()
            invariant
                i <= x.permissions@.len(),
                out@.len() == i,
                forall|k: int|
                    0 <= k < i ==> same_permission(#[trigger] out@[k], x.permissions@[k]),
            decreases x.permissions@.len() - i,
        {
            out.push(perm_to_pb(&x.permissions[i]));
            i += 1;
        }
        Ok(out)
    }

    /// Whether a role can be deleted.
    pub fn role_delete(name: &str, role: Option<&StoredRole>) -> (r: Result<(), Status>)
        ensures
            r is Ok <==> role is Some,
            r is Err ==> r->Err_0.says(
                Code::NotFound,
                about("auth: role "@, name@, " not found"@),
            ),
    {
        match role {
            Some(_) => Ok(()),
            None => Err(refusal(Code::NotFound, "auth: role ", name, " not found")),
        }
    }

    /// The user records that a deleted role leaves to rewrite: those that
    /// held it, without it, in order.
    pub fn drop_role_from_users(role_name: &str, users: Vec<StoredUser>) -> (r: Vec<StoredUser>)
        ensures
            user_views(r@) == rewritten(user_views(users@), role_name@),
    {
        let ghost all = user_views(users@);
        let mut out: Vec<StoredUser> = Vec::new();
        let mut i: usize = 0;
        assert(user_views(out@) =~= rewritten(all.take(0), role_name@));
        while i < users.len()
            invariant
                i <= users@.len(),
                all == user_views(users@),
                user_views(out@) == rewritten(all.take(i as int), role_name@),
            decreases users@.len() - i,
        {
            let ghost before = out@;
            let mut u = copy_user(&users[i]);
            assert(all.take(i + 1).drop_last() =~= all.take(i as int));
            assert(all.take(i + 1).last() == users@[i as int]@);
            let changed = remove_name(&mut u.roles, role_name);
            if changed {
                out.push(u);
                assert(user_views(out@) =~= user_views(before).push(u@));
            }
            i += 1;
        }
        assert(all.take(i as int) =~= all);
        out
    }

    /// The record of a role with one more permission.
    pub fn role_grant_permission(name: &str, role: Option<StoredRole>, perm: Option<Permission>)
        -> (r: Result<StoredRole, Status>)
        ensures
            match role {
                None => r is Err && r->Err_0.says(
                    Code::NotFound,
                    about("auth: role "@, name@, " not found"@),
                ),
                Some(x) => match perm {
                    None => r is Err && r->Err_0.says(
                        Code::InvalidArgument,
                        "auth: missing Permission"@,
                    ),
                    Some(p) => if perm_type_of(p.perm_type) is None {
                        r is Err && r->Err_0.says(Code::InvalidArgument, "auth: bad perm type"@)
                    } else {
                        &&& r is Ok
                        &&& r->Ok_0.name == x.name
                        &&& r->Ok_0.permissions@.len() == x.permissions@.len() + 1
                        &&& r->Ok_0.permissions@.drop_last() == x.permissions@
                        &&& same_permission(p, r->Ok_0.permissions@.last())
                    },
                },
            },
    {
        let mut x = match role {
            None => {
                return Err(refusal(Code::NotFound, "auth: role ", name, " not found"));
            },
            Some(x) => x,
        };
        let p = match perm {
            None => {
                return Err(Status::new(Code::InvalidArgument, "auth: missing Permission"));
            },
            Some(p) => p,
        };
        let perm_type = match pb_perm_type(p.perm_type) {
            None => {
                return Err(Status::new(Code::InvalidArgument, "auth: bad perm type"));
            },
            Some(t) => t,
        };
        let ghost before = x.permissions@;
        x.permissions.push(StoredPermission { perm_type, key: p.key, range_end: p.range_end });
        assert(x.permissions@.drop_last() =~= before);
        Ok(x)
    }

    /// The record of a role without the permissions on one exact range.
    pub fn role_revoke_permission(
        name: &str,
        role: Option<StoredRole>,
        key: &[u8],
        range_end: &[u8],
    ) -> (r: Result<StoredRole, Status>)
        ensures
            match role {
                None => r is Err && r->Err_0.says(
                    Code::NotFound,
                    about("auth: role "@, name@, " not found"@),
                ),
                Some(x) => {
                    &&& r is Ok
                    &&& r->Ok_0.name == x.name
                    &&& perm_views(r->Ok_0.permissions@) == perm_views(x.permissions@).filter(
                        |p: PermView| p.key != key@ || p.range_end != range_end@,
                    )
                },
            },
    {
        let x = match role {
            None => {
                return Err(refusal(Code::NotFound, "auth: role ", name, " not found"));
            },
            Some(x) => x,
        };
        let ghost keep = |p: PermView| p.key != key@ || p.range_end != range_end@;
        let ghost all = perm_views(x.permissions@);
        let mut kept: Vec<StoredPermission> = Vec::new();
        let mut i: usize = 0;
        assert(perm_views(kept@) =~= all.take(0).filter(keep)) by {
            reveal(Seq::filter);
        }
        while i < x.permissions.len()
            invariant
                i <= x.permissions@.len(),
                all == perm_views(x.permissions@),
                keep == (|p: PermView| p.key != key@ || p.range_end != range_end@),
                perm_views(kept@) == all.take(i as int).filter(keep),
            decreases x.permissions@.len() - i,
        {
            let p = &x.permissions[i];
            let ghost before = kept@;
            let differs = !bytes_eq(p.key.as_slice(), key) || !bytes_eq(
                p.range_end.as_slice(),
                range_end,
            );
            if differs {
                kept.push(
                    StoredPermission {
                        perm_type: p.perm_type,
                        key: copy_bytes(p.key.as_slice()),
                        range_end: copy_bytes(p.range_end.as_slice()),
                    },
                );
            }
            proof {
                reveal(Seq::filter);
                assert(all.take(i + 1).drop_last() =~= all.take(i as int));
                assert(all.take(i + 1).last() == p@);
                if differs {
                    assert(perm_views(kept@) =~= perm_views(before).push(p@));
                }
            }
            i += 1;
        }
        assert(all.take(i as int) =~= all);
        Ok(StoredRole { name: x.name, permissions: kept })
    }
}

/// The names among the keys of a table.
pub open spec fn key_names(keys: Seq<Vec<u8>>) -> Seq<Seq<char>>
    decreases keys.len(),
{
    if keys.len() == 0 {
        seq![]
    } else if vstd::utf8::valid_utf8(keys.last()@) {
        key_names(keys.drop_last()).push(vstd::utf8::decode_utf8(keys.last()@))
    } else {
        key_names(keys.drop_last())
    }
}

/// What a permission says.
#[verifier::ext_equal]
pub struct PermView {
    pub perm_type: PermType,
    pub key: Seq<u8>,
    pub range_end: Seq<u8>,
}

impl View for StoredPermission {
    type V = PermView;

    open spec fn view(&self) -> PermView {
        PermView { perm_type: self.perm_type, key: self.key@, range_end: self.range_end@ }
    }
}

/// What a list of permissions says.
pub open spec fn perm_views(s: Seq<StoredPermission>) -> Seq<PermView> {
    s.map_values(|p: StoredPermission| p@)
}

/// What a user record says.
#[verifier::ext_equal]
pub struct UserView {
    pub name: Seq<char>,
    pub password_hash: Seq<char>,
    pub roles: Seq<Seq<char>>,
    pub no_password: bool,
}

impl View for StoredUser {
    type V = UserView;

    open spec fn view(&self) -> UserView {
        UserView {
            name: self.name@,
            password_hash: self.password_hash@,
            roles: names::texts(self.roles@),
            no_password: self.no_password,
        }
    }
}

/// What a list of user records says.
pub open spec fn user_views(s: Seq<StoredUser>) -> Seq<UserView> {
    s.map_values(|u: StoredUser| u@)
}

/// The users that hold a role, without it.
pub open spec fn rewritten(users: Seq<UserView>, role: Seq<char>) -> Seq<UserView>
    decreases users.len(),
{
    if users.len() == 0 {
        seq![]
    } else {
        let u = users.last();
        let rest = rewritten(users.drop_last(), role);
        if u.roles.contains(role) {
            rest.push(UserView { roles: names::without(u.roles, role), ..u })
        } else {
            rest
        }
    }
}

/// A copy of a user record.
pub fn copy_user(u: &StoredUser) -> (r: StoredUser)
    ensures
        r@ == u@,
{
    let mut roles: Vec<String> = Vec::new();
    let mut i: usize = 0;
    while i < u.roles.len()
        invariant
            i <= u.roles@.len(),
            roles@.len() == i,
            forall|j: int| 0 <= j < i ==> (#[trigger] roles@[j])@ == u.roles@[j]@,
        decreases u.roles@.len() - i,
    {
        roles.push(u.roles[i].clone());
        i += 1;
    }
    assert(names::texts(roles@) =~= names::texts(u.roles@));
    StoredUser {
        name: u.name.clone(),
        password_hash: u.password_hash.clone(),
        roles,
        no_password: u.no_password,
    }
}

/// A name taken out of a list is not in it any more, and no other is lost.
pub proof fn law_removed_name_is_gone(names: Seq<Seq<char>>, name: Seq<char>, other: Seq<char>)
    ensures
        !names::without(names, name).contains(name),
        other != name ==> (names::without(names, name).contains(other) <==> names.contains(other)),
    decreases names.len(),
{
    reveal(Seq::filter);
    if names.len() > 0 {
        let rest = names.drop_last();
        law_removed_name_is_gone(rest, name, other);
        assert(names =~= rest.push(names.last()));
        names::lemma_filter_push(rest, names.last(), name);
        names::lemma_contains_push(rest, names.last(), other);
        names::lemma_contains_push(names::without(rest, name), names.last(), other);
        names::lemma_contains_push(names::without(rest, name), names.last(), name);
    }
}

/// Enforces that requests carry a token in force while authentication is
/// on.
#[derive(Debug)]
pub struct AuthInterceptor {
    pub auth: AuthState,
}

impl AuthInterceptor {
    /// An interceptor over the given state.
    pub fn new(auth: AuthState) -> (r: AuthInterceptor)
        ensures
            r.auth == auth,
    {
        AuthInterceptor { auth }
    }

    /// Whether a request passes, given the token it carries, if any; and
    /// while authentication is on, the user it is made as, which is the one
    /// that the token was issued to.
    pub fn call(&self, token: Option<&str>) -> (r: Result<Option<UserIdentity>, Status>)
        requires
            self.auth.wf(),
        ensures
            r is Ok <==> (!self.auth.enabled() || (token is Some && self.auth.user_of(
                token->0@,
            ) is Some)),
            r is Ok && !self.auth.enabled() ==> r->Ok_0 is None,
            r is Ok && self.auth.enabled() ==> r->Ok_0 is Some && Some(r->Ok_0->0.name@)
                == self.auth.user_of(token->0@),
            r is Err && token is Some ==> r->Err_0.says(
                Code::Unauthenticated,
                "auth: invalid or expired token"@,
            ),
            r is Err && token is None ==> r->Err_0.says(
                Code::Unauthenticated,
                "auth: missing `token` metadata; call Authenticate first"@,
            ),
    {
        if !self.auth.is_enabled() {
            return Ok(None);
        }
        match token {
            Some(t) => match self.auth.user_for_token(t) {
                Some(name) => Ok(Some(UserIdentity { name })),
                None => Err(Status::new(Code::Unauthenticated, "auth: invalid or expired token")),
            },
            None => Err(
                Status::new(
                    Code::Unauthenticated,
                    "auth: missing `token` metadata; call Authenticate first",
                ),
            ),
        }
    }
}

/// A permission allows what its wire number says: zero reading and not
/// writing, one writing and not reading, two both. No other number is a
/// permission.
pub proof fn law_permission_number_says_what_is_allowed(w: Permission, p: StoredPermission)
    requires
        same_permission(w, p),
    ensures
        w.perm_type == 0 ==> p.perm_type.reads() && !p.perm_type.writes(),
        w.perm_type == 1 ==> p.perm_type.writes() && !p.perm_type.reads(),
        w.perm_type == 2 ==> p.perm_type.reads() && p.perm_type.writes(),
        0 <= w.perm_type <= 2,
        forall|k: Seq<u8>|
            #![trigger crate::keyrange::in_range(p.key@, p.range_end@, k)]
            crate::keyrange::in_range(p.key@, p.range_end@, k) <==> crate::keyrange::in_range(
                w.key@,
                w.range_end@,
                k,
            ),
        w.key@ == p.key@,
        w.range_end@ == p.range_end@,
{
}

/// A number is a permission kind exactly when it is zero, one or two, and
/// the kind it stands for allows reading unless the number is one, writing
/// unless it is zero.
pub proof fn law_permission_numbers_are_three(n: i32)
    ensures
        perm_type_of(n) is Some <==> 0 <= n <= 2,
        perm_type_of(n) matches Some(t) ==> (t.reads() <==> n != 1),
        perm_type_of(n) matches Some(t) ==> (t.writes() <==> n != 0),
{
}

/// A permission that was granted is shown as it was granted.
pub proof fn law_granted_permission_is_shown(granted: Permission, p: StoredPermission, shown: Permission)
    requires
        same_permission(granted, p),
        same_permission(shown, p),
    ensures
        shown.perm_type == granted.perm_type,
        shown.key@ == granted.key@,
        shown.range_end@ == granted.range_end@,
{
}

/// A permission, once granted, covers an access exactly when its number is
/// for that kind of access and it names every key that the access names.
pub proof fn law_granted_permission_covers_what_it_names(
    w: Permission,
    p: StoredPermission,
    a: crate::authz::AccessView,
)
    requires
        same_permission(w, p),
        exists|k: Seq<u8>| crate::keyrange::in_range(a.key, a.range_end, k),
    ensures
        crate::authz::covers(p, a) <==> {
            &&& a.perm is Read ==> w.perm_type == 0 || w.perm_type == 2
            &&& a.perm is Write ==> w.perm_type == 1 || w.perm_type == 2
            &&& forall|k: Seq<u8>|
                crate::keyrange::in_range(a.key, a.range_end, k) ==> crate::keyrange::in_range(
                    w.key@,
                    w.range_end@,
                    k,
                )
        },
{
    crate::authz::law_permission_covers_by_kind_and_keys(p, a);
}

/// Hexadecimal text has two characters for each byte, the high digit
/// first; digits below ten are the decimal ones, the others the letters
/// from `a` on.
pub proof fn law_hex_writes_two_digits(bytes: Seq<u8>, i: int)
    requires
        0 <= i < bytes.len(),
    ensures
        hex(bytes).len() == 2 * bytes.len(),
        ({
            let high = bytes[i] as int / 16;
            let low = bytes[i] as int % 16;
            &&& high < 10 ==> hex(bytes)[2 * i] as int == '0' as int + high
            &&& high >= 10 ==> hex(bytes)[2 * i] as int == 'a' as int + high - 10
            &&& low < 10 ==> hex(bytes)[2 * i + 1] as int == '0' as int + low
            &&& low >= 10 ==> hex(bytes)[2 * i + 1] as int == 'a' as int + low - 10
        }),
{
    assert((2 * i) % 2 == 0 && (2 * i) / 2 == i);
    assert((2 * i + 1) % 2 == 1 && (2 * i + 1) / 2 == i);
}

/// Among distinct tokens each stands for the user it was issued to, and
/// nothing else stands for anyone.
pub proof fn law_token_stands_for_its_user(s: Seq<TokenEntry>, t: Seq<char>)
    requires
        tokens_distinct(s),
    ensures
        token_user(s, t) is Some <==> exists|i: int|
            0 <= i < s.len() && (#[trigger] s[i]).token@ == t,
        forall|i: int|
            0 <= i < s.len() && (#[trigger] s[i]).token@ == t ==> token_user(s, t) == Some(
                s[i].user@,
            ),
{
    assert forall|i: int| 0 <= i < s.len() && (#[trigger] s[i]).token@ == t implies token_user(s, t)
        == Some(s[i].user@) by {
        lemma_token_user(s, i);
    }
}

/// Authentication that is on is written as one byte one, and off as one
/// byte zero; anything but an empty text or a leading zero reads as on.
pub proof fn law_flag_is_one_byte(bytes: Seq<u8>)
    ensures
        flag_bytes(true) == seq![1u8],
        flag_bytes(false) == seq![0u8],
        flag_is_on(bytes) <==> bytes.len() > 0 && bytes[0] != 0,
{
}

/// A refusal about a name is its head, the name and its tail.
pub proof fn law_refusal_names_what_it_is_about(
    head: Seq<char>,
    name: Seq<char>,
    tail: Seq<char>,
)
    ensures
        about(head, name, tail) == head + name + tail,
{
}

/// A user can be added exactly when it has a name, none of that name is
/// there, and it has a password or is to have none; a refusal says which
/// of these failed first.
pub proof fn law_user_is_added_iff_named_and_new(
    name: Seq<char>,
    password: Seq<char>,
    no_password: bool,
    exists_already: bool,
)
    ensures
        ({
            let fault = AuthService::user_add_fault(name, password, no_password, exists_already);
            &&& fault is None <==> name.len() > 0 && !exists_already && (no_password
                || password.len() > 0)
            &&& name.len() == 0 ==> fault == Some(
                (Code::InvalidArgument, "auth: empty user name"@),
            )
            &&& name.len() > 0 && exists_already ==> fault == Some(
                (Code::AlreadyExists, "auth: user "@ + name + " already exists"@),
            )
            &&& name.len() > 0 && !exists_already && !no_password && password.len() == 0 ==> fault
                == Some(
                (
                    Code::InvalidArgument,
                    "auth: empty password (use no_password option for passwordless users)"@,
                ),
            )
        }),
{
}

/// What hashing a password gives is the outside function's outcome: its
/// hash, or a refusal with its error.
pub proof fn law_hash_is_the_one_made(plain: Seq<char>, salt: Seq<char>, r: Result<String, Status>)
    ensures
        hashed_with(plain, salt, r) <==> match crate::crypto::argon2_phc(plain, salt) {
            Ok(phc) => r is Ok && r->Ok_0@ == phc,
            Err(e) => r is Err && r->Err_0.code == Code::Internal && r->Err_0.message@
                == "argon2 hash: "@ + e,
        },
        hashed_with_drawn(plain, salt, r) <==> crate::crypto::drawn_salt(salt) && hashed_with(
            plain,
            salt,
            r,
        ),
{
}

/// What is hashed for a user is what the user's record holds.
pub proof fn law_hash_of_a_record_is_its_own(r: Result<StoredUser, Status>)
    ensures
        r matches Ok(u) ==> hash_in(r) == Ok::<String, Status>(u.password_hash),
        r matches Err(e) ==> hash_in(r) == Err::<String, Status>(e),
{
}

/// The names among keys are the keys that are text, each as its text, one
/// by one and in order.
pub proof fn law_names_are_the_keys_that_are_text(keys: Seq<Vec<u8>>, k: Vec<u8>)
    ensures
        key_names(seq![]).len() == 0,
        vstd::utf8::valid_utf8(k@) ==> key_names(keys.push(k)) == key_names(keys).push(
            vstd::utf8::decode_utf8(k@),
        ),
        !vstd::utf8::valid_utf8(k@) ==> key_names(keys.push(k)) == key_names(keys),
{
    assert(keys.push(k).drop_last() =~= keys);
}

/// A permission and a user record say what their fields hold, and a list
/// of them what its items say, in order.
pub proof fn law_records_say_what_they_hold(
    perms: Seq<StoredPermission>,
    users: Seq<StoredUser>,
    i: int,
)
    ensures
        perm_views(perms).len() == perms.len(),
        0 <= i < perms.len() ==> {
            &&& perm_views(perms)[i].perm_type == perms[i].perm_type
            &&& perm_views(perms)[i].key == perms[i].key@
            &&& perm_views(perms)[i].range_end == perms[i].range_end@
        },
        user_views(users).len() == users.len(),
        0 <= i < users.len() ==> {
            &&& user_views(users)[i].name == users[i].name@
            &&& user_views(users)[i].password_hash == users[i].password_hash@
            &&& user_views(users)[i].roles == names::texts(users[i].roles@)
            &&& user_views(users)[i].no_password == users[i].no_password
        },
{
}

/// Deleting a role rewrites exactly the users that hold it, in order; each
/// keeps everything but that role.
pub proof fn law_deleted_role_leaves_its_holders(
    users: Seq<UserView>,
    u: UserView,
    role: Seq<char>,
)
    ensures
        rewritten(seq![], role).len() == 0,
        !u.roles.contains(role) ==> rewritten(users.push(u), role) == rewritten(users, role),
        u.roles.contains(role) ==> {
            let after = rewritten(users.push(u), role);
            &&& after.len() == rewritten(users, role).len() + 1
            &&& after.drop_last() == rewritten(users, role)
            &&& after.last().name == u.name
            &&& after.last().password_hash == u.password_hash
            &&& after.last().no_password == u.no_password
            &&& after.last().roles == names::without(u.roles, role)
            &&& !after.last().roles.contains(role)
        },
{
    assert(users.push(u).drop_last() =~= users);
    if u.roles.contains(role) {
        assert(rewritten(users.push(u), role).drop_last() =~= rewritten(users, role));
        names::lemma_without(u.roles, role, role);
    }
}

} // verus!
