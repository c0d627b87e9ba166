//! Per-key permissions: which requests a user's roles cover.
//!
//! The `root` user, and any user who holds the `root` role, is exempt.
//! Everyone else needs, for each key access, one permission of one of
//! their roles that allows the access and whose range holds the request's.

use vstd::prelude::*;
use crate::auth::AuthState;
use crate::keyrange;
use crate::keyrange::is_zero_byte;
use crate::lex;
use crate::lex::{bytes_le, copy_bytes};
use crate::status::{Code, Status};
use crate::text::{join3, str_eq};
use crate::utf8::{debug_str, from_utf8_lossy};

verus! {

/// What a permission allows.
#[derive(Debug, Clone, Copy, PartialEq, Eq, Structural)]
pub enum PermType {
    Read,
    Write,
    ReadWrite,
}

impl PermType {
    /// Whether reading is allowed.
    pub open spec fn reads(self) -> bool {
        self == PermType::Read || self == PermType::ReadWrite
    }

    /// Whether writing is allowed.
    pub open spec fn writes(self) -> bool {
        self == PermType::Write || self == PermType::ReadWrite
    }

    /// Whether reading is allowed.
    pub fn allows_read(self) -> (r: bool)
        ensures
            r == self.reads(),
    {
        match self {
            PermType::Write => false,
            _ => true,
        }
    }

    /// Whether writing is allowed.
    pub fn allows_write(self) -> (r: bool)
        ensures
            r == self.writes(),
    {
        match self {
            PermType::Read => false,
            _ => true,
        }
    }
}

/// A permission on a key range.
#[derive(Debug)]
pub struct StoredPermission {
    pub perm_type: PermType,
    pub key: Vec<u8>,
    pub range_end: Vec<u8>,
}

/// A named set of permissions.
#[derive(Debug)]
pub struct StoredRole {
    pub name: String,
    pub permissions: Vec<StoredPermission>,
}

/// A user and the roles granted to it.
#[derive(Debug)]
pub struct StoredUser {
    pub name: String,
    pub password_hash: String,
    pub roles: Vec<String>,
    pub no_password: bool,
}

/// The user a request was made as.
#[derive(Debug, Clone)]
pub struct UserIdentity {
    pub name: String,
}

/// What an access needs.
#[derive(Debug, Clone, Copy, PartialEq, Eq, Structural)]
pub enum RequiredPerm {
    Read,
    Write,
}

/// One key access that a request makes.
#[derive(Debug)]
pub struct Access<'a> {
    pub perm: RequiredPerm,
    pub key: &'a [u8],
    pub range_end: &'a [u8],
}

/// What an access is.
#[verifier::ext_equal]
pub struct AccessView {
    pub perm: RequiredPerm,
    pub key: Seq<u8>,
    pub range_end: Seq<u8>,
}

impl<'a> View for Access<'a> {
    type V = AccessView;

    open spec fn view(&self) -> AccessView {
        AccessView { perm: self.perm, key: self.key@, range_end: self.range_end@ }
    }
}

/// One side of a key interval.
#[derive(Debug)]
pub enum Bound {
    Included(Vec<u8>),
    Excluded(Vec<u8>),
    Unbounded,
}

/// The interval a key and a range end stand for: where it starts, and
/// where it stops, which is nowhere for a range end of one zero byte.
pub open spec fn stop_of(key: Seq<u8>, range_end: Seq<u8>) -> Option<Seq<u8>> {
    if range_end.len() == 0 {
        Some(key.push(0))
    } else if range_end == seq![0u8] {
        None
    } else {
        Some(range_end)
    }
}

/// The interval of a key and a range end: from the key, included, to the
/// key's immediate successor, to no end, or to the range end.
pub fn bounds_for(key: &[u8], range_end: &[u8]) -> (r: (Bound, Bound))
    ensures
        r.0 matches Bound::Included(lo) && lo@ == key@,
        match stop_of(key@, range_end@) {
            Some(stop) => r.1 matches Bound::Excluded(hi) && hi@ == stop,
            None => r.1 is Unbounded,
        },
{
    if range_end.len() == 0 {
        let mut succ = copy_bytes(key);
        succ.push(0);
        (Bound::Included(copy_bytes(key)), Bound::Excluded(succ))
    } else if is_zero_byte(range_end) {
        (Bound::Included(copy_bytes(key)), Bound::Unbounded)
    } else {
        (Bound::Included(copy_bytes(key)), Bound::Excluded(copy_bytes(range_end)))
    }
}

/// The interval of the permission holds that of the request.
pub open spec fn interval_within(
    key: Seq<u8>,
    range_end: Seq<u8>,
    perm_key: Seq<u8>,
    perm_end: Seq<u8>,
) -> bool {
    &&& lex::lex_le(perm_key, key)
    &&& match (stop_of(perm_key, perm_end), stop_of(key, range_end)) {
        (None, _) => true,
        (Some(_), None) => false,
        (Some(p), Some(r)) => lex::lex_le(r, p),
    }
}

/// The permission is of the kind the access needs.
pub open spec fn type_allows(t: PermType, required: RequiredPerm) -> bool {
    match required {
        RequiredPerm::Read => t.reads(),
        RequiredPerm::Write => t.writes(),
    }
}

/// The permission covers the access.
pub open spec fn covers(p: StoredPermission, a: AccessView) -> bool {
    type_allows(p.perm_type, a.perm) && interval_within(
        a.key,
        a.range_end,
        p.key@,
        p.range_end@,
    )
}

/// Whether a permission covers an access to a key range.
pub fn perm_covers(
    p: &StoredPermission,
    required: RequiredPerm,
    key: &[u8],
    range_end: &[u8],
) -> (r: bool)
    ensures
        r == covers(*p, (AccessView { perm: required, key: key@, range_end: range_end@ })),
{
    let matches_type = match required {
        RequiredPerm::Read => p.perm_type.allows_read(),
        RequiredPerm::Write => p.perm_type.allows_write(),
    };
    if !matches_type {
        return false;
    }
    let (req_lo, req_hi) = bounds_for(key, range_end);
    let (perm_lo, perm_hi) = bounds_for(p.key.as_slice(), p.range_end.as_slice());
    let lo_ok = match (&perm_lo, &req_lo) {
        (Bound::Unbounded, _) => true,
        (Bound::Included(pv), Bound::Included(rv)) => bytes_le(pv.as_slice(), rv.as_slice()),
        _ => false,
    };
    if !lo_ok {
        return false;
    }
    match (&perm_hi, &req_hi) {
        (Bound::Unbounded, _) => true,
        (_, Bound::Unbounded) => false,
        (Bound::Excluded(pv), Bound::Excluded(rv)) => bytes_le(rv.as_slice(), pv.as_slice()),
        _ => false,
    }
}

/// The keys of a range are those between its start and its stop.
proof fn lemma_range_is_interval(key: Seq<u8>, range_end: Seq<u8>, k: Seq<u8>)
    ensures
        keyrange::in_range(key, range_end, k) <==> lex::lex_le(key, k) && (match stop_of(
            key,
            range_end,
        ) {
            Some(stop) => lex::lex_lt(k, stop),
            None => true,
        }),
{
    if range_end.len() == 0 {
        lex::lemma_lex_successor(key, k);
        lex::lemma_lex_le(k, key);
        lex::lemma_lex_le(key, k);
        lex::lemma_lex_irreflexive(k);
        if lex::lex_lt(k, key) && lex::lex_lt(key, k) {
            lex::lemma_lex_transitive(k, key, k);
        }
    }
}

/// A permission's range holds a request's exactly when every key the
/// request names is a key the permission names. (A request range without
/// any key is left out: it is compared by its ends alone.)
pub proof fn law_permission_is_key_containment(
    key: Seq<u8>,
    range_end: Seq<u8>,
    perm_key: Seq<u8>,
    perm_end: Seq<u8>,
)
    requires
        exists|k: Seq<u8>| keyrange::in_range(key, range_end, k),
    ensures
        interval_within(key, range_end, perm_key, perm_end) <==> (forall|k: Seq<u8>|
            keyrange::in_range(key, range_end, k) ==> keyrange::in_range(perm_key, perm_end, k)),
{
    if interval_within(key, range_end, perm_key, perm_end) {
        assert forall|k: Seq<u8>|
            keyrange::in_range(key, range_end, k) implies keyrange::in_range(
            perm_key,
            perm_end,
            k,
        ) by {
            lemma_range_is_interval(key, range_end, k);
            lemma_range_is_interval(perm_key, perm_end, k);
            lex::lemma_lex_le_trans(perm_key, key, k);
            match (stop_of(perm_key, perm_end), stop_of(key, range_end)) {
                (Some(p), Some(r)) => {
                    lex::lemma_lex_lt_le(k, r, p);
                },
                _ => {},
            }
        }
    } else {
        // A witness: the request's first key, or the permission's stop.
        let w = choose|k: Seq<u8>| keyrange::in_range(key, range_end, k);
        lemma_range_is_interval(key, range_end, w);
        lemma_range_is_interval(key, range_end, key);
        lex::lemma_lex_irreflexive(key);
        match stop_of(key, range_end) {
            Some(r) => {
                lex::lemma_lex_le_lt(key, w, r);
            },
            None => {},
        }
        assert(keyrange::in_range(key, range_end, key));
        lemma_range_is_interval(perm_key, perm_end, key);
        if keyrange::in_range(perm_key, perm_end, key) {
            let p = stop_of(perm_key, perm_end)->0;
            lemma_range_is_interval(key, range_end, p);
            lemma_range_is_interval(perm_key, perm_end, p);
            lex::lemma_lex_irreflexive(p);
            lex::lemma_lex_le(key, p);
            assert(keyrange::in_range(key, range_end, p));
            assert(!keyrange::in_range(perm_key, perm_end, p));
        }
    }
}

/// What came of reading one record: the read failed, the record did not
/// decode, there is none, or here it is.
#[derive(Debug)]
pub enum Loaded<T> {
    ReadError(String),
    DecodeError(String),
    Missing,
    Found(T),
}

/// Some permission of the role covers the access.
pub open spec fn role_covers(role: StoredRole, a: AccessView) -> bool {
    exists|j: int|
        0 <= j < role.permissions@.len() && covers(#[trigger] role.permissions@[j], a)
}

/// A user holds the `root` role.
pub open spec fn holds_root(user: StoredUser) -> bool {
    exists|i: int| 0 <= i < user.roles@.len() && (#[trigger] user.roles@[i])@ == "root"@
}

/// What an authorization check answers.
#[verifier::ext_equal]
pub enum Verdict {
    Allowed,
    Refused(Code, Seq<char>),
}

/// The text that refuses an access.
pub open spec fn lacks_text(name: Seq<char>, a: AccessView) -> Seq<char> {
    "authz: user "@ + name + " lacks "@ + (match a.perm {
        RequiredPerm::Read => "Read"@,
        RequiredPerm::Write => "Write"@,
    }) + " on key "@ + crate::utf8::debug_text(crate::utf8::lossy_text(a.key))
}

/// What the roles decide, taken in order from the `i`-th on: the first
/// that covers the access allows it, the first that could not be read
/// fails the check, and a role that no longer exists counts for nothing.
pub open spec fn roles_verdict(
    roles: Seq<Loaded<StoredRole>>,
    i: int,
    name: Seq<char>,
    a: AccessView,
) -> Verdict
    decreases roles.len() - i,
{
    if i < 0 || i >= roles.len() {
        Verdict::Refused(Code::PermissionDenied, lacks_text(name, a))
    } else {
        match roles[i] {
            Loaded::ReadError(e) => Verdict::Refused(
                Code::Internal,
                "authz: read role: "@ + e@,
            ),
            Loaded::DecodeError(e) => Verdict::Refused(
                Code::Internal,
                "authz: decode role: "@ + e@,
            ),
            Loaded::Missing => roles_verdict(roles, i + 1, name, a),
            Loaded::Found(role) => if role_covers(role, a) {
                Verdict::Allowed
            } else {
                roles_verdict(roles, i + 1, name, a)
            },
        }
    }
}

/// What authorization answers for one access.
pub open spec fn verdict(
    enabled: bool,
    user: Option<UserIdentity>,
    record: Loaded<StoredUser>,
    roles: Seq<Loaded<StoredRole>>,
    a: AccessView,
) -> Verdict {
    if !enabled {
        Verdict::Allowed
    } else {
        match user {
            None => Verdict::Refused(
                Code::Unauthenticated,
                "auth: no user identity on request"@,
            ),
            Some(u) => if u.name@ == "root"@ {
                Verdict::Allowed
            } else {
                match record {
                    Loaded::ReadError(e) => Verdict::Refused(
                        Code::Internal,
                        "authz: read user: "@ + e@,
                    ),
                    Loaded::DecodeError(e) => Verdict::Refused(
                        Code::Internal,
                        "authz: decode user: "@ + e@,
                    ),
                    Loaded::Missing => Verdict::Refused(
                        Code::PermissionDenied,
                        "authz: user "@ + u.name@ + " not found"@,
                    ),
                    Loaded::Found(rec) => if holds_root(rec) {
                        Verdict::Allowed
                    } else {
                        roles_verdict(roles, 0, u.name@, a)
                    },
                }
            },
        }
    }
}

/// A result says what a verdict says.
pub open spec fn answers(r: Result<(), Status>, v: Verdict) -> bool {
    match v {
        Verdict::Allowed => r is Ok,
        Verdict::Refused(code, text) => r is Err && r->Err_0.says(code, text),
    }
}

/// Whether a user holds the `root` role.
fn has_root_role(user: &StoredUser) -> (r: bool)
    ensures
        r == holds_root(*user),
{
    let mut i: usize = 0;
    while i < user.roles.len()
        invariant
            i <= user.roles@.len(),
            forall|j: int| 0 <= j < i ==> (#[trigger] user.roles@[j])@ != "root"@,
        decreases user.roles@.len() - i,
    {
        if str_eq(user.roles[i].as_str(), "root") {
            return true;
        }
        i += 1;
    }
    false
}

/// Whether some permission of a role covers an access.
fn role_allows(role: &StoredRole, perm: RequiredPerm, key: &[u8], range_end: &[u8]) -> (r: bool)
    ensures
        r == role_covers(*role, (AccessView { perm, key: key@, range_end: range_end@ })),
{
    let mut j: usize = 0;
    while j < role.permissions.len()
        invariant
            j <= role.permissions@.len(),
            forall|i: int|
                0 <= i < j ==> !covers(
                    #[trigger] role.permissions@[i],
                    (AccessView { perm, key: key@, range_end: range_end@ }),
                ),
        decreases role.permissions@.len() - j,
    {
        if perm_covers(&role.permissions[j], perm, key, range_end) {
            return true;
        }
        j += 1;
    }
    false
}

/// A refusal made of two pieces of text.
fn refuse2(code: Code, head: &str, tail: &str) -> (r: Result<(), Status>)
    ensures
        r is Err,
        r->Err_0.says(code, head@ + tail@),
{
    Err(Status::from_string(code, String::from_str(head).concat(tail)))
}

/// Authorize one access to a key range.
///
/// `record` is what reading the user's record gave, and `roles` what
/// reading each of that record's roles gave, in the record's order; both
/// are looked at only where the answer depends on them.
pub fn authorize(
    auth: &AuthState,
    user: Option<&UserIdentity>,
    record: &Loaded<StoredUser>,
    roles: &Vec<Loaded<StoredRole>>,
    perm: RequiredPerm,
    key: &[u8],
    range_end: &[u8],
) -> (r: Result<(), Status>)
    ensures
        answers(
            r,
            verdict(
                auth.enabled(),
                (match user {
                    Some(u) => Some(*u),
                    None => None,
                }),
                *record,
                roles@,
                (AccessView { perm, key: key@, range_end: range_end@ }),
            ),
        ),
{
    let ghost a = AccessView { perm, key: key@, range_end: range_end@ };
    if !auth.is_enabled() {
        return Ok(());
    }
    let who = match user {
        Some(u) => u,
        None => {
            return Err(Status::new(Code::Unauthenticated, "auth: no user identity on request"));
        },
    };
    if str_eq(who.name.as_str(), "root") {
        return Ok(());
    }
    let rec = match record {
        Loaded::ReadError(e) => {
            return refuse2(Code::Internal, "authz: read user: ", e.as_str());
        },
        Loaded::DecodeError(e) => {
            return refuse2(Code::Internal, "authz: decode user: ", e.as_str());
        },
        Loaded::Missing => {
            return Err(
                Status::from_string(
                    Code::PermissionDenied,
                    join3("authz: user ", who.name.as_str(), " not found"),
                ),
            );
        },
        Loaded::Found(rec) => rec,
    };
    if has_root_role(rec) {
        return Ok(());
    }
    let mut i: usize = 0;
    while i < roles.len()
        invariant
            i <= roles@.len(),
            a == (AccessView { perm, key: key@, range_end: range_end@ }),
            roles_verdict(roles@, 0, who.name@, a) == roles_verdict(
                roles@,
                i as int,
                who.name@,
                a,
            ),
            auth.enabled(),
            who.name@ != "root"@,
            user == Some(who),
            *record == Loaded::Found(*rec),
            !holds_root(*rec),
        decreases roles@.len() - i,
    {
        match &roles[i] {
            Loaded::ReadError(e) => {
                return refuse2(Code::Internal, "authz: read role: ", e.as_str());
            },
            Loaded::DecodeError(e) => {
                return refuse2(Code::Internal, "authz: decode role: ", e.as_str());
            },
            Loaded::Missing => {},
            Loaded::Found(role) => {
                if role_allows(role, perm, key, range_end) {
                    return Ok(());
                }
            },
        }
        i += 1;
    }
    let mut text = join3("authz: user ", who.name.as_str(), " lacks ");
    text.append(
        match perm {
            RequiredPerm::Read => "Read",
            RequiredPerm::Write => "Write",
        },
    );
    text.append(" on key ");
    text.append(debug_str(from_utf8_lossy(key).as_str()).as_str());
    assert(text@ =~= lacks_text(who.name@, a));
    Err(Status::from_string(Code::PermissionDenied, text))
}

/// What authorization answers for a list of accesses: the first refusal
/// among them, or that all are allowed.
pub open spec fn verdict_all(
    enabled: bool,
    user: Option<UserIdentity>,
    record: Loaded<StoredUser>,
    roles: Seq<Loaded<StoredRole>>,
    accesses: Seq<AccessView>,
) -> Verdict
    decreases accesses.len(),
{
    if accesses.len() == 0 {
        Verdict::Allowed
    } else {
        match verdict(enabled, user, record, roles, accesses[0]) {
            Verdict::Allowed => verdict_all(enabled, user, record, roles, accesses.skip(1)),
            refused => refused,
        }
    }
}

/// What a list of accesses is.
pub open spec fn access_views(s: Seq<Access>) -> Seq<AccessView> {
    s.map_values(|a: Access| a@)
}

/// Authorize every access a request makes. One that is refused refuses
/// the request.
pub fn authorize_all(
    auth: &AuthState,
    user: Option<&UserIdentity>,
    record: &Loaded<StoredUser>,
    roles: &Vec<Loaded<StoredRole>>,
    accesses: &Vec<Access>,
) -> (r: Result<(), Status>)
    ensures
        answers(
            r,
            verdict_all(
                auth.enabled(),
                (match user {
                    Some(u) => Some(*u),
                    None => None,
                }),
                *record,
                roles@,
                access_views(accesses@),
            ),
        ),
{
    let ghost who: Option<UserIdentity> = match user {
        Some(u) => Some(*u),
        None => None,
    };
    let ghost all = access_views(accesses@);
    let mut i: usize = 0;
    assert(all.skip(0) =~= all);
    while i < accesses.len()
        invariant
            i <= accesses@.len(),
            all == access_views(accesses@),
            who == (match user {
                Some(u) => Some(*u),
                None => None,
            }),
            verdict_all(auth.enabled(), who, *record, roles@, all) == verdict_all(
                auth.enabled(),
                who,
                *record,
                roles@,
                all.skip(i as int),
            ),
        decreases accesses@.len() - i,
    {
        let a = &accesses[i];
        assert(all.skip(i as int)[0] == a@);
        assert(all.skip(i as int).skip(1) =~= all.skip(i + 1));
        match authorize(auth, user, record, roles, a.perm, a.key, a.range_end) {
            Ok(()) => {},
            Err(e) => {
                return Err(e);
            },
        }
        i += 1;
    }
    assert(all.skip(i as int).len() == 0);
    Ok(())
}

/// A list of accesses is allowed exactly when each of them is.
pub proof fn law_all_accesses_must_be_allowed(
    enabled: bool,
    user: Option<UserIdentity>,
    record: Loaded<StoredUser>,
    roles: Seq<Loaded<StoredRole>>,
    accesses: Seq<AccessView>,
)
    ensures
        verdict_all(enabled, user, record, roles, accesses) is Allowed <==> (forall|i: int|
            0 <= i < accesses.len() ==> verdict(
                enabled,
                user,
                record,
                roles,
                #[trigger] accesses[i],
            ) is Allowed),
    decreases accesses.len(),
{
    if accesses.len() > 0 {
        let rest = accesses.skip(1);
        law_all_accesses_must_be_allowed(enabled, user, record, roles, rest);
        if verdict_all(enabled, user, record, roles, accesses) is Allowed {
            assert forall|i: int| 0 <= i < accesses.len() implies verdict(
                enabled,
                user,
                record,
                roles,
                #[trigger] accesses[i],
            ) is Allowed by {
                if i > 0 {
                    assert(rest[i - 1] == accesses[i]);
                }
            }
        } else {
            if forall|i: int|
                0 <= i < accesses.len() ==> verdict(
                    enabled,
                    user,
                    record,
                    roles,
                    #[trigger] accesses[i],
                ) is Allowed {
                assert(verdict(enabled, user, record, roles, accesses[0]) is Allowed);
                assert forall|i: int| 0 <= i < rest.len() implies verdict(
                    enabled,
                    user,
                    record,
                    roles,
                    #[trigger] rest[i],
                ) is Allowed by {
                    assert(rest[i] == accesses[i + 1]);
                }
                assert(false);
            }
        }
    }
}

/// The `root` user is allowed every access.
pub proof fn law_root_is_exempt(
    enabled: bool,
    user: UserIdentity,
    record: Loaded<StoredUser>,
    roles: Seq<Loaded<StoredRole>>,
    a: AccessView,
)
    requires
        user.name@ == "root"@ || (record matches Loaded::Found(rec) && holds_root(rec)),
    ensures
        verdict(enabled, Some(user), record, roles, a) is Allowed,
{
}

/// With every role readable, a user who is not exempt is allowed an
/// access exactly when some role still in existence covers it.
pub proof fn law_allowed_iff_some_role_covers(
    user: UserIdentity,
    rec: StoredUser,
    roles: Seq<Loaded<StoredRole>>,
    a: AccessView,
)
    requires
        user.name@ != "root"@,
        !holds_root(rec),
        forall|i: int|
            0 <= i < roles.len() ==> (#[trigger] roles[i] is Missing || roles[i] is Found),
    ensures
        verdict(true, Some(user), Loaded::Found(rec), roles, a) is Allowed <==> (exists|i: int|
            0 <= i < roles.len() && (#[trigger] roles[i] matches Loaded::Found(role) && role_covers(
                role,
                a,
            ))),
{
    lemma_roles_verdict(roles, 0, user.name@, a);
}

/// The verdict of readable roles from `i` on.
proof fn lemma_roles_verdict(roles: Seq<Loaded<StoredRole>>, i: int, name: Seq<char>, a: AccessView)
    requires
        0 <= i <= roles.len(),
        forall|k: int|
            0 <= k < roles.len() ==> (#[trigger] roles[k] is Missing || roles[k] is Found),
    ensures
        roles_verdict(roles, i, name, a) is Allowed <==> (exists|k: int|
            i <= k < roles.len() && (#[trigger] roles[k] matches Loaded::Found(role) && role_covers(
                role,
                a,
            ))),
    decreases roles.len() - i,
{
    if i < roles.len() {
        lemma_roles_verdict(roles, i + 1, name, a);
        assert(roles[i] is Missing || roles[i] is Found);
    }
}

/// Reading is allowed by the kinds that say so and by no other, and
/// writing likewise; a permission is of the kind that an access needs
/// exactly when it allows it.
pub proof fn law_kinds_allow_what_they_say(t: PermType)
    ensures
        t is Read ==> t.reads() && !t.writes(),
        t is Write ==> t.writes() && !t.reads(),
        t is ReadWrite ==> t.reads() && t.writes(),
        type_allows(t, RequiredPerm::Read) <==> t is Read || t is ReadWrite,
        type_allows(t, RequiredPerm::Write) <==> t is Write || t is ReadWrite,
{
}

/// A permission covers an access exactly when it is of the kind needed and
/// names every key that the access names. (An access that names no key is
/// left out: it is compared by its ends alone.)
pub proof fn law_permission_covers_by_kind_and_keys(p: StoredPermission, a: AccessView)
    requires
        exists|k: Seq<u8>| keyrange::in_range(a.key, a.range_end, k),
    ensures
        covers(p, a) <==> {
            &&& a.perm is Read ==> p.perm_type is Read || p.perm_type is ReadWrite
            &&& a.perm is Write ==> p.perm_type is Write || p.perm_type is ReadWrite
            &&& forall|k: Seq<u8>|
                keyrange::in_range(a.key, a.range_end, k) ==> keyrange::in_range(
                    p.key@,
                    p.range_end@,
                    k,
                )
        },
{
    law_permission_is_key_containment(a.key, a.range_end, p.key@, p.range_end@);
}

/// Ranges are compared by their ends: one without end holds whatever
/// starts in it, none with an end holds one without, and of two with an
/// end the holder starts no later and stops no earlier.
pub proof fn law_ranges_are_held_by_their_ends(
    key: Seq<u8>,
    range_end: Seq<u8>,
    perm_key: Seq<u8>,
    perm_end: Seq<u8>,
)
    ensures
        perm_end == seq![0u8] ==> (interval_within(key, range_end, perm_key, perm_end)
            <==> !lex::lex_lt(key, perm_key)),
        range_end == seq![0u8] && perm_end != seq![0u8] ==> !interval_within(
            key,
            range_end,
            perm_key,
            perm_end,
        ),
        range_end.len() > 0 && range_end != seq![0u8] && perm_end.len() > 0 && perm_end
            != seq![0u8] ==> (interval_within(key, range_end, perm_key, perm_end) <==> (
        !lex::lex_lt(key, perm_key) && !lex::lex_lt(perm_end, range_end))),
        stop_of(key, seq![]) == Some(key.push(0)),
        stop_of(key, seq![0u8]) is None,
        range_end.len() > 0 && range_end != seq![0u8] ==> stop_of(key, range_end) == Some(
            range_end,
        ),
{
}

/// A role covers an access exactly when one of its permissions does, and a
/// user is exempt exactly when one of its roles is named `root`.
pub proof fn law_one_permission_or_role_is_enough(role: StoredRole, user: StoredUser, a: AccessView)
    ensures
        role_covers(role, a) <==> exists|j: int|
            0 <= j < role.permissions@.len() && covers(#[trigger] role.permissions@[j], a),
        holds_root(user) <==> exists|i: int|
            0 <= i < user.roles@.len() && (#[trigger] user.roles@[i])@ == "root"@,
{
}

/// While authorization is off everything is allowed; while it is on,
/// nothing is allowed to a request without a user.
pub proof fn law_identity_is_needed_while_on(
    record: Loaded<StoredUser>,
    roles: Seq<Loaded<StoredRole>>,
    user: Option<UserIdentity>,
    a: AccessView,
)
    ensures
        verdict(false, user, record, roles, a) is Allowed,
        verdict(true, None, record, roles, a) == Verdict::Refused(
            Code::Unauthenticated,
            "auth: no user identity on request"@,
        ),
{
}

/// A user other than `root` whose record cannot be read, or is not there,
/// is refused, and told which.
pub proof fn law_unread_user_is_refused(
    user: UserIdentity,
    record: Loaded<StoredUser>,
    roles: Seq<Loaded<StoredRole>>,
    a: AccessView,
)
    requires
        user.name@ != "root"@,
    ensures
        record matches Loaded::ReadError(e) ==> verdict(true, Some(user), record, roles, a)
            == Verdict::Refused(Code::Internal, "authz: read user: "@ + e@),
        record matches Loaded::DecodeError(e) ==> verdict(true, Some(user), record, roles, a)
            == Verdict::Refused(Code::Internal, "authz: decode user: "@ + e@),
        record is Missing ==> verdict(true, Some(user), record, roles, a) == Verdict::Refused(
            Code::PermissionDenied,
            "authz: user "@ + user.name@ + " not found"@,
        ),
{
}

/// The roles before a place neither cover an access nor fail to be read:
/// what they are all answered with is decided from that place on.
pub proof fn lemma_roles_passed_over(
    roles: Seq<Loaded<StoredRole>>,
    from: int,
    i: int,
    name: Seq<char>,
    a: AccessView,
)
    requires
        0 <= from <= i <= roles.len(),
        forall|k: int|
            from <= k < i ==> (#[trigger] roles[k] is Missing || (roles[k] is Found
                && !role_covers(roles[k]->Found_0, a))),
    ensures
        roles_verdict(roles, from, name, a) == roles_verdict(roles, i, name, a),
    decreases i - from,
{
    if from < i {
        assert(roles[from] is Missing || roles[from] is Found);
        lemma_roles_passed_over(roles, from + 1, i, name, a);
    }
}

/// Roles are tried in order. The first that covers the access allows it;
/// one that cannot be read before that refuses it, and says why; where no
/// role covers it, the refusal names the user, the kind of access and the
/// key.
pub proof fn law_first_role_that_decides_decides(
    user: UserIdentity,
    rec: StoredUser,
    roles: Seq<Loaded<StoredRole>>,
    a: AccessView,
    i: int,
)
    requires
        user.name@ != "root"@,
        !holds_root(rec),
        0 <= i <= roles.len(),
        forall|k: int|
            0 <= k < i ==> (#[trigger] roles[k] is Missing || (roles[k] is Found && !role_covers(
                roles[k]->Found_0,
                a,
            ))),
    ensures
        ({
            let v = verdict(true, Some(user), Loaded::Found(rec), roles, a);
            &&& i < roles.len() && roles[i] is Found && role_covers(roles[i]->Found_0, a) ==> v
                is Allowed
            &&& i < roles.len() && roles[i] is ReadError ==> v == Verdict::Refused(
                Code::Internal,
                "authz: read role: "@ + roles[i]->ReadError_0@,
            )
            &&& i < roles.len() && roles[i] is DecodeError ==> v == Verdict::Refused(
                Code::Internal,
                "authz: decode role: "@ + roles[i]->DecodeError_0@,
            )
            &&& i == roles.len() && a.perm is Read ==> v == Verdict::Refused(
                Code::PermissionDenied,
                "authz: user "@ + user.name@ + " lacks "@ + "Read"@ + " on key "@
                    + crate::utf8::debug_text(crate::utf8::lossy_text(a.key)),
            )
            &&& i == roles.len() && a.perm is Write ==> v == Verdict::Refused(
                Code::PermissionDenied,
                "authz: user "@ + user.name@ + " lacks "@ + "Write"@ + " on key "@
                    + crate::utf8::debug_text(crate::utf8::lossy_text(a.key)),
            )
        }),
{
    lemma_roles_passed_over(roles, 0, i, user.name@, a);
}

/// A request passes exactly when it is allowed, and a refusal carries the
/// code and the text of the verdict.
pub proof fn law_verdict_is_answered(r: Result<(), Status>, v: Verdict)
    requires
        answers(r, v),
    ensures
        r is Ok <==> v is Allowed,
        v matches Verdict::Refused(code, text) ==> r->Err_0.code == code && r->Err_0.message@
            == text,
{
}

/// A list of accesses is refused as the first of them that is refused.
pub proof fn law_first_refused_access_refuses(
    enabled: bool,
    user: Option<UserIdentity>,
    record: Loaded<StoredUser>,
    roles: Seq<Loaded<StoredRole>>,
    accesses: Seq<AccessView>,
    i: int,
)
    requires
        0 <= i < accesses.len(),
        !(verdict(enabled, user, record, roles, accesses[i]) is Allowed),
        forall|j: int|
            0 <= j < i ==> verdict(
                enabled,
                user,
                record,
                roles,
                #[trigger] accesses[j],
            ) is Allowed,
    ensures
        verdict_all(enabled, user, record, roles, accesses) == verdict(
            enabled,
            user,
            record,
            roles,
            accesses[i],
        ),
    decreases accesses.len(),
{
    if i > 0 {
        assert(verdict(enabled, user, record, roles, accesses[0]) is Allowed);
        let rest = accesses.skip(1);
        assert(rest[i - 1] == accesses[i]);
        assert forall|j: int| 0 <= j < i - 1 implies verdict(
            enabled,
            user,
            record,
            roles,
            #[trigger] rest[j],
        ) is Allowed by {
            assert(rest[j] == accesses[j + 1]);
        }
        law_first_refused_access_refuses(enabled, user, record, roles, rest, i - 1);
    }
}

/// An access is the kind, the key and the range end that it holds, and a
/// list of accesses is its items in order.
pub proof fn law_access_is_what_it_holds(s: Seq<Access>, i: int)
    requires
        0 <= i < s.len(),
    ensures
        access_views(s).len() == s.len(),
        access_views(s)[i].perm == s[i].perm,
        access_views(s)[i].key == s[i].key@,
        access_views(s)[i].range_end == s[i].range_end@,
{
}

} // verus!
