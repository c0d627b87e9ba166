use fastetcd::auth::{
    copy_user, hash_password, hash_password_with_salt, hex_encode, pb_perm_type, verify_password,
    AuthInterceptor, AuthService, AuthState, Permission,
};
use fastetcd::authz::{
    authorize, Loaded, PermType, RequiredPerm, StoredPermission, StoredRole, StoredUser,
    UserIdentity,
};
use fastetcd::crypto::asks_too_many_lanes;
use fastetcd::state::ResponseHeader;
use fastetcd::status::{Code, Status};

fn user(name: &str, roles: &[&str]) -> StoredUser {
    StoredUser {
        name: name.to_string(),
        password_hash: String::new(),
        roles: roles.iter().map(|r| r.to_string()).collect(),
        no_password: true,
    }
}

fn role(name: &str, perms: &[(PermType, &[u8], &[u8])]) -> StoredRole {
    StoredRole {
        name: name.to_string(),
        permissions: perms
            .iter()
            .map(|p| StoredPermission { perm_type: p.0, key: p.1.to_vec(), range_end: p.2.to_vec() })
            .collect(),
    }
}

fn says(s: &Status, code: Code, text: &str) {
    assert_eq!((s.code(), s.message()), (code, text));
}

#[test]
fn user_add_get_delete() {
    let added = AuthService::user_add("alice", "wonderland", false, None).unwrap();
    let roles = AuthService::user_get("alice", Some(copy_user(&added))).unwrap();
    assert!(roles.is_empty());
    assert_eq!(AuthService::names_of_keys(vec![b"alice".to_vec()]), vec!["alice"]);
    assert!(AuthService::user_delete("alice", Some(&added)).is_ok());
}

#[test]
fn a_user_is_added_once_and_is_gone_after_removal() {
    let added = AuthService::user_add("alice", "wonderland", false, None).unwrap();
    assert_eq!(added.name, "alice");
    assert!(!added.no_password);
    assert_ne!(added.password_hash, "wonderland");
    assert!(verify_password("wonderland", &added.password_hash));
    assert!(!verify_password("other", &added.password_hash));

    let e = AuthService::user_add("alice", "wonderland", false, Some(&added)).unwrap_err();
    says(&e, Code::AlreadyExists, "auth: user alice already exists");
    let e = AuthService::user_add("", "wonderland", false, None).unwrap_err();
    says(&e, Code::InvalidArgument, "auth: empty user name");

    let mut service = AuthService::new(AuthState::default());
    let token = service.auth.issue_token("alice");
    assert!(AuthService::user_delete("alice", Some(&added)).is_ok());
    // A write that failed leaves the token in force.
    service.user_written("alice", false);
    assert_eq!(service.auth.user_for_token(&token).unwrap(), "alice");
    service.user_written("alice", true);
    assert_eq!(service.auth.user_for_token(&token), None);
    let e = AuthService::user_delete("alice", None).unwrap_err();
    says(&e, Code::NotFound, "auth: user alice not found");
    let e = AuthService::user_get("alice", None).unwrap_err();
    says(&e, Code::NotFound, "auth: user alice not found");
}

#[test]
fn hashing_with_a_drawn_salt_succeeds() {
    let first = hash_password("wonderland").unwrap();
    let second = hash_password("wonderland").unwrap();
    assert_ne!(first, second);
    for hash in [first, second] {
        // $argon2id$v=..$m=..,t=..,p=..$salt$hash: sixteen bytes make the salt.
        let salt = hash.split('$').nth(4).unwrap();
        assert_eq!(salt.len(), 22);
        assert!(salt.bytes().all(|b| b.is_ascii_alphanumeric() || b == b'+' || b == b'/'));
        assert!(verify_password("wonderland", &hash));
    }
    assert!(hash_password("").is_ok());
}

#[test]
fn a_hash_that_asks_for_too_many_lanes_matches_nothing() {
    let tail = "$c29tZXNhbHQ$AAAAAAAAAAAAAAAAAAAAAA";
    for lanes in ["16777216", "536870912", "4294967295", "4294967296", "99999999999999999999999"] {
        let phc = format!("$argon2id$v=19$m=19456,t=2,p={lanes}{tail}");
        assert!(!verify_password("x", &phc), "{lanes}");
        let phc = format!("$argon2id$m=19456,t=2,p=1,p={lanes}{tail}");
        assert!(!verify_password("x", &phc), "{lanes}");
    }
    assert!(asks_too_many_lanes("$argon2id$v=19$m=8,t=2,p=16777216$salt$hash"));
    assert!(!asks_too_many_lanes("$argon2id$v=19$m=8,t=2,p=16777215$salt$hash"));
    assert!(!asks_too_many_lanes("$argon2id$v=19$m=8,t=2,xp=16777216$salt$hash"));
    assert!(!asks_too_many_lanes("$argon2id$v=19$m=8,p=16777216,p=1$salt$hash"));
    assert!(asks_too_many_lanes("$argon2id$p=16777216$p=1$hash"));
    assert!(!asks_too_many_lanes(""));
    // The last number of lanes is the one that counts.
    let hash = hash_password("wonderland").unwrap();
    let twice = hash.replace(",p=1$", ",p=16777216,p=1$");
    assert_ne!(hash, twice);
    assert!(verify_password("wonderland", &twice));
    assert!(!verify_password("wonderland", &hash.replace(",p=1$", ",p=1,p=16777216$")));
    assert!(!verify_password("wonderland", "not a hash"));
}

#[test]
fn a_user_may_have_no_password() {
    let u = AuthService::user_add("svc", "", true, None).unwrap();
    assert!(u.no_password && u.password_hash.is_empty());
    let mut service = AuthService::new(AuthState::default());
    let e = service.authenticate("svc", "", Some(&u)).unwrap_err();
    assert_eq!(e.code(), Code::Unauthenticated);
    // Setting one makes it an ordinary user.
    let u = AuthService::user_change_password("svc", "pw", Some(u)).unwrap();
    assert!(!u.no_password);
    assert!(service.authenticate("svc", "pw", Some(&u)).is_ok());
}

#[test]
fn a_changed_password_ends_every_session() {
    let u = AuthService::user_add("alice", "old", false, None).unwrap();
    let mut service = AuthService::new(AuthState::default());
    let token = service.authenticate("alice", "old", Some(&u)).unwrap();
    let other = service.auth.issue_token("bob");
    let u = AuthService::user_change_password("alice", "new", Some(u)).unwrap();
    assert_eq!(service.auth.user_for_token(&token).unwrap(), "alice");
    service.user_written("alice", true);
    assert_eq!(service.auth.user_for_token(&token), None);
    assert_eq!(service.auth.user_for_token(&other).unwrap(), "bob");
    assert!(service.authenticate("alice", "old", Some(&u)).is_err());
    assert!(service.authenticate("alice", "new", Some(&u)).is_ok());
    let e = AuthService::user_change_password("alice", "", Some(u)).unwrap_err();
    says(&e, Code::InvalidArgument, "auth: empty password");
    let e = AuthService::user_change_password("carol", "x", None).unwrap_err();
    says(&e, Code::NotFound, "auth: user carol not found");
}

#[test]
fn role_add_grant_permission_get() {
    let r = AuthService::role_add("readers", None).unwrap();
    let perm = Permission { perm_type: 0, key: b"/foo".to_vec(), range_end: b"/fop".to_vec() };
    let r = AuthService::role_grant_permission("readers", Some(r), Some(perm)).unwrap();
    let got = AuthService::role_get("readers", Some(&r)).unwrap();
    assert_eq!(got.len(), 1);
    assert_eq!(got[0].perm_type, 0);
    assert_eq!(got[0].key, b"/foo");
    assert_eq!(got[0].range_end, b"/fop");
}

#[test]
fn permissions_are_granted_and_revoked_by_range() {
    let r = AuthService::role_add("writer", None).unwrap();
    let e = AuthService::role_add("writer", Some(&r)).unwrap_err();
    says(&e, Code::AlreadyExists, "auth: role writer already exists");
    let e = AuthService::role_add("", None).unwrap_err();
    says(&e, Code::InvalidArgument, "auth: empty role name");

    let perm = |t: i32| Permission { perm_type: t, key: b"foo/".to_vec(), range_end: b"foo0".to_vec() };
    let r = AuthService::role_grant_permission("writer", Some(r), Some(perm(2))).unwrap();
    let got = AuthService::role_get("writer", Some(&r)).unwrap();
    assert_eq!(got.len(), 1);
    assert_eq!(got[0].perm_type, 2);
    assert_eq!(got[0].key, b"foo/".to_vec());

    // A second grant on the same range stands beside the first.
    let r = AuthService::role_grant_permission("writer", Some(r), Some(perm(0))).unwrap();
    let got = AuthService::role_get("writer", Some(&r)).unwrap();
    assert_eq!(got.len(), 2);
    assert_eq!(got[1].perm_type, 0);

    let r = AuthService::role_revoke_permission("writer", Some(r), b"foo/", b"foo0").unwrap();
    assert!(r.permissions.is_empty());
    let e = AuthService::role_grant_permission("writer", Some(r), Some(perm(7))).unwrap_err();
    says(&e, Code::InvalidArgument, "auth: bad perm type");
    let e = AuthService::role_grant_permission("writer", Some(role("writer", &[])), None).unwrap_err();
    says(&e, Code::InvalidArgument, "auth: missing Permission");
    let e = AuthService::role_grant_permission("nope", None, Some(perm(0))).unwrap_err();
    says(&e, Code::NotFound, "auth: role nope not found");
    assert_eq!(pb_perm_type(1), Some(PermType::Write));
    assert_eq!(pb_perm_type(3), None);
}

#[test]
fn user_grant_role_then_get_lists_it() {
    let u = AuthService::user_add("bob", "p4ss", false, None).unwrap();
    let ops = AuthService::role_add("ops", None).unwrap();
    let u = AuthService::user_grant_role("bob", "ops", Some(u), Some(&ops)).unwrap();
    assert_eq!(AuthService::user_get("bob", Some(u)).unwrap(), vec!["ops"]);
}

#[test]
fn a_role_is_granted_once_and_can_be_revoked() {
    let writer = role("writer", &[]);
    let u = AuthService::user_grant_role("alice", "writer", Some(user("alice", &[])), Some(&writer));
    let u = AuthService::user_grant_role("alice", "writer", Some(u.unwrap()), Some(&writer)).unwrap();
    assert_eq!(u.roles, vec!["writer"]);
    let u = AuthService::user_revoke_role("alice", "writer", Some(u)).unwrap();
    assert!(u.roles.is_empty());
    let e = AuthService::user_grant_role("alice", "nope", Some(u), None).unwrap_err();
    says(&e, Code::NotFound, "auth: role nope not found");
    let e = AuthService::user_grant_role("bob", "writer", None, Some(&writer)).unwrap_err();
    says(&e, Code::NotFound, "auth: user bob not found");
}

#[test]
fn a_deleted_role_is_taken_from_its_users() {
    let users = vec![user("a", &["x", "y"]), user("b", &["y"]), user("c", &["x"])];
    let rewritten = AuthService::drop_role_from_users("x", users);
    let got: Vec<(String, Vec<String>)> = rewritten.into_iter().map(|u| (u.name, u.roles)).collect();
    assert_eq!(got, vec![(String::from("a"), vec![String::from("y")]), (String::from("c"), vec![])]);
    assert!(AuthService::role_delete("x", None).is_err());
}

#[test]
fn authenticate_returns_a_token_for_valid_credentials() {
    let u = AuthService::user_add("carol", "open-sesame", false, None).unwrap();
    let mut service = AuthService::new(AuthState::default());
    let token = service.authenticate("carol", "open-sesame", Some(&u)).unwrap();
    assert!(!token.is_empty());
    assert_eq!(token.len(), 64);
}

#[test]
fn tokens_differ_and_are_revoked_by_user() {
    let mut service = AuthService::new(AuthState::default());
    let u = AuthService::user_add("carol", "open-sesame", false, None).unwrap();
    let first = service.authenticate("carol", "open-sesame", Some(&u)).unwrap();
    let second = service.authenticate("carol", "open-sesame", Some(&u)).unwrap();
    assert!(first.bytes().all(|b| b.is_ascii_hexdigit()));
    assert_ne!(first, second);
    assert_eq!(service.auth.user_for_token(&first).unwrap(), "carol");
    service.auth.revoke_user_tokens("carol");
    assert_eq!(service.auth.user_for_token(&first), None);
    assert_eq!(service.auth.user_for_token(&second), None);
}

#[test]
fn authenticate_rejects_wrong_password() {
    let u = AuthService::user_add("dan", "right-pass", false, None).unwrap();
    let mut service = AuthService::new(AuthState::default());
    let e = service.authenticate("dan", "wrong-pass", Some(&u)).unwrap_err();
    assert_eq!(e.code(), Code::Unauthenticated);
    let e = service.authenticate("bob", "right-pass", None).unwrap_err();
    says(&e, Code::Unauthenticated, "auth: user bob not found");
}

#[test]
fn auth_enable_requires_root_user() {
    let e = AuthService::auth_enable(None).unwrap_err();
    says(&e, Code::FailedPrecondition, "root user must exist before AuthEnable");
    let root = AuthService::user_add("root", "rootpw", false, None).unwrap();
    let flag = AuthService::auth_enable(Some(&root)).unwrap();
    let mut auth = AuthState::default();
    AuthService::load_persisted(Some(&flag), &mut auth);
    let header = ResponseHeader { cluster_id: 1, member_id: 1, revision: 0, raft_term: 1 };
    assert!(AuthService::new(auth).auth_status(header).enabled);
}

#[test]
fn passwords_are_hashed_under_their_salt() {
    let a = hash_password_with_salt("pw", "c2FsdHNhbHRzYWx0").unwrap();
    assert_eq!(a, hash_password_with_salt("pw", "c2FsdHNhbHRzYWx0").unwrap());
    assert_ne!(a, hash_password_with_salt("pw", "b3RoZXJvdGhlcm90").unwrap());
    assert_ne!(a, hash_password_with_salt("pq", "c2FsdHNhbHRzYWx0").unwrap());
    assert!(a.starts_with("$argon2id$v=19$m=19456,t=2,p=1$c2FsdHNhbHRzYWx0$"));
    assert!(verify_password("pw", &a));
    assert_eq!(hash_password_with_salt("pw", "!").unwrap_err().code(), Code::Internal);
    // Salts are drawn anew each time.
    assert_ne!(hash_password("pw").unwrap(), hash_password("pw").unwrap());
    assert!(!verify_password("pw", "pw"));
    assert!(!verify_password("", ""));
}

#[test]
fn a_token_is_the_hex_of_its_bytes() {
    assert_eq!(hex_encode(&[0, 15, 16, 255]), "000f10ff");
    let mut auth = AuthState::default();
    let token = auth.register_token(&[0xab, 1], "alice");
    assert_eq!(token, "ab01");
    assert_eq!(auth.user_for_token("ab01").unwrap(), "alice");
    assert_eq!(auth.user_for_token("AB01"), None);
}

/// A service with authentication on, `root`, and one more user.
fn enable_auth_with_user(name: &str, password: &str) -> (AuthService, StoredUser) {
    let root = AuthService::user_add("root", "rootpw", false, None).unwrap();
    let user = AuthService::user_add(name, password, false, None).unwrap();
    let flag = AuthService::auth_enable(Some(&root)).unwrap();
    let mut auth = AuthState::default();
    AuthService::load_persisted(Some(&flag), &mut auth);
    (AuthService::new(auth), user)
}

#[test]
fn put_without_token_rejected_when_auth_enabled() {
    let (service, _) = enable_auth_with_user("alice", "alice-pw");
    let e = AuthInterceptor::new(service.auth).call(None).unwrap_err();
    says(&e, Code::Unauthenticated, "auth: missing `token` metadata; call Authenticate first");
}

#[test]
fn put_with_valid_token_succeeds_when_auth_enabled() {
    let (mut service, bob) = enable_auth_with_user("bob", "bob-pw");
    let token = service.authenticate("bob", "bob-pw", Some(&bob)).unwrap();
    assert!(!token.is_empty());
    let who = AuthInterceptor::new(service.auth).call(Some(&token)).unwrap();
    assert_eq!(who.unwrap().name, "bob");
}

#[test]
fn invalid_token_rejected_when_auth_enabled() {
    let (service, _) = enable_auth_with_user("carol", "carol-pw");
    let e = AuthInterceptor::new(service.auth).call(Some("this-is-not-a-real-token")).unwrap_err();
    says(&e, Code::Unauthenticated, "auth: invalid or expired token");
}

#[test]
fn auth_disable_lets_unauthenticated_requests_through_again() {
    let (mut service, _) = enable_auth_with_user("dan", "dan-pw");
    assert!(service.auth.is_enabled());
    AuthService::load_persisted(Some(&AuthService::auth_disable()), &mut service.auth);
    assert!(!service.auth.is_enabled());
    assert!(AuthInterceptor::new(service.auth).call(None).unwrap().is_none());
}

#[test]
fn the_persisted_flag_is_read_back() {
    let mut auth = AuthState::default();
    AuthService::load_persisted(Some(&vec![1]), &mut auth);
    assert!(auth.is_enabled());
    let mut auth = AuthState::default();
    AuthService::load_persisted(None, &mut auth);
    assert!(!auth.is_enabled());
}

#[test]
fn listed_names_leave_out_what_is_not_utf8() {
    let keys = vec![b"alice".to_vec(), vec![b'b', 0xff], "zo\u{eb}".as_bytes().to_vec()];
    assert_eq!(AuthService::names_of_keys(keys), vec!["alice", "zo\u{eb}"]);
}

fn enabled() -> AuthState {
    let mut auth = AuthState::default();
    auth.set_enabled(true);
    auth
}

fn who(name: &str) -> UserIdentity {
    UserIdentity { name: name.to_string() }
}

#[test]
fn user_without_perm_is_denied_write() {
    let limited = who("limited");
    let record = Loaded::Found(user("limited", &[]));
    let e = authorize(&enabled(), Some(&limited), &record, &vec![], RequiredPerm::Write, b"forbidden", b"")
        .unwrap_err();
    says(&e, Code::PermissionDenied, "authz: user limited lacks Write on key \"forbidden\"");
}

#[test]
fn a_refusal_shows_the_key_escaped() {
    let alice = who("alice");
    let record = Loaded::Found(user("alice", &[]));
    let e = authorize(&enabled(), Some(&alice), &record, &vec![], RequiredPerm::Write, b"a\"\xff", b"")
        .unwrap_err();
    says(&e, Code::PermissionDenied, "authz: user alice lacks Write on key \"a\\\"\u{fffd}\"");
}

#[test]
fn user_with_matching_perm_is_allowed() {
    let writer = who("writer");
    let record = Loaded::Found(user("writer", &["config-writers"]));
    let roles = vec![Loaded::Found(role(
        "config-writers",
        &[(PermType::Write, b"config/", b"config0")],
    ))];
    let auth = enabled();
    let ask = |key: &[u8]| {
        authorize(&auth, Some(&writer), &record, &roles, RequiredPerm::Write, key, b"")
    };
    assert!(ask(b"config/app").is_ok());
    assert_eq!(ask(b"other/key").unwrap_err().code(), Code::PermissionDenied);
}

#[test]
fn a_permission_covers_what_lies_within_its_range() {
    let alice = who("alice");
    let record = Loaded::Found(user("alice", &["gone", "foo"]));
    let roles = vec![
        Loaded::Missing,
        Loaded::Found(role("foo", &[(PermType::ReadWrite, b"foo/", b"foo0")])),
    ];
    let auth = enabled();
    let ask = |key: &[u8], end: &[u8]| {
        authorize(&auth, Some(&alice), &record, &roles, RequiredPerm::Write, key, end).is_ok()
    };
    assert!(ask(b"foo/a", b""));
    assert!(ask(b"foo/", b"foo0"));
    assert!(!ask(b"foo/", b"foo1"));
    assert!(!ask(b"foo", b""));
    assert!(!ask(b"foo/", &[0]));
}

#[test]
fn read_perm_does_not_allow_write() {
    let reader = who("reader");
    let record = Loaded::Found(user("reader", &["config-readers"]));
    let roles = vec![Loaded::Found(role("config-readers", &[(PermType::Read, b"k", b"")]))];
    let auth = enabled();
    let ask = |p| authorize(&auth, Some(&reader), &record, &roles, p, b"k", b"");
    assert!(ask(RequiredPerm::Read).is_ok());
    assert_eq!(ask(RequiredPerm::Write).unwrap_err().code(), Code::PermissionDenied);
}

#[test]
fn root_and_a_disabled_check_pass_everything() {
    let root = who("root");
    let record = Loaded::Found(user("root", &["root"]));
    let none = vec![Loaded::Missing];
    assert!(authorize(&enabled(), Some(&root), &record, &none, RequiredPerm::Write, b"k", b"").is_ok());
    let off = AuthState::default();
    assert!(authorize(&off, None, &Loaded::Missing, &vec![], RequiredPerm::Write, b"k", b"").is_ok());
}

#[test]
fn an_open_ended_permission_covers_everything_above_its_key() {
    let a = who("a");
    let record = Loaded::Found(user("a", &["r"]));
    let roles = vec![Loaded::Found(role("r", &[(PermType::Read, b"m", &[0])]))];
    let auth = enabled();
    let ask = |key: &[u8], end: &[u8]| {
        authorize(&auth, Some(&a), &record, &roles, RequiredPerm::Read, key, end).is_ok()
    };
    assert!(ask(b"z", &[0]));
    assert!(ask(b"m", b"zz"));
    assert!(!ask(b"l", b""));
}

#[test]
fn unreadable_records_are_refused_with_their_reason() {
    let a = who("a");
    let auth = enabled();
    let ask = |record: Loaded<StoredUser>, roles: Vec<Loaded<StoredRole>>| {
        authorize(&auth, Some(&a), &record, &roles, RequiredPerm::Read, b"k", b"").unwrap_err()
    };
    assert_eq!(ask(Loaded::ReadError(String::from("io")), vec![]).code(), Code::Internal);
    assert_eq!(ask(Loaded::DecodeError(String::from("eof")), vec![]).code(), Code::Internal);
    says(&ask(Loaded::Missing, vec![]), Code::PermissionDenied, "authz: user a not found");
    let with_role = Loaded::Found(user("a", &["r"]));
    let e = ask(with_role, vec![Loaded::ReadError(String::from("io"))]);
    assert_eq!(e.code(), Code::Internal);
    let e = authorize(&auth, None, &Loaded::Missing, &vec![], RequiredPerm::Read, b"k", b"");
    assert_eq!(e.unwrap_err().code(), Code::Unauthenticated);
}

#[test]
fn the_flag_survives_a_restart() {
    let on = AuthService::auth_enable(Some(&user("root", &[]))).unwrap();
    let mut auth = AuthState::default();
    AuthService::load_persisted(Some(&on), &mut auth);
    assert!(auth.is_enabled());
    AuthService::load_persisted(Some(&AuthService::auth_disable()), &mut auth);
    assert!(!auth.is_enabled());
    let header = ResponseHeader { cluster_id: 1, member_id: 2, revision: 9, raft_term: 3 };
    let status = AuthService::new(enabled()).auth_status(header);
    assert!(status.enabled);
    assert_eq!((status.auth_revision, status.header), (9, header));
}
