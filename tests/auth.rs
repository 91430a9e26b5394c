use argon2::password_hash::{PasswordHasher, SaltString};
use argon2::Argon2;
use scuffle_api::auth::{display_color_for, AuthError, InternalCause, AuthMutation, AuthStore, RequestContext, RoleGrant, User, DEFAULT_VALIDITY_SECS};
use scuffle_api::credentials::CredentialError;

const NOW: u64 = 1_700_000_000;
const U1: u128 = 0x0001;
const S1: u128 = 0x1001;

fn hash(password: &str) -> String {
    let salt = SaltString::encode_b64(b"fixed-salt-1234!").unwrap();
    Argon2::default().hash_password(password.as_bytes(), &salt).unwrap().to_string()
}

fn user(id: u128, name: &str, password: &str) -> User {
    User {
        id,
        username: name.to_string(),
        display_name: name.to_string(),
        display_color: 0,
        password_hash: hash(password),
        email: format!("{name}@example.com"),
        last_login_at: 0,
        created_at: 0,
    }
}

fn store_with(users: Vec<User>) -> AuthStore {
    let mut store = AuthStore::new(b"signing-key".to_vec(), 0b0001);
    store.users = users;
    store
}

#[test]
fn login_happy_path() {
    let mut store = store_with(vec![user(U1, "alice", "hunter2")]);
    let mut ctx = RequestContext::new();
    let resp = AuthMutation
        .login(&mut store, &mut ctx, "Alice", "hunter2", true, None, None, NOW, S1)
        .unwrap();
    assert_eq!(resp.expires_at, NOW + 604800);
    assert_eq!(resp.user_id, U1);
    let summary = resp.user.unwrap();
    assert_eq!(summary.id, U1);
    assert_eq!(summary.username, "alice");
    assert_eq!(store.sessions.len(), 1);
    assert_eq!(store.sessions[0].user_id, U1);
    assert_eq!(store.sessions[0].expires_at, NOW + DEFAULT_VALIDITY_SECS as u64);
    assert_eq!(store.users[0].last_login_at, NOW);
    assert_eq!(ctx.auth().unwrap().session.id, S1);
}

#[test]
fn login_wrong_password() {
    let mut store = store_with(vec![user(U1, "alice", "hunter2")]);
    let mut ctx = RequestContext::new();
    let err = AuthMutation
        .login(&mut store, &mut ctx, "alice", "nope", true, None, None, NOW, S1)
        .unwrap_err();
    assert_eq!(err, AuthError::InvalidCredentials);
    assert_eq!(err.fields(), vec!["username", "password"]);
    assert_eq!(err.message(), "invalid username or password");
    assert!(store.sessions.is_empty());
    assert!(ctx.auth().is_none());
}

#[test]
fn login_unknown_user_gives_same_error() {
    let mut store = store_with(vec![user(U1, "alice", "hunter2")]);
    let mut ctx = RequestContext::new();
    let unknown = AuthMutation
        .login(&mut store, &mut ctx, "mallory", "hunter2", true, None, None, NOW, S1)
        .unwrap_err();
    let wrong = AuthMutation
        .login(&mut store, &mut ctx, "alice", "nope", true, None, None, NOW, S1)
        .unwrap_err();
    assert_eq!(unknown, wrong);
    assert_eq!(unknown.fields(), wrong.fields());
    assert_eq!(unknown.message(), wrong.message());
}

#[test]
fn login_rejects_bad_captcha() {
    let mut store = store_with(vec![user(U1, "alice", "hunter2")]);
    let mut ctx = RequestContext::new();
    let err = AuthMutation
        .login(&mut store, &mut ctx, "alice", "hunter2", false, None, None, NOW, S1)
        .unwrap_err();
    assert_eq!(err, AuthError::InvalidCaptcha);
    assert_eq!(err.fields(), vec!["captchaToken"]);
    assert_eq!(err.message(), "capcha token is invalid");
}

#[test]
fn login_zero_validity_is_refused() {
    let mut store = store_with(vec![user(U1, "alice", "hunter2")]);
    let mut ctx = RequestContext::new();
    let err = AuthMutation
        .login(&mut store, &mut ctx, "alice", "hunter2", true, Some(0), None, NOW, S1)
        .unwrap_err();
    assert_eq!(err, AuthError::InvalidValidity);
}

#[test]
fn login_without_context_update_leaves_connection() {
    let mut store = store_with(vec![user(U1, "alice", "hunter2")]);
    let mut ctx = RequestContext::new();
    let resp = AuthMutation
        .login(&mut store, &mut ctx, "alice", "hunter2", true, Some(60), Some(false), NOW, S1)
        .unwrap();
    assert_eq!(resp.expires_at, NOW + 60);
    assert!(ctx.auth().is_none());
}

#[test]
fn login_resolves_roles_and_permissions() {
    let mut store = store_with(vec![user(U1, "alice", "hunter2")]);
    store.grants = vec![
        RoleGrant { user_id: U1, role_id: 7, permissions: 0b0100 },
        RoleGrant { user_id: 99, role_id: 8, permissions: 0b1000 },
        RoleGrant { user_id: U1, role_id: 9, permissions: 0b0010 },
    ];
    let mut ctx = RequestContext::new();
    AuthMutation
        .login(&mut store, &mut ctx, "alice", "hunter2", true, None, None, NOW, S1)
        .unwrap();
    let auth = ctx.auth().unwrap();
    assert_eq!(auth.user_roles, vec![7, 9]);
    assert_eq!(auth.user_permissions, 0b0111);
}

#[test]
fn register_collision() {
    let mut store = store_with(vec![user(U1, "bob", "Str0ng!")]);
    let mut ctx = RequestContext::new();
    let err = AuthMutation
        .register(&mut store, &mut ctx, "Bob", "Str0ng!", "bob@x", true, None, None, NOW, 2, S1, &b"salt-for-tests!!".to_vec(), 3)
        .unwrap_err();
    assert_eq!(err, AuthError::UsernameTaken);
    assert_eq!(err.fields(), vec!["username"]);
    assert_eq!(err.message(), "username already taken");
    assert_eq!(store.users.len(), 1);
}

#[test]
fn register_reports_first_invalid_field() {
    let mut store = store_with(vec![]);
    let mut ctx = RequestContext::new();
    let salt = b"salt-for-tests!!".to_vec();
    let err = AuthMutation
        .register(&mut store, &mut ctx, "al", "Str0ng!", "al@x", true, None, None, NOW, 2, S1, &salt, 3)
        .unwrap_err();
    assert_eq!(err, AuthError::InvalidUsername(CredentialError::UsernameTooShort));
    assert_eq!(err.fields(), vec!["username"]);
    assert_eq!(err.message(), "username must be at least 3 characters long");
    let err = AuthMutation
        .register(&mut store, &mut ctx, "carol", "short", "c@x", true, None, None, NOW, 2, S1, &salt, 3)
        .unwrap_err();
    assert_eq!(err, AuthError::InvalidPassword(CredentialError::PasswordTooShort));
    let err = AuthMutation
        .register(&mut store, &mut ctx, "carol", "Str0ng!", "carol.example.com", true, None, None, NOW, 2, S1, &salt, 3)
        .unwrap_err();
    assert_eq!(err, AuthError::InvalidEmail(CredentialError::EmailMalformed));
    assert_eq!(err.fields(), vec!["email"]);
}

#[test]
fn register_then_login() {
    let mut store = store_with(vec![]);
    let mut ctx = RequestContext::new();
    let resp = AuthMutation
        .register(&mut store, &mut ctx, "Carol", "Str0ng!", "Carol@Example.com", true, None, None, NOW, 2, S1, &b"salt-for-tests!!".to_vec(), 5)
        .unwrap();
    assert_eq!(resp.user_id, 2);
    assert_eq!(store.users[0].username, "carol");
    assert_eq!(store.users[0].display_name, "Carol");
    assert_eq!(store.users[0].email, "carol@example.com");
    let auth = ctx.auth().unwrap();
    assert!(auth.user_roles.is_empty());
    assert_eq!(auth.user_permissions, 0b0001);
    let again = AuthMutation
        .login(&mut store, &mut ctx, "Carol", "Str0ng!", true, None, None, NOW + 10, 0x2002)
        .unwrap();
    assert_eq!(again.user_id, 2);
    assert_eq!(store.sessions.len(), 2);
}

#[test]
fn logout_invalidates() {
    let mut store = store_with(vec![user(U1, "alice", "hunter2")]);
    let mut ctx = RequestContext::new();
    let t = AuthMutation
        .login(&mut store, &mut ctx, "alice", "hunter2", true, None, None, NOW, S1)
        .unwrap()
        .token;
    assert_eq!(AuthMutation.logout(&mut store, &mut ctx, Some(&t)), Ok(true));
    let err = AuthMutation
        .login_with_token(&mut store, &mut ctx, &t, None, NOW + 1)
        .unwrap_err();
    assert_eq!(err, AuthError::InvalidSessionToken);
    assert_eq!(err.fields(), vec!["sessionToken"]);
}

#[test]
fn logout_twice_is_idempotent() {
    let mut store = store_with(vec![user(U1, "alice", "hunter2")]);
    let mut ctx = RequestContext::new();
    let t = AuthMutation
        .login(&mut store, &mut ctx, "alice", "hunter2", true, None, None, NOW, S1)
        .unwrap()
        .token;
    assert_eq!(AuthMutation.logout(&mut store, &mut ctx, Some(&t)), Ok(true));
    assert_eq!(AuthMutation.logout(&mut store, &mut ctx, Some(&t)), Ok(true));
    assert!(store.sessions.is_empty());
}

#[test]
fn logout_of_current_session_clears_connection() {
    let mut store = store_with(vec![user(U1, "alice", "hunter2")]);
    let mut ctx = RequestContext::new();
    assert_eq!(AuthMutation.logout(&mut store, &mut ctx, None), Err(AuthError::NotLoggedIn));
    AuthMutation
        .login(&mut store, &mut ctx, "alice", "hunter2", true, None, None, NOW, S1)
        .unwrap();
    assert_eq!(AuthMutation.logout(&mut store, &mut ctx, None), Ok(true));
    assert!(ctx.auth().is_none());
    assert!(store.sessions.is_empty());
}

#[test]
fn logout_with_bad_token() {
    let mut store = store_with(vec![]);
    let mut ctx = RequestContext::new();
    let bogus = vec![0u8; 56];
    assert_eq!(AuthMutation.logout(&mut store, &mut ctx, Some(&bogus)), Err(AuthError::InvalidSessionToken));
}

#[test]
fn login_with_token_refreshes_session() {
    let mut store = store_with(vec![user(U1, "alice", "hunter2")]);
    let mut ctx = RequestContext::new();
    let t = AuthMutation
        .login(&mut store, &mut ctx, "alice", "hunter2", true, Some(100), Some(false), NOW, S1)
        .unwrap()
        .token;
    let resp = AuthMutation
        .login_with_token(&mut store, &mut ctx, &t, None, NOW + 50)
        .unwrap();
    assert_eq!(resp.id, S1);
    assert_eq!(resp.token, t);
    assert_eq!(resp.last_used_at, NOW + 50);
    assert!(resp.user.is_none());
    assert_eq!(store.sessions[0].last_used_at, NOW + 50);
    assert_eq!(ctx.auth().unwrap().session.id, S1);
}

#[test]
fn login_with_token_expired_session() {
    let mut store = store_with(vec![user(U1, "alice", "hunter2")]);
    let mut ctx = RequestContext::new();
    let t = AuthMutation
        .login(&mut store, &mut ctx, "alice", "hunter2", true, Some(100), Some(false), NOW, S1)
        .unwrap()
        .token;
    let err = AuthMutation
        .login_with_token(&mut store, &mut ctx, &t, None, NOW + 100)
        .unwrap_err();
    assert_eq!(err, AuthError::InvalidSession);
    assert!(ctx.auth().is_none());
}

#[test]
fn register_rejects_short_salt() {
    let mut store = store_with(vec![]);
    let mut ctx = RequestContext::new();
    let err = AuthMutation
        .register(&mut store, &mut ctx, "carol", "Str0ng!", "c@x", true, None, None, NOW, 2, S1, &vec![1, 2], 3)
        .unwrap_err();
    assert_eq!(err, AuthError::InternalServerError(InternalCause::InvalidSalt));
    assert!(err.fields().is_empty());
    assert!(store.users.is_empty());
}

#[test]
fn store_well_formedness() {
    let store = store_with(vec![user(U1, "alice", "hunter2"), user(2, "bob", "hunter2")]);
    assert!(store.is_well_formed());
    let dup = store_with(vec![user(U1, "alice", "hunter2"), user(2, "alice", "hunter2")]);
    assert!(!dup.is_well_formed());
}

#[test]
fn display_color_comes_from_palette() {
    assert_eq!(display_color_for(0), 0xff6b6b);
    assert_eq!(display_color_for(9), 0xf59f00);
    let mut store = store_with(vec![]);
    let mut ctx = RequestContext::new();
    AuthMutation
        .register(&mut store, &mut ctx, "dave", "Str0ng!", "d@x", true, None, None, NOW, 2, S1, &b"salt-for-tests!!".to_vec(), 15)
        .unwrap();
    assert_eq!(store.users[0].display_color, 0xf06595);
}

#[test]
fn login_lowercased_takes_name_as_given() {
    let mut store = store_with(vec![user(U1, "alice", "hunter2")]);
    let mut ctx = RequestContext::new();
    let resp = AuthMutation
        .login_lowercased(&mut store, &mut ctx, &"alice".to_string(), "hunter2", true, None, None, NOW, S1)
        .unwrap();
    assert_eq!(resp.user_id, U1);
    let err = AuthMutation
        .login_lowercased(&mut store, &mut ctx, &"Alice".to_string(), "hunter2", true, None, None, NOW, 0x2002)
        .unwrap_err();
    assert_eq!(err, AuthError::InvalidCredentials);
}

#[test]
fn stored_hash_is_an_argon2id_string() {
    let mut store = store_with(vec![]);
    let mut ctx = RequestContext::new();
    AuthMutation
        .register(&mut store, &mut ctx, "erin", "Str0ng!", "e@x", true, None, None, NOW, 2, S1, &b"salt-for-tests!!".to_vec(), 0)
        .unwrap();
    assert!(store.users[0].password_hash.starts_with("$argon2id$v=19$"));
    assert_ne!(store.users[0].password_hash, "Str0ng!");
}
