use vstd::prelude::*;

use crate::credentials::{
    email_check, hash_password, lower_of, lowercase, password_check, password_matches, username_check,
    validate_email, validate_password, validate_username, verify_password, CredentialError, ARGON2ID_PREFIX, SALT_MAX_LEN,
    SALT_MIN_LEN,
};
use crate::token::{mint, token_of, verify, Claims};

verus! {

/// Session length when the caller names none: seven days.
pub const DEFAULT_VALIDITY_SECS: u32 = 604800;

/// A registered account.
#[derive(Debug)]
pub struct User {
    pub id: u128,
    pub username: String,
    pub display_name: String,
    pub display_color: i32,
    pub password_hash: String,
    pub email: String,
    pub last_login_at: u64,
    pub created_at: u64,
}

/// A session row: valid while the clock is before `expires_at`.
#[derive(Clone, Copy, Debug, PartialEq, Eq, Structural)]
pub struct Session {
    pub id: u128,
    pub user_id: u128,
    pub expires_at: u64,
    pub last_used_at: u64,
}

impl Session {
    pub open spec fn spec_is_valid(self, now: u64) -> bool {
        now < self.expires_at
    }

    pub fn is_valid(&self, now: u64) -> (r: bool)
        ensures
            r == self.spec_is_valid(now),
    {
        now < self.expires_at
    }
}

/// A role that a user holds, with the permission bits it grants.
#[derive(Clone, Copy, Debug, PartialEq, Eq, Structural)]
pub struct RoleGrant {
    pub user_id: u128,
    pub role_id: u128,
    pub permissions: u64,
}

/// Who a connection is authenticated as.
#[derive(Debug)]
pub struct AuthData {
    pub session: Session,
    pub user_roles: Vec<u128>,
    pub user_permissions: u64,
}

/// The authentication slot of one connection.
#[derive(Debug)]
pub struct RequestContext {
    auth: Option<AuthData>,
}

impl RequestContext {
    pub closed spec fn current(&self) -> Option<AuthData> {
        self.auth
    }

    pub fn new() -> (r: RequestContext)
        ensures
            r.current() is None,
    {
        RequestContext { auth: None }
    }

    /// The current authentication, if any.
    pub fn auth(&self) -> (r: Option<&AuthData>)
        ensures
            r matches Some(a) ==> self.current() == Some(*a),
            r is None ==> self.current() is None,
    {
        match &self.auth {
            Some(a) => Some(a),
            None => None,
        }
    }

    /// Replaces the current authentication.
    pub fn set_auth(&mut self, data: AuthData)
        ensures
            final(self).current() == Some(data),
    {
        self.auth = Some(data);
    }

    /// Clears the current authentication.
    pub fn reset_auth(&mut self)
        ensures
            final(self).current() is None,
    {
        self.auth = None;
    }
}

/// The users and sessions tables with the settings the mutations read.
#[derive(Debug)]
pub struct AuthStore {
    pub users: Vec<User>,
    pub sessions: Vec<Session>,
    pub grants: Vec<RoleGrant>,
    pub default_permissions: u64,
    pub signing_key: Vec<u8>,
}

/// A user as shown beside a session.
#[derive(Debug)]
pub struct UserSummary {
    pub id: u128,
    pub username: String,
}

/// A session as returned to the client, with its bearer token.
#[derive(Debug)]
pub struct SessionResponse {
    pub id: u128,
    pub token: Vec<u8>,
    pub user_id: u128,
    pub expires_at: u64,
    pub last_used_at: u64,
    pub user: Option<UserSummary>,
}

/// Why a server-side step failed; never shown to clients in detail.
#[derive(Clone, Copy, Debug, PartialEq, Eq, Structural)]
pub enum InternalCause {
    SessionIdTaken,
    UserIdTaken,
    TimeOverflow,
    InvalidSalt,
}

/// Errors of the authentication mutations.
#[derive(Clone, Copy, Debug, PartialEq, Eq, Structural)]
pub enum AuthError {
    InvalidCaptcha,
    InvalidCredentials,
    InvalidSessionToken,
    InvalidValidity,
    InvalidUsername(CredentialError),
    InvalidPassword(CredentialError),
    InvalidEmail(CredentialError),
    UsernameTaken,
    InvalidSession,
    NotLoggedIn,
    InternalServerError(InternalCause),
}

impl AuthError {
    pub open spec fn spec_fields(self) -> Seq<&'static str> {
        match self {
            AuthError::InvalidCaptcha => seq!["captchaToken"],
            AuthError::InvalidCredentials => seq!["username", "password"],
            AuthError::InvalidSessionToken => seq!["sessionToken"],
            AuthError::InvalidValidity => seq!["validity"],
            AuthError::InvalidUsername(_) => seq!["username"],
            AuthError::InvalidPassword(_) => seq!["password"],
            AuthError::InvalidEmail(_) => seq!["email"],
            AuthError::UsernameTaken => seq!["username"],
            _ => Seq::empty(),
        }
    }

    pub open spec fn spec_message(self) -> &'static str {
        match self {
            AuthError::InvalidCaptcha => "capcha token is invalid",
            AuthError::InvalidCredentials => "invalid username or password",
            AuthError::InvalidSessionToken => "invalid session token",
            AuthError::InvalidValidity => "validity must be at least one second",
            AuthError::InvalidUsername(e) => e.spec_message(),
            AuthError::InvalidPassword(e) => e.spec_message(),
            AuthError::InvalidEmail(e) => e.spec_message(),
            AuthError::UsernameTaken => "username already taken",
            AuthError::InvalidSession => "the session has expired",
            AuthError::NotLoggedIn => "not logged in",
            AuthError::InternalServerError(InternalCause::SessionIdTaken) => "failed to create session",
            AuthError::InternalServerError(InternalCause::UserIdTaken) => "failed to create user",
            AuthError::InternalServerError(InternalCause::TimeOverflow) => "session expiry out of range",
            AuthError::InternalServerError(InternalCause::InvalidSalt) => "failed to hash password",
        }
    }

    /// The input fields that the error points at, empty when it points at none.
    pub fn fields(&self) -> (r: Vec<&'static str>)
        ensures
            r@ == self.spec_fields(),
    {
        let r = match self {
            AuthError::InvalidCaptcha => vec!["captchaToken"],
            AuthError::InvalidCredentials => vec!["username", "password"],
            AuthError::InvalidSessionToken => vec!["sessionToken"],
            AuthError::InvalidValidity => vec!["validity"],
            AuthError::InvalidUsername(_) => vec!["username"],
            AuthError::InvalidPassword(_) => vec!["password"],
            AuthError::InvalidEmail(_) => vec!["email"],
            AuthError::UsernameTaken => vec!["username"],
            _ => Vec::new(),
        };
        assert(r@ =~= self.spec_fields());
        r
    }

    /// The message shown to the client.
    pub fn message(&self) -> (r: &'static str)
        ensures
            r == self.spec_message(),
    {
        match self {
            AuthError::InvalidCaptcha => "capcha token is invalid",
            AuthError::InvalidCredentials => "invalid username or password",
            AuthError::InvalidSessionToken => "invalid session token",
            AuthError::InvalidValidity => "validity must be at least one second",
            AuthError::InvalidUsername(e) => e.message(),
            AuthError::InvalidPassword(e) => e.message(),
            AuthError::InvalidEmail(e) => e.message(),
            AuthError::UsernameTaken => "username already taken",
            AuthError::InvalidSession => "the session has expired",
            AuthError::NotLoggedIn => "not logged in",
            AuthError::InternalServerError(InternalCause::SessionIdTaken) => "failed to create session",
            AuthError::InternalServerError(InternalCause::UserIdTaken) => "failed to create user",
            AuthError::InternalServerError(InternalCause::TimeOverflow) => "session expiry out of range",
            AuthError::InternalServerError(InternalCause::InvalidSalt) => "failed to hash password",
        }
    }
}

pub open spec fn validity_secs(validity: Option<u32>) -> u64 {
    match validity {
        Some(v) => v as u64,
        None => DEFAULT_VALIDITY_SECS as u64,
    }
}

pub open spec fn credentials_match(users: Seq<User>, name: Seq<char>, password: Seq<char>) -> bool {
    exists|i: int|
        0 <= i < users.len() && (#[trigger] users[i]).username@ == name && password_matches(
            users[i].password_hash@,
            password,
        )
}

pub open spec fn username_taken(users: Seq<User>, name: Seq<char>) -> bool {
    exists|i: int| 0 <= i < users.len() && (#[trigger] users[i]).username@ == name
}

pub open spec fn user_id_taken(users: Seq<User>, id: u128) -> bool {
    exists|i: int| 0 <= i < users.len() && (#[trigger] users[i]).id == id
}

pub open spec fn session_taken(sessions: Seq<Session>, id: u128) -> bool {
    exists|j: int| 0 <= j < sessions.len() && (#[trigger] sessions[j]).id == id
}

/// The position of the session with `id`; sessions have distinct ids.
pub open spec fn session_index(sessions: Seq<Session>, id: u128) -> int {
    choose|j: int| 0 <= j < sessions.len() && (#[trigger] sessions[j]).id == id
}

/// The sessions with the one of id `id` removed, if there is one.
pub open spec fn without_session(sessions: Seq<Session>, id: u128) -> Seq<Session> {
    if session_taken(sessions, id) {
        sessions.remove(session_index(sessions, id))
    } else {
        sessions
    }
}

pub open spec fn with_last_login(u: User, now: u64) -> User {
    User {
        id: u.id,
        username: u.username,
        display_name: u.display_name,
        display_color: u.display_color,
        password_hash: u.password_hash,
        email: u.email,
        last_login_at: now,
        created_at: u.created_at,
    }
}

/// The roles granted to a user, in grant order.
pub open spec fn roles_of(grants: Seq<RoleGrant>, user_id: u128) -> Seq<u128>
    decreases grants.len(),
{
    if grants.len() == 0 {
        Seq::empty()
    } else if grants.last().user_id == user_id {
        roles_of(grants.drop_last(), user_id).push(grants.last().role_id)
    } else {
        roles_of(grants.drop_last(), user_id)
    }
}

/// The default permissions together with those of every role the user holds.
pub open spec fn permissions_of(grants: Seq<RoleGrant>, user_id: u128, base: u64) -> u64
    decreases grants.len(),
{
    if grants.len() == 0 {
        base
    } else if grants.last().user_id == user_id {
        permissions_of(grants.drop_last(), user_id, base) | grants.last().permissions
    } else {
        permissions_of(grants.drop_last(), user_id, base)
    }
}

/// The connection is authenticated as `session`, with these roles and permissions.
pub open spec fn authenticated_as(c: Option<AuthData>, session: Session, roles: Seq<u128>, permissions: u64) -> bool {
    (c matches Some(a) && a.session == session && a.user_roles@ == roles && a.user_permissions == permissions)
}

/// Every setting of the store other than its two tables is kept.
pub open spec fn same_settings(s0: AuthStore, s1: AuthStore) -> bool {
    &&& s1.grants == s0.grants
    &&& s1.default_permissions == s0.default_permissions
    &&& s1.signing_key == s0.signing_key
}

impl AuthStore {
    /// Usernames and user ids are unique, and so are session ids.
    pub open spec fn wf(&self) -> bool {
        &&& forall|i: int, j: int|
            0 <= i < self.users@.len() && 0 <= j < self.users@.len() && i != j ==> (#[trigger] self.users@[i]).username@
                != (#[trigger] self.users@[j]).username@ && self.users@[i].id != self.users@[j].id
        &&& forall|i: int, j: int|
            0 <= i < self.sessions@.len() && 0 <= j < self.sessions@.len() && i != j ==> (
            #[trigger] self.sessions@[i]).id != (#[trigger] self.sessions@[j]).id
    }

    /// Whether usernames, user ids and session ids are each unique; the
    /// mutations ask for a store that is.
    pub fn is_well_formed(&self) -> (r: bool)
        ensures
            r == self.wf(),
    {
        let n = self.users.len();
        let mut i: usize = 0;
        while i < n
            invariant
                0 <= i <= n,
                n == self.users@.len(),
                forall|a: int, b: int|
                    0 <= a < i && 0 <= b < n && a != b ==> (#[trigger] self.users@[a]).username@
                        != (#[trigger] self.users@[b]).username@ && self.users@[a].id != self.users@[b].id,
            decreases n - i,
        {
            let mut j: usize = 0;
            while j < n
                invariant
                    0 <= j <= n,
                    i < n,
                    n == self.users@.len(),
                    forall|a: int, b: int|
                        0 <= a < i && 0 <= b < n && a != b ==> (#[trigger] self.users@[a]).username@
                            != (#[trigger] self.users@[b]).username@ && self.users@[a].id != self.users@[b].id,
                    forall|b: int|
                        0 <= b < j && b != i ==> (#[trigger] self.users@[b]).username@ != self.users@[i as int].username@
                            && self.users@[i as int].id != self.users@[b].id,
                decreases n - j,
            {
                if j != i && (self.users[i].username == self.users[j].username || self.users[i].id == self.users[j].id) {
                    return false;
                }
                j = j + 1;
            }
            i = i + 1;
        }
        let m = self.sessions.len();
        let mut i: usize = 0;
        while i < m
            invariant
                0 <= i <= m,
                m == self.sessions@.len(),
                forall|a: int, b: int|
                    0 <= a < self.users@.len() && 0 <= b < self.users@.len() && a != b ==> (
                    #[trigger] self.users@[a]).username@ != (#[trigger] self.users@[b]).username@
                        && self.users@[a].id != self.users@[b].id,
                forall|a: int, b: int|
                    0 <= a < i && 0 <= b < m && a != b ==> (#[trigger] self.sessions@[a]).id != (
                    #[trigger] self.sessions@[b]).id,
            decreases m - i,
        {
            let mut j: usize = 0;
            while j < m
                invariant
                    0 <= j <= m,
                    i < m,
                    m == self.sessions@.len(),
                    forall|a: int, b: int|
                        0 <= a < i && 0 <= b < m && a != b ==> (#[trigger] self.sessions@[a]).id != (
                        #[trigger] self.sessions@[b]).id,
                    forall|b: int| 0 <= b < j && b != i ==> (#[trigger] self.sessions@[b]).id != self.sessions@[i as int].id,
                decreases m - j,
            {
                if j != i && self.sessions[i].id == self.sessions[j].id {
                    return false;
                }
                j = j + 1;
            }
            i = i + 1;
        }
        true
    }

    /// An empty store.
    pub fn new(signing_key: Vec<u8>, default_permissions: u64) -> (r: AuthStore)
        ensures
            r.wf(),
            r.users@.len() == 0,
            r.sessions@.len() == 0,
            r.grants@.len() == 0,
            r.signing_key@ == signing_key@,
            r.default_permissions == default_permissions,
    {
        AuthStore { users: Vec::new(), sessions: Vec::new(), grants: Vec::new(), default_permissions, signing_key }
    }
}

fn find_user(users: &Vec<User>, name: &String) -> (r: Option<usize>)
    ensures
        r matches Some(i) ==> i < users@.len() && users@[i as int].username@ == name@,
        r is None ==> !username_taken(users@, name@),
{
    let mut i: usize = 0;
    while i < users.len()
        invariant
            0 <= i <= users@.len(),
            forall|k: int| 0 <= k < i ==> (#[trigger] users@[k]).username@ != name@,
        decreases users@.len() - i,
    {
        if users[i].username == *name {
            return Some(i);
        }
        i = i + 1;
    }
    None
}

fn find_user_id(users: &Vec<User>, id: u128) -> (r: bool)
    ensures
        r == user_id_taken(users@, id),
{
    let mut i: usize = 0;
    while i < users.len()
        invariant
            0 <= i <= users@.len(),
            forall|k: int| 0 <= k < i ==> (#[trigger] users@[k]).id != id,
        decreases users@.len() - i,
    {
        if users[i].id == id {
            return true;
        }
        i = i + 1;
    }
    false
}

fn find_session(sessions: &Vec<Session>, id: u128) -> (r: Option<usize>)
    ensures
        r matches Some(j) ==> j < sessions@.len() && sessions@[j as int].id == id,
        r is None ==> !session_taken(sessions@, id),
{
    let mut j: usize = 0;
    while j < sessions.len()
        invariant
            0 <= j <= sessions@.len(),
            forall|k: int| 0 <= k < j ==> (#[trigger] sessions@[k]).id != id,
        decreases sessions@.len() - j,
    {
        if sessions[j].id == id {
            return Some(j);
        }
        j = j + 1;
    }
    None
}

/// Builds the authentication of a session: the roles its user holds and the
/// default permissions joined with theirs.
fn resolve_auth(grants: &Vec<RoleGrant>, session: Session, default_permissions: u64) -> (r: AuthData)
    ensures
        authenticated_as(
            Some(r),
            session,
            roles_of(grants@, session.user_id),
            permissions_of(grants@, session.user_id, default_permissions),
        ),
{
    let mut roles: Vec<u128> = Vec::new();
    let mut permissions = default_permissions;
    let mut i: usize = 0;
    while i < grants.len()
        invariant
            0 <= i <= grants@.len(),
            roles@ == roles_of(grants@.subrange(0, i as int), session.user_id),
            permissions == permissions_of(grants@.subrange(0, i as int), session.user_id, default_permissions),
        decreases grants@.len() - i,
    {
        let g = grants[i];
        assert(grants@.subrange(0, i + 1).drop_last() =~= grants@.subrange(0, i as int));
        if g.user_id == session.user_id {
            roles.push(g.role_id);
            permissions = permissions | g.permissions;
        }
        i = i + 1;
    }
    assert(grants@.subrange(0, grants@.len() as int) =~= grants@);
    AuthData { session, user_roles: roles, user_permissions: permissions }
}

/// What `login` does to the store, the connection and the answer.
pub open spec fn login_post(
    s0: AuthStore,
    c0: Option<AuthData>,
    name: Seq<char>,
    password: Seq<char>,
    captcha_valid: bool,
    validity: Option<u32>,
    update_context: Option<bool>,
    now: u64,
    session_id: u128,
    s1: AuthStore,
    c1: Option<AuthData>,
    r: Result<SessionResponse, AuthError>,
) -> bool {
    let secs = validity_secs(validity);
    &&& !captcha_valid ==> r == Err::<SessionResponse, AuthError>(AuthError::InvalidCaptcha)
    &&& captcha_valid && !credentials_match(s0.users@, name, password) ==> r == Err::<
        SessionResponse,
        AuthError,
    >(AuthError::InvalidCredentials)
    &&& captcha_valid && credentials_match(s0.users@, name, password) && secs == 0 ==> r == Err::<
        SessionResponse,
        AuthError,
    >(AuthError::InvalidValidity)
    &&& captcha_valid && credentials_match(s0.users@, name, password) && secs > 0 && now + secs <= u64::MAX
        && !session_taken(s0.sessions@, session_id) ==> r is Ok
    &&& r is Err ==> s1 == s0 && c1 == c0
    &&& r matches Ok(resp) ==> exists|i: int|
        0 <= i < s0.users@.len() && (#[trigger] s0.users@[i]).username@ == name && password_matches(
            s0.users@[i].password_hash@,
            password,
        ) && {
            let u = s0.users@[i];
            let session = Session {
                id: session_id,
                user_id: u.id,
                expires_at: (now + secs) as u64,
                last_used_at: now,
            };
            &&& now < session.expires_at
            &&& session.expires_at == now + secs
            &&& s1.sessions@ == s0.sessions@.push(session)
            &&& s1.users@ == s0.users@.update(i, with_last_login(u, now))
            &&& same_settings(s0, s1)
            &&& resp.id == session_id
            &&& resp.user_id == u.id
            &&& resp.expires_at == session.expires_at
            &&& resp.last_used_at == now
            &&& resp.token@ == token_of(s0.signing_key@, Claims { session_id, issued_at: now })
            &&& (resp.user matches Some(us) && us.id == u.id && us.username@ == u.username@)
            &&& update_context.unwrap_or(true) ==> authenticated_as(
                c1,
                session,
                roles_of(s0.grants@, u.id),
                permissions_of(s0.grants@, u.id, s0.default_permissions),
            )
            &&& !update_context.unwrap_or(true) ==> c1 == c0
        }
}

pub open spec fn token_view(t: Option<&Vec<u8>>) -> Option<Seq<u8>> {
    match t {
        Some(v) => Some(v@),
        None => None,
    }
}

pub open spec fn with_last_used(s: Session, now: u64) -> Session {
    Session { id: s.id, user_id: s.user_id, expires_at: s.expires_at, last_used_at: now }
}

/// What `login_with_token` does to the store, the connection and the answer.
pub open spec fn login_with_token_post(
    s0: AuthStore,
    c0: Option<AuthData>,
    token: Seq<u8>,
    update_context: Option<bool>,
    now: u64,
    s1: AuthStore,
    c1: Option<AuthData>,
    r: Result<SessionResponse, AuthError>,
) -> bool {
    &&& (forall|c: Claims| token != #[trigger] token_of(s0.signing_key@, c)) ==> r == Err::<
        SessionResponse,
        AuthError,
    >(AuthError::InvalidSessionToken)
    &&& forall|c: Claims|
        token == #[trigger] token_of(s0.signing_key@, c) && !session_taken(s0.sessions@, c.session_id)
            ==> r == Err::<SessionResponse, AuthError>(AuthError::InvalidSessionToken)
    &&& r == Err::<SessionResponse, AuthError>(AuthError::InvalidSessionToken) ==> s1 == s0 && c1 == c0
    &&& forall|c: Claims|
        token == #[trigger] token_of(s0.signing_key@, c) && session_taken(s0.sessions@, c.session_id) ==> {
            let j = session_index(s0.sessions@, c.session_id);
            let session = with_last_used(s0.sessions@[j], now);
            &&& s1.sessions@ == s0.sessions@.update(j, session)
            &&& s1.users == s0.users
            &&& same_settings(s0, s1)
            &&& !session.spec_is_valid(now) ==> r == Err::<SessionResponse, AuthError>(
                AuthError::InvalidSession,
            ) && c1 == c0
            &&& session.spec_is_valid(now) ==> (r matches Ok(resp) && resp.id == session.id && resp.token@
                == token && resp.user_id == session.user_id && resp.expires_at == session.expires_at
                && resp.last_used_at == now && resp.user is None)
            &&& session.spec_is_valid(now) && update_context.unwrap_or(true) ==> authenticated_as(
                c1,
                session,
                roles_of(s0.grants@, session.user_id),
                permissions_of(s0.grants@, session.user_id, s0.default_permissions),
            )
            &&& !update_context.unwrap_or(true) ==> c1 == c0
        }
}

/// The number of colors a new account's display color is drawn from.
pub const PALETTE_LEN: u64 = 8;

/// The display color at a position of the palette, counted modulo its length.
pub open spec fn palette_color(draw: u64) -> i32 {
    let k = draw % PALETTE_LEN;
    if k == 0 {
        0xff6b6b
    } else if k == 1 {
        0xf59f00
    } else if k == 2 {
        0xfcc419
    } else if k == 3 {
        0x51cf66
    } else if k == 4 {
        0x22b8cf
    } else if k == 5 {
        0x339af0
    } else if k == 6 {
        0x845ef7
    } else {
        0xf06595
    }
}

/// A palette color from a random draw.
pub fn display_color_for(draw: u64) -> (r: i32)
    ensures
        r == palette_color(draw),
{
    let k = draw % PALETTE_LEN;
    if k == 0 {
        0xff6b6b
    } else if k == 1 {
        0xf59f00
    } else if k == 2 {
        0xfcc419
    } else if k == 3 {
        0x51cf66
    } else if k == 4 {
        0x22b8cf
    } else if k == 5 {
        0x339af0
    } else if k == 6 {
        0x845ef7
    } else {
        0xf06595
    }
}

/// What `register` does to the store, the connection and the answer.
pub open spec fn register_post(
    s0: AuthStore,
    c0: Option<AuthData>,
    display_name: Seq<char>,
    name: Seq<char>,
    password: Seq<char>,
    mail: Seq<char>,
    captcha_valid: bool,
    validity: Option<u32>,
    update_context: Option<bool>,
    now: u64,
    user_id: u128,
    session_id: u128,
    salt: Seq<u8>,
    color_draw: u64,
    s1: AuthStore,
    c1: Option<AuthData>,
    r: Result<SessionResponse, AuthError>,
) -> bool {
    let secs = validity_secs(validity);
    let checks_pass = username_check(name) is Ok && password_check(password) is Ok && email_check(mail) is Ok;
    &&& !captcha_valid ==> r == Err::<SessionResponse, AuthError>(AuthError::InvalidCaptcha)
    &&& captcha_valid && username_check(name) is Err ==> r == Err::<SessionResponse, AuthError>(
        AuthError::InvalidUsername(username_check(name)->Err_0),
    )
    &&& captcha_valid && username_check(name) is Ok && password_check(password) is Err ==> r == Err::<
        SessionResponse,
        AuthError,
    >(AuthError::InvalidPassword(password_check(password)->Err_0))
    &&& captcha_valid && username_check(name) is Ok && password_check(password) is Ok && email_check(mail) is Err
        ==> r == Err::<SessionResponse, AuthError>(AuthError::InvalidEmail(email_check(mail)->Err_0))
    &&& captcha_valid && checks_pass && username_taken(s0.users@, name) ==> r == Err::<
        SessionResponse,
        AuthError,
    >(AuthError::UsernameTaken)
    &&& captcha_valid && checks_pass && !username_taken(s0.users@, name) && secs == 0 ==> r == Err::<
        SessionResponse,
        AuthError,
    >(AuthError::InvalidValidity)
    &&& captcha_valid && checks_pass && !username_taken(s0.users@, name) && secs > 0 && now + secs <= u64::MAX
        && !user_id_taken(s0.users@, user_id) && !session_taken(s0.sessions@, session_id) ==> (if SALT_MIN_LEN
        <= salt.len() <= SALT_MAX_LEN {
        r is Ok
    } else {
        r == Err::<SessionResponse, AuthError>(AuthError::InternalServerError(InternalCause::InvalidSalt))
    })
    &&& r is Err ==> s1 == s0 && c1 == c0
    &&& r matches Ok(resp) ==> {
        let session = Session {
            id: session_id,
            user_id,
            expires_at: (now + secs) as u64,
            last_used_at: now,
        };
        let u = s1.users@.last();
        &&& captcha_valid && checks_pass && !username_taken(s0.users@, name)
        &&& now < session.expires_at
        &&& session.expires_at == now + secs
        &&& s1.users@.len() == s0.users@.len() + 1
        &&& s1.users@.drop_last() == s0.users@
        &&& u.id == user_id
        &&& u.username@ == name
        &&& u.display_name@ == display_name
        &&& u.display_color == palette_color(color_draw)
        &&& password_matches(u.password_hash@, password)
        &&& u.password_hash@.len() >= 15 && u.password_hash@.subrange(0, 15) == ARGON2ID_PREFIX@
        &&& u.email@ == mail
        &&& u.last_login_at == now
        &&& u.created_at == now
        &&& s1.sessions@ == s0.sessions@.push(session)
        &&& same_settings(s0, s1)
        &&& resp.id == session_id
        &&& resp.user_id == user_id
        &&& resp.expires_at == session.expires_at
        &&& resp.last_used_at == now
        &&& resp.token@ == token_of(s0.signing_key@, Claims { session_id, issued_at: now })
        &&& (resp.user matches Some(us) && us.id == user_id && us.username@ == name)
        &&& update_context.unwrap_or(true) ==> authenticated_as(c1, session, Seq::empty(), s0.default_permissions)
        &&& !update_context.unwrap_or(true) ==> c1 == c0
    }
}

/// What `logout` does to the store, the connection and the answer.
pub open spec fn logout_post(
    s0: AuthStore,
    c0: Option<AuthData>,
    token: Option<Seq<u8>>,
    s1: AuthStore,
    c1: Option<AuthData>,
    r: Result<bool, AuthError>,
) -> bool {
    &&& token is Some && (forall|c: Claims| token->0 != #[trigger] token_of(s0.signing_key@, c)) ==> r == Err::<
        bool,
        AuthError,
    >(AuthError::InvalidSessionToken) && s1 == s0 && c1 == c0
    &&& forall|c: Claims|
        token == Some(#[trigger] token_of(s0.signing_key@, c)) ==> r == Ok::<bool, AuthError>(true)
            && s1.sessions@ == without_session(s0.sessions@, c.session_id) && s1.users == s0.users
            && same_settings(s0, s1) && c1 == c0
    &&& token is None && c0 is None ==> r == Err::<bool, AuthError>(AuthError::NotLoggedIn) && s1 == s0 && c1
        == c0
    &&& token is None && c0 is Some ==> r == Ok::<bool, AuthError>(true) && s1.sessions@ == without_session(
        s0.sessions@,
        c0->0.session.id,
    ) && s1.users == s0.users && same_settings(s0, s1) && c1 is None
}

/// The authentication mutations.
#[derive(Clone, Copy, Debug, Default)]
pub struct AuthMutation;

impl AuthMutation {
    /// Logs in with username and password: opens a session of `validity`
    /// seconds (seven days when absent) and records the login time. An unknown
    /// user and a wrong password give the same error. `captcha_valid` is the
    /// captcha provider's verdict, `now` the clock and `session_id` a fresh id.
    pub fn login(
        &self,
        store: &mut AuthStore,
        ctx: &mut RequestContext,
        username: &str,
        password: &str,
        captcha_valid: bool,
        validity: Option<u32>,
        update_context: Option<bool>,
        now: u64,
        session_id: u128,
    ) -> (r: Result<SessionResponse, AuthError>)
        requires
            old(store).wf(),
        ensures
            final(store).wf(),
            login_post(
                *old(store),
                old(ctx).current(),
                lower_of(username@),
                password@,
                captcha_valid,
                validity,
                update_context,
                now,
                session_id,
                *final(store),
                final(ctx).current(),
                r,
            ),
    {
        let name = lowercase(username);
        self.login_lowercased(store, ctx, &name, password, captcha_valid, validity, update_context, now, session_id)
    }

    /// `login` once the username is lowercased: `name` is looked up as it is.
    pub fn login_lowercased(
        &self,
        store: &mut AuthStore,
        ctx: &mut RequestContext,
        name: &String,
        password: &str,
        captcha_valid: bool,
        validity: Option<u32>,
        update_context: Option<bool>,
        now: u64,
        session_id: u128,
    ) -> (r: Result<SessionResponse, AuthError>)
        requires
            old(store).wf(),
        ensures
            final(store).wf(),
            login_post(
                *old(store),
                old(ctx).current(),
                name@,
                password@,
                captcha_valid,
                validity,
                update_context,
                now,
                session_id,
                *final(store),
                final(ctx).current(),
                r,
            ),
    {
        if !captcha_valid {
            return Err(AuthError::InvalidCaptcha);
        }
        let i = match find_user(&store.users, name) {
            Some(i) => i,
            None => {
                return Err(AuthError::InvalidCredentials);
            },
        };
        if !verify_password(store.users[i].password_hash.as_str(), password) {
            assert(!credentials_match(store.users@, name@, password@)) by {
                if credentials_match(store.users@, name@, password@) {
                    let k = choose|k: int|
                        0 <= k < store.users@.len() && (#[trigger] store.users@[k]).username@ == name@
                            && password_matches(store.users@[k].password_hash@, password@);
                    assert(k == i);
                }
            }
            return Err(AuthError::InvalidCredentials);
        }
        assert(credentials_match(store.users@, name@, password@)) by {
            assert(store.users@[i as int].username@ == name@);
        }
        let secs: u64 = match validity {
            Some(v) => v as u64,
            None => DEFAULT_VALIDITY_SECS as u64,
        };
        if secs == 0 {
            return Err(AuthError::InvalidValidity);
        }
        if now > u64::MAX - secs {
            return Err(AuthError::InternalServerError(InternalCause::TimeOverflow));
        }
        if find_session(&store.sessions, session_id).is_some() {
            return Err(AuthError::InternalServerError(InternalCause::SessionIdTaken));
        }
        let ghost s0 = *store;
        let user_id = store.users[i].id;
        let session = Session { id: session_id, user_id, expires_at: now + secs, last_used_at: now };
        store.sessions.push(session);
        let mut u = store.users.remove(i);
        u.last_login_at = now;
        let summary = UserSummary { id: u.id, username: u.username.clone() };
        store.users.insert(i, u);
        assert(store.users@ =~= s0.users@.update(i as int, with_last_login(s0.users@[i as int], now)));
        proof {
            assert forall|a: int, b: int|
                0 <= a < store.sessions@.len() && 0 <= b < store.sessions@.len() && a != b implies (
                #[trigger] store.sessions@[a]).id != (#[trigger] store.sessions@[b]).id by {
                if a == s0.sessions@.len() {
                    assert(s0.sessions@[b].id != session_id);
                } else if b == s0.sessions@.len() {
                    assert(s0.sessions@[a].id != session_id);
                } else {
                    assert(store.sessions@[a] == s0.sessions@[a]);
                    assert(store.sessions@[b] == s0.sessions@[b]);
                }
            }
            assert forall|a: int, b: int|
                0 <= a < store.users@.len() && 0 <= b < store.users@.len() && a != b implies (
                #[trigger] store.users@[a]).username@ != (#[trigger] store.users@[b]).username@
                && store.users@[a].id != store.users@[b].id by {
                assert(s0.users@[a].username@ != s0.users@[b].username@);
            }
        }
        let token = mint(&store.signing_key, Claims { session_id, issued_at: now });
        if update_context.unwrap_or(true) {
            let data = resolve_auth(&store.grants, session, store.default_permissions);
            ctx.set_auth(data);
        }
        let r = Ok(
            SessionResponse {
                id: session_id,
                token,
                user_id,
                expires_at: session.expires_at,
                last_used_at: now,
                user: Some(summary),
            },
        );
        assert(s0.users@[i as int].username@ == name@);
        r
    }

    /// Logs in with a session token: refreshes the session's last use and,
    /// when the session is still valid, answers it with the token echoed back.
    pub fn login_with_token(
        &self,
        store: &mut AuthStore,
        ctx: &mut RequestContext,
        session_token: &Vec<u8>,
        update_context: Option<bool>,
        now: u64,
    ) -> (r: Result<SessionResponse, AuthError>)
        requires
            old(store).wf(),
        ensures
            final(store).wf(),
            login_with_token_post(
                *old(store),
                old(ctx).current(),
                session_token@,
                update_context,
                now,
                *final(store),
                final(ctx).current(),
                r,
            ),
    {
        let claims = match verify(&store.signing_key, session_token) {
            Some(c) => c,
            None => {
                return Err(AuthError::InvalidSessionToken);
            },
        };
        proof {
            lemma_single_claims(store.signing_key@, session_token@, claims);
        }
        let j = match find_session(&store.sessions, claims.session_id) {
            Some(j) => j,
            None => {
                return Err(AuthError::InvalidSessionToken);
            },
        };
        let ghost s0 = *store;
        proof {
            let k = session_index(s0.sessions@, claims.session_id);
            assert(s0.sessions@[j as int].id == claims.session_id);
            assert(k == j);
        }
        let mut session = store.sessions.remove(j);
        session.last_used_at = now;
        store.sessions.insert(j, session);
        assert(store.sessions@ =~= s0.sessions@.update(j as int, with_last_used(s0.sessions@[j as int], now)));
        proof {
            assert forall|a: int, b: int|
                0 <= a < store.sessions@.len() && 0 <= b < store.sessions@.len() && a != b implies (
                #[trigger] store.sessions@[a]).id != (#[trigger] store.sessions@[b]).id by {
                assert(s0.sessions@[a].id != s0.sessions@[b].id);
            }
        }
        if !session.is_valid(now) {
            return Err(AuthError::InvalidSession);
        }
        if update_context.unwrap_or(true) {
            let data = resolve_auth(&store.grants, session, store.default_permissions);
            ctx.set_auth(data);
        }
        Ok(
            SessionResponse {
                id: session.id,
                token: session_token.clone(),
                user_id: session.user_id,
                expires_at: session.expires_at,
                last_used_at: now,
                user: None,
            },
        )
    }

    /// Creates an account and a first session for it. The username keeps its
    /// case as the display name and is stored lowercase, as is the email.
    /// `user_id`, `session_id`, `salt` and `display_color` are fresh random
    /// values from the caller.
    pub fn register(
        &self,
        store: &mut AuthStore,
        ctx: &mut RequestContext,
        username: &str,
        password: &str,
        email: &str,
        captcha_valid: bool,
        validity: Option<u32>,
        update_context: Option<bool>,
        now: u64,
        user_id: u128,
        session_id: u128,
        salt: &Vec<u8>,
        color_draw: u64,
    ) -> (r: Result<SessionResponse, AuthError>)
        requires
            old(store).wf(),
        ensures
            final(store).wf(),
            register_post(
                *old(store),
                old(ctx).current(),
                username@,
                lower_of(username@),
                password@,
                lower_of(email@),
                captcha_valid,
                validity,
                update_context,
                now,
                user_id,
                session_id,
                salt@,
                color_draw,
                *final(store),
                final(ctx).current(),
                r,
            ),
    {
        let name = lowercase(username);
        let mail = lowercase(email);
        self.register_lowercased(
            store,
            ctx,
            username,
            &name,
            password,
            &mail,
            captcha_valid,
            validity,
            update_context,
            now,
            user_id,
            session_id,
            salt,
            color_draw,
        )
    }

    /// `register` once username and email are lowercased; `display_name` is
    /// the username as the user typed it.
    pub fn register_lowercased(
        &self,
        store: &mut AuthStore,
        ctx: &mut RequestContext,
        display_name: &str,
        name: &String,
        password: &str,
        mail: &String,
        captcha_valid: bool,
        validity: Option<u32>,
        update_context: Option<bool>,
        now: u64,
        user_id: u128,
        session_id: u128,
        salt: &Vec<u8>,
        color_draw: u64,
    ) -> (r: Result<SessionResponse, AuthError>)
        requires
            old(store).wf(),
        ensures
            final(store).wf(),
            register_post(
                *old(store),
                old(ctx).current(),
                display_name@,
                name@,
                password@,
                mail@,
                captcha_valid,
                validity,
                update_context,
                now,
                user_id,
                session_id,
                salt@,
                color_draw,
                *final(store),
                final(ctx).current(),
                r,
            ),
    {
        if !captcha_valid {
            return Err(AuthError::InvalidCaptcha);
        }
        let display = display_name.to_owned();
        match validate_username(name.as_str()) {
            Err(e) => {
                return Err(AuthError::InvalidUsername(e));
            },
            Ok(()) => {},
        }
        match validate_password(password) {
            Err(e) => {
                return Err(AuthError::InvalidPassword(e));
            },
            Ok(()) => {},
        }
        match validate_email(mail.as_str()) {
            Err(e) => {
                return Err(AuthError::InvalidEmail(e));
            },
            Ok(()) => {},
        }
        match find_user(&store.users, name) {
            Some(_) => {
                return Err(AuthError::UsernameTaken);
            },
            None => {},
        }
        let secs: u64 = match validity {
            Some(v) => v as u64,
            None => DEFAULT_VALIDITY_SECS as u64,
        };
        if secs == 0 {
            return Err(AuthError::InvalidValidity);
        }
        if now > u64::MAX - secs {
            return Err(AuthError::InternalServerError(InternalCause::TimeOverflow));
        }
        if find_user_id(&store.users, user_id) {
            return Err(AuthError::InternalServerError(InternalCause::UserIdTaken));
        }
        if find_session(&store.sessions, session_id).is_some() {
            return Err(AuthError::InternalServerError(InternalCause::SessionIdTaken));
        }
        if salt.len() < SALT_MIN_LEN || salt.len() > SALT_MAX_LEN {
            return Err(AuthError::InternalServerError(InternalCause::InvalidSalt));
        }
        let password_hash = hash_password(password, salt.as_slice());
        let ghost s0 = *store;
        let summary = UserSummary { id: user_id, username: name.clone() };
        let user = User {
            id: user_id,
            username: name.clone(),
            display_name: display,
            display_color: display_color_for(color_draw),
            password_hash,
            email: mail.clone(),
            last_login_at: now,
            created_at: now,
        };
        store.users.push(user);
        let session = Session { id: session_id, user_id, expires_at: now + secs, last_used_at: now };
        store.sessions.push(session);
        proof {
            assert(store.users@.drop_last() =~= s0.users@);
            assert forall|a: int, b: int|
                0 <= a < store.users@.len() && 0 <= b < store.users@.len() && a != b implies (
                #[trigger] store.users@[a]).username@ != (#[trigger] store.users@[b]).username@
                && store.users@[a].id != store.users@[b].id by {
                if a == s0.users@.len() {
                    assert(s0.users@[b] == store.users@[b]);
                } else if b == s0.users@.len() {
                    assert(s0.users@[a] == store.users@[a]);
                } else {
                    assert(s0.users@[a] == store.users@[a]);
                    assert(s0.users@[b] == store.users@[b]);
                }
            }
            assert forall|a: int, b: int|
                0 <= a < store.sessions@.len() && 0 <= b < store.sessions@.len() && a != b implies (
                #[trigger] store.sessions@[a]).id != (#[trigger] store.sessions@[b]).id by {
                if a == s0.sessions@.len() {
                    assert(s0.sessions@[b].id != session_id);
                } else if b == s0.sessions@.len() {
                    assert(s0.sessions@[a].id != session_id);
                } else {
                    assert(store.sessions@[a] == s0.sessions@[a]);
                    assert(store.sessions@[b] == s0.sessions@[b]);
                }
            }
        }
        let token = mint(&store.signing_key, Claims { session_id, issued_at: now });
        if update_context.unwrap_or(true) {
            let data = AuthData {
                session,
                user_roles: Vec::new(),
                user_permissions: store.default_permissions,
            };
            assert(data.user_roles@ =~= Seq::<u128>::empty());
            ctx.set_auth(data);
        }
        Ok(
            SessionResponse {
                id: session_id,
                token,
                user_id,
                expires_at: session.expires_at,
                last_used_at: now,
                user: Some(summary),
            },
        )
    }

    /// Ends the session that the token names, or the connection's own session
    /// when no token is given; the latter also clears the connection. Ending a
    /// session that is already gone still answers `true`.
    pub fn logout(&self, store: &mut AuthStore, ctx: &mut RequestContext, session_token: Option<&Vec<u8>>) -> (r:
        Result<bool, AuthError>)
        requires
            old(store).wf(),
        ensures
            final(store).wf(),
            logout_post(
                *old(store),
                old(ctx).current(),
                token_view(session_token),
                *final(store),
                final(ctx).current(),
                r,
            ),
    {
        let id = match session_token {
            Some(t) => {
                match verify(&store.signing_key, t) {
                    Some(c) => {
                        proof {
                            lemma_single_claims(store.signing_key@, t@, c);
                        }
                        c.session_id
                    },
                    None => {
                        return Err(AuthError::InvalidSessionToken);
                    },
                }
            },
            None => {
                match ctx.auth() {
                    Some(a) => a.session.id,
                    None => {
                        return Err(AuthError::NotLoggedIn);
                    },
                }
            },
        };
        let ghost s0 = *store;
        match find_session(&store.sessions, id) {
            Some(j) => {
                proof {
                    let k = session_index(s0.sessions@, id);
                    assert(s0.sessions@[j as int].id == id);
                    assert(k == j);
                }
                store.sessions.remove(j);
                proof {
                    assert forall|a: int, b: int|
                        0 <= a < store.sessions@.len() && 0 <= b < store.sessions@.len() && a != b implies (
                        #[trigger] store.sessions@[a]).id != (#[trigger] store.sessions@[b]).id by {
                        let a0 = if a < j { a } else { a + 1 };
                        let b0 = if b < j { b } else { b + 1 };
                        assert(store.sessions@[a] == s0.sessions@[a0]);
                        assert(store.sessions@[b] == s0.sessions@[b0]);
                    }
                }
            },
            None => {},
        }
        if session_token.is_none() {
            ctx.reset_auth();
        }
        Ok(true)
    }
}

/// A token verifies to at most one set of claims.
proof fn lemma_single_claims(key: Seq<u8>, token: Seq<u8>, c: Claims)
    requires
        token == token_of(key, c),
    ensures
        forall|d: Claims| token == #[trigger] token_of(key, d) ==> d == c,
{
    assert forall|d: Claims| token == #[trigger] token_of(key, d) implies d == c by {
        crate::token::lemma_token_injective(key, c, d);
    }
}

proof fn lemma_without_session_absent(store: AuthStore, id: u128)
    requires
        store.wf(),
    ensures
        !session_taken(without_session(store.sessions@, id), id),
{
    let s = store.sessions@;
    if session_taken(s, id) {
        let j = session_index(s, id);
        let t = s.remove(j);
        assert forall|k: int| 0 <= k < t.len() implies (#[trigger] t[k]).id != id by {
            let k0 = if k < j { k } else { k + 1 };
            assert(t[k] == s[k0]);
            assert(s[k0].id != s[j].id);
        }
    }
}

/// After a logout with a token, logging in with that token fails: the token
/// no longer names a live session.
pub proof fn law_logout_then_login_with_token(
    s0: AuthStore,
    c0: Option<AuthData>,
    token: Seq<u8>,
    s1: AuthStore,
    c1: Option<AuthData>,
    r1: Result<bool, AuthError>,
    update_context: Option<bool>,
    now: u64,
    s2: AuthStore,
    c2: Option<AuthData>,
    r2: Result<SessionResponse, AuthError>,
)
    requires
        s0.wf(),
        logout_post(s0, c0, Some(token), s1, c1, r1),
        login_with_token_post(s1, c1, token, update_context, now, s2, c2, r2),
    ensures
        r2 == Err::<SessionResponse, AuthError>(AuthError::InvalidSessionToken) || r2 == Err::<
            SessionResponse,
            AuthError,
        >(AuthError::InvalidSession),
{
    if exists|c: Claims| token == #[trigger] token_of(s0.signing_key@, c) {
        let c = choose|c: Claims| token == #[trigger] token_of(s0.signing_key@, c);
        assert(Some(token) == Some(token_of(s0.signing_key@, c)));
        lemma_without_session_absent(s0, c.session_id);
        assert(token == token_of(s1.signing_key@, c));
    } else {
        assert(s1 == s0);
    }
}

/// Logging out twice with the same token answers `true` both times: ending a
/// session that is already gone is no error.
pub proof fn law_logout_twice(
    s0: AuthStore,
    c0: Option<AuthData>,
    token: Seq<u8>,
    s1: AuthStore,
    c1: Option<AuthData>,
    r1: Result<bool, AuthError>,
    s2: AuthStore,
    c2: Option<AuthData>,
    r2: Result<bool, AuthError>,
)
    requires
        logout_post(s0, c0, Some(token), s1, c1, r1),
        logout_post(s1, c1, Some(token), s2, c2, r2),
        r1 == Ok::<bool, AuthError>(true),
    ensures
        r2 == Ok::<bool, AuthError>(true),
{
    let c = choose|c: Claims| token == #[trigger] token_of(s0.signing_key@, c);
    assert(Some(token) == Some(token_of(s0.signing_key@, c)));
    assert(token == token_of(s1.signing_key@, c));
    assert(Some(token) == Some(token_of(s1.signing_key@, c)));
}

/// An account just registered can log in with the same (lowercased) username
/// and password, given a captcha pass, a positive validity that fits the clock
/// and a fresh session id.
pub proof fn law_register_then_login(
    s0: AuthStore,
    c0: Option<AuthData>,
    display_name: Seq<char>,
    name: Seq<char>,
    password: Seq<char>,
    mail: Seq<char>,
    validity: Option<u32>,
    update_context: Option<bool>,
    now: u64,
    user_id: u128,
    session_id: u128,
    salt: Seq<u8>,
    color_draw: u64,
    s1: AuthStore,
    c1: Option<AuthData>,
    r1: Result<SessionResponse, AuthError>,
    login_validity: Option<u32>,
    login_update_context: Option<bool>,
    login_now: u64,
    login_session_id: u128,
    s2: AuthStore,
    c2: Option<AuthData>,
    r2: Result<SessionResponse, AuthError>,
)
    requires
        register_post(
            s0,
            c0,
            display_name,
            name,
            password,
            mail,
            true,
            validity,
            update_context,
            now,
            user_id,
            session_id,
            salt,
            color_draw,
            s1,
            c1,
            r1,
        ),
        r1 is Ok,
        login_post(
            s1,
            c1,
            name,
            password,
            true,
            login_validity,
            login_update_context,
            login_now,
            login_session_id,
            s2,
            c2,
            r2,
        ),
        validity_secs(login_validity) > 0,
        login_now + validity_secs(login_validity) <= u64::MAX,
        !session_taken(s1.sessions@, login_session_id),
    ensures
        r2 is Ok,
{
    let last = s1.users@.len() - 1;
    assert(s1.users@[last] == s1.users@.last());
    assert(credentials_match(s1.users@, name, password));
}

/// A login of an unknown user and a login with a wrong password fail with
/// the same error, so neither tells whether the account exists.
pub proof fn law_login_failures_indistinguishable(
    s0: AuthStore,
    c0: Option<AuthData>,
    unknown_name: Seq<char>,
    known_name: Seq<char>,
    password: Seq<char>,
    wrong_password: Seq<char>,
    validity: Option<u32>,
    update_context: Option<bool>,
    now: u64,
    session_id: u128,
    s1: AuthStore,
    c1: Option<AuthData>,
    r1: Result<SessionResponse, AuthError>,
    s2: AuthStore,
    c2: Option<AuthData>,
    r2: Result<SessionResponse, AuthError>,
)
    requires
        !username_taken(s0.users@, unknown_name),
        !credentials_match(s0.users@, known_name, wrong_password),
        login_post(s0, c0, unknown_name, password, true, validity, update_context, now, session_id, s1, c1, r1),
        login_post(s0, c0, known_name, wrong_password, true, validity, update_context, now, session_id, s2, c2, r2),
    ensures
        r1 == r2,
        r1 == Err::<SessionResponse, AuthError>(AuthError::InvalidCredentials),
        s1 == s0 && s2 == s0,
{
    assert(!credentials_match(s0.users@, unknown_name, password)) by {
        if credentials_match(s0.users@, unknown_name, password) {
            let i = choose|i: int|
                0 <= i < s0.users@.len() && (#[trigger] s0.users@[i]).username@ == unknown_name
                    && password_matches(s0.users@[i].password_hash@, password);
            assert(username_taken(s0.users@, unknown_name));
        }
    }
}

} // verus!
