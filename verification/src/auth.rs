//! Accounts: the first administrator, signing in, and who is signed in.
use vstd::prelude::*;
use crate::error::{AppError, bad_request, conflict, is_bad_request, is_conflict};
use crate::storage::users::{User, UserStore, UserValue, user_index, username_index};
use crate::text::{trim, trimmed};
use vstd::utf8::encode_utf8;
use vstd::string::StringSliceAdditionalSpecFns;

verus! {

broadcast use vstd::string::group_string_axioms;

/// The session entry that holds the signed-in user's id.
pub const SESSION_USER_KEY: &'static str = "user_id";

/// A user name and password as a client sends them.
#[derive(Debug)]
pub struct CredentialsInput {
    pub username: String,
    pub password: String,
}

/// A user as clients see it, without the password hash.
#[derive(Debug)]
pub struct UserView {
    pub id: u128,
    pub username: String,
    pub is_admin: bool,
}

impl UserView {
    /// How clients see the user `u`.
    pub fn from(u: &User) -> (v: Self)
        ensures
            v.id == u.id,
            v.username@ == u.username@,
            v.is_admin == u.is_admin,
    {
        UserView { id: u.id, username: u.username.clone(), is_admin: u.is_admin }
    }
}

/// The length of `s` in UTF-8 bytes.
pub open spec fn byte_len(s: Seq<char>) -> int {
    encode_utf8(s).len() as int
}

/// Why credentials are refused: a user name (trimmed) that is empty or longer than 64
/// bytes, or a password shorter than 8 bytes.
pub open spec fn credentials_problem(username: Seq<char>, password: Seq<char>) -> Option<Seq<char>> {
    if trimmed(username).len() == 0 || byte_len(trimmed(username)) > 64 {
        Some("username must be 1-64 characters"@)
    } else if byte_len(password) < 8 {
        Some("password must be at least 8 characters"@)
    } else {
        None
    }
}

/// The length of `s` in bytes.
fn str_byte_len(s: &str) -> (n: usize)
    ensures
        n == byte_len(s@),
{
    let n = s.as_bytes().len();
    assert(s.spec_bytes() == encode_utf8(s@));
    n
}

/// The checks on a new user's credentials.
pub fn validate_credentials(body: &CredentialsInput) -> (r: Result<(), AppError>)
    ensures
        match credentials_problem(body.username@, body.password@) {
            Some(m) => r matches Err(e) && is_bad_request(e, m),
            None => r is Ok,
        },
{
    let u = trim(body.username.as_str());
    if u.as_str().is_empty() || str_byte_len(u.as_str()) > 64 {
        return Err(bad_request("username must be 1-64 characters"));
    }
    if str_byte_len(body.password.as_str()) < 8 {
        return Err(bad_request("password must be at least 8 characters"));
    }
    Ok(())
}

/// Why the first administrator cannot be set up: setup is closed once a user exists;
/// else the credentials are checked.
pub open spec fn setup_problem(users: Seq<UserValue>, username: Seq<char>, password: Seq<char>) -> Option<AppErrorKind> {
    if users.len() > 0 {
        Some(AppErrorKind::Conflict("setup is closed; admin already exists"@))
    } else {
        match credentials_problem(username, password) {
            Some(m) => Some(AppErrorKind::BadRequest(m)),
            None => None,
        }
    }
}

/// The kind and text of an error, as a value.
pub enum AppErrorKind {
    BadRequest(Seq<char>),
    Conflict(Seq<char>),
}

/// `e` is the error that `k` describes.
pub open spec fn is_error(e: AppError, k: AppErrorKind) -> bool {
    match k {
        AppErrorKind::BadRequest(m) => is_bad_request(e, m),
        AppErrorKind::Conflict(m) => is_conflict(e, m),
    }
}

/// Whether the first administrator may be set up with these credentials (checked before
/// the password is hashed).
pub fn check_setup(users: &UserStore, body: &CredentialsInput) -> (r: Result<(), AppError>)
    ensures
        match setup_problem(users@, body.username@, body.password@) {
            Some(k) => r matches Err(e) && is_error(e, k),
            None => r is Ok,
        },
{
    if !users.is_empty() {
        return Err(conflict("setup is closed; admin already exists"));
    }
    validate_credentials(body)
}

/// Sets up the first administrator with the trimmed user name and the given password
/// hash.
pub fn setup_admin(users: &mut UserStore, body: &CredentialsInput, password_hash: String) -> (r: Result<User, AppError>)
    ensures
        match setup_problem(old(users)@, body.username@, body.password@) {
            Some(k) => r matches Err(e) && is_error(e, k) && final(users)@ == old(users)@,
            None => {
                &&& r matches Ok(u)
                &&& u@.username == trimmed(body.username@)
                &&& u@.password_hash == password_hash@
                &&& u@.is_admin
                &&& final(users)@ == seq![u@]
            },
        },
{
    if let Err(e) = check_setup(users, body) {
        return Err(e);
    }
    let r = users.create(trim(body.username.as_str()), password_hash, true);
    assert(old(users)@.len() == 0);
    assert(seq![r->Ok_0@] =~= old(users)@.push(r->Ok_0@)) by {
        assert(r is Ok);
    }
    r
}

/// Setup is closed once it has created the first administrator: any later setup is
/// refused with a `Conflict`.
pub proof fn lemma_setup_closes(admin: UserValue, username: Seq<char>, password: Seq<char>)
    ensures
        setup_problem(seq![admin], username, password) == Some(AppErrorKind::Conflict("setup is closed; admin already exists"@)),
{
}

/// The user who signs in as `username` (compared without regard to ASCII case), whose
/// password is then checked. Refused with a `BadRequest` before setup, and as
/// `Unauthorized` for an unknown name.
pub fn login_user(users: &UserStore, username: &str) -> (r: Result<User, AppError>)
    ensures
        users@.len() == 0 ==> (r matches Err(e) && is_bad_request(e, "no users exist; complete setup first"@)),
        users@.len() > 0 ==> match username_index(users@, username@, 0) {
            Some(i) => r matches Ok(u) && u@ == users@[i],
            None => r matches Err(AppError::Unauthorized),
        },
{
    if users.is_empty() {
        return Err(bad_request("no users exist; complete setup first"));
    }
    match users.find_by_username(username) {
        Some(u) => Ok(u),
        None => Err(AppError::Unauthorized),
    }
}

/// The signed-in user whose id the session holds; `Unauthorized` if it holds none or
/// the user no longer exists.
pub fn authenticate(users: &UserStore, session_user: Option<u128>) -> (r: Result<User, AppError>)
    ensures
        match session_user {
            Some(id) => match user_index(users@, id, 0) {
                Some(i) => r matches Ok(u) && u@ == users@[i],
                None => r matches Err(AppError::Unauthorized),
            },
            None => r matches Err(AppError::Unauthorized),
        },
{
    match session_user {
        Some(id) => match users.find_by_id(id) {
            Some(u) => Ok(u),
            None => Err(AppError::Unauthorized),
        },
        None => Err(AppError::Unauthorized),
    }
}

/// What the front end needs to choose its page: whether setup is still needed, and the
/// signed-in user if any.
pub fn auth_status(users: &UserStore, session_user: Option<u128>) -> (r: (bool, Option<UserView>))
    ensures
        r.0 == (users@.len() == 0),
        match session_user {
            Some(id) => match user_index(users@, id, 0) {
                Some(i) => r.1 matches Some(v) && v.id == users@[i].id && v.username@ == users@[i].username && v.is_admin == users@[i].is_admin,
                None => r.1 is None,
            },
            None => r.1 is None,
        },
{
    let needs_setup = users.is_empty();
    let user = match session_user {
        Some(id) => match users.find_by_id(id) {
            Some(u) => Some(UserView::from(&u)),
            None => None,
        },
        None => None,
    };
    (needs_setup, user)
}

} // verus!
