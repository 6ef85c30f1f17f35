//! User accounts.
use vstd::prelude::*;
use crate::clock::{Timestamp, utc_now};
use crate::error::{AppError, conflict, is_conflict};
use crate::ids::new_id;
use crate::text::{eq_ignore_ascii_case, str_eq_ignore_ascii_case};

verus! {

/// A user who may sign in.
#[derive(Debug)]
pub struct User {
    pub id: u128,
    pub username: String,
    pub password_hash: String,
    pub is_admin: bool,
    pub created_at: Timestamp,
}

/// The value of a `User`.
pub struct UserValue {
    pub id: u128,
    pub username: Seq<char>,
    pub password_hash: Seq<char>,
    pub is_admin: bool,
    pub created_at: Timestamp,
}

impl View for User {
    type V = UserValue;

    open spec fn view(&self) -> UserValue {
        UserValue {
            id: self.id,
            username: self.username@,
            password_hash: self.password_hash@,
            is_admin: self.is_admin,
            created_at: self.created_at,
        }
    }
}

impl Clone for User {
    fn clone(&self) -> (r: Self)
        ensures
            r@ == self@,
    {
        User {
            id: self.id,
            username: self.username.clone(),
            password_hash: self.password_hash.clone(),
            is_admin: self.is_admin,
            created_at: self.created_at,
        }
    }
}

/// The stored users, in the order they were created.
#[derive(Debug)]
pub struct UsersFile {
    pub users: Vec<User>,
}

/// The users held by a store, as values.
pub open spec fn user_values(v: Seq<User>) -> Seq<UserValue> {
    v.map_values(|u: User| u@)
}

/// The in-memory state of the user store and its operations.
#[derive(Debug)]
pub struct UserStore(pub UsersFile);

impl View for UserStore {
    type V = Seq<UserValue>;

    open spec fn view(&self) -> Seq<UserValue> {
        user_values(self.0.users@)
    }
}

/// The first position at or after `k` of a user whose name equals `name` without
/// regard to ASCII case.
pub open spec fn username_index(s: Seq<UserValue>, name: Seq<char>, k: int) -> Option<int>
    decreases s.len() - k,
{
    if k < 0 || k >= s.len() {
        None
    } else if eq_ignore_ascii_case(s[k].username, name) {
        Some(k)
    } else {
        username_index(s, name, k + 1)
    }
}

/// The first position at or after `k` of a user with the id `id`.
pub open spec fn user_index(s: Seq<UserValue>, id: u128, k: int) -> Option<int>
    decreases s.len() - k,
{
    if k < 0 || k >= s.len() {
        None
    } else if s[k].id == id {
        Some(k)
    } else {
        user_index(s, id, k + 1)
    }
}

/// No two users of `s` have names that are equal without regard to ASCII case.
pub open spec fn usernames_distinct(s: Seq<UserValue>) -> bool {
    forall|i: int, j: int|
        0 <= i < s.len() && 0 <= j < s.len() && i != j ==> !eq_ignore_ascii_case(
            #[trigger] s[i].username,
            #[trigger] s[j].username,
        )
}

proof fn lemma_username_index(s: Seq<UserValue>, name: Seq<char>, k: int)
    requires
        0 <= k,
    ensures
        username_index(s, name, k) matches Some(i) ==> k <= i < s.len() && eq_ignore_ascii_case(
            s[i].username,
            name,
        ),
        username_index(s, name, k) is None ==> forall|j: int|
            k <= j < s.len() ==> !eq_ignore_ascii_case(#[trigger] s[j].username, name),
    decreases s.len() - k,
{
    if k < s.len() && !eq_ignore_ascii_case(s[k].username, name) {
        lemma_username_index(s, name, k + 1);
    }
}

proof fn lemma_user_values_push(v: Seq<User>, x: User)
    ensures
        user_values(v.push(x)) == user_values(v).push(x@),
{
    assert(user_values(v.push(x)) =~= user_values(v).push(x@));
}

impl UserStore {
    /// Whether no user exists yet.
    pub fn is_empty(&self) -> (b: bool)
        ensures
            b == (self@.len() == 0),
    {
        self.0.users.len() == 0
    }

    /// The first user whose name equals `username` without regard to ASCII case.
    pub fn find_by_username(&self, username: &str) -> (r: Option<User>)
        ensures
            match username_index(self@, username@, 0) {
                Some(i) => r matches Some(u) && u@ == self@[i],
                None => r is None,
            },
    {
        let mut k: usize = 0;
        while k < self.0.users.len()
            invariant
                k <= self.0.users@.len(),
                username_index(self@, username@, 0) == username_index(self@, username@, k as int),
            decreases self.0.users@.len() - k,
        {
            if str_eq_ignore_ascii_case(self.0.users[k].username.as_str(), username) {
                return Some(self.0.users[k].clone());
            }
            k = k + 1;
        }
        None
    }

    /// The first user with the id `id`.
    pub fn find_by_id(&self, id: u128) -> (r: Option<User>)
        ensures
            match user_index(self@, id, 0) {
                Some(i) => r matches Some(u) && u@ == self@[i],
                None => r is None,
            },
    {
        let mut k: usize = 0;
        while k < self.0.users.len()
            invariant
                k <= self.0.users@.len(),
                user_index(self@, id, 0) == user_index(self@, id, k as int),
            decreases self.0.users@.len() - k,
        {
            if self.0.users[k].id == id {
                return Some(self.0.users[k].clone());
            }
            k = k + 1;
        }
        None
    }

    /// Adds a user with a fresh random id, created now. Refused with a `Conflict` if the
    /// name is already used, compared without regard to ASCII case.
    pub fn create(&mut self, username: String, password_hash: String, is_admin: bool) -> (r: Result<User, AppError>)
        ensures
            username_index(old(self)@, username@, 0) is Some ==> {
                &&& r matches Err(e) && is_conflict(e, "username already exists"@)
                &&& final(self)@ == old(self)@
            },
            username_index(old(self)@, username@, 0) is None ==> {
                &&& r matches Ok(u)
                &&& u@.username == username@
                &&& u@.password_hash == password_hash@
                &&& u@.is_admin == is_admin
                &&& final(self)@ == old(self)@.push(u@)
            },
    {
        if self.find_by_username(username.as_str()).is_some() {
            return Err(conflict("username already exists"));
        }
        let user = User { id: new_id(), username, password_hash, is_admin, created_at: utc_now() };
        let snapshot = user.clone();
        proof {
            lemma_user_values_push(self.0.users@, user);
        }
        self.0.users.push(user);
        Ok(snapshot)
    }
}

/// Creating a user keeps names distinct without regard to ASCII case.
pub proof fn lemma_create_keeps_usernames_distinct(s: Seq<UserValue>, u: UserValue)
    requires
        usernames_distinct(s),
        username_index(s, u.username, 0) is None,
    ensures
        usernames_distinct(s.push(u)),
{
    lemma_username_index(s, u.username, 0);
    let t = s.push(u);
    assert forall|i: int, j: int| 0 <= i < t.len() && 0 <= j < t.len() && i != j implies !eq_ignore_ascii_case(
        #[trigger] t[i].username,
        #[trigger] t[j].username,
    ) by {
        if i == s.len() {
            assert(t[j] == s[j]);
            if eq_ignore_ascii_case(t[i].username, t[j].username) {
                assert(eq_ignore_ascii_case(s[j].username, u.username));
            }
        } else if j == s.len() {
            assert(t[i] == s[i]);
        } else {
            assert(t[i] == s[i] && t[j] == s[j]);
        }
    }
}

/// A created user is what a lookup by any spelling of its name that differs only in
/// ASCII case then finds.
pub proof fn lemma_created_user_found(s: Seq<UserValue>, u: UserValue, name: Seq<char>)
    requires
        username_index(s, u.username, 0) is None,
        eq_ignore_ascii_case(name, u.username),
    ensures
        username_index(s.push(u), name, 0) == Some(s.len() as int),
{
    lemma_username_index(s, u.username, 0);
    let t = s.push(u);
    assert(eq_ignore_ascii_case(t[s.len() as int].username, name));
    assert forall|j: int| 0 <= j < s.len() implies !eq_ignore_ascii_case(#[trigger] t[j].username, name) by {
        assert(t[j] == s[j]);
        if eq_ignore_ascii_case(t[j].username, name) {
            assert(eq_ignore_ascii_case(s[j].username, u.username));
        }
    }
    lemma_username_skips(t, name, 0, s.len() as int);
}

proof fn lemma_username_skips(s: Seq<UserValue>, name: Seq<char>, k: int, n: int)
    requires
        0 <= k <= n < s.len(),
        eq_ignore_ascii_case(s[n].username, name),
        forall|j: int| k <= j < n ==> !eq_ignore_ascii_case(#[trigger] s[j].username, name),
    ensures
        username_index(s, name, k) == Some(n),
    decreases n - k,
{
    if k < n {
        lemma_username_skips(s, name, k + 1, n);
    }
}

} // verus!
