//! Saved MongoDB connections.
use vstd::prelude::*;
use crate::clock::{Timestamp, utc_now};
use crate::error::{AppError, conflict, is_conflict};
use crate::ids::new_id;
use crate::text::{eq_ignore_ascii_case, str_eq_ignore_ascii_case};

verus! {

/// A saved connection string with its label.
#[derive(Debug)]
pub struct Connection {
    pub id: u128,
    pub label: String,
    pub uri: String,
    pub created_at: Timestamp,
}

/// The value of a `Connection`.
pub struct ConnectionValue {
    pub id: u128,
    pub label: Seq<char>,
    pub uri: Seq<char>,
    pub created_at: Timestamp,
}

impl View for Connection {
    type V = ConnectionValue;

    open spec fn view(&self) -> ConnectionValue {
        ConnectionValue { id: self.id, label: self.label@, uri: self.uri@, created_at: self.created_at }
    }
}

impl Clone for Connection {
    fn clone(&self) -> (r: Self)
        ensures
            r@ == self@,
    {
        Connection {
            id: self.id,
            label: self.label.clone(),
            uri: self.uri.clone(),
            created_at: self.created_at,
        }
    }
}

/// The stored connections, in the order they were created.
#[derive(Debug)]
pub struct ConnectionsFile {
    pub connections: Vec<Connection>,
}

/// The connections held by a store, as values.
pub open spec fn connection_values(v: Seq<Connection>) -> Seq<ConnectionValue> {
    v.map_values(|c: Connection| c@)
}

/// The in-memory state of the connection store and its operations.
#[derive(Debug)]
pub struct ConnectionStore(pub ConnectionsFile);

impl View for ConnectionStore {
    type V = Seq<ConnectionValue>;

    open spec fn view(&self) -> Seq<ConnectionValue> {
        connection_values(self.0.connections@)
    }
}

/// The message of the error for a label that is already used.
pub open spec fn label_exists_message() -> Seq<char> {
    "connection label already exists"@
}

/// Some connection of `s` other than those with the id `except` has the label `label`,
/// compared without regard to ASCII case (`except` is `None` to look at all).
pub open spec fn label_taken(s: Seq<ConnectionValue>, label: Seq<char>, except: Option<u128>) -> bool {
    exists|i: int|
        0 <= i < s.len() && except != Some(s[i].id) && eq_ignore_ascii_case(#[trigger] s[i].label, label)
}

/// No two connections of `s` have labels that are equal without regard to ASCII case.
pub open spec fn labels_distinct(s: Seq<ConnectionValue>) -> bool {
    forall|i: int, j: int|
        0 <= i < s.len() && 0 <= j < s.len() && i != j ==> !eq_ignore_ascii_case(
            #[trigger] s[i].label,
            #[trigger] s[j].label,
        )
}

/// The first position at or after `k` of a connection with the id `id`.
pub open spec fn connection_index(s: Seq<ConnectionValue>, id: u128, k: int) -> Option<int>
    decreases s.len() - k,
{
    if k < 0 || k >= s.len() {
        None
    } else if s[k].id == id {
        Some(k)
    } else {
        connection_index(s, id, k + 1)
    }
}

/// The connections of `s` without those with the id `id`, in order.
pub open spec fn without_connection(s: Seq<ConnectionValue>, id: u128) -> Seq<ConnectionValue>
    decreases s.len(),
{
    if s.len() == 0 {
        s
    } else if s.last().id == id {
        without_connection(s.drop_last(), id)
    } else {
        without_connection(s.drop_last(), id).push(s.last())
    }
}

/// `s` holds a connection with the id `id`.
pub open spec fn has_connection(s: Seq<ConnectionValue>, id: u128) -> bool {
    exists|i: int| 0 <= i < s.len() && #[trigger] s[i].id == id
}

proof fn lemma_connection_index(s: Seq<ConnectionValue>, id: u128, k: int)
    requires
        0 <= k,
    ensures
        connection_index(s, id, k) matches Some(i) ==> k <= i < s.len() && s[i].id == id && forall|
            j: int,
        | k <= j < i ==> s[j].id != id,
        connection_index(s, id, k) is None ==> forall|j: int| k <= j < s.len() ==> s[j].id != id,
    decreases s.len() - k,
{
    if k < s.len() && s[k].id != id {
        lemma_connection_index(s, id, k + 1);
    }
}

proof fn lemma_without_missing(s: Seq<ConnectionValue>, id: u128)
    requires
        !has_connection(s, id),
    ensures
        without_connection(s, id) == s,
    decreases s.len(),
{
    if s.len() > 0 {
        assert(!has_connection(s.drop_last(), id)) by {
            if has_connection(s.drop_last(), id) {
                let i = choose|i: int| 0 <= i < s.drop_last().len() && #[trigger] s.drop_last()[i].id == id;
                assert(s[i].id == id);
            }
        }
        lemma_without_missing(s.drop_last(), id);
        assert(s.last().id != id) by {
            assert(s[s.len() - 1].id == s.last().id);
        }
        assert(s.drop_last().push(s.last()) =~= s);
    }
}

proof fn lemma_without_shorter(s: Seq<ConnectionValue>, id: u128)
    requires
        has_connection(s, id),
    ensures
        without_connection(s, id).len() < s.len(),
    decreases s.len(),
{
    lemma_without_len(s, id);
    let i = choose|i: int| 0 <= i < s.len() && #[trigger] s[i].id == id;
    if i == s.len() - 1 {
        lemma_without_len(s.drop_last(), id);
    } else {
        assert(s.drop_last()[i].id == id);
        lemma_without_shorter(s.drop_last(), id);
    }
}

proof fn lemma_without_len(s: Seq<ConnectionValue>, id: u128)
    ensures
        without_connection(s, id).len() <= s.len(),
    decreases s.len(),
{
    if s.len() > 0 {
        lemma_without_len(s.drop_last(), id);
    }
}

proof fn lemma_values_push(v: Seq<Connection>, c: Connection)
    ensures
        connection_values(v.push(c)) == connection_values(v).push(c@),
{
    assert(connection_values(v.push(c)) =~= connection_values(v).push(c@));
}

impl ConnectionStore {
    /// All connections.
    pub fn list(&self) -> (r: Vec<Connection>)
        ensures
            connection_values(r@) == self@,
    {
        let mut r: Vec<Connection> = Vec::new();
        let mut i: usize = 0;
        while i < self.0.connections.len()
            invariant
                i <= self.0.connections@.len(),
                connection_values(r@) == self@.take(i as int),
            decreases self.0.connections@.len() - i,
        {
            let c = self.0.connections[i].clone();
            proof {
                lemma_values_push(r@, c);
            }
            r.push(c);
            i = i + 1;
            assert(connection_values(r@) =~= self@.take(i as int));
        }
        assert(self@.take(i as int) =~= self@);
        r
    }

    /// The position of the first connection with the id `id`.
    fn position(&self, id: u128) -> (r: Option<usize>)
        ensures
            r matches Some(i) ==> connection_index(self@, id, 0) == Some(i as int),
            r is None ==> connection_index(self@, id, 0) is None,
    {
        let mut k: usize = 0;
        while k < self.0.connections.len()
            invariant
                k <= self.0.connections@.len(),
                connection_index(self@, id, 0) == connection_index(self@, id, k as int),
            decreases self.0.connections@.len() - k,
        {
            if self.0.connections[k].id == id {
                return Some(k);
            }
            k = k + 1;
        }
        None
    }

    /// The first connection with the id `id`.
    pub fn get(&self, id: u128) -> (r: Option<Connection>)
        ensures
            match connection_index(self@, id, 0) {
                Some(i) => r matches Some(c) && c@ == self@[i],
                None => r is None,
            },
    {
        proof {
            lemma_connection_index(self@, id, 0);
        }
        match self.position(id) {
            Some(i) => Some(self.0.connections[i].clone()),
            None => None,
        }
    }

    /// Whether a connection other than those with the id `except` has a label equal to
    /// `label` without regard to ASCII case.
    fn label_used(&self, label: &str, except: Option<u128>) -> (b: bool)
        ensures
            b == label_taken(self@, label@, except),
    {
        let mut i: usize = 0;
        while i < self.0.connections.len()
            invariant
                i <= self.0.connections@.len(),
                forall|j: int|
                    0 <= j < i ==> !(except != Some(self@[j].id) && eq_ignore_ascii_case(
                        #[trigger] self@[j].label,
                        label@,
                    )),
            decreases self.0.connections@.len() - i,
        {
            let c = &self.0.connections[i];
            let other = match except {
                Some(e) => c.id != e,
                None => true,
            };
            if other && str_eq_ignore_ascii_case(c.label.as_str(), label) {
                assert(except != Some(self@[i as int].id) && eq_ignore_ascii_case(self@[i as int].label, label@));
                return true;
            }
            i = i + 1;
        }
        false
    }

    /// Saves a new connection with a fresh random id, created now. Refused with a
    /// `Conflict` if the label is already used, compared without regard to ASCII case.
    pub fn create(&mut self, label: String, uri: String) -> (r: Result<Connection, AppError>)
        ensures
            label_taken(old(self)@, label@, None) ==> {
                &&& r matches Err(e) && is_conflict(e, label_exists_message())
                &&& final(self)@ == old(self)@
            },
            !label_taken(old(self)@, label@, None) ==> {
                &&& r matches Ok(c)
                &&& c@.label == label@
                &&& c@.uri == uri@
                &&& final(self)@ == old(self)@.push(c@)
            },
    {
        if self.label_used(label.as_str(), None) {
            return Err(conflict("connection label already exists"));
        }
        let conn = Connection { id: new_id(), label, uri, created_at: utc_now() };
        let snapshot = conn.clone();
        proof {
            lemma_values_push(self.0.connections@, conn);
        }
        self.0.connections.push(conn);
        Ok(snapshot)
    }

    /// Changes the label and connection string of the first connection with the id `id`.
    /// Refused with a `Conflict` if another connection already uses the label (compared
    /// without regard to ASCII case), else with `NotFound` if there is no such connection.
    pub fn update(&mut self, id: u128, label: String, uri: String) -> (r: Result<Connection, AppError>)
        ensures
            label_taken(old(self)@, label@, Some(id)) ==> {
                &&& r matches Err(e) && is_conflict(e, label_exists_message())
                &&& final(self)@ == old(self)@
            },
            !label_taken(old(self)@, label@, Some(id)) ==> match connection_index(old(self)@, id, 0) {
                Some(i) => {
                    &&& r matches Ok(c)
                    &&& c@ == (ConnectionValue { label: label@, uri: uri@, ..old(self)@[i] })
                    &&& final(self)@ == old(self)@.update(i, c@)
                },
                None => (r matches Err(AppError::NotFound) && final(self)@ == old(self)@),
            },
    {
        if self.label_used(label.as_str(), Some(id)) {
            return Err(conflict("connection label already exists"));
        }
        proof {
            lemma_connection_index(self@, id, 0);
        }
        match self.position(id) {
            Some(i) => {
                let old_conn = &self.0.connections[i];
                let conn = Connection { id: old_conn.id, label, uri, created_at: old_conn.created_at };
                let snapshot = conn.clone();
                let ghost before = self.0.connections@;
                self.0.connections.set(i, conn);
                assert(connection_values(self.0.connections@) =~= connection_values(before).update(
                    i as int,
                    conn@,
                ));
                Ok(snapshot)
            },
            None => Err(AppError::NotFound),
        }
    }

    /// Removes every connection with the id `id`; `NotFound` if there is none.
    pub fn delete(&mut self, id: u128) -> (r: Result<(), AppError>)
        ensures
            has_connection(old(self)@, id) ==> r is Ok && final(self)@ == without_connection(old(self)@, id),
            !has_connection(old(self)@, id) ==> (r matches Err(AppError::NotFound) && final(self)@ == old(self)@),
    {
        let before = self.0.connections.len();
        let mut kept: Vec<Connection> = Vec::new();
        let mut i: usize = 0;
        while i < self.0.connections.len()
            invariant
                i <= self.0.connections@.len(),
                connection_values(kept@) == without_connection(self@.take(i as int), id),
            decreases self.0.connections@.len() - i,
        {
            let ghost prefix = self@.take(i as int);
            assert(self@.take(i + 1).drop_last() =~= prefix);
            assert(self@.take(i + 1).last() == self@[i as int]);
            if self.0.connections[i].id != id {
                let c = self.0.connections[i].clone();
                proof {
                    lemma_values_push(kept@, c);
                }
                kept.push(c);
            }
            i = i + 1;
        }
        assert(self@.take(i as int) =~= self@);
        proof {
            lemma_without_len(self@, id);
            if has_connection(self@, id) {
                lemma_without_shorter(self@, id);
            } else {
                lemma_without_missing(self@, id);
            }
        }
        if kept.len() == before {
            return Err(AppError::NotFound);
        }
        self.0.connections = kept;
        Ok(())
    }
}

/// `s` holds a connection with the id `id` exactly where a search finds one.
pub proof fn lemma_has_connection_index(s: Seq<ConnectionValue>, id: u128)
    ensures
        has_connection(s, id) <==> connection_index(s, id, 0) is Some,
{
    lemma_connection_index(s, id, 0);
}

/// Creating a connection keeps labels distinct: a label is added only where no
/// existing connection has it.
pub proof fn lemma_create_keeps_labels_distinct(s: Seq<ConnectionValue>, c: ConnectionValue)
    requires
        labels_distinct(s),
        !label_taken(s, c.label, None),
    ensures
        labels_distinct(s.push(c)),
{
    let t = s.push(c);
    assert forall|i: int, j: int| 0 <= i < t.len() && 0 <= j < t.len() && i != j implies !eq_ignore_ascii_case(
        #[trigger] t[i].label,
        #[trigger] t[j].label,
    ) by {
        if i == s.len() {
            assert(t[j] == s[j]);
            if eq_ignore_ascii_case(t[i].label, t[j].label) {
                assert(eq_ignore_ascii_case(s[j].label, c.label));
            }
        } else if j == s.len() {
            assert(t[i] == s[i]);
        } else {
            assert(t[i] == s[i] && t[j] == s[j]);
        }
    }
}


/// No two connections of `s` share an id.
pub open spec fn ids_distinct(s: Seq<ConnectionValue>) -> bool {
    forall|i: int, j: int| 0 <= i < s.len() && 0 <= j < s.len() && i != j ==> #[trigger] s[i].id != #[trigger] s[j].id
}

/// Updating a connection keeps labels distinct: the new label is refused where another
/// connection has it (where ids are distinct, as fresh random ids make them).
pub proof fn lemma_update_keeps_labels_distinct(s: Seq<ConnectionValue>, i: int, c: ConnectionValue)
    requires
        labels_distinct(s),
        ids_distinct(s),
        0 <= i < s.len(),
        c.id == s[i].id,
        !label_taken(s, c.label, Some(c.id)),
    ensures
        labels_distinct(s.update(i, c)),
{
    let t = s.update(i, c);
    assert forall|a: int, b: int| 0 <= a < t.len() && 0 <= b < t.len() && a != b implies !eq_ignore_ascii_case(
        #[trigger] t[a].label,
        #[trigger] t[b].label,
    ) by {
        if a == i {
            assert(t[b] == s[b]);
            assert(s[b].id != c.id);
            if eq_ignore_ascii_case(t[a].label, t[b].label) {
                assert(eq_ignore_ascii_case(s[b].label, c.label));
            }
        } else if b == i {
            assert(t[a] == s[a]);
            assert(s[a].id != c.id);
            if eq_ignore_ascii_case(t[a].label, t[b].label) {
                assert(eq_ignore_ascii_case(s[a].label, c.label));
            }
        } else {
            assert(t[a] == s[a] && t[b] == s[b]);
        }
    }
}

proof fn lemma_without_from(s: Seq<ConnectionValue>, id: u128)
    ensures
        forall|k: int| 0 <= k < without_connection(s, id).len() ==> exists|j: int|
            0 <= j < s.len() && s[j] == #[trigger] without_connection(s, id)[k],
    decreases s.len(),
{
    if s.len() > 0 {
        let d = s.drop_last();
        lemma_without_from(d, id);
        let w = without_connection(s, id);
        assert forall|k: int| 0 <= k < w.len() implies exists|j: int| 0 <= j < s.len() && s[j] == #[trigger] w[k] by {
            if k < without_connection(d, id).len() {
                let j = choose|j: int| 0 <= j < d.len() && d[j] == without_connection(d, id)[k];
                assert(s[j] == w[k]);
            } else {
                assert(s[s.len() - 1] == w[k]);
            }
        }
    }
}

proof fn lemma_without_prefix_distinct(s: Seq<ConnectionValue>, id: u128)
    requires
        labels_distinct(s),
    ensures
        labels_distinct(without_connection(s, id)),
    decreases s.len(),
{
    if s.len() > 0 {
        let d = s.drop_last();
        assert(labels_distinct(d)) by {
            assert forall|i: int, j: int| 0 <= i < d.len() && 0 <= j < d.len() && i != j implies !eq_ignore_ascii_case(
                #[trigger] d[i].label,
                #[trigger] d[j].label,
            ) by {
                assert(d[i] == s[i] && d[j] == s[j]);
            }
        }
        lemma_without_prefix_distinct(d, id);
        if s.last().id != id {
            let w = without_connection(d, id);
            lemma_without_from(d, id);
            let t = w.push(s.last());
            assert forall|a: int, b: int| 0 <= a < t.len() && 0 <= b < t.len() && a != b implies !eq_ignore_ascii_case(
                #[trigger] t[a].label,
                #[trigger] t[b].label,
            ) by {
                if a == w.len() {
                    let j = choose|j: int| 0 <= j < d.len() && d[j] == #[trigger] w[b];
                    assert(s[j] == t[b] && s[s.len() - 1] == t[a]);
                } else if b == w.len() {
                    let j = choose|j: int| 0 <= j < d.len() && d[j] == #[trigger] w[a];
                    assert(s[j] == t[a] && s[s.len() - 1] == t[b]);
                } else {
                    assert(t[a] == w[a] && t[b] == w[b]);
                }
            }
        }
    }
}

/// Deleting connections keeps labels distinct.
pub proof fn lemma_delete_keeps_labels_distinct(s: Seq<ConnectionValue>, id: u128)
    requires
        labels_distinct(s),
    ensures
        labels_distinct(without_connection(s, id)),
{
    lemma_without_prefix_distinct(s, id);
}

/// Deleting removes every connection with the id, and keeps every other one.
pub proof fn lemma_delete_removes_only_id(s: Seq<ConnectionValue>, id: u128)
    ensures
        !has_connection(without_connection(s, id), id),
        forall|j: int| 0 <= j < s.len() && s[j].id != id ==> without_connection(s, id).contains(#[trigger] s[j]),
    decreases s.len(),
{
    if s.len() > 0 {
        let d = s.drop_last();
        lemma_delete_removes_only_id(d, id);
        let w = without_connection(d, id);
        assert forall|j: int| 0 <= j < s.len() && s[j].id != id implies without_connection(s, id).contains(#[trigger] s[j]) by {
            if j < d.len() {
                assert(d[j] == s[j]);
                assert(w.contains(s[j]));
                if s.last().id != id {
                    let k = choose|k: int| 0 <= k < w.len() && w[k] == s[j];
                    assert(w.push(s.last())[k] == s[j]);
                }
            } else {
                assert(w.push(s.last())[w.len() as int] == s[j]);
            }
        }
        if has_connection(without_connection(s, id), id) {
            let t = without_connection(s, id);
            let k = choose|k: int| 0 <= k < t.len() && #[trigger] t[k].id == id;
            if s.last().id != id && k == w.len() {
            } else {
                assert(w[k].id == id);
            }
        }
    }
}

/// A created connection is what `get` then finds by its id (where the fresh random id
/// is new to the store).
pub proof fn lemma_created_connection_found(s: Seq<ConnectionValue>, c: ConnectionValue)
    requires
        !has_connection(s, c.id),
    ensures
        connection_index(s.push(c), c.id, 0) == Some(s.len() as int),
{
    lemma_index_skips(s.push(c), c.id, 0, s.len() as int);
}

proof fn lemma_index_skips(s: Seq<ConnectionValue>, id: u128, k: int, n: int)
    requires
        0 <= k <= n < s.len(),
        s[n].id == id,
        forall|j: int| k <= j < n ==> s[j].id != id,
    ensures
        connection_index(s, id, k) == Some(n),
    decreases n - k,
{
    if k < n {
        lemma_index_skips(s, id, k + 1, n);
    }
}

} // verus!
