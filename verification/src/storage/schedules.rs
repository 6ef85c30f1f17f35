//! Backup schedules: one per connection and database.
use vstd::prelude::*;
use crate::backup::jobs::{clone_opt, opt_view};
use crate::clock::{Timestamp, utc_now};
use crate::error::{AppError, bad_request, is_bad_request};
use crate::ids::new_id;
use crate::text::{str_eq, trim, trimmed};

verus! {

/// A recurring backup of one database of one connection.
#[derive(Debug)]
pub struct Schedule {
    pub id: u128,
    pub connection_id: u128,
    pub database: String,
    pub interval_minutes: u32,
    pub retention: u32,
    pub enabled: bool,
    pub last_run_at: Option<Timestamp>,
    pub last_status: Option<String>,
    pub created_at: Timestamp,
}

/// The value of a `Schedule`.
pub struct ScheduleValue {
    pub id: u128,
    pub connection_id: u128,
    pub database: Seq<char>,
    pub interval_minutes: u32,
    pub retention: u32,
    pub enabled: bool,
    pub last_run_at: Option<Timestamp>,
    pub last_status: Option<Seq<char>>,
    pub created_at: Timestamp,
}

impl View for Schedule {
    type V = ScheduleValue;

    open spec fn view(&self) -> ScheduleValue {
        ScheduleValue {
            id: self.id,
            connection_id: self.connection_id,
            database: self.database@,
            interval_minutes: self.interval_minutes,
            retention: self.retention,
            enabled: self.enabled,
            last_run_at: self.last_run_at,
            last_status: opt_view(self.last_status),
            created_at: self.created_at,
        }
    }
}

impl Clone for Schedule {
    fn clone(&self) -> (r: Self)
        ensures
            r@ == self@,
    {
        Schedule {
            id: self.id,
            connection_id: self.connection_id,
            database: self.database.clone(),
            interval_minutes: self.interval_minutes,
            retention: self.retention,
            enabled: self.enabled,
            last_run_at: self.last_run_at,
            last_status: clone_opt(&self.last_status),
            created_at: self.created_at,
        }
    }
}

/// The stored schedules, in the order they were created.
#[derive(Debug)]
pub struct SchedulesFile {
    pub schedules: Vec<Schedule>,
}

/// What a client asks a schedule to be.
#[derive(Debug)]
pub struct ScheduleInput {
    pub connection_id: u128,
    pub database: String,
    pub interval_minutes: u32,
    pub retention: u32,
    pub enabled: bool,
}

/// The schedules held by a store, as values.
pub open spec fn schedule_values(v: Seq<Schedule>) -> Seq<ScheduleValue> {
    v.map_values(|s: Schedule| s@)
}

/// The in-memory state of the schedule store and its operations.
#[derive(Debug)]
pub struct ScheduleStore(pub SchedulesFile);

impl View for ScheduleStore {
    type V = Seq<ScheduleValue>;

    open spec fn view(&self) -> Seq<ScheduleValue> {
        schedule_values(self.0.schedules@)
    }
}

/// Why an input is refused, checked in this order: no database (after trimming white
/// space), a zero interval, a zero retention.
pub open spec fn input_problem(database: Seq<char>, interval_minutes: u32, retention: u32) -> Option<Seq<char>> {
    if trimmed(database).len() == 0 {
        Some("database is required"@)
    } else if interval_minutes == 0 {
        Some("interval_minutes must be > 0"@)
    } else if retention == 0 {
        Some("retention must be > 0"@)
    } else {
        None
    }
}

/// The first position at or after `k` of a schedule with the id `id`.
pub open spec fn schedule_index(s: Seq<ScheduleValue>, id: u128, k: int) -> Option<int>
    decreases s.len() - k,
{
    if k < 0 || k >= s.len() {
        None
    } else if s[k].id == id {
        Some(k)
    } else {
        schedule_index(s, id, k + 1)
    }
}

/// The first position at or after `k` of a schedule for `connection_id` and `database`.
pub open spec fn schedule_key_index(s: Seq<ScheduleValue>, connection_id: u128, database: Seq<char>, k: int) -> Option<int>
    decreases s.len() - k,
{
    if k < 0 || k >= s.len() {
        None
    } else if s[k].connection_id == connection_id && s[k].database == database {
        Some(k)
    } else {
        schedule_key_index(s, connection_id, database, k + 1)
    }
}

/// The schedules of `s` for which `drop` is false, in order.
pub open spec fn schedules_without(s: Seq<ScheduleValue>, drop: spec_fn(ScheduleValue) -> bool) -> Seq<ScheduleValue>
    decreases s.len(),
{
    if s.len() == 0 {
        s
    } else if drop(s.last()) {
        schedules_without(s.drop_last(), drop)
    } else {
        schedules_without(s.drop_last(), drop).push(s.last())
    }
}

/// The schedule has the id `id`.
pub open spec fn with_id(id: u128) -> spec_fn(ScheduleValue) -> bool {
    |s: ScheduleValue| s.id == id
}

/// The schedule belongs to the connection `connection_id`.
pub open spec fn for_connection(connection_id: u128) -> spec_fn(ScheduleValue) -> bool {
    |s: ScheduleValue| s.connection_id == connection_id
}

/// `s` holds a schedule with the id `id`.
pub open spec fn has_schedule(s: Seq<ScheduleValue>, id: u128) -> bool {
    exists|i: int| 0 <= i < s.len() && #[trigger] s[i].id == id
}

/// No two schedules of `s` are for the same connection and database.
pub open spec fn keys_distinct(s: Seq<ScheduleValue>) -> bool {
    forall|i: int, j: int|
        0 <= i < s.len() && 0 <= j < s.len() && i != j ==> !(#[trigger] s[i].connection_id == #[trigger] s[j].connection_id
            && s[i].database == s[j].database)
}

proof fn lemma_schedule_index(s: Seq<ScheduleValue>, id: u128, k: int)
    requires
        0 <= k,
    ensures
        schedule_index(s, id, k) matches Some(i) ==> k <= i < s.len() && s[i].id == id,
        schedule_index(s, id, k) is None ==> forall|j: int| k <= j < s.len() ==> s[j].id != id,
    decreases s.len() - k,
{
    if k < s.len() && s[k].id != id {
        lemma_schedule_index(s, id, k + 1);
    }
}

proof fn lemma_schedule_key_index(s: Seq<ScheduleValue>, c: u128, d: Seq<char>, k: int)
    requires
        0 <= k,
    ensures
        schedule_key_index(s, c, d, k) matches Some(i) ==> k <= i < s.len() && s[i].connection_id == c
            && s[i].database == d,
        schedule_key_index(s, c, d, k) is None ==> forall|j: int|
            k <= j < s.len() ==> !(s[j].connection_id == c && s[j].database == d),
    decreases s.len() - k,
{
    if k < s.len() && !(s[k].connection_id == c && s[k].database == d) {
        lemma_schedule_key_index(s, c, d, k + 1);
    }
}

proof fn lemma_schedule_values_push(v: Seq<Schedule>, x: Schedule)
    ensures
        schedule_values(v.push(x)) == schedule_values(v).push(x@),
{
    assert(schedule_values(v.push(x)) =~= schedule_values(v).push(x@));
}

/// The checks of a schedule input, in order; `Ok` if it may be saved.
pub fn validate(input: &ScheduleInput) -> (r: Result<(), AppError>)
    ensures
        match input_problem(input.database@, input.interval_minutes, input.retention) {
            Some(m) => r matches Err(e) && is_bad_request(e, m),
            None => r is Ok,
        },
{
    let db = trim(input.database.as_str());
    if db.as_str().is_empty() {
        return Err(bad_request("database is required"));
    }
    if input.interval_minutes == 0 {
        return Err(bad_request("interval_minutes must be > 0"));
    }
    if input.retention == 0 {
        return Err(bad_request("retention must be > 0"));
    }
    Ok(())
}

impl ScheduleStore {
    /// All schedules.
    pub fn list(&self) -> (r: Vec<Schedule>)
        ensures
            schedule_values(r@) == self@,
    {
        let mut r: Vec<Schedule> = Vec::new();
        let mut i: usize = 0;
        while i < self.0.schedules.len()
            invariant
                i <= self.0.schedules@.len(),
                schedule_values(r@) == self@.take(i as int),
            decreases self.0.schedules@.len() - i,
        {
            let x = self.0.schedules[i].clone();
            proof {
                lemma_schedule_values_push(r@, x);
            }
            r.push(x);
            i = i + 1;
            assert(schedule_values(r@) =~= self@.take(i as int));
        }
        assert(self@.take(i as int) =~= self@);
        r
    }

    /// The position of the first schedule with the id `id`.
    fn position(&self, id: u128) -> (r: Option<usize>)
        ensures
            r matches Some(i) ==> schedule_index(self@, id, 0) == Some(i as int),
            r is None ==> schedule_index(self@, id, 0) is None,
    {
        let mut k: usize = 0;
        while k < self.0.schedules.len()
            invariant
                k <= self.0.schedules@.len(),
                schedule_index(self@, id, 0) == schedule_index(self@, id, k as int),
            decreases self.0.schedules@.len() - k,
        {
            if self.0.schedules[k].id == id {
                return Some(k);
            }
            k = k + 1;
        }
        None
    }

    /// The position of the first schedule for `connection_id` and `database`.
    fn key_position(&self, connection_id: u128, database: &str) -> (r: Option<usize>)
        ensures
            r matches Some(i) ==> schedule_key_index(self@, connection_id, database@, 0) == Some(i as int),
            r is None ==> schedule_key_index(self@, connection_id, database@, 0) is None,
    {
        let mut k: usize = 0;
        while k < self.0.schedules.len()
            invariant
                k <= self.0.schedules@.len(),
                schedule_key_index(self@, connection_id, database@, 0) == schedule_key_index(
                    self@,
                    connection_id,
                    database@,
                    k as int,
                ),
            decreases self.0.schedules@.len() - k,
        {
            let s = &self.0.schedules[k];
            if s.connection_id == connection_id && str_eq(s.database.as_str(), database) {
                return Some(k);
            }
            k = k + 1;
        }
        None
    }

    /// The first schedule with the id `id`.
    pub fn get(&self, id: u128) -> (r: Option<Schedule>)
        ensures
            match schedule_index(self@, id, 0) {
                Some(i) => r matches Some(x) && x@ == self@[i],
                None => r is None,
            },
    {
        proof {
            lemma_schedule_index(self@, id, 0);
        }
        match self.position(id) {
            Some(i) => Some(self.0.schedules[i].clone()),
            None => None,
        }
    }

    /// Saves the schedule for the input's connection and database: the first one that
    /// exists takes the input's interval, retention and enabled flag; else a new one is
    /// added with a fresh random id, created now, never run. Refused with a
    /// `BadRequest` if the input is invalid.
    pub fn upsert(&mut self, input: ScheduleInput) -> (r: Result<Schedule, AppError>)
        ensures
            match input_problem(input.database@, input.interval_minutes, input.retention) {
                Some(m) => r matches Err(e) && is_bad_request(e, m) && final(self)@ == old(self)@,
                None => match schedule_key_index(old(self)@, input.connection_id, input.database@, 0) {
                    Some(i) => {
                        &&& r matches Ok(x)
                        &&& x@ == (ScheduleValue {
                            interval_minutes: input.interval_minutes,
                            retention: input.retention,
                            enabled: input.enabled,
                            ..old(self)@[i]
                        })
                        &&& final(self)@ == old(self)@.update(i, x@)
                    },
                    None => {
                        &&& r matches Ok(x)
                        &&& x@.connection_id == input.connection_id
                        &&& x@.database == input.database@
                        &&& x@.interval_minutes == input.interval_minutes
                        &&& x@.retention == input.retention
                        &&& x@.enabled == input.enabled
                        &&& x@.last_run_at is None
                        &&& x@.last_status is None
                        &&& final(self)@ == old(self)@.push(x@)
                    },
                },
            },
    {
        if let Err(e) = validate(&input) {
            return Err(e);
        }
        proof {
            lemma_schedule_key_index(self@, input.connection_id, input.database@, 0);
        }
        match self.key_position(input.connection_id, input.database.as_str()) {
            Some(i) => {
                let old_s = &self.0.schedules[i];
                let updated = Schedule {
                    id: old_s.id,
                    connection_id: old_s.connection_id,
                    database: old_s.database.clone(),
                    interval_minutes: input.interval_minutes,
                    retention: input.retention,
                    enabled: input.enabled,
                    last_run_at: old_s.last_run_at,
                    last_status: clone_opt(&old_s.last_status),
                    created_at: old_s.created_at,
                };
                let snapshot = updated.clone();
                let ghost before = self.0.schedules@;
                self.0.schedules.set(i, updated);
                assert(schedule_values(self.0.schedules@) =~= schedule_values(before).update(
                    i as int,
                    updated@,
                ));
                Ok(snapshot)
            },
            None => {
                let s = Schedule {
                    id: new_id(),
                    connection_id: input.connection_id,
                    database: input.database,
                    interval_minutes: input.interval_minutes,
                    retention: input.retention,
                    enabled: input.enabled,
                    last_run_at: None,
                    last_status: None,
                    created_at: utc_now(),
                };
                let snapshot = s.clone();
                proof {
                    lemma_schedule_values_push(self.0.schedules@, s);
                }
                self.0.schedules.push(s);
                Ok(snapshot)
            },
        }
    }

    /// Drops the schedules with the id `drop_id`, or those of the connection
    /// `drop_connection` (exactly one of the two is given); the rest stay in order.
    fn retain_schedules(&mut self, drop_id: Option<u128>, drop_connection: Option<u128>)
        requires
            drop_id is Some != drop_connection is Some,
        ensures
            drop_id matches Some(id) ==> final(self)@ == schedules_without(old(self)@, with_id(id)),
            drop_connection matches Some(c) ==> final(self)@ == schedules_without(old(self)@, for_connection(c)),
    {
        let ghost drop: spec_fn(ScheduleValue) -> bool = match drop_id {
            Some(id) => with_id(id),
            None => for_connection(drop_connection->0),
        };
        let mut kept: Vec<Schedule> = Vec::new();
        let mut i: usize = 0;
        while i < self.0.schedules.len()
            invariant
                i <= self.0.schedules@.len(),
                drop_id is Some != drop_connection is Some,
                drop == (match drop_id {
                    Some(id) => with_id(id),
                    None => for_connection(drop_connection->0),
                }),
                schedule_values(kept@) == schedules_without(self@.take(i as int), drop),
            decreases self.0.schedules@.len() - i,
        {
            assert(self@.take(i + 1).drop_last() =~= self@.take(i as int));
            assert(self@.take(i + 1).last() == self@[i as int]);
            let x = &self.0.schedules[i];
            let dropped = match drop_id {
                Some(id) => x.id == id,
                None => x.connection_id == drop_connection.unwrap(),
            };
            if !dropped {
                let c = x.clone();
                proof {
                    lemma_schedule_values_push(kept@, c);
                }
                kept.push(c);
            }
            i = i + 1;
        }
        assert(self@.take(i as int) =~= self@);
        self.0.schedules = kept;
    }

    /// Removes every schedule with the id `id`; `NotFound` if there is none.
    pub fn delete(&mut self, id: u128) -> (r: Result<(), AppError>)
        ensures
            has_schedule(old(self)@, id) ==> r is Ok && final(self)@ == schedules_without(old(self)@, with_id(id)),
            !has_schedule(old(self)@, id) ==> (r matches Err(AppError::NotFound) && final(self)@ == old(self)@),
    {
        if self.position(id).is_none() {
            proof {
                lemma_schedule_index(self@, id, 0);
                assert(!has_schedule(self@, id));
            }
            return Err(AppError::NotFound);
        }
        proof {
            lemma_schedule_index(self@, id, 0);
        }
        self.retain_schedules(Some(id), None);
        Ok(())
    }

    /// Removes every schedule of the connection `connection_id`.
    pub fn delete_for_connection(&mut self, connection_id: u128)
        ensures
            final(self)@ == schedules_without(old(self)@, for_connection(connection_id)),
    {
        self.retain_schedules(None, Some(connection_id));
    }

    /// Records on the first schedule with the id `id` that it ran at `when` with the
    /// status `status`; `NotFound` if there is no such schedule.
    pub fn record_run(&mut self, id: u128, when: Timestamp, status: String) -> (r: Result<(), AppError>)
        ensures
            match schedule_index(old(self)@, id, 0) {
                Some(i) => r is Ok && final(self)@ == old(self)@.update(
                    i,
                    ScheduleValue { last_run_at: Some(when), last_status: Some(status@), ..old(self)@[i] },
                ),
                None => (r matches Err(AppError::NotFound) && final(self)@ == old(self)@),
            },
    {
        proof {
            lemma_schedule_index(self@, id, 0);
        }
        match self.position(id) {
            Some(i) => {
                let old_s = &self.0.schedules[i];
                let updated = Schedule {
                    id: old_s.id,
                    connection_id: old_s.connection_id,
                    database: old_s.database.clone(),
                    interval_minutes: old_s.interval_minutes,
                    retention: old_s.retention,
                    enabled: old_s.enabled,
                    last_run_at: Some(when),
                    last_status: Some(status),
                    created_at: old_s.created_at,
                };
                let ghost before = self.0.schedules@;
                self.0.schedules.set(i, updated);
                assert(schedule_values(self.0.schedules@) =~= schedule_values(before).update(
                    i as int,
                    updated@,
                ));
                Ok(())
            },
            None => Err(AppError::NotFound),
        }
    }
}

/// Saving a schedule keeps one schedule per connection and database: an input for a
/// pair that has one changes it in place, else a new one is added.
pub proof fn lemma_upsert_keeps_keys_distinct(s: Seq<ScheduleValue>, input_connection: u128, input_database: Seq<char>, x: ScheduleValue)
    requires
        keys_distinct(s),
        x.connection_id == input_connection,
        x.database == input_database,
    ensures
        schedule_key_index(s, input_connection, input_database, 0) matches Some(i) ==> keys_distinct(s.update(i, x)),
        schedule_key_index(s, input_connection, input_database, 0) is None ==> keys_distinct(s.push(x)),
{
    lemma_schedule_key_index(s, input_connection, input_database, 0);
    match schedule_key_index(s, input_connection, input_database, 0) {
        Some(i) => {
            let t = s.update(i, x);
            assert forall|a: int, b: int| 0 <= a < t.len() && 0 <= b < t.len() && a != b implies !(#[trigger] t[a].connection_id
                == #[trigger] t[b].connection_id && t[a].database == t[b].database) by {
                if a == i {
                    assert(t[b] == s[b]);
                } else if b == i {
                    assert(t[a] == s[a]);
                } else {
                    assert(t[a] == s[a] && t[b] == s[b]);
                }
            }
        },
        None => {
            let t = s.push(x);
            assert forall|a: int, b: int| 0 <= a < t.len() && 0 <= b < t.len() && a != b implies !(#[trigger] t[a].connection_id
                == #[trigger] t[b].connection_id && t[a].database == t[b].database) by {
                if a == s.len() {
                    assert(t[b] == s[b]);
                } else if b == s.len() {
                    assert(t[a] == s[a]);
                } else {
                    assert(t[a] == s[a] && t[b] == s[b]);
                }
            }
        },
    }
}


proof fn lemma_key_index_skips(s: Seq<ScheduleValue>, c: u128, d: Seq<char>, k: int, n: int)
    requires
        0 <= k <= n < s.len(),
        s[n].connection_id == c && s[n].database == d,
        forall|j: int| k <= j < n ==> !(#[trigger] s[j].connection_id == c && s[j].database == d),
    ensures
        schedule_key_index(s, c, d, k) == Some(n),
    decreases n - k,
{
    if k < n {
        lemma_key_index_skips(s, c, d, k + 1, n);
    }
}

proof fn lemma_index_skips(s: Seq<ScheduleValue>, id: u128, k: int, n: int)
    requires
        0 <= k <= n < s.len(),
        s[n].id == id,
        forall|j: int| k <= j < n ==> #[trigger] s[j].id != id,
    ensures
        schedule_index(s, id, k) == Some(n),
    decreases n - k,
{
    if k < n {
        lemma_index_skips(s, id, k + 1, n);
    }
}

/// After a schedule is saved for a connection and database, looking that pair up finds
/// the saved schedule: in place of the one that was there, or added at the end.
pub proof fn lemma_upsert_then_lookup(s: Seq<ScheduleValue>, connection_id: u128, database: Seq<char>, x: ScheduleValue)
    requires
        x.connection_id == connection_id,
        x.database == database,
    ensures
        schedule_key_index(s, connection_id, database, 0) matches Some(i) ==> schedule_key_index(s.update(i, x), connection_id, database, 0) == Some(i),
        schedule_key_index(s, connection_id, database, 0) is None ==> schedule_key_index(s.push(x), connection_id, database, 0) == Some(s.len() as int),
{
    lemma_schedule_key_index(s, connection_id, database, 0);
    lemma_first_key_index(s, connection_id, database, 0);
    match schedule_key_index(s, connection_id, database, 0) {
        Some(i) => {
            let t = s.update(i, x);
            assert forall|j: int| 0 <= j < i implies !(#[trigger] t[j].connection_id == connection_id && t[j].database == database) by {
                assert(t[j] == s[j]);
            }
            lemma_key_index_skips(t, connection_id, database, 0, i);
        },
        None => {
            let t = s.push(x);
            assert forall|j: int| 0 <= j < s.len() implies !(#[trigger] t[j].connection_id == connection_id && t[j].database == database) by {
                assert(t[j] == s[j]);
            }
            lemma_key_index_skips(t, connection_id, database, 0, s.len() as int);
        },
    }
}

/// After a run is recorded on a schedule, looking the schedule up by its id finds it
/// with that run.
pub proof fn lemma_record_run_then_get(s: Seq<ScheduleValue>, id: u128, when: Timestamp, status: Seq<char>)
    requires
        schedule_index(s, id, 0) is Some,
    ensures
        ({
            let i = schedule_index(s, id, 0)->0;
            let t = s.update(i, ScheduleValue { last_run_at: Some(when), last_status: Some(status), ..s[i] });
            schedule_index(t, id, 0) == Some(i) && t[i].last_run_at == Some(when) && t[i].last_status == Some(status)
        }),
{
    lemma_schedule_index(s, id, 0);
    let i = schedule_index(s, id, 0)->0;
    let t = s.update(i, ScheduleValue { last_run_at: Some(when), last_status: Some(status), ..s[i] });
    lemma_first_schedule_index(s, id, 0);
    assert forall|j: int| 0 <= j < i implies #[trigger] t[j].id != id by {
        assert(t[j] == s[j]);
    }
    lemma_index_skips(t, id, 0, i);
}

proof fn lemma_first_key_index(s: Seq<ScheduleValue>, c: u128, d: Seq<char>, k: int)
    requires
        0 <= k,
    ensures
        schedule_key_index(s, c, d, k) matches Some(i) ==> forall|j: int| k <= j < i ==> !(#[trigger] s[j].connection_id == c && s[j].database == d),
    decreases s.len() - k,
{
    if k < s.len() && !(s[k].connection_id == c && s[k].database == d) {
        lemma_first_key_index(s, c, d, k + 1);
    }
}

proof fn lemma_first_schedule_index(s: Seq<ScheduleValue>, id: u128, k: int)
    requires
        0 <= k,
    ensures
        schedule_index(s, id, k) matches Some(i) ==> forall|j: int| k <= j < i ==> #[trigger] s[j].id != id,
    decreases s.len() - k,
{
    if k < s.len() && s[k].id != id {
        lemma_first_schedule_index(s, id, k + 1);
    }
}

/// Removing schedules drops exactly those that `drop` selects: none of them is left,
/// and every other schedule stays.
pub proof fn lemma_removal_drops_exactly(s: Seq<ScheduleValue>, drop: spec_fn(ScheduleValue) -> bool)
    ensures
        forall|k: int| 0 <= k < schedules_without(s, drop).len() ==> !drop(#[trigger] schedules_without(s, drop)[k]),
        forall|j: int| 0 <= j < s.len() && !drop(s[j]) ==> schedules_without(s, drop).contains(#[trigger] s[j]),
    decreases s.len(),
{
    if s.len() > 0 {
        let d = s.drop_last();
        lemma_removal_drops_exactly(d, drop);
        let w = schedules_without(d, drop);
        assert forall|j: int| 0 <= j < s.len() && !drop(s[j]) implies schedules_without(s, drop).contains(#[trigger] s[j]) by {
            if j < d.len() {
                assert(d[j] == s[j]);
                assert(w.contains(d[j]));
                let k = choose|k: int| 0 <= k < w.len() && w[k] == d[j];
                if !drop(s.last()) {
                    assert(w.push(s.last())[k] == s[j]);
                }
            } else {
                assert(w.push(s.last())[w.len() as int] == s[j]);
            }
        }
        if !drop(s.last()) {
            let t = w.push(s.last());
            assert forall|k: int| 0 <= k < t.len() implies !drop(#[trigger] t[k]) by {
                if k < w.len() {
                    assert(t[k] == w[k]);
                }
            }
        }
    }
}

} // verus!
