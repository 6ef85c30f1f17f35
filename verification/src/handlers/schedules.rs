//! Saving and showing schedules.
use vstd::prelude::*;
use crate::backup::jobs::clone_opt;
use crate::clock::Timestamp;
use crate::error::{AppError, bad_request, is_bad_request};
use crate::storage::connections::{ConnectionStore, has_connection};
use crate::storage::schedules::{Schedule, ScheduleInput, ScheduleStore, ScheduleValue, input_problem, schedule_key_index};
use crate::text::{trim, trimmed};

verus! {

/// A schedule as a client sends it.
#[derive(Debug)]
pub struct ScheduleBody {
    pub connection_id: u128,
    pub database: String,
    pub interval_minutes: u32,
    pub retention: u32,
    pub enabled: bool,
}

/// A schedule as clients see it.
#[derive(Debug)]
pub struct ScheduleView {
    pub id: u128,
    pub connection_id: u128,
    pub database: String,
    pub interval_minutes: u32,
    pub retention: u32,
    pub enabled: bool,
    pub last_run_at: Option<Timestamp>,
    pub last_status: Option<String>,
}

impl ScheduleView {
    /// How clients see the schedule `s`: all its fields but its creation time.
    pub fn from(s: &Schedule) -> (v: Self)
        ensures
            v.id == s.id,
            v.connection_id == s.connection_id,
            v.database@ == s.database@,
            v.interval_minutes == s.interval_minutes,
            v.retention == s.retention,
            v.enabled == s.enabled,
            v.last_run_at == s.last_run_at,
            crate::backup::jobs::opt_view(v.last_status) == crate::backup::jobs::opt_view(s.last_status),
    {
        ScheduleView {
            id: s.id,
            connection_id: s.connection_id,
            database: s.database.clone(),
            interval_minutes: s.interval_minutes,
            retention: s.retention,
            enabled: s.enabled,
            last_run_at: s.last_run_at,
            last_status: clone_opt(&s.last_status),
        }
    }
}

/// Saves a schedule from a client's input, for a connection that exists, with the
/// database name trimmed; see `ScheduleStore::upsert`.
pub fn upsert_schedule(schedules: &mut ScheduleStore, connections: &ConnectionStore, body: &ScheduleBody) -> (r: Result<Schedule, AppError>)
    ensures
        !has_connection(connections@, body.connection_id) ==> (r matches Err(e) && is_bad_request(e, "unknown connection_id"@) && final(schedules)@ == old(schedules)@),
        has_connection(connections@, body.connection_id) ==> match input_problem(trimmed(body.database@), body.interval_minutes, body.retention) {
            Some(m) => r matches Err(e) && is_bad_request(e, m) && final(schedules)@ == old(schedules)@,
            None => match schedule_key_index(old(schedules)@, body.connection_id, trimmed(body.database@), 0) {
                Some(i) => {
                    &&& r matches Ok(x)
                    &&& x@ == (ScheduleValue {
                        interval_minutes: body.interval_minutes,
                        retention: body.retention,
                        enabled: body.enabled,
                        ..old(schedules)@[i]
                    })
                    &&& final(schedules)@ == old(schedules)@.update(i, x@)
                },
                None => {
                    &&& r matches Ok(x)
                    &&& x@.connection_id == body.connection_id
                    &&& x@.database == trimmed(body.database@)
                    &&& x@.interval_minutes == body.interval_minutes
                    &&& x@.retention == body.retention
                    &&& x@.enabled == body.enabled
                    &&& x@.last_run_at is None
                    &&& x@.last_status is None
                    &&& final(schedules)@ == old(schedules)@.push(x@)
                },
            },
        },
{
    proof {
        crate::storage::connections::lemma_has_connection_index(connections@, body.connection_id);
    }
    if connections.get(body.connection_id).is_none() {
        return Err(bad_request("unknown connection_id"));
    }
    schedules.upsert(ScheduleInput {
        connection_id: body.connection_id,
        database: trim(body.database.as_str()),
        interval_minutes: body.interval_minutes,
        retention: body.retention,
        enabled: body.enabled,
    })
}

} // verus!
