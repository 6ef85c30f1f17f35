//! Which schedules are due, and what a finished run records.
use vstd::prelude::*;
use crate::clock::{Timestamp, total_nanos};
use crate::error::{AppError, error_text};
use crate::storage::connections::{ConnectionStore, ConnectionValue, connection_index};
use crate::storage::schedules::{Schedule, ScheduleValue, schedule_values};

verus! {

/// How often the schedules are looked at, in seconds.
pub const TICK_SECONDS: u64 = 30;

/// A schedule is due at `now` if it never ran, or if at least `interval_minutes`
/// minutes have passed since it last ran.
pub open spec fn due_at(now: Timestamp, last_run_at: Option<Timestamp>, interval_minutes: u32) -> bool {
    match last_run_at {
        Some(t) => total_nanos(now) - total_nanos(t) >= interval_minutes * 60_000_000_000,
        None => true,
    }
}

/// Whether a schedule that last ran at `last_run_at` is due at `now`.
pub fn is_due(now: Timestamp, last_run_at: Option<Timestamp>, interval_minutes: u32) -> (b: bool)
    ensures
        b == due_at(now, last_run_at, interval_minutes),
{
    match last_run_at {
        Some(t) => {
            let elapsed: i128 = (now.secs as i128 - t.secs as i128) * 1_000_000_000 + (now.nanos as i128
                - t.nanos as i128);
            elapsed >= interval_minutes as i128 * 60_000_000_000
        },
        None => true,
    }
}

/// A schedule that has just run is not due again until its interval has passed, and is
/// due once it has.
pub proof fn lemma_due_after_interval(ran: Timestamp, now: Timestamp, interval_minutes: u32)
    ensures
        total_nanos(now) - total_nanos(ran) < interval_minutes * 60_000_000_000 ==> !due_at(now, Some(ran), interval_minutes),
        total_nanos(now) - total_nanos(ran) >= interval_minutes * 60_000_000_000 ==> due_at(now, Some(ran), interval_minutes),
        interval_minutes > 0 ==> !due_at(ran, Some(ran), interval_minutes),
{
}

/// A backup to start now for a due schedule.
#[derive(Debug)]
pub struct PlannedRun {
    pub schedule_id: u128,
    pub database: String,
    pub retention: u32,
    pub connection_id: u128,
    pub connection_label: String,
    pub uri: String,
}

/// The value of a `PlannedRun`.
pub struct PlannedRunValue {
    pub schedule_id: u128,
    pub database: Seq<char>,
    pub retention: u32,
    pub connection_id: u128,
    pub connection_label: Seq<char>,
    pub uri: Seq<char>,
}

impl View for PlannedRun {
    type V = PlannedRunValue;

    open spec fn view(&self) -> PlannedRunValue {
        PlannedRunValue {
            schedule_id: self.schedule_id,
            database: self.database@,
            retention: self.retention,
            connection_id: self.connection_id,
            connection_label: self.connection_label@,
            uri: self.uri@,
        }
    }
}

/// The run of the schedule `s` against the connection `c`.
pub open spec fn run_of(s: ScheduleValue, c: ConnectionValue) -> PlannedRunValue {
    PlannedRunValue {
        schedule_id: s.id,
        database: s.database,
        retention: s.retention,
        connection_id: c.id,
        connection_label: c.label,
        uri: c.uri,
    }
}

/// The schedule `s` asks for a run at `now`: it is enabled and due.
pub open spec fn wants_run(s: ScheduleValue, now: Timestamp) -> bool {
    s.enabled && due_at(now, s.last_run_at, s.interval_minutes)
}

/// The runs to start at `now`, in schedule order: one for each enabled, due schedule
/// whose connection exists (the first connection with its id).
pub open spec fn planned_runs(ss: Seq<ScheduleValue>, conns: Seq<ConnectionValue>, now: Timestamp) -> Seq<PlannedRunValue>
    decreases ss.len(),
{
    if ss.len() == 0 {
        Seq::empty()
    } else {
        let prev = planned_runs(ss.drop_last(), conns, now);
        let s = ss.last();
        if wants_run(s, now) {
            match connection_index(conns, s.connection_id, 0) {
                Some(i) => prev.push(run_of(s, conns[i])),
                None => prev,
            }
        } else {
            prev
        }
    }
}

/// The ids of the enabled, due schedules whose connection is missing, in order.
pub open spec fn orphaned_schedules(ss: Seq<ScheduleValue>, conns: Seq<ConnectionValue>, now: Timestamp) -> Seq<u128>
    decreases ss.len(),
{
    if ss.len() == 0 {
        Seq::empty()
    } else {
        let prev = orphaned_schedules(ss.drop_last(), conns, now);
        let s = ss.last();
        if wants_run(s, now) && connection_index(conns, s.connection_id, 0) is None {
            prev.push(s.id)
        } else {
            prev
        }
    }
}

/// What one look at the schedules decides.
#[derive(Debug)]
pub struct DuePlan {
    /// The backups to start.
    pub runs: Vec<PlannedRun>,
    /// The due schedules that are skipped because their connection is missing.
    pub orphaned: Vec<u128>,
}

/// The values of a sequence of runs.
pub open spec fn run_values(v: Seq<PlannedRun>) -> Seq<PlannedRunValue> {
    v.map_values(|r: PlannedRun| r@)
}

/// Decides which schedules run at `now`.
pub fn plan_due(schedules: &Vec<Schedule>, connections: &ConnectionStore, now: Timestamp) -> (p: DuePlan)
    ensures
        run_values(p.runs@) == planned_runs(schedule_values(schedules@), connections@, now),
        p.orphaned@ == orphaned_schedules(schedule_values(schedules@), connections@, now),
{
    let ghost ss = schedule_values(schedules@);
    let mut runs: Vec<PlannedRun> = Vec::new();
    let mut orphaned: Vec<u128> = Vec::new();
    let mut i: usize = 0;
    while i < schedules.len()
        invariant
            ss == schedule_values(schedules@),
            i <= schedules@.len(),
            run_values(runs@) == planned_runs(ss.take(i as int), connections@, now),
            orphaned@ == orphaned_schedules(ss.take(i as int), connections@, now),
        decreases schedules@.len() - i,
    {
        assert(ss.take(i + 1).drop_last() =~= ss.take(i as int));
        assert(ss.take(i + 1).last() == ss[i as int]);
        let s = &schedules[i];
        if s.enabled && is_due(now, s.last_run_at, s.interval_minutes) {
            match connections.get(s.connection_id) {
                Some(conn) => {
                    let run = PlannedRun {
                        schedule_id: s.id,
                        database: s.database.clone(),
                        retention: s.retention,
                        connection_id: conn.id,
                        connection_label: conn.label,
                        uri: conn.uri,
                    };
                    let ghost before = run_values(runs@);
                    runs.push(run);
                    assert(run_values(runs@) =~= before.push(run@));
                },
                None => {
                    orphaned.push(s.id);
                },
            }
        }
        i = i + 1;
    }
    assert(ss.take(i as int) =~= ss);
    DuePlan { runs, orphaned }
}

/// The status a schedule records after a run: `ok`, or `error: ` and the error's text.
pub open spec fn run_status_text(outcome: Result<Seq<char>, AppError>) -> Seq<char> {
    match outcome {
        Ok(_) => "ok"@,
        Err(e) => "error: "@ + error_text(e),
    }
}

/// The value of a run's outcome: the archive's file name, or the error.
pub open spec fn outcome_value(outcome: Result<String, AppError>) -> Result<Seq<char>, AppError> {
    match outcome {
        Ok(f) => Ok(f@),
        Err(e) => Err(e),
    }
}

/// The status a schedule records after a run.
pub fn run_status(outcome: &Result<String, AppError>) -> (s: String)
    ensures
        s@ == run_status_text(outcome_value(*outcome)),
{
    match outcome {
        Ok(_) => "ok".to_owned(),
        Err(e) => {
            let mut s = "error: ".to_owned();
            let t = e.describe();
            s.append(t.as_str());
            s
        },
    }
}

/// What a finished run reports to its job: the archive's file name, or the error's text.
pub fn job_outcome(outcome: &Result<String, AppError>) -> (r: Result<String, String>)
    ensures
        match *outcome {
            Ok(f) => r matches Ok(m) && m@ == f@,
            Err(e) => r matches Err(m) && m@ == error_text(e),
        },
{
    match outcome {
        Ok(f) => Ok(f.clone()),
        Err(e) => Err(e.describe()),
    }
}

/// What follows a finished backup run: the schedule to record it on, with the status to
/// record, and the retention to prune that database's archives with.
#[derive(Debug)]
pub struct RunFollowUp {
    pub record: Option<(u128, String)>,
    pub prune_retention: Option<u32>,
}

/// What follows a scheduled run of `planned`: the run is always recorded on its schedule,
/// and the archives are pruned to the schedule's retention only after a successful run.
pub fn scheduled_follow_up(planned: &PlannedRun, outcome: &Result<String, AppError>) -> (r: RunFollowUp)
    ensures
        r.record matches Some((id, status)) && id == planned.schedule_id
            && status@ == run_status_text(outcome_value(*outcome)),
        r.prune_retention == (if outcome is Ok {
            Some(planned.retention)
        } else {
            None
        }),
{
    let status = run_status(outcome);
    let prune_retention = match outcome {
        Ok(_) => Some(planned.retention),
        Err(_) => None,
    };
    RunFollowUp { record: Some((planned.schedule_id, status)), prune_retention }
}

} // verus!
