//! Manual backup runs.
use vstd::prelude::*;
use crate::backup::scheduler::{outcome_value, run_status, run_status_text, RunFollowUp};
use crate::error::AppError;
use crate::storage::schedules::{schedule_index, ScheduleStore};

verus! {

/// A manual backup as a client asks for it; linked to a schedule if `schedule_id` is
/// given (the run is then recorded on it and its retention applied).
#[derive(Debug)]
pub struct RunInput {
    pub connection_id: u128,
    pub database: String,
    pub schedule_id: Option<u128>,
}


/// The keep-alive comment sent on the job stream.
pub const HEARTBEAT: &'static str = ":hb\n\n";

/// One server-sent event carrying `payload`: `data: {payload}` and a blank line.
pub fn sse_frame(payload: &str) -> (f: String)
    ensures
        f@ == "data: "@ + payload@ + "\n\n"@,
{
    let mut f = "data: ".to_owned();
    f.append(payload);
    f.append("\n\n");
    f
}

/// What follows a manual run linked to `schedule_id`: with a schedule id the run is
/// recorded on that schedule, and after a successful run the archives are pruned to the
/// retention of that schedule, if it exists. Without one nothing follows.
pub fn manual_follow_up(schedule_id: Option<u128>, outcome: &Result<String, AppError>, schedules: &ScheduleStore) -> (r: RunFollowUp)
    ensures
        match schedule_id {
            None => r.record is None && r.prune_retention is None,
            Some(id) => {
                &&& r.record matches Some((k, status)) && k == id && status@ == run_status_text(outcome_value(*outcome))
                &&& r.prune_retention == (if outcome is Ok {
                    match schedule_index(schedules@, id, 0) {
                        Some(i) => Some(schedules@[i].retention),
                        None => None,
                    }
                } else {
                    None
                })
            },
        },
{
    match schedule_id {
        None => RunFollowUp { record: None, prune_retention: None },
        Some(id) => {
            let status = run_status(outcome);
            let prune_retention = match outcome {
                Ok(_) => match schedules.get(id) {
                    Some(s) => Some(s.retention),
                    None => None,
                },
                Err(_) => None,
            };
            RunFollowUp { record: Some((id, status)), prune_retention }
        },
    }
}

} // verus!
