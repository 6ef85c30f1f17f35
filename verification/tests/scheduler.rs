use mongodb_utils::backup::scheduler::{is_due, job_outcome, plan_due, run_status};
use mongodb_utils::clock::Timestamp;
use mongodb_utils::error::AppError;
use mongodb_utils::storage::connections::{ConnectionStore, ConnectionsFile};
use mongodb_utils::storage::schedules::{Schedule, ScheduleInput, ScheduleStore, SchedulesFile};

fn ts(secs: i64) -> Timestamp {
    Timestamp { secs, nanos: 0 }
}

#[test]
fn due_after_interval() {
    assert!(is_due(ts(100), None, 5));
    assert!(!is_due(ts(1000 + 299), Some(ts(1000)), 5));
    assert!(is_due(ts(1000 + 300), Some(ts(1000)), 5));
    assert!(!is_due(Timestamp { secs: 1300, nanos: 0 }, Some(Timestamp { secs: 1000, nanos: 1 }), 5));
    // a run that just happened is not due again
    assert!(!is_due(ts(1000), Some(ts(1000)), 1));
}

#[test]
fn plans_enabled_due_schedules_with_connections() {
    let mut conns = ConnectionStore(ConnectionsFile { connections: Vec::new() });
    let c = conns.create("Main".to_string(), "mongodb://m".to_string()).unwrap();
    let mut s = ScheduleStore(SchedulesFile { schedules: Vec::new() });
    let mk = |s: &mut ScheduleStore, conn: u128, db: &str, enabled: bool| -> Schedule {
        s.upsert(ScheduleInput { connection_id: conn, database: db.to_string(), interval_minutes: 10, retention: 3, enabled })
            .unwrap()
    };
    let due = mk(&mut s, c.id, "a", true);
    let off = mk(&mut s, c.id, "b", false);
    let recent = mk(&mut s, c.id, "c", true);
    let orphan = mk(&mut s, c.id.wrapping_add(1), "d", true);
    s.record_run(recent.id, ts(1_000_000), "ok".to_string()).unwrap();
    let plan = plan_due(&s.list(), &conns, ts(1_000_060));
    assert_eq!(plan.runs.len(), 1);
    assert_eq!(plan.runs[0].schedule_id, due.id);
    assert_eq!(plan.runs[0].database, "a");
    assert_eq!(plan.runs[0].retention, 3);
    assert_eq!(plan.runs[0].connection_id, c.id);
    assert_eq!(plan.runs[0].connection_label, "Main");
    assert_eq!(plan.runs[0].uri, "mongodb://m");
    assert_eq!(plan.orphaned, vec![orphan.id]);
    let _ = off;
    let later = plan_due(&s.list(), &conns, ts(1_000_600));
    assert_eq!(later.runs.len(), 2);
}

#[test]
fn run_outcomes() {
    assert_eq!(run_status(&Ok("f.archive.gz".to_string())), "ok");
    assert_eq!(run_status(&Err(AppError::Internal("mongodump failed".to_string()))), "error: mongodump failed");
    assert_eq!(run_status(&Err(AppError::NotFound)), "error: not found");
    assert_eq!(job_outcome(&Ok("f.archive.gz".to_string())), Ok("f.archive.gz".to_string()));
    assert_eq!(job_outcome(&Err(AppError::Io("disk full".to_string()))), Err("io error: disk full".to_string()));
    assert_eq!(AppError::Unauthorized.describe(), "unauthorized");
    assert_eq!(AppError::Multipart("eof".to_string()).describe(), "multipart error: eof");
    assert_eq!(AppError::Conflict("c".to_string()).describe(), "c");
    assert_eq!(AppError::BadRequest("b".to_string()).describe(), "b");
}
