use mongodb_utils::backup::jobs::{JobRegistry, JobKind, JobSource, JobState, ProgressUpdate, MAX_HISTORY};

fn start(h: &mut JobRegistry, db: &str) -> u128 {
    h.start(JobKind::Backup, Some(7), "main".to_string(), db.to_string(), JobSource::Manual).id
}

#[test]
fn started_job_is_listed_first_and_running() {
    let mut h = JobRegistry::new();
    let a = start(&mut h, "a");
    let b = start(&mut h, "b");
    let list = h.list();
    assert_eq!(list.len(), 2);
    assert_eq!(list[0].id, b);
    assert_eq!(list[1].id, a);
    assert_eq!(list[0].state, JobState::Running);
    assert_eq!(list[0].database, "b");
    assert_eq!(list[0].connection_label, "main");
    assert_eq!(list[0].connection_id, Some(7));
    assert_eq!(list[0].kind, JobKind::Backup);
    assert_eq!(list[0].source, JobSource::Manual);
    assert!(list[0].finished_at.is_none());
    assert!(list[0].message.is_none());
    assert_eq!(list[0].progress.collections_done, 0);
}

#[test]
fn history_keeps_at_most_fifty_finished_jobs() {
    let mut h = JobRegistry::new();
    let mut ids = Vec::new();
    for i in 0..60 {
        let id = start(&mut h, &format!("db{i}"));
        h.finish(id, Ok(format!("file{i}"))).unwrap();
        ids.push(id);
    }
    // trimming happens when a job starts
    let running = start(&mut h, "live");
    let list = h.list();
    assert_eq!(list.len(), MAX_HISTORY + 1);
    assert_eq!(list[0].id, running);
    // the newest finished jobs stay, newest first
    for (k, job) in list[1..].iter().enumerate() {
        assert_eq!(job.id, ids[59 - k]);
        assert_eq!(job.state, JobState::Succeeded);
    }
}

#[test]
fn running_jobs_are_never_dropped() {
    let mut h = JobRegistry::new();
    let mut running = Vec::new();
    for i in 0..5 {
        running.push(start(&mut h, &format!("r{i}")));
    }
    for i in 0..70 {
        let id = start(&mut h, &format!("f{i}"));
        h.finish(id, Err("boom".to_string())).unwrap();
    }
    start(&mut h, "last");
    let list = h.list();
    let finished = list.iter().filter(|j| j.state != JobState::Running).count();
    assert_eq!(finished, 50);
    for id in running {
        assert!(list.iter().any(|j| j.id == id && j.state == JobState::Running));
    }
}

#[test]
fn finish_records_outcome() {
    let mut h = JobRegistry::new();
    let a = start(&mut h, "a");
    let b = start(&mut h, "b");
    let ja = h.finish(a, Ok("x.archive.gz".to_string())).unwrap();
    assert_eq!(ja.state, JobState::Succeeded);
    assert_eq!(ja.message.as_deref(), Some("x.archive.gz"));
    assert!(ja.finished_at.is_some());
    let jb = h.finish(b, Err("failed".to_string())).unwrap();
    assert_eq!(jb.state, JobState::Failed);
    assert_eq!(jb.message.as_deref(), Some("failed"));
    assert!(h.finish(12345, Ok(String::new())).is_none());
    assert_eq!(h.list().len(), 2);
}

#[test]
fn progress_updates_apply_to_running_jobs_only() {
    let mut h = JobRegistry::new();
    let a = start(&mut h, "a");
    let j = h
        .update_progress(a, ProgressUpdate::Writing { collection: "db.users".to_string(), log: "l1".to_string() })
        .unwrap();
    assert_eq!(j.progress.current_collection.as_deref(), Some("db.users"));
    assert_eq!(j.progress.last_log.as_deref(), Some("l1"));
    let j = h.update_progress(a, ProgressUpdate::Done { log: "l2".to_string() }).unwrap();
    assert_eq!(j.progress.collections_done, 1);
    assert!(j.progress.current_collection.is_none());
    assert_eq!(j.progress.last_log.as_deref(), Some("l2"));
    let j = h.update_progress(a, ProgressUpdate::Log { log: "l3".to_string() }).unwrap();
    assert_eq!(j.progress.collections_done, 1);
    assert_eq!(j.progress.last_log.as_deref(), Some("l3"));
    h.finish(a, Ok("done".to_string()));
    assert!(h.update_progress(a, ProgressUpdate::Log { log: "late".to_string() }).is_none());
    assert_eq!(h.list()[0].progress.last_log.as_deref(), Some("l3"));
    assert!(h.update_progress(999, ProgressUpdate::Log { log: "x".to_string() }).is_none());
}

#[test]
fn done_counter_saturates() {
    let mut h = JobRegistry::new();
    let a = start(&mut h, "a");
    h.jobs[0].progress.collections_done = u32::MAX;
    let j = h.update_progress(a, ProgressUpdate::Done { log: "l".to_string() }).unwrap();
    assert_eq!(j.progress.collections_done, u32::MAX);
}
