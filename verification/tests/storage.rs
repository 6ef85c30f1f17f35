use mongodb_utils::error::AppError;
use mongodb_utils::storage::connections::{ConnectionStore, ConnectionsFile};
use mongodb_utils::storage::schedules::{ScheduleInput, ScheduleStore, SchedulesFile};
use mongodb_utils::storage::users::{UserStore, UsersFile};
use mongodb_utils::clock::Timestamp;

fn conns() -> ConnectionStore {
    ConnectionStore(ConnectionsFile { connections: Vec::new() })
}

fn scheds() -> ScheduleStore {
    ScheduleStore(SchedulesFile { schedules: Vec::new() })
}

fn input(conn: u128, db: &str, interval: u32, retention: u32, enabled: bool) -> ScheduleInput {
    ScheduleInput { connection_id: conn, database: db.to_string(), interval_minutes: interval, retention, enabled }
}

#[test]
fn connection_create_get_list() {
    let mut s = conns();
    let c = s.create("Prod".to_string(), "mongodb://h".to_string()).unwrap();
    assert_eq!(c.label, "Prod");
    assert_eq!(c.uri, "mongodb://h");
    let got = s.get(c.id).unwrap();
    assert_eq!(got.label, "Prod");
    assert_eq!(s.list().len(), 1);
    assert!(s.get(c.id.wrapping_add(1)).is_none());
}

#[test]
fn connection_labels_are_unique_ignoring_ascii_case() {
    let mut s = conns();
    s.create("Prod".to_string(), "mongodb://a".to_string()).unwrap();
    match s.create("pROD".to_string(), "mongodb://b".to_string()) {
        Err(AppError::Conflict(m)) => assert_eq!(m, "connection label already exists"),
        other => panic!("unexpected {other:?}"),
    }
    assert_eq!(s.list().len(), 1);
    s.create("Staging".to_string(), "mongodb://b".to_string()).unwrap();
    assert_eq!(s.list().len(), 2);
}

#[test]
fn connection_update_rules() {
    let mut s = conns();
    let a = s.create("A".to_string(), "mongodb://a".to_string()).unwrap();
    let b = s.create("B".to_string(), "mongodb://b".to_string()).unwrap();
    // keeping its own label is fine
    let a2 = s.update(a.id, "a".to_string(), "mongodb://a2".to_string()).unwrap();
    assert_eq!(a2.label, "a");
    assert_eq!(a2.uri, "mongodb://a2");
    assert_eq!(a2.id, a.id);
    assert_eq!(a2.created_at, a.created_at);
    // another connection's label is not
    assert!(matches!(s.update(b.id, "A".to_string(), "mongodb://x".to_string()), Err(AppError::Conflict(_))));
    assert_eq!(s.get(b.id).unwrap().uri, "mongodb://b");
    assert!(matches!(s.update(999, "Z".to_string(), "mongodb://z".to_string()), Err(AppError::NotFound)));
}

#[test]
fn connection_delete() {
    let mut s = conns();
    let a = s.create("A".to_string(), "mongodb://a".to_string()).unwrap();
    let b = s.create("B".to_string(), "mongodb://b".to_string()).unwrap();
    s.delete(a.id).unwrap();
    assert!(s.get(a.id).is_none());
    assert!(s.get(b.id).is_some());
    assert!(matches!(s.delete(a.id), Err(AppError::NotFound)));
    assert_eq!(s.list().len(), 1);
}

#[test]
fn schedule_upsert_inserts_then_updates() {
    let mut s = scheds();
    let x = s.upsert(input(1, "shop", 60, 3, true)).unwrap();
    assert_eq!(x.interval_minutes, 60);
    assert!(x.last_run_at.is_none());
    assert!(x.last_status.is_none());
    let y = s.upsert(input(1, "shop", 30, 5, false)).unwrap();
    assert_eq!(y.id, x.id);
    assert_eq!(y.interval_minutes, 30);
    assert_eq!(y.retention, 5);
    assert!(!y.enabled);
    assert_eq!(s.list().len(), 1);
    let z = s.upsert(input(1, "Shop", 30, 5, true)).unwrap();
    assert_ne!(z.id, x.id);
    assert_eq!(s.list().len(), 2);
}

#[test]
fn schedule_input_errors() {
    let mut s = scheds();
    for (inp, msg) in [
        (input(1, "  ", 1, 1, true), "database is required"),
        (input(1, "db", 0, 1, true), "interval_minutes must be > 0"),
        (input(1, "db", 1, 0, true), "retention must be > 0"),
    ] {
        match s.upsert(inp) {
            Err(AppError::BadRequest(m)) => assert_eq!(m, msg),
            other => panic!("unexpected {other:?}"),
        }
    }
    assert!(s.list().is_empty());
}

#[test]
fn schedule_delete_record_run() {
    let mut s = scheds();
    let a = s.upsert(input(1, "a", 5, 1, true)).unwrap();
    let b = s.upsert(input(2, "b", 5, 1, true)).unwrap();
    let c = s.upsert(input(1, "c", 5, 1, true)).unwrap();
    let when = Timestamp { secs: 1_700_000_000, nanos: 5 };
    s.record_run(b.id, when, "ok".to_string()).unwrap();
    let got = s.get(b.id).unwrap();
    assert_eq!(got.last_run_at, Some(when));
    assert_eq!(got.last_status.as_deref(), Some("ok"));
    assert!(matches!(s.record_run(777, when, "ok".to_string()), Err(AppError::NotFound)));
    s.delete(b.id).unwrap();
    assert!(matches!(s.delete(b.id), Err(AppError::NotFound)));
    s.delete_for_connection(1);
    assert!(s.get(a.id).is_none());
    assert!(s.get(c.id).is_none());
    assert!(s.list().is_empty());
}

#[test]
fn users_create_and_find() {
    let mut s = UserStore(UsersFile { users: Vec::new() });
    assert!(s.is_empty());
    let u = s.create("Admin".to_string(), "hash".to_string(), true).unwrap();
    assert!(!s.is_empty());
    assert_eq!(s.find_by_username("aDMIN").unwrap().id, u.id);
    assert_eq!(s.find_by_id(u.id).unwrap().username, "Admin");
    assert!(s.find_by_username("other").is_none());
    assert!(s.find_by_id(u.id.wrapping_add(1)).is_none());
    match s.create("ADMIN".to_string(), "h2".to_string(), false) {
        Err(AppError::Conflict(m)) => assert_eq!(m, "username already exists"),
        other => panic!("unexpected {other:?}"),
    }
}

#[test]
fn schedule_upsert_then_get_finds_it() {
    let mut s = scheds();
    let x = s.upsert(input(3, "crm", 15, 2, true)).unwrap();
    let got = s.get(x.id).unwrap();
    assert_eq!((got.connection_id, got.database.as_str(), got.interval_minutes, got.retention, got.enabled), (3, "crm", 15, 2, true));
    let y = s.upsert(input(3, "crm", 45, 7, false)).unwrap();
    let got = s.get(y.id).unwrap();
    assert_eq!((got.id, got.interval_minutes, got.retention, got.enabled), (x.id, 45, 7, false));
}
