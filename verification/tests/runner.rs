use mongodb_utils::backup::runner::{dump_failure_message, restore_failure_message, restore_outcome};
use mongodb_utils::handlers::backups::{sse_frame, HEARTBEAT};
use mongodb_utils::backup::jobs::ProgressUpdate;
use mongodb_utils::backup::runner::{
    archive_filename, backup_file_entry, parse_filename, parse_line, progress_for_line, prune_candidates,
    sanitize, sort_newest_first, split_archive_name, BackupRunner, ParsedLine, StderrTail,
};
use mongodb_utils::clock::{format_time, parse_time, Timestamp, STAMP_FORMAT};
use mongodb_utils::error::AppError;
use mongodb_utils::ids::{id_text, parse_id};

const ID: u128 = 0x550e8400e29b41d4a716446655440000;

#[test]
fn uuid_text_and_parse() {
    assert_eq!(id_text(ID), "550e8400-e29b-41d4-a716-446655440000");
    assert_eq!(parse_id("550e8400-e29b-41d4-a716-446655440000"), Some(ID));
    assert_eq!(parse_id("550E8400E29B41D4A716446655440000"), Some(ID));
    assert_eq!(parse_id("not-a-uuid"), None);
}

#[test]
fn compact_stamps() {
    assert_eq!(format_time(0, STAMP_FORMAT), "19700101T000000Z");
    assert_eq!(format_time(1_700_000_000, STAMP_FORMAT), "20231114T221320Z");
    assert_eq!(parse_time("20231114T221320Z", STAMP_FORMAT), Some((1_700_000_000, 0)));
    assert_eq!(parse_time("2023-11-14", STAMP_FORMAT), None);
}

#[test]
fn sanitize_replaces_unsafe_characters() {
    assert_eq!(sanitize("my db/1.x"), "my_db_1_x");
    assert_eq!(sanitize("ok-Name_9"), "ok-Name_9");
    assert_eq!(sanitize("é"), "_");
}

#[test]
fn archive_names_read_back() {
    let stamp = format_time(1_700_000_000, STAMP_FORMAT);
    let name = archive_filename(ID, "my shop", &stamp);
    assert_eq!(name, "550e8400-e29b-41d4-a716-446655440000__my_shop__20231114T221320Z.archive.gz");
    let (a, b, c) = split_archive_name(&name).unwrap();
    assert_eq!(a, "550e8400-e29b-41d4-a716-446655440000");
    assert_eq!(b, "my_shop");
    assert_eq!(c, "20231114T221320Z");
    let (id, db, ts) = parse_filename(&name);
    assert_eq!(id, Some(ID));
    assert_eq!(db.as_deref(), Some("my_shop"));
    assert_eq!(ts, Some(Timestamp { secs: 1_700_000_000, nanos: 0 }));
}

#[test]
fn parse_filename_of_other_names() {
    assert_eq!(parse_filename("random.archive.gz"), (None, None, None));
    assert_eq!(parse_filename("a__b__c__d.archive.gz"), (None, None, None));
    let (id, db, ts) = parse_filename("x__db__y.archive.gz");
    assert_eq!(id, None);
    assert_eq!(db.as_deref(), Some("db"));
    assert_eq!(ts, None);
    // without the ending, the whole name is split
    assert!(split_archive_name("a__b__c").is_some());
}

#[test]
fn resolve_rejects_escaping_names() {
    let r = BackupRunner::new("/var/backups".to_string());
    for bad in ["", "../x.archive.gz", "a/b.archive.gz", "a\\b.archive.gz", "a..b.archive.gz"] {
        match r.resolve(bad) {
            Err(AppError::BadRequest(m)) => assert_eq!(m, "invalid filename"),
            other => panic!("unexpected {other:?}"),
        }
    }
    match r.resolve("x.tar") {
        Err(AppError::BadRequest(m)) => assert_eq!(m, "not an archive filename"),
        other => panic!("unexpected {other:?}"),
    }
    assert_eq!(r.resolve("x.archive.gz").unwrap(), "/var/backups/x.archive.gz");
    let r2 = BackupRunner::new("/srv/dir/".to_string());
    assert_eq!(r2.resolve("x.archive.gz").unwrap(), "/srv/dir/x.archive.gz");
    let r3 = BackupRunner::new("/".to_string());
    assert_eq!(r3.resolve("x.archive.gz").unwrap(), "/x.archive.gz");
    assert_eq!(r.backup_dir(), "/var/backups");
}

#[test]
fn dump_and_restore_arguments() {
    let r = BackupRunner::new("/b".to_string());
    let p = r.dump_plan_at("mongodb://h", "shop", ID, "20231114T221320Z");
    assert_eq!(p.filename, "550e8400-e29b-41d4-a716-446655440000__shop__20231114T221320Z.archive.gz");
    assert_eq!(p.path, format!("/b/{}", p.filename));
    assert_eq!(
        p.args,
        vec![
            "--uri=mongodb://h".to_string(),
            "--db=shop".to_string(),
            format!("--archive={}", p.path),
            "--gzip".to_string()
        ]
    );
    let live = r.dump_plan("mongodb://h", "shop", ID);
    assert!(live.filename.starts_with("550e8400-e29b-41d4-a716-446655440000__shop__"));
    assert!(live.filename.ends_with("Z.archive.gz"));
    assert_eq!(live.path, format!("/b/{}", live.filename));
    assert!(!live.filename.contains('/'));
    assert_eq!(
        r.restore_args("mongodb://h", "/b/a.archive.gz", None, false),
        vec!["--uri=mongodb://h", "--archive=/b/a.archive.gz", "--gzip"]
    );
    assert_eq!(
        r.restore_args("mongodb://h", "/b/a.archive.gz", Some("shop"), true),
        vec!["--uri=mongodb://h", "--archive=/b/a.archive.gz", "--gzip", "--drop", "--nsInclude=shop.*"]
    );
}

#[test]
fn dump_output_lines() {
    match parse_line("2026-01-01T00:00:00.000+0000\twriting mydb.users to archive 'foo'") {
        Some(ParsedLine::Writing(n)) => assert_eq!(n, "mydb.users"),
        other => panic!("unexpected {other:?}"),
    }
    assert!(matches!(
        parse_line("2026-01-01T00:00:00.000+0000\tdone dumping mydb.users (4218 documents)"),
        Some(ParsedLine::Done)
    ));
    assert!(parse_line("2026-01-01T00:00:00.000+0000\tdone dumping mydb (5 collections)").is_none());
    assert!(parse_line("writing nodot to archive").is_none());
    assert!(parse_line("hello").is_none());
}

#[test]
fn progress_from_lines() {
    match progress_for_line("x\twriting a.b to archive") {
        Some(ProgressUpdate::Writing { collection, log }) => {
            assert_eq!(collection, "a.b");
            assert_eq!(log, "x\twriting a.b to archive");
        }
        other => panic!("unexpected {other:?}"),
    }
    assert!(matches!(progress_for_line("done dumping a.b (1 document)"), Some(ProgressUpdate::Done { .. })));
    assert!(matches!(progress_for_line("Failed: connection refused"), Some(ProgressUpdate::Log { .. })));
    assert!(matches!(progress_for_line("dumping users"), Some(ProgressUpdate::Log { .. })));
    assert!(progress_for_line("nothing to see").is_none());
    let long = format!("{}error", "x".repeat(300));
    match progress_for_line(&long) {
        Some(ProgressUpdate::Log { log }) => {
            assert_eq!(log.len(), 240);
            assert!(log.ends_with("error"));
        }
        other => panic!("unexpected {other:?}"),
    }
}

#[test]
fn stderr_tail_keeps_last_lines() {
    let mut t = StderrTail::new();
    assert_eq!(t.summary(), "");
    t.push("one".to_string());
    assert_eq!(t.summary(), "one");
    for i in 0..205 {
        t.push(format!("l{i}"));
    }
    let expected: Vec<String> = (195..205).map(|i| format!("l{i}")).collect();
    assert_eq!(t.summary(), expected.join(" | "));
}

fn entry(name: &str) -> mongodb_utils::backup::runner::BackupFile {
    backup_file_entry(name, 10)
}

#[test]
fn archives_sort_newest_first_and_prune() {
    let id = id_text(ID);
    let names: Vec<String> = ["20230101T000000Z", "20230301T000000Z", "20230201T000000Z", "20230401T000000Z"]
        .iter()
        .map(|s| format!("{id}__shop__{s}.archive.gz"))
        .collect();
    let mut files: Vec<_> = names.iter().map(|n| entry(n)).collect();
    files.push(entry(&format!("{id}__other__20230501T000000Z.archive.gz")));
    files.push(entry("unrelated.archive.gz"));
    let sorted = sort_newest_first(&files);
    assert_eq!(sorted[0].filename, "unrelated.archive.gz");
    assert_eq!(sorted[1].filename, names[3]);
    let (ordered, doomed) = prune_candidates(&files, ID, "shop", 2);
    assert_eq!(ordered.len(), 4);
    assert_eq!(ordered[0].filename, names[3]);
    assert_eq!(doomed, vec![names[2].clone(), names[0].clone()]);
    let (_, none) = prune_candidates(&files, ID, "shop", 10);
    assert!(none.is_empty());
    let e = entry(&names[0]);
    assert_eq!(e.connection_id, Some(ID));
    assert_eq!(e.database.as_deref(), Some("shop"));
    assert_eq!(e.created_at.map(|t| t.secs), Some(1_672_531_200));
    assert_eq!(e.size_bytes, 10);
}

#[test]
fn prune_matches_the_safe_database_name() {
    let r = BackupRunner::new("/b".to_string());
    let stamps = ["20230101T000000Z", "20230201T000000Z", "20230301T000000Z"];
    let names: Vec<String> = stamps.iter().map(|s| r.dump_plan_at("mongodb://h", "my+db", ID, s).filename).collect();
    assert_eq!(names[0], format!("{}__my_db__20230101T000000Z.archive.gz", id_text(ID)));
    let files: Vec<_> = names.iter().map(|n| entry(n)).collect();
    let (ordered, doomed) = prune_candidates(&files, ID, "my+db", 1);
    assert_eq!(ordered.len(), 3);
    assert_eq!(doomed, vec![names[1].clone(), names[0].clone()]);
}

#[test]
fn failure_messages() {
    let mut t = StderrTail::new();
    t.push("a".to_string());
    t.push("b".to_string());
    assert_eq!(dump_failure_message(Some(1), &t), "mongodump failed (exit Some(1)): a | b");
    assert_eq!(dump_failure_message(None, &t), "mongodump failed (exit None): a | b");
    assert_eq!(restore_failure_message(Some(-12), "  bad archive \n"), "mongorestore failed (exit Some(-12)): bad archive");
    for code in [Some(0), Some(7), Some(255), Some(1_000_000), Some(i32::MIN), Some(i32::MAX), None] {
        assert_eq!(restore_failure_message(code, ""), format!("mongorestore failed (exit {code:?}): "));
    }
    assert_eq!(mongodb_utils::text::usize_text(0), "0");
    assert_eq!(mongodb_utils::text::usize_text(1_234_567_890), "1234567890");
    assert_eq!(restore_outcome(&Ok(()), "x.archive.gz"), Ok("restored from x.archive.gz".to_string()));
    assert_eq!(restore_outcome(&Ok(()), "upload"), Ok("restored from upload".to_string()));
    assert_eq!(restore_outcome(&Err(AppError::NotFound), "x"), Err("not found".to_string()));
}

#[test]
fn server_sent_events() {
    assert_eq!(sse_frame("{\"a\":1}"), "data: {\"a\":1}\n\n");
    assert_eq!(HEARTBEAT, ":hb\n\n");
}

#[test]
fn new_ids_are_random_uuids() {
    for _ in 0..8 {
        let id = mongodb_utils::ids::new_id();
        assert_eq!((id >> 76) & 0xf, 4);
        assert_eq!((id >> 62) & 0x3, 2);
    }
}
