use pitchfork::cli::logs::{legacy_dir_step, migrated_dir_name, DirStep};
use pitchfork::clock::{Moment, Stamp};
use pitchfork::collect::TextSet;
use pitchfork::daemon_id::DaemonId;
use pitchfork::log_store::archive::{
    archive_line, archive_runs, ArchiveStep, Archiving, HookRun,
};
use pitchfork::log_store::migration::{
    daemon_of_log_dir, header_of, removes_log, LegacyLine, LineReader, Migration, MigrationTally,
    BATCH,
};
use pitchfork::log_store::{ArchiveHook, LogEntry, StoreError};

fn entry(id: i64, message: &str) -> LogEntry {
    let moment = Moment::from_millis(1_700_000_000_000).unwrap();
    LogEntry {
        id,
        daemon_id: "a/x".to_string(),
        timestamp: Stamp::new(moment, 0).unwrap(),
        message: message.to_string(),
    }
}

fn hook(batch_size: usize) -> ArchiveHook {
    ArchiveHook {
        command: "cat".to_string(),
        batch_size,
    }
}

#[test]
fn entries_are_archived_as_json() {
    let line = archive_line(&entry(3, "say \"hi\"\n"));
    let value: serde_json::Value = serde_json::from_str(&line).unwrap();
    assert_eq!(value["id"], 3);
    assert_eq!(value["daemon_id"], "a/x");
    assert_eq!(value["timestamp"], "2023-11-14T22:13:20+00:00");
    assert_eq!(value["message"], "say \"hi\"\n");
    assert!(!line.contains('\n'));
}

#[test]
fn runs_hold_all_entries_in_order() {
    let entries: Vec<LogEntry> = (1..6).map(|i| entry(i, "m")).collect();
    let runs = archive_runs(&entries, &hook(2));
    assert_eq!(runs.iter().map(|r| r.len()).collect::<Vec<_>>(), vec![2, 2, 1]);
    let lines: Vec<String> = runs.into_iter().flatten().collect();
    let expected: Vec<String> = entries.iter().map(archive_line).collect();
    assert_eq!(lines, expected);
    assert_eq!(archive_runs(&entries, &hook(0)).len(), 5);
    assert!(archive_runs(&vec![], &hook(2)).is_empty());
}

#[test]
fn only_a_successful_hook_counts() {
    let error = || "broken pipe".to_string();
    let cases = vec![
        (
            HookRun::NotSpawned { error: error() },
            false,
            "failed to spawn archive hook: broken pipe",
        ),
        (
            HookRun::NotWritten { error: error() },
            true,
            "failed to write to archive hook stdin: broken pipe",
        ),
        (
            HookRun::NotFlushed { error: error() },
            true,
            "failed to flush archive hook stdin: broken pipe",
        ),
        (HookRun::NotAwaited { error: error() }, false, "broken pipe"),
        (
            HookRun::Ended {
                success: false,
                status: "exit status: 2".to_string(),
                stderr: "no space".to_string(),
            },
            false,
            "archive hook failed with status exit status: 2: no space",
        ),
    ];
    for (run, kill, message) in cases {
        assert_eq!(run.must_kill(), kill);
        assert_eq!(run.verdict().unwrap_err().message, message);
    }
    let ended = HookRun::Ended {
        success: true,
        status: "exit status: 0".to_string(),
        stderr: "warning".to_string(),
    };
    assert!(!ended.must_kill());
    assert!(ended.verdict().is_ok());
}

#[test]
fn legacy_lines_are_read() {
    let reader = LineReader::new().unwrap();
    match reader.read("2024-01-02 03:04:05 my-app.web hello world") {
        LegacyLine::Header { moment, message } => {
            assert!(moment.is_some());
            assert_eq!(message, "hello world");
        }
        other => panic!("{other:?}"),
    }
    assert!(matches!(reader.read("  at main.rs:3"), LegacyLine::Other));
    match reader.read("2024-13-45 03:04:05 app odd") {
        LegacyLine::Header { moment, .. } => assert!(moment.is_none()),
        other => panic!("{other:?}"),
    }
}

#[test]
fn groups_give_time_and_message() {
    let groups = vec![
        Some("all".to_string()),
        Some("time".to_string()),
        Some("id".to_string()),
        Some("text".to_string()),
    ];
    assert_eq!(
        header_of(Some(groups)),
        Some(("time".to_string(), "text".to_string()))
    );
    assert_eq!(header_of(None), None);
}

fn header(seconds: i64, message: &str) -> LegacyLine {
    LegacyLine::Header {
        moment: Moment::new(seconds, 0),
        message: message.to_string(),
    }
}

fn texts(entries: Vec<(Moment, String)>) -> Vec<(i64, String)> {
    entries.into_iter().map(|(m, s)| (m.millis(), s)).collect()
}

#[test]
fn continued_lines_belong_to_their_entry() {
    let mut migration = Migration::new();
    migration.feed(LegacyLine::Other, "lost");
    migration.feed(header(1, "first"), "");
    migration.feed(LegacyLine::Other, "  more");
    migration.feed(header(2, "second"), "");
    assert!(migration.full_batch().is_none());
    assert_eq!(
        texts(migration.finish()),
        vec![
            (1000, "first\n  more".to_string()),
            (2000, "second".to_string())
        ]
    );
}

#[test]
fn lines_behind_a_bad_time_are_left_out() {
    let mut migration = Migration::new();
    migration.feed(header(1, "first"), "");
    migration.feed(
        LegacyLine::Header {
            moment: None,
            message: "odd".to_string(),
        },
        "",
    );
    migration.feed(LegacyLine::Other, "of odd");
    migration.feed(header(3, "third"), "");
    assert_eq!(
        texts(migration.finish()),
        vec![(1000, "first".to_string()), (3000, "third".to_string())]
    );
}

#[test]
fn full_batches_are_handed_out() {
    let mut migration = Migration::new();
    let mut all = vec![];
    for i in 0..(BATCH as i64 + 5) {
        migration.feed(header(i, "m"), "");
        if let Some(batch) = migration.full_batch() {
            assert_eq!(batch.len(), BATCH);
            all.extend(batch);
        }
    }
    all.extend(migration.finish());
    assert_eq!(all.len(), BATCH + 5);
    assert!(all.iter().enumerate().all(|(i, e)| e.0.millis() == 1000 * i as i64));
}

#[test]
fn log_dirs_name_daemons() {
    assert_eq!(
        daemon_of_log_dir("frontend--api").unwrap().qualified(),
        "frontend/api"
    );
    assert!(daemon_of_log_dir("pitchfork").is_none());
    assert!(daemon_of_log_dir("api").is_none());
    assert!(daemon_of_log_dir("global--pitchfork").is_none());
    assert!(daemon_of_log_dir("a--b--c").is_none());
}

#[test]
fn tally_reports_what_was_imported() {
    let mut tally = MigrationTally::new();
    assert_eq!(tally.report(), None);
    tally.note(&DaemonId::parse("a/x").unwrap(), 3);
    tally.note(&DaemonId::parse("a/q").unwrap(), 0);
    tally.note(&DaemonId::parse("b/y").unwrap(), 4);
    assert_eq!(
        tally.report().unwrap(),
        "auto-migrated 7 legacy log entries from 2 daemon(s): a/x, b/y"
    );
}

#[test]
fn a_directory_is_renamed_once() {
    let known = TextSet::new();
    let step = |name: &str| legacy_dir_step(name, &known, true, false);
    assert!(matches!(step("api"), DirStep::Rename));
    assert!(matches!(legacy_dir_step("api", &known, false, false), DirStep::Keep));
    assert!(matches!(legacy_dir_step("api", &known, true, true), DirStep::Keep));
    assert!(matches!(step("a b"), DirStep::WarnOfDaemon));
    let renamed = migrated_dir_name("api").unwrap();
    assert_eq!(renamed, "legacy--api");
    assert!(matches!(step(&renamed), DirStep::Keep));
    assert!(matches!(step("pitchfork"), DirStep::Keep));
    assert!(matches!(step("a--b--c"), DirStep::WarnOfName));
}

#[test]
fn failed_imports_do_not_stop_the_others() {
    let id = DaemonId::parse("a/x").unwrap();
    let mut tally = MigrationTally::new();
    let broken = Err(StoreError {
        message: "locked".to_string(),
    });
    assert_eq!(
        tally.note_answer(&id, broken).unwrap(),
        "failed to migrate text logs for a/x: locked"
    );
    assert!(tally.report().is_none());
    assert!(tally.note_answer(&id, Ok(2)).is_none());
    assert_eq!(tally.total, 2);
    assert!(removes_log(2) && !removes_log(0));
}

/// Archives entries, where the runs of the hook end as they are told; the sizes of the runs that
/// were made, and the error.
fn archive(count: i64, batch_size: usize, ends: Vec<bool>) -> (Vec<usize>, Option<String>) {
    let entries: Vec<LogEntry> = (0..count).map(|i| entry(i, "m")).collect();
    let mut made = vec![];
    let mut step = Archiving::new(&entries, &hook(batch_size)).step(None);
    loop {
        step = match step {
            ArchiveStep::Run { lines, rest } => {
                let success = ends[made.len()];
                made.push(lines.len());
                rest.step(Some(HookRun::Ended {
                    success,
                    status: "exit status: 1".to_string(),
                    stderr: "full".to_string(),
                }))
            }
            ArchiveStep::Done => return (made, None),
            ArchiveStep::Failed { error } => return (made, Some(error.message)),
        };
    }
}

#[test]
fn the_first_failed_run_ends_the_archiving() {
    assert_eq!(archive(5, 2, vec![true, true, true]), (vec![2, 2, 1], None));
    assert_eq!(
        archive(5, 2, vec![true, false, true]),
        (
            vec![2, 2],
            Some("archive hook failed with status exit status: 1: full".to_string())
        )
    );
    assert_eq!(archive(0, 2, vec![]), (vec![], None));
}

#[test]
fn runs_come_in_the_order_of_the_entries() {
    let entries = vec![entry(1, "a"), entry(2, "b")];
    match Archiving::new(&entries, &hook(1)).step(None) {
        ArchiveStep::Run { lines, .. } => assert_eq!(lines, vec![archive_line(&entries[0])]),
        other => panic!("{other:?}"),
    }
}
