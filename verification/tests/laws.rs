use pitchfork::cli::follow::{next_cursor, poll_query};
use pitchfork::clock::{Moment, Stamp};
use pitchfork::daemon_id::DaemonId;
use pitchfork::error::{
    ConfigParseError, DaemonIdError, DependencyError, Failure, FileError, IpcError, MultipleErrors,
    PortError, TomlFailure,
};
use pitchfork::log_store::rotation::{excess_entries, BatchRotation};
use pitchfork::log_store::{LogEntry, StoreError};
use pitchfork::supervisor::cron::{
    daemons_to_register, stale_daemons, ConfiguredDaemon, KnownDaemon,
};
use pitchfork::web::tail::{batch_query, Cursor, PollStep, StreamKind};

fn id(text: &str) -> DaemonId {
    DaemonId::parse(text).unwrap()
}

fn entry(row: i64) -> LogEntry {
    LogEntry {
        id: row,
        daemon_id: "a/x".to_string(),
        timestamp: Stamp::new(Moment::new(row, 0).unwrap(), 0).unwrap(),
        message: row.to_string(),
    }
}

/// Runs a rotation over entries that are numbered by age, and gives those that it archived and
/// those that it left.
fn rotate(mut rotation: BatchRotation, mut entries: Vec<u32>) -> (Vec<u32>, Vec<u32>, u64) {
    let mut archived = vec![];
    loop {
        let n = rotation.limit().min(entries.len());
        if n == 0 {
            return (archived, entries, rotation.total());
        }
        archived.extend(entries.drain(..n));
        rotation.batch_deleted(n, n as u64);
    }
}

#[test]
fn a_failed_run_ends_the_rotation() {
    let mut rotation = BatchRotation::by_age(2);
    let mut entries: Vec<LogEntry> = (1..=5).map(entry).collect();
    for verdict in [Ok(()), Err(StoreError { message: "full".to_string() })] {
        let n = rotation.limit().min(entries.len());
        let batch: Vec<LogEntry> = entries.drain(..n).collect();
        let failed = verdict.is_err();
        match rotation.archived(&batch, verdict) {
            Ok(ids) => {
                assert!(!failed);
                assert_eq!(ids, vec![1, 2]);
                rotation.batch_deleted(n, ids.len() as u64);
            }
            Err(e) => {
                assert!(failed);
                assert_eq!(e.message, "full");
                assert_eq!(batch[0].id, 3);
            }
        }
    }
    assert_eq!(rotation.total(), 2);
}

#[test]
fn count_rotation_keeps_the_newest() {
    for batch in [1, 3, 7, 100] {
        let to_delete = excess_entries(10, 4);
        let (archived, left, total) =
            rotate(BatchRotation::by_count(batch, to_delete), (0..10).collect());
        assert_eq!(archived, (0..6).collect::<Vec<u32>>());
        assert_eq!(left, vec![6, 7, 8, 9]);
        assert_eq!(total, 6);
    }
}

#[test]
fn age_rotation_leaves_none() {
    for batch in [1, 4, 100] {
        let (archived, left, total) = rotate(BatchRotation::by_age(batch), (0..9).collect());
        assert_eq!(archived, (0..9).collect::<Vec<u32>>());
        assert!(left.is_empty());
        assert_eq!(total, 9);
    }
}

#[test]
fn registration_is_settled_after_one_round() {
    let config = vec![
        ConfiguredDaemon {
            id: id("a/job"),
            cron: true,
            run: "echo hi".to_string(),
        },
        ConfiguredDaemon {
            id: id("a/web"),
            cron: false,
            run: "serve".to_string(),
        },
    ];
    let known = vec![KnownDaemon {
        id: id("a/old"),
        config_registered: true,
    }];
    let stale: Vec<String> = stale_daemons(&known, &config).iter().map(|d| d.qualified()).collect();
    let mut after: Vec<KnownDaemon> = known
        .into_iter()
        .filter(|k| !stale.contains(&k.id.qualified()))
        .collect();
    for new in daemons_to_register(&after, &config) {
        after.push(KnownDaemon {
            id: new.id,
            config_registered: true,
        });
    }
    assert_eq!(after.len(), 1);
    assert!(stale_daemons(&after, &config).is_empty());
    assert!(daemons_to_register(&after, &config).is_empty());
}

#[test]
fn every_entry_is_shown_once() {
    let log: Vec<i64> = (1..20).collect();
    let mut cursor = 0;
    let mut shown = vec![];
    for length in [3, 3, 8, 19] {
        let query = poll_query(&id("a/x"), cursor, vec![]);
        let after = query.after_id.unwrap();
        let entries: Vec<LogEntry> = log[..length]
            .iter()
            .filter(|row| **row > after)
            .map(|row| entry(*row))
            .collect();
        shown.extend(entries.iter().map(|e| e.id));
        cursor = next_cursor(cursor, &entries, false, None);
    }
    assert_eq!(shown, log);
}

#[test]
fn every_entry_is_streamed_once() {
    let log: Vec<i64> = (1..1300).collect();
    let mut cursor = Cursor::new(0, 0);
    let mut sent = 0;
    for _ in 0..5 {
        let PollStep::Ask(after) = cursor.look(0) else {
            panic!("nothing was cleared");
        };
        let limit = batch_query(&id("a/x"), after).limit.unwrap();
        let entries: Vec<LogEntry> = log
            .iter()
            .filter(|row| **row > after)
            .take(limit)
            .map(|row| entry(*row))
            .collect();
        sent += cursor.batch(&entries, StreamKind::Raw).len();
    }
    assert_eq!(sent, log.len());
    assert_eq!(cursor.last_id, 1299);
}

#[test]
fn errors_come_with_advice() {
    let advice = DaemonIdError::Empty.advice();
    assert_eq!(advice.code, "pitchfork::daemon::empty_id");
    assert_eq!(advice.url, Some("https://pitchfork.jdx.dev/configuration"));
    assert_eq!(
        advice.help.as_deref(),
        Some("provide a non-empty identifier for the daemon")
    );
    let found = DependencyError::DaemonNotFound {
        name: "db".to_string(),
        suggestion: Some("did you mean 'dbs'?".to_string()),
    };
    assert_eq!(found.advice().help.as_deref(), Some("did you mean 'dbs'?"));
    let port = PortError::NoAvailablePort {
        start_port: 1,
        attempts: 2,
    };
    assert_eq!(port.advice().code, "pitchfork::port::no_available_port");
    let written = FileError::WriteError {
        path: "p".to_string(),
        details: None,
    };
    assert_eq!(written.advice().help, None);
    let lost = IpcError::ConnectionFailed {
        attempts: 1,
        source: None,
        help: "start it".to_string(),
    };
    assert_eq!(lost.advice().help.as_deref(), Some("start it"));
    let toml = ConfigParseError::from_failure(
        "p",
        String::new(),
        TomlFailure {
            message: String::new(),
            span: None,
        },
    );
    assert_eq!(toml.advice().code, "pitchfork::config::parse_error");
    assert_eq!(
        Failure::Ipc(lost).advice().url,
        Some("https://pitchfork.jdx.dev/supervisor")
    );
    assert_eq!(
        MultipleErrors::new(vec![]).advice().code,
        "pitchfork::multiple_errors"
    );
}
