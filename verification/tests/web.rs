use pitchfork::clock::{Moment, Stamp};
use pitchfork::daemon_id::DaemonId;
use pitchfork::daemon_status::DaemonStatus;
use pitchfork::log_store::LogEntry;
use pitchfork::web::stats::{ApiStats, StateDaemon, SystemStats};
use pitchfork::web::tail::{
    batch_query, generation_of, history, history_query, requested_daemon, Cursor, PollStep,
    StreamKind, TailQuery, TailRefusal,
};

fn id(text: &str) -> DaemonId {
    DaemonId::parse(text).unwrap()
}

fn entry(row: i64, message: &str) -> LogEntry {
    LogEntry {
        id: row,
        daemon_id: "a/x".to_string(),
        timestamp: Stamp::new(Moment::new(1_700_000_000, 0).unwrap(), 0).unwrap(),
        message: message.to_string(),
    }
}

#[test]
fn clients_ask_for_lines() {
    assert_eq!(TailQuery { lines: None }.history_lines(), 100);
    assert_eq!(TailQuery { lines: Some(7) }.history_lines(), 7);
    assert_eq!(requested_daemon("a/x").unwrap().qualified(), "a/x");
    let refusal = requested_daemon("x").unwrap_err();
    assert_eq!(refusal.status(), 400);
    assert_eq!(refusal.body(), "invalid daemon id");
}

#[test]
fn failed_queries_are_answered() {
    let failed = TailRefusal::QueryFailed("locked".to_string());
    assert_eq!(failed.status(), 404);
    assert_eq!(failed.body(), "failed to query logs: locked");
    assert_eq!(TailRefusal::QueryAborted.status(), 500);
    assert_eq!(TailRefusal::QueryAborted.body(), "log query failed");
}

#[test]
fn history_comes_oldest_first() {
    let query = history_query(&id("a/x"), 5);
    assert_eq!(query.limit, Some(5));
    assert!(query.order_desc);
    let got = history(&vec![entry(9, "new"), entry(8, "\x1b[1mold")]);
    assert_eq!(
        got.lines,
        vec!["2023-11-14 22:13:20 \x1b[1mold", "2023-11-14 22:13:20 new"]
    );
    assert_eq!(got.cursor, 9);
    assert_eq!(history(&vec![]).cursor, 0);
}

#[test]
fn polls_go_on_behind_the_last_row() {
    let mut cursor = Cursor::new(9, generation_of(None));
    assert!(matches!(cursor.look(0), PollStep::Ask(9)));
    let query = batch_query(&id("a/x"), 9);
    assert_eq!(query.after_id, Some(9));
    assert_eq!(query.limit, Some(500));
    assert!(!query.order_desc);
    let entries = vec![entry(10, "\x1b[31mred\x1b[0m"), entry(12, "more")];
    assert_eq!(
        cursor.batch(&entries, StreamKind::Stripped),
        vec!["2023-11-14 22:13:20 red", "2023-11-14 22:13:20 more"]
    );
    assert!(matches!(cursor.look(0), PollStep::Ask(12)));
    assert!(cursor.batch(&vec![], StreamKind::Raw).is_empty());
    assert_eq!(cursor.last_id, 12);
}

#[test]
fn a_cleared_log_starts_anew() {
    let mut cursor = Cursor::new(9, generation_of(Some(1)));
    assert!(matches!(cursor.look(2), PollStep::Cleared));
    assert!(matches!(cursor.look(2), PollStep::Ask(0)));
    assert_eq!(cursor.batch(&vec![entry(1, "first")], StreamKind::Raw).len(), 1);
    assert!(matches!(cursor.look(2), PollStep::Ask(1)));
}

fn daemon(name: &str, status: DaemonStatus, config_registered: bool) -> StateDaemon {
    StateDaemon {
        id: id(name),
        status,
        config_registered,
    }
}

#[test]
fn daemons_are_counted() {
    let state = vec![
        daemon("global/pitchfork", DaemonStatus::Running, false),
        daemon("a/run", DaemonStatus::Running, false),
        daemon("a/stop", DaemonStatus::Stopped, false),
        daemon("a/err", DaemonStatus::Errored, false),
        daemon("a/wait", DaemonStatus::Waiting, false),
        daemon("a/cron", DaemonStatus::Stopped, true),
    ];
    let config = vec![id("a/run"), id("a/new"), id("a/cron")];
    let system = SystemStats {
        process_count: 42,
        cpu_count: 8,
        total_memory: 17_179_869_184,
    };
    assert_eq!(
        ApiStats::count(&state, &config, system),
        ApiStats {
            process_count: 42,
            cpu_count: 8,
            total_memory: 17_179_869_184,
            total: 6,
            running: 1,
            stopped: 1,
            errored: 1,
            available: 2
        }
    );
    assert_eq!(ApiStats::count(&vec![], &vec![], system), ApiStats::none(system));
}
