use std::cmp::Ordering;

use pitchfork::cli::follow::{
    first_cursor, last_row_id, line_order, logged_daemons, merge_lines, next_cursor, poll_query,
};
use pitchfork::cli::logs::{
    daemon_id_width, format_log_line, format_log_line_with, get_terminal_height, id_width,
    json_entries, known_safe_paths, line_of, lines_of, qualified_ids, should_use_pager, LineFormat,
    LogLine, Logs, LogsAction, LogsOutput, PagerConfig,
};
use pitchfork::cli::startup::{
    anchor_query, anchor_row, error_logs_block, ready_check_body, show_message, startup_line,
    startup_poll, startup_query, ErrorFormat, FollowEvent, FollowStep, ReadyCheckType,
    StartupFollow, StartupFormat,
};
use pitchfork::clock::{Moment, Stamp};
use pitchfork::daemon_id::DaemonId;
use pitchfork::log_store::{LogEntry, MessageFilter};
use pitchfork::terminal::{colored_id_label, dimmed_id};

fn id(text: &str) -> DaemonId {
    DaemonId::parse(text).unwrap()
}

fn entry(row: i64, daemon: &str, secs: i64, message: &str) -> LogEntry {
    LogEntry {
        id: row,
        daemon_id: daemon.to_string(),
        timestamp: Stamp::new(Moment::new(1_700_000_000 + secs, 0).unwrap(), 0).unwrap(),
        message: message.to_string(),
    }
}

fn line(date: &str, daemon: &str, message: &str) -> LogLine {
    LogLine {
        date: date.to_string(),
        daemon_id: daemon.to_string(),
        message: message.to_string(),
    }
}

fn logs() -> Logs {
    Logs {
        id: vec![],
        clear: false,
        n: None,
        tail: false,
        since: None,
        until: None,
        no_pager: false,
        raw: false,
        json: false,
        grep: vec![],
        regex: None,
        case_sensitive: false,
        no_timestamp: false,
    }
}

#[test]
fn pagers_get_their_arguments() {
    let less = PagerConfig::new(None, true);
    assert_eq!(less.command, "less");
    assert_eq!(less.args, vec!["-R", "+G"]);
    assert_eq!(PagerConfig::build_args("less", false), vec!["-R"]);
    let more = PagerConfig::new(Some("more".to_string()), true);
    assert_eq!(more.command, "more");
    assert!(more.args.is_empty());
}

#[test]
fn lines_are_formatted() {
    let format = LineFormat {
        single_daemon: true,
        id_width: 0,
        strip_ansi: true,
        show_timestamp: true,
    };
    let text = "\x1b[31mred\x1b[0m";
    assert_eq!(format_log_line_with("D", "a/x", text, format, false), "D red");
    assert_eq!(format_log_line_with("D", "a/x", text, format, true), "D red");
    let bare = LineFormat {
        show_timestamp: false,
        ..format
    };
    assert_eq!(format_log_line_with("D", "a/x", text, bare, false), "red");
    let colored = LineFormat {
        strip_ansi: false,
        ..format
    };
    assert_eq!(
        format_log_line_with("D", "a/x", text, colored, true),
        format!("\x1b[2mD\x1b[0m {text}")
    );
}

#[test]
fn columns_line_up() {
    let format = LineFormat {
        single_daemon: false,
        id_width: 6,
        strip_ansi: true,
        show_timestamp: true,
    };
    assert_eq!(format_log_line_with("D", "a/x", "m", format, false), "a/x     D m");
    assert_eq!(format_log_line("D", "a/x", "m", format), "a/x     D m");
    assert_eq!(format_log_line_with("D", "long/name", "m", format, false), "long/name  D m");
    let colored = LineFormat {
        strip_ansi: false,
        show_timestamp: false,
        ..format
    };
    assert_eq!(
        format_log_line_with("D", "a/x", "m", colored, true),
        format!("{}     m", dimmed_id("a/x", true))
    );
}

#[test]
fn the_command_decides_what_to_do() {
    assert!(matches!(logs().action(), LogsAction::Show));
    let json = Logs { json: true, ..logs() };
    assert!(matches!(json.action(), LogsAction::Json));
    let clear = Logs {
        clear: true,
        json: true,
        ..logs()
    };
    assert!(matches!(clear.action(), LogsAction::Clear));
    assert!(logs().shows_timestamps(true));
    assert!(!logs().shows_timestamps(false));
    let bare = Logs {
        no_timestamp: true,
        ..logs()
    };
    assert!(!bare.shows_timestamps(true));
}

#[test]
fn filters_come_from_the_options() {
    let cased = Logs {
        case_sensitive: true,
        ..logs()
    };
    assert!(cased.warns_of_case());
    let full = Logs {
        grep: vec!["a".to_string(), "b".to_string()],
        regex: Some("^x".to_string()),
        case_sensitive: true,
        ..logs()
    };
    assert!(!full.warns_of_case());
    let filters = full.build_message_filters().unwrap();
    assert_eq!(filters.len(), 3);
    assert!(matches!(&filters[0],
        MessageFilter::Contains { pattern, case_sensitive: true } if pattern == "a"));
    assert!(matches!(&filters[2], MessageFilter::Regex { pattern } if pattern == "^x"));
    let broken = Logs {
        regex: Some("(".to_string()),
        ..logs()
    };
    assert!(broken
        .build_message_filters()
        .unwrap_err()
        .starts_with("invalid regex pattern: "));
}

#[test]
fn the_newest_lines_are_asked_for() {
    let last = Logs { n: Some(2), ..logs() };
    let ids = vec![id("a/x"), id("b/y")];
    let query = last.query_for(&ids, None, None, vec![]);
    assert_eq!(query.daemon_ids, vec!["a/x", "b/y"]);
    assert_eq!(query.limit, Some(2));
    assert!(query.order_desc);
    let ranged = last.query_for(&ids, Moment::new(5, 0), None, vec![]);
    assert_eq!(ranged.limit, None);
    assert!(!ranged.order_desc);
    assert_eq!(ranged.from.unwrap().millis(), 5000);
}

#[test]
fn lines_are_shown_in_order() {
    let newest_first = vec![
        entry(3, "a/x", 3, "three"),
        entry(2, "a/x", 2, "two"),
        entry(1, "a/x", 1, "one"),
    ];
    let texts = |lines: Vec<LogLine>| lines.into_iter().map(|l| l.message).collect::<Vec<_>>();
    assert_eq!(texts(logs().select_lines(&newest_first, false)), vec!["one", "two", "three"]);
    let last = Logs { n: Some(2), ..logs() };
    assert_eq!(texts(last.select_lines(&newest_first, false)), vec!["two", "three"]);
    let oldest_first = vec![entry(1, "a/x", 1, "one"), entry(2, "a/x", 2, "two")];
    let one = Logs { n: Some(1), ..logs() };
    assert_eq!(texts(one.select_lines(&oldest_first, true)), vec!["one", "two"]);
}

#[test]
fn raw_lines_have_no_colors() {
    assert!(logs().line_format(true, 3, false, true).strip_ansi);
    assert!(!logs().line_format(true, 3, true, true).strip_ansi);
    let raw = Logs { raw: true, ..logs() };
    let format = raw.line_format(false, 3, true, false);
    assert!(format.strip_ansi && !format.single_daemon && !format.show_timestamp);
    assert_eq!(format.id_width, 3);
}

#[test]
fn long_output_is_paged() {
    assert!(should_use_pager(25, true, None));
    assert!(!should_use_pager(24, true, None));
    assert!(!should_use_pager(1000, false, None));
    assert!(should_use_pager(11, true, Some(10)));
    assert!(matches!(logs().output(100, true, Some(10)), LogsOutput::Pager));
    assert!(matches!(logs().output(0, true, Some(10)), LogsOutput::Nothing));
    for direct in [
        Logs { raw: true, ..logs() },
        Logs { tail: true, ..logs() },
        Logs { no_pager: true, ..logs() },
    ] {
        assert!(matches!(direct.output(100, true, Some(10)), LogsOutput::Direct));
    }
    assert_eq!(get_terminal_height(Some("40"), Some(50)), Some(40));
    assert_eq!(get_terminal_height(Some("many"), Some(50)), Some(50));
    assert_eq!(get_terminal_height(None, None), None);
}

#[test]
fn entries_become_lines() {
    let entries = vec![entry(1, "a/x", 0, "\x1b[1mhi\x1b[0m")];
    let lines = lines_of(&entries);
    assert_eq!(lines[0].date, "2023-11-14 22:13:20");
    assert_eq!(line_of(&entries[0]).message, "\x1b[1mhi\x1b[0m");
    let json = json_entries(&lines);
    assert_eq!(json[0].timestamp, "2023-11-14 22:13:20");
    assert_eq!(json[0].daemon_id, "a/x");
    assert_eq!(json[0].message, "hi");
}

#[test]
fn widths_are_those_of_the_longest() {
    let lines = vec![line("d", "a/x", "m"), line("d", "long/name", "m")];
    assert_eq!(id_width(&lines), 9);
    assert_eq!(daemon_id_width(&vec![id("a/x"), id("ab/y")]), 4);
    assert_eq!(id_width(&vec![]), 0);
    assert_eq!(qualified_ids(&vec![id("a/x")]), vec!["a/x"]);
}

#[test]
fn known_paths_are_collected() {
    let known = known_safe_paths(&vec![id("a/x")], &vec![id("b/y"), id("a/x")]);
    assert!(known.contains("a--x") && known.contains("b--y"));
    assert_eq!(known.len(), 2);
}

#[test]
fn daemons_with_logs_are_found() {
    let found = logged_daemons(
        &vec![id("b/y"), id("a/x")],
        &vec![id("a/x"), id("c/z")],
        &vec!["c/z".to_string(), "a/x".to_string(), "d/w".to_string()],
    );
    let names: Vec<String> = found.iter().map(|d| d.qualified()).collect();
    assert_eq!(names, vec!["a/x", "c/z"]);
}

#[test]
fn cursors_move_behind_what_was_read() {
    assert_eq!(first_cursor(true, Some(9)), 9);
    assert_eq!(first_cursor(true, None), 0);
    assert_eq!(first_cursor(false, Some(9)), 0);
    let entries = vec![entry(4, "a/x", 0, "m"), entry(7, "a/x", 1, "m")];
    assert_eq!(last_row_id(&entries), Some(7));
    assert_eq!(next_cursor(3, &entries, true, Some(99)), 7);
    assert_eq!(next_cursor(3, &vec![], false, Some(99)), 3);
    assert_eq!(next_cursor(3, &vec![], true, Some(99)), 99);
    assert_eq!(next_cursor(3, &vec![], true, None), 3);
    let query = poll_query(&id("a/x"), 7, vec![MessageFilter::contains("e")]);
    assert_eq!(query.after_id, Some(7));
    assert_eq!(query.limit, None);
    assert_eq!(query.message_filters.len(), 1);
    assert!(!query.order_desc);
}

#[test]
fn answers_are_merged_by_time() {
    let answers = vec![
        vec![entry(1, "b/y", 5, "late"), entry(2, "b/y", 5, "later")],
        vec![entry(3, "a/x", 1, "early"), entry(4, "a/x", 5, "first of two")],
    ];
    let texts: Vec<String> = merge_lines(&answers).into_iter().map(|l| l.message).collect();
    assert_eq!(texts, vec!["early", "first of two", "late", "later"]);
    assert_eq!(line_order(&line("1", "a", "z"), &line("1", "a", "b")), Ordering::Equal);
    assert_eq!(line_order(&line("1", "b", ""), &line("2", "a", "")), Ordering::Less);
    assert_eq!(line_order(&line("1", "b", ""), &line("1", "a", "")), Ordering::Greater);
}

#[test]
fn messages_lose_their_controls() {
    let raw = "\x1b[2K\x1b[32mok\x1b[0m\r";
    assert_eq!(show_message(raw, true), "\x1b[32mok\x1b[0m");
    assert_eq!(show_message(raw, false), "ok");
}

#[test]
fn error_blocks_show_the_time() {
    let plain = ErrorFormat {
        is_tty: false,
        colors: false,
    };
    assert!(error_logs_block(&vec![], plain).is_empty());
    let one = vec![line("2024-01-02 03:04:05", "a/x", "\x1b[31mboom\x1b[0m")];
    assert_eq!(
        error_logs_block(&one, plain),
        vec!["\n ERROR LOGS ", "03:04:05 boom"]
    );
    let two = vec![
        line("2024-01-02 03:04:05", "a/x", "boom"),
        line("odd", "long/y", "bang"),
    ];
    assert_eq!(
        error_logs_block(&two, plain),
        vec!["\n ERROR LOGS ", "a/x     03:04:05 boom", "long/y  odd bang"]
    );
    let colored = ErrorFormat {
        is_tty: true,
        colors: true,
    };
    assert_eq!(
        error_logs_block(&one, colored),
        vec![
            "\n\x1b[37m\x1b[41m ERROR LOGS \x1b[0m",
            "\x1b[31m\x1b[2m03:04:05\x1b[0m \x1b[31mboom\x1b[0m"
        ]
    );
}

#[test]
fn ready_checks_are_described() {
    let cases = vec![
        (ReadyCheckType::Output("up".to_string()), "output matching 'up'"),
        (ReadyCheckType::Http("http://x".to_string()), "HTTP http://x"),
        (ReadyCheckType::Port(80), "TCP port 80"),
        (ReadyCheckType::Cmd("true".to_string()), "command 'true'"),
        (ReadyCheckType::Delay(3), "delay (3s)"),
        (ReadyCheckType::Default, "default readiness check"),
    ];
    for (check, text) in cases {
        assert_eq!(check.describe(), text);
    }
    assert_eq!(
        ready_check_body(&id("a/x"), None, true, false),
        "{{spinner()}} [a/x] waiting for {{ check_type }}..."
    );
    assert_eq!(
        ready_check_body(&id("a/x"), Some("03:04:05"), true, true),
        format!(
            "\x1b[2m03:04:05\x1b[0m {} waiting for {{{{ check_type }}}}...",
            colored_id_label("a/x", true)
        )
    );
}

#[test]
fn startup_lines_are_followed() {
    let plain = StartupFormat {
        show_timestamp: true,
        is_tty: false,
        colors: false,
    };
    let e = entry(5, "a/x", 0, "\x1b[31mup\x1b[0m");
    assert_eq!(startup_line(&e, &id("a/x"), plain), "22:13:20 [a/x] up");
    let bullet = StartupFormat {
        show_timestamp: false,
        ..plain
    };
    assert_eq!(startup_line(&e, &id("a/x"), bullet), "\u{2022} [a/x] up");
    let poll = startup_poll(&vec![e], 2, &id("a/x"), plain);
    assert_eq!(poll.last_id, 5);
    assert_eq!(poll.lines.len(), 1);
    assert_eq!(startup_poll(&vec![], 2, &id("a/x"), plain).last_id, 2);
}

#[test]
fn startup_is_followed_from_the_newest_row() {
    let query = anchor_query(&id("a/x"));
    assert_eq!(query.limit, Some(1));
    assert!(query.order_desc);
    assert_eq!(anchor_row(None), 0);
    assert_eq!(anchor_row(Some(&vec![])), 0);
    assert_eq!(anchor_row(Some(&vec![entry(8, "a/x", 0, "m")])), 8);
    let from = startup_query(&id("a/x"), Moment::new(9, 0).unwrap());
    assert_eq!(from.from.unwrap().millis(), 9000);
    assert_eq!(from.limit, None);
    assert!(!from.order_desc);
}

#[test]
fn the_store_is_looked_at_once_more_behind_the_stop() {
    let mut follow = StartupFollow::new();
    assert_eq!(follow.step(FollowEvent::Began), FollowStep::Look);
    assert_eq!(follow.step(FollowEvent::Looked), FollowStep::Wait);
    assert_eq!(follow.step(FollowEvent::Waited), FollowStep::Look);
    assert_eq!(follow.step(FollowEvent::Looked), FollowStep::Wait);
    assert_eq!(follow.step(FollowEvent::Stopped), FollowStep::Look);
    assert_eq!(follow.step(FollowEvent::Looked), FollowStep::End);
}
