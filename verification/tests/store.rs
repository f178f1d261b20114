use std::sync::Mutex;

use pitchfork::cli::follow::poll;
use pitchfork::cli::logs::Logs;
use pitchfork::cli::startup;
use pitchfork::clock::{stamp_at, Moment, Stamp, TimeSpan};
use pitchfork::daemon_id::DaemonId;
use pitchfork::log_store::rotation::{
    age_cutoff, archive_batch_size, clear_generation, daemon_of_stored_id, delete_by_ids,
    excess_entries, plan_age_pruning, plan_count_pruning, policy_steps, retention_targets,
    row_to_entry, BatchRotation, PolicyStep, Pruning, MAX_PLACEHOLDERS,
};
use pitchfork::log_store::sqlite;
use pitchfork::log_store::sqlite::{plan_query, write_placeholders, SqlParam};
use pitchfork::log_store::table::batch_rows;
use pitchfork::log_store::{
    escape_like_pattern, tail_query, ArchiveHook, LogEntry, LogQuery, LogStore, MessageFilter, RetentionPolicy,
    StoreError,
};
use pitchfork::regexp::RegexpCache;
use pitchfork::supervisor::retention::{plan_retention, DaemonRetention, LogsRetention};

fn id(text: &str) -> DaemonId {
    DaemonId::parse(text).unwrap()
}

fn moment(millis: i64) -> Moment {
    Moment::from_millis(millis).unwrap()
}

fn stamp(millis: i64) -> Stamp {
    Stamp::new(moment(millis), 0).unwrap()
}

/// A database with the rows `(id, daemon, millis, message)`.
fn database(rows: &[(i64, &str, i64, &str)]) -> rusqlite::Connection {
    let conn = rusqlite::Connection::open_in_memory().unwrap();
    conn.execute_batch(sqlite::SCHEMA).unwrap();
    for (id, daemon, millis, message) in rows {
        conn.execute(
            "INSERT INTO log_entries (id, daemon_id, timestamp, message) VALUES (?1, ?2, ?3, ?4)",
            (id, daemon, millis, message),
        )
        .unwrap();
    }
    let cache = Mutex::new(RegexpCache::new());
    conn.create_scalar_function(
        "regexp",
        2,
        rusqlite::functions::FunctionFlags::SQLITE_UTF8
            | rusqlite::functions::FunctionFlags::SQLITE_DETERMINISTIC,
        move |ctx| {
            let pattern: String = ctx.get(0)?;
            let text: String = ctx.get(1)?;
            Ok(cache.lock().unwrap().regexp(&pattern, &text).unwrap_or(false))
        },
    )
    .unwrap();
    conn
}

fn ids_of(conn: &rusqlite::Connection, query: &LogQuery) -> Vec<i64> {
    let plan = plan_query(query);
    let values: Vec<rusqlite::types::Value> = plan
        .params
        .iter()
        .map(|p| match p {
            SqlParam::Text(s) => rusqlite::types::Value::Text(s.clone()),
            SqlParam::Integer(i) => rusqlite::types::Value::Integer(*i),
        })
        .collect();
    let mut statement = conn.prepare(&plan.sql()).unwrap();
    let rows = statement
        .query_map(rusqlite::params_from_iter(values), |row| row.get::<_, i64>(0))
        .unwrap();
    rows.map(|r| r.unwrap()).collect()
}

fn rows() -> Vec<(i64, &'static str, i64, &'static str)> {
    vec![
        (1, "a/x", 1000, "Started"),
        (2, "a/x", 2000, "100% done"),
        (3, "b/y", 2000, "started again"),
        (4, "a/x", 3000, "100 done"),
        (5, "b/y", 4000, "bye_now"),
        (6, "b/y", 4000, "byeXnow"),
    ]
}

#[test]
fn statement_without_conditions() {
    let plan = plan_query(&LogQuery::default());
    assert_eq!(
        plan.sql(),
        "SELECT id, daemon_id, timestamp, message FROM log_entries  ORDER BY timestamp ASC, id ASC "
    );
    assert!(plan.params.is_empty());
}

#[test]
fn statement_with_every_condition() {
    let query = LogQuery {
        daemon_ids: vec!["a/x".to_string(), "b/y".to_string()],
        from: Some(moment(1500)),
        to: Some(moment(2500)),
        limit: Some(7),
        order_desc: true,
        after_id: Some(4),
        message_filters: vec![
            MessageFilter::contains("50%"),
            MessageFilter::contains_case_sensitive("Err"),
            MessageFilter::regex("^x"),
        ],
    };
    let plan = plan_query(&query);
    assert_eq!(
        plan.sql(),
        "SELECT id, daemon_id, timestamp, message FROM log_entries WHERE daemon_id IN (?1, ?2) \
         AND timestamp >= ?3 AND timestamp <= ?4 AND id > ?5 AND (LOWER(message) LIKE LOWER(?6) \
         ESCAPE '\\' OR INSTR(message, ?7) > 0 OR message REGEXP ?8) ORDER BY timestamp DESC, id \
         DESC LIMIT 7"
    );
    assert_eq!(plan.params.len(), 8);
    assert!(matches!(&plan.params[2], SqlParam::Integer(1500)));
    assert!(matches!(&plan.params[4], SqlParam::Integer(4)));
    assert!(matches!(&plan.params[5], SqlParam::Text(s) if s == "%50\\%%"));
    assert!(matches!(&plan.params[6], SqlParam::Text(s) if s == "Err"));
}

#[test]
fn database_answers_what_is_asked() {
    let conn = database(&rows());
    let all = LogQuery::default();
    assert_eq!(ids_of(&conn, &all), vec![1, 2, 3, 4, 5, 6]);
    let newest = LogQuery {
        order_desc: true,
        limit: Some(3),
        ..LogQuery::default()
    };
    assert_eq!(ids_of(&conn, &newest), vec![6, 5, 4]);
    let one = LogQuery {
        daemon_ids: vec!["a/x".to_string()],
        from: Some(moment(2000)),
        to: Some(moment(3000)),
        ..LogQuery::default()
    };
    assert_eq!(ids_of(&conn, &one), vec![2, 4]);
    assert_eq!(ids_of(&conn, &tail_query(&id("a/x"), None)), vec![1, 2, 4]);
    assert_eq!(ids_of(&conn, &tail_query(&id("a/x"), Some(1))), vec![2, 4]);
    let after = LogQuery {
        after_id: Some(4),
        ..LogQuery::default()
    };
    assert_eq!(ids_of(&conn, &after), vec![5, 6]);
}

#[test]
fn like_patterns_are_literal() {
    assert_eq!(escape_like_pattern("100%_a\\b"), "100\\%\\_a\\\\b");
    let conn = database(&rows());
    let filtered = |f: MessageFilter| LogQuery {
        message_filters: vec![f],
        ..LogQuery::default()
    };
    assert_eq!(ids_of(&conn, &filtered(MessageFilter::contains("100%"))), vec![2]);
    assert_eq!(ids_of(&conn, &filtered(MessageFilter::contains("bye_"))), vec![5]);
    assert_eq!(ids_of(&conn, &filtered(MessageFilter::contains("STARTED"))), vec![1, 3]);
    assert_eq!(
        ids_of(&conn, &filtered(MessageFilter::contains_case_sensitive("Started"))),
        vec![1]
    );
    assert_eq!(ids_of(&conn, &filtered(MessageFilter::regex("^bye.now$"))), vec![5, 6]);
    assert_eq!(ids_of(&conn, &filtered(MessageFilter::regex("("))), Vec::<i64>::new());
}

#[test]
fn filters_are_alternatives_in_a_query() {
    let conn = database(&rows());
    let query = LogQuery {
        daemon_ids: vec!["b/y".to_string()],
        message_filters: vec![
            MessageFilter::contains("again"),
            MessageFilter::contains("xnow"),
        ],
        ..LogQuery::default()
    };
    assert_eq!(ids_of(&conn, &query), vec![3, 6]);
}

#[test]
fn expressions_are_compiled_and_remembered() {
    let mut cache = RegexpCache::new();
    assert_eq!(cache.regexp("^a+$", "aaa"), Ok(true));
    assert_eq!(cache.regexp("^a+$", "ab"), Ok(false));
    assert!(cache.regexp("a(", "a").is_err());
    for i in 0..40 {
        let pattern = format!("^{i}$");
        assert_eq!(cache.regexp(&pattern, &i.to_string()), Ok(true));
    }
    assert_eq!(cache.regexp("^a+$", "aaa"), Ok(true));
}

#[test]
fn placeholders_are_numbered() {
    assert_eq!(write_placeholders(0), "");
    assert_eq!(write_placeholders(1), "?1");
    assert_eq!(write_placeholders(3), "?1, ?2, ?3");
}

#[test]
fn deletes_stay_below_the_limit() {
    assert!(delete_by_ids(&vec![]).is_empty());
    let few = delete_by_ids(&vec![4, 9]);
    assert_eq!(few.len(), 1);
    assert_eq!(few[0].sql, "DELETE FROM log_entries WHERE id IN (?1, ?2)");
    assert_eq!(few[0].ids, vec![4, 9]);
    let ids: Vec<i64> = (0..2500).collect();
    let many = delete_by_ids(&ids);
    assert_eq!(many.len(), 3);
    assert!(many.iter().all(|d| d.ids.len() <= MAX_PLACEHOLDERS));
    let back: Vec<i64> = many.iter().flat_map(|d| d.ids.clone()).collect();
    assert_eq!(back, ids);
}

#[test]
fn count_rotation_deletes_the_excess() {
    assert_eq!(excess_entries(10, 4), 6);
    assert_eq!(excess_entries(4, 4), 0);
    assert_eq!(excess_entries(3, 4), 0);
    assert_eq!(excess_entries(i64::MAX, u64::MAX), 0);
    let mut run = BatchRotation::by_count(4, 6);
    assert_eq!(run.limit(), 4);
    run.batch_deleted(4, 4);
    assert_eq!(run.limit(), 2);
    run.batch_deleted(2, 2);
    assert_eq!(run.limit(), 0);
    assert_eq!(run.total(), 6);
}

#[test]
fn age_rotation_goes_on_with_full_batches() {
    let mut run = BatchRotation::by_age(5);
    assert_eq!(run.limit(), 5);
    run.batch_deleted(5, 5);
    assert_eq!(run.limit(), 5);
    run.batch_deleted(2, 2);
    assert_eq!(run.total(), 7);
}

#[test]
fn hooks_are_used_where_they_are_enabled() {
    let hook = ArchiveHook {
        command: "cat".to_string(),
        batch_size: 50,
    };
    assert!(hook.is_enabled());
    assert_eq!(archive_batch_size(Some(&hook)), Some(50));
    let off = ArchiveHook {
        command: String::new(),
        batch_size: 50,
    };
    assert!(!off.is_enabled());
    assert_eq!(archive_batch_size(Some(&off)), None);
    assert_eq!(archive_batch_size(None), None);
}

#[test]
fn cutoff_lies_an_age_back() {
    let hour = TimeSpan::from_std(3600, 0).unwrap();
    assert_eq!(age_cutoff(&moment(10_000_000), &hour), Some(6_400_000));
    let longest = TimeSpan::from_std(9_000_000_000_000_000, 0).unwrap();
    assert_eq!(age_cutoff(&moment(0), &longest), None);
}

#[test]
fn unknown_ids_belong_to_the_supervisor() {
    assert_eq!(daemon_of_stored_id("a/x").qualified(), "a/x");
    assert_eq!(daemon_of_stored_id("plain").qualified(), "global/plain");
    assert_eq!(daemon_of_stored_id("a b").qualified(), "global/pitchfork");
}

#[test]
fn excluded_daemons_keep_their_entries() {
    let stored = vec!["a/x".to_string(), "b/y".to_string(), "c/z".to_string()];
    let targets = retention_targets(&stored, &vec![id("b/y")]);
    let names: Vec<String> = targets.iter().map(|t| t.qualified()).collect();
    assert_eq!(names, vec!["a/x", "c/z"]);
}

#[test]
fn lines_of_a_batch_get_rising_times() {
    assert_eq!(
        batch_rows(100, &vec!["a", "b", "c"]).unwrap(),
        vec![(100, "a"), (101, "b"), (102, "c")]
    );
    assert!(batch_rows(100, &vec![]).unwrap().is_empty());
    assert_eq!(
        batch_rows(i64::MAX, &vec!["a"]).unwrap_err().message,
        "too many log lines"
    );
}

#[test]
fn generations_are_not_negative() {
    assert_eq!(clear_generation(None).unwrap(), None);
    assert_eq!(clear_generation(Some(3)).unwrap(), Some(3));
    assert!(clear_generation(Some(-1)).is_err());
}

#[test]
fn rows_become_entries() {
    let entry = row_to_entry(7, "a/x".to_string(), 1_700_000_000_123, "hi".to_string());
    assert_eq!(entry.id, 7);
    assert_eq!(entry.daemon_id, "a/x");
    assert_eq!(entry.message, "hi");
    assert_eq!(entry.timestamp.moment().millis(), 1_700_000_000_123);
    assert_eq!(stamp_at(5_000).moment().millis(), 5_000);
}

/// A store that holds rows in memory.
struct Memory {
    rows: Mutex<Vec<(i64, String, String)>>,
}

impl LogStore for Memory {
    fn append(&self, daemon_id: &DaemonId, message: &str) -> Result<(), StoreError> {
        if message == "refuse" {
            return Err(StoreError {
                message: "refused".to_string(),
            });
        }
        let mut rows = self.rows.lock().unwrap();
        let next = rows.len() as i64 + 1;
        rows.push((next, daemon_id.qualified(), message.to_string()));
        Ok(())
    }

    fn query(&self, opts: &LogQuery) -> Result<Vec<LogEntry>, StoreError> {
        let mut found: Vec<LogEntry> = self
            .rows
            .lock().unwrap()
            .iter()
            .filter(|r| opts.daemon_ids.is_empty() || opts.daemon_ids.contains(&r.1))
            .map(|r| LogEntry {
                id: r.0,
                daemon_id: r.1.clone(),
                timestamp: stamp(r.0),
                message: r.2.clone(),
            })
            .collect();
        if opts.order_desc {
            found.reverse();
        }
        if let Some(n) = opts.limit {
            found.truncate(n);
        }
        Ok(found)
    }

    fn tail(&self, _: &DaemonId, _: Option<i64>) -> Result<Vec<LogEntry>, StoreError> {
        Ok(vec![])
    }

    fn clear(&self, _: &Vec<DaemonId>) -> Result<(), StoreError> {
        self.rows.lock().unwrap().clear();
        Ok(())
    }

    fn apply_retention(
        &self,
        policy: &RetentionPolicy,
        excluded: &Vec<DaemonId>,
        _: Option<&ArchiveHook>,
    ) -> Result<u64, StoreError> {
        if policy.count == Some(666) {
            return Err(StoreError {
                message: "refused".to_string(),
            });
        }
        Ok(10 * excluded.len() as u64)
    }

    fn apply_retention_for_daemon(
        &self,
        _: &DaemonId,
        policy: &RetentionPolicy,
        _: Option<&ArchiveHook>,
    ) -> Result<u64, StoreError> {
        Ok(policy.count.unwrap_or(0))
    }

    fn list_daemon_ids(&self) -> Result<Vec<String>, StoreError> {
        Ok(vec![])
    }

    fn last_clear_generation(&self, _: &DaemonId) -> Result<Option<u64>, StoreError> {
        Ok(None)
    }
}

#[test]
fn statements_do_what_they_say() {
    let conn = database(&rows());
    let older: Vec<i64> = conn
        .prepare(sqlite::SELECT_OLDER)
        .unwrap()
        .query_map(("b/y", 4000, 10), |row| row.get(0))
        .unwrap()
        .map(|r| r.unwrap())
        .collect();
    assert_eq!(older, vec![3]);
    let oldest: Vec<i64> = conn
        .prepare(sqlite::SELECT_OLDEST)
        .unwrap()
        .query_map(("b/y", 2), |row| row.get(0))
        .unwrap()
        .map(|r| r.unwrap())
        .collect();
    assert_eq!(oldest, vec![3, 5]);
    let count: i64 = conn
        .query_row(sqlite::COUNT_ENTRIES, ["a/x"], |row| row.get(0))
        .unwrap();
    assert_eq!(count, 3);
    let last: Option<i64> = conn
        .query_row(sqlite::SELECT_LAST_ID, ["a/x"], |row| row.get(0))
        .unwrap();
    assert_eq!(last, Some(4));
    conn.execute(sqlite::INSERT_ENTRY, ("a/x", 9000, "more")).unwrap();
    assert_eq!(conn.execute(sqlite::DELETE_OLDEST, ("a/x", 3)).unwrap(), 3);
    assert_eq!(conn.execute(sqlite::DELETE_OLDER, ("b/y", 4000)).unwrap(), 1);
    assert_eq!(ids_of(&conn, &LogQuery::default()), vec![5, 6, 7]);
    for expected in 1..3 {
        conn.execute(sqlite::DELETE_ALL, ["b/y"]).unwrap();
        conn.execute(sqlite::BUMP_GENERATION, ["b/y"]).unwrap();
        let generation: i64 = conn
            .query_row(sqlite::SELECT_GENERATION, ["b/y"], |row| row.get(0))
            .unwrap();
        assert_eq!(generation, expected);
    }
    let daemons: Vec<String> = conn
        .prepare(sqlite::SELECT_DAEMON_IDS)
        .unwrap()
        .query_map([], |row| row.get(0))
        .unwrap()
        .map(|r| r.unwrap())
        .collect();
    assert_eq!(daemons, vec!["a/x"]);
    conn.execute_batch(sqlite::PRAGMAS).unwrap();
}

#[test]
fn a_store_appends_batches_and_knows_its_last_row() {
    let store = Memory {
        rows: Mutex::new(vec![]),
    };
    let x = id("a/x");
    assert_eq!(store.last_id(&x).unwrap(), None);
    store.append_batch(&x, &vec!["one", "two"]).unwrap();
    store.append(&id("b/y"), "three").unwrap();
    assert_eq!(store.last_id(&x).unwrap(), Some(2));
    let texts: Vec<String> = store
        .query(&LogQuery::default())
        .unwrap()
        .into_iter()
        .map(|e| e.message)
        .collect();
    assert_eq!(texts, vec!["one", "two", "three"]);
    let failed = store.append_batch(&x, &vec!["four", "refuse", "five"]);
    assert_eq!(failed.unwrap_err().message, "refused");
    assert_eq!(store.rows.lock().unwrap().len(), 4);
    store.clear(&vec![]).unwrap();
    assert_eq!(store.last_id(&x).unwrap(), None);
}

fn filled() -> Memory {
    let store = Memory {
        rows: Mutex::new(vec![]),
    };
    let x = id("a/x");
    store.append_batch(&x, &vec!["one", "two"]).unwrap();
    store.append(&id("b/y"), "three").unwrap();
    store
}

fn last_lines(n: Option<usize>) -> Logs {
    Logs {
        id: vec![],
        clear: false,
        n,
        tail: false,
        since: None,
        until: None,
        no_pager: false,
        raw: false,
        json: false,
        grep: vec![],
        regex: None,
        case_sensitive: false,
        no_timestamp: false,
    }
}

#[test]
fn lines_are_fetched_from_a_store() {
    let store = filled();
    let fetched = |n| {
        last_lines(n)
            .fetch_log_lines(&store, &vec![id("a/x"), id("b/y")], None, None, vec![])
            .unwrap()
            .into_iter()
            .map(|l| l.message)
            .collect::<Vec<_>>()
    };
    assert_eq!(fetched(None), vec!["one", "two", "three"]);
    assert_eq!(fetched(Some(2)), vec!["two", "three"]);
    let from = startup::collect_startup_logs(&store, &id("a/x"), moment(0)).unwrap();
    assert_eq!(from.len(), 2);
    assert_eq!(from[1].message, "two");
}

#[test]
fn polls_move_behind_what_a_store_holds() {
    let store = filled();
    let first = poll(&store, &id("a/x"), 0, vec![]).unwrap();
    assert_eq!(first.entries.len(), 2);
    assert_eq!(first.cursor, 2);
    let none = poll(&store, &id("c/z"), 5, vec![]).unwrap();
    assert!(none.entries.is_empty());
    assert_eq!(none.cursor, 5);
    let filtered = poll(&store, &id("c/z"), 5, vec![MessageFilter::contains("e")]).unwrap();
    assert_eq!(filtered.cursor, 5);
}

#[test]
fn plans_are_applied_to_a_store() {
    let store = filled();
    let settings = LogsRetention {
        time_retention: String::new(),
        line_retention: 10,
        hook_command: String::new(),
        hook_batch_size: 1,
    };
    let daemons = vec![DaemonRetention {
        id: id("a/x"),
        time_retention: None,
        line_retention: Some(1),
        archive_hook: None,
    }];
    let plan = plan_retention(&settings, &daemons);
    assert_eq!(plan.apply(&store).unwrap(), 11);
    let failing = plan_retention(
        &LogsRetention {
            line_retention: 666,
            ..settings
        },
        &daemons,
    );
    assert_eq!(failing.apply(&store).unwrap_err().message, "refused");
}

#[test]
fn policies_without_limits_are_none() {
    let none = RetentionPolicy {
        age: None,
        count: None,
    };
    assert!(none.is_none());
    let by_count = RetentionPolicy {
        age: None,
        count: Some(1),
    };
    assert!(!by_count.is_none());
    let by_age = RetentionPolicy {
        age: Some(TimeSpan::seconds(1)),
        count: None,
    };
    assert!(!by_age.is_none());
}

#[test]
fn prunings_are_planned() {
    let hook = ArchiveHook {
        command: "cat".to_string(),
        batch_size: 2,
    };
    let blank = ArchiveHook {
        command: " ".to_string(),
        batch_size: 2,
    };
    assert!(matches!(plan_count_pruning(5, 5, None), Pruning::Nothing));
    assert!(matches!(plan_count_pruning(5, 6, Some(&hook)), Pruning::Nothing));
    assert!(matches!(
        plan_count_pruning(5, 2, None),
        Pruning::AtOnce { limit: Some(3) }
    ));
    assert!(matches!(
        plan_count_pruning(5, 2, Some(&blank)),
        Pruning::AtOnce { limit: Some(3) }
    ));
    match plan_count_pruning(5, 4, Some(&hook)) {
        Pruning::InBatches(rotation) => assert_eq!(rotation.limit(), 1),
        other => panic!("{other:?}"),
    }
    assert!(matches!(
        plan_age_pruning(None),
        Pruning::AtOnce { limit: None }
    ));
    match plan_age_pruning(Some(&hook)) {
        Pruning::InBatches(rotation) => assert_eq!(rotation.limit(), 2),
        other => panic!("{other:?}"),
    }
}

#[test]
fn a_policy_prunes_by_age_before_count() {
    let age = TimeSpan::from_std(60, 0);
    let steps = policy_steps(&RetentionPolicy {
        age,
        count: Some(7),
    });
    assert_eq!(steps.len(), 2);
    assert!(matches!(steps[0], PolicyStep::ByAge(_)));
    assert!(matches!(steps[1], PolicyStep::ByCount(7)));
    let none = RetentionPolicy {
        age: None,
        count: None,
    };
    assert!(policy_steps(&none).is_empty());
}
