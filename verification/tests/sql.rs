use pitchfork::clock::Moment;
use pitchfork::daemon_id::DaemonId;
use pitchfork::log_store::rotation::{plan_count_pruning, Pruning};
use pitchfork::log_store::sqlite::{
    plan_query, SqlParam, COUNT_ENTRIES, DELETE_ALL, DELETE_OLDER, DELETE_OLDEST, INSERT_ENTRY,
    PRAGMAS, SCHEMA,
};
use pitchfork::log_store::table::batch_rows;
use pitchfork::log_store::{tail_query, LogQuery, MessageFilter};
use rusqlite::types::Value;
use rusqlite::{params_from_iter, Connection, ToSql};

/// A database with six entries of two daemons; two of them have the same time.
fn database() -> Connection {
    let conn = Connection::open_in_memory().unwrap();
    conn.execute_batch(PRAGMAS).unwrap();
    conn.execute_batch(SCHEMA).unwrap();
    conn.execute_batch(
        "INSERT INTO log_entries (daemon_id, timestamp, message) VALUES
            ('a/x', 3000, 'Third'), ('a/x', 1000, 'first 100%'), ('b/y', 2000, 'second'),
            ('a/x', 2000, 'SECOND too'), ('b/y', 5000, 'fifth'), ('a/x', 4000, 'fourth_');",
    )
    .unwrap();
    conn
}

fn all() -> LogQuery {
    LogQuery {
        daemon_ids: vec![],
        from: None,
        to: None,
        limit: None,
        order_desc: false,
        after_id: None,
        message_filters: vec![],
    }
}

fn ids(conn: &Connection, query: &LogQuery) -> Vec<i64> {
    let plan = plan_query(query);
    let values: Vec<Value> = plan
        .params
        .iter()
        .map(|p| match p {
            SqlParam::Text(s) => Value::Text(s.clone()),
            SqlParam::Integer(i) => Value::Integer(*i),
        })
        .collect();
    let mut statement = conn.prepare(&plan.sql()).unwrap();
    let rows = statement
        .query_map(params_from_iter(values.iter()), |row| row.get::<_, i64>(0))
        .unwrap();
    rows.map(|r| r.unwrap()).collect()
}

#[test]
fn conditions_choose_the_rows() {
    let conn = database();
    assert_eq!(ids(&conn, &all()), vec![2, 3, 4, 1, 6, 5]);
    let narrow = LogQuery {
        daemon_ids: vec!["a/x".to_string()],
        from: Moment::new(2, 0),
        to: Moment::new(4, 0),
        after_id: Some(1),
        ..all()
    };
    assert_eq!(ids(&conn, &narrow), vec![4, 6]);
}

#[test]
fn limits_take_the_first_and_orders_reverse() {
    let conn = database();
    let free = ids(&conn, &all());
    let back = ids(&conn, &LogQuery { order_desc: true, ..all() });
    assert_eq!(back, free.iter().rev().copied().collect::<Vec<i64>>());
    for n in [0, 2, 6, 9] {
        let some = ids(&conn, &LogQuery { limit: Some(n), ..all() });
        assert_eq!(some, free[..n.min(6)]);
        let newest = ids(&conn, &LogQuery { limit: Some(n), order_desc: true, ..all() });
        assert_eq!(newest, back[..n.min(6)]);
    }
}

#[test]
fn joined_filters_are_alternatives() {
    let conn = database();
    let with = |filters| ids(&conn, &LogQuery { message_filters: filters, ..all() });
    assert_eq!(with(vec![MessageFilter::contains("second")]), vec![3, 4]);
    assert_eq!(with(vec![MessageFilter::contains_case_sensitive("S")]), vec![4]);
    assert_eq!(with(vec![MessageFilter::contains("%")]), vec![2]);
    assert_eq!(with(vec![MessageFilter::contains("_")]), vec![6]);
    let both = with(vec![
        MessageFilter::contains("second"),
        MessageFilter::contains_case_sensitive("SECOND"),
        MessageFilter::contains("f"),
    ]);
    assert_eq!(both, vec![2, 3, 4, 6, 5]);
}

/// Prunes the entries of a daemon down to a number; how many went.
fn prune(conn: &Connection, daemon: &str, max_count: u64) -> usize {
    let count: i64 = conn
        .query_row(COUNT_ENTRIES, [daemon], |row| row.get(0))
        .unwrap();
    match plan_count_pruning(count, max_count, None) {
        Pruning::AtOnce { limit: Some(limit) } => {
            let values: [&dyn ToSql; 2] = [&daemon, &limit];
            conn.execute(DELETE_OLDEST, &values).unwrap()
        }
        _ => 0,
    }
}

#[test]
fn the_newest_rows_are_left() {
    let conn = database();
    assert_eq!(prune(&conn, "a/x", 2), 2);
    assert_eq!(ids(&conn, &all()), vec![3, 1, 6, 5]);
    assert_eq!(prune(&conn, "a/x", 2), 0);
    assert_eq!(prune(&conn, "b/y", 9), 0);
    assert_eq!(ids(&conn, &all()), vec![3, 1, 6, 5]);
}

#[test]
fn rows_of_before_a_time_go() {
    let conn = database();
    let values: [&dyn ToSql; 2] = [&"a/x", &3000i64];
    assert_eq!(conn.execute(DELETE_OLDER, &values).unwrap(), 2);
    assert_eq!(ids(&conn, &all()), vec![3, 1, 6, 5]);
    assert_eq!(conn.execute(DELETE_OLDER, &values).unwrap(), 0);
}

#[test]
fn appended_lines_come_back_behind_the_last_row() {
    let mut conn = database();
    let id = DaemonId::parse("a/x").unwrap();
    conn.execute(DELETE_ALL, ["a/x"]).unwrap();
    let lines = batch_rows(500, &vec!["one", "two", "three"]).unwrap();
    let tx = conn.transaction().unwrap();
    for (millis, message) in lines {
        let values: [&dyn ToSql; 3] = [&"a/x", &millis, &message];
        tx.execute(INSERT_ENTRY, &values).unwrap();
    }
    tx.commit().unwrap();
    assert_eq!(ids(&conn, &tail_query(&id, Some(6))), vec![7, 8, 9]);
    let first: String = conn
        .query_row("SELECT message FROM log_entries WHERE id = 7", [], |row| {
            row.get(0)
        })
        .unwrap();
    assert_eq!(first, "one");
}
