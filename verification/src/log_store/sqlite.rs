//! What the SQLite log store asks of the database and does with the answers.
use crate::log_store;
use crate::log_store::{escape_like_pattern, FilterView, LogQuery, MessageFilter};
use crate::regexp;
use crate::text;
use crate::text::{join, nat_text};
use vstd::prelude::*;

verus! {

/// How the database is used: readers do not wait for a writer.
pub const PRAGMAS: &'static str = "PRAGMA journal_mode = WAL; PRAGMA synchronous = NORMAL;";

/// The tables and indexes of the store.
pub const SCHEMA: &'static str =
    "CREATE TABLE IF NOT EXISTS log_entries (\
        id          INTEGER PRIMARY KEY AUTOINCREMENT, \
        daemon_id   TEXT    NOT NULL, \
        timestamp   INTEGER NOT NULL, \
        message     TEXT    NOT NULL\
    ); \
    CREATE INDEX IF NOT EXISTS idx_daemon_ts ON log_entries(daemon_id, timestamp); \
    CREATE INDEX IF NOT EXISTS idx_daemon_id ON log_entries(daemon_id, id); \
    CREATE INDEX IF NOT EXISTS idx_timestamp ON log_entries(timestamp); \
    CREATE TABLE IF NOT EXISTS log_clear_generations (\
        daemon_id TEXT PRIMARY KEY, \
        generation INTEGER NOT NULL DEFAULT 0\
    );";

/// Adds an entry: the daemon, the time and the message.
pub const INSERT_ENTRY: &'static str =
    "INSERT INTO log_entries (daemon_id, timestamp, message) VALUES (?1, ?2, ?3)";

/// The oldest entries of a daemon before a time, at most so many.
pub const SELECT_OLDER: &'static str =
    "SELECT id, daemon_id, timestamp, message FROM log_entries \
    WHERE daemon_id = ?1 AND timestamp < ?2 ORDER BY timestamp ASC, id ASC LIMIT ?3";

/// The oldest entries of a daemon, at most so many.
pub const SELECT_OLDEST: &'static str =
    "SELECT id, daemon_id, timestamp, message FROM log_entries \
    WHERE daemon_id = ?1 ORDER BY timestamp ASC, id ASC LIMIT ?2";

/// Deletes the entries of a daemon before a time.
pub const DELETE_OLDER: &'static str =
    "DELETE FROM log_entries WHERE daemon_id = ?1 AND timestamp < ?2";

/// Deletes the oldest entries of a daemon, at most so many.
pub const DELETE_OLDEST: &'static str =
    "DELETE FROM log_entries WHERE id IN (SELECT id FROM log_entries WHERE daemon_id = ?1 \
    ORDER BY timestamp ASC, id ASC LIMIT ?2)";

/// Deletes all entries of a daemon.
pub const DELETE_ALL: &'static str = "DELETE FROM log_entries WHERE daemon_id = ?1";

/// Counts that the entries of a daemon were cleared.
pub const BUMP_GENERATION: &'static str =
    "INSERT INTO log_clear_generations (daemon_id, generation) VALUES (?1, 1) \
    ON CONFLICT(daemon_id) DO UPDATE SET generation = generation + 1";

/// How often the entries of a daemon were cleared.
pub const SELECT_GENERATION: &'static str =
    "SELECT generation FROM log_clear_generations WHERE daemon_id = ?1";

/// The number of entries of a daemon.
pub const COUNT_ENTRIES: &'static str = "SELECT COUNT(*) FROM log_entries WHERE daemon_id = ?1";

/// The highest row id of a daemon.
pub const SELECT_LAST_ID: &'static str = "SELECT MAX(id) FROM log_entries WHERE daemon_id = ?1";

/// The daemons that have entries.
pub const SELECT_DAEMON_IDS: &'static str = "SELECT DISTINCT daemon_id FROM log_entries";

/// A value that is bound to a placeholder of a statement.
#[derive(Debug)]
pub enum SqlParam {
    Text(String),
    Integer(i64),
}

/// The value of a placeholder.
pub enum SqlValue {
    Text(Seq<char>),
    Integer(int),
}

impl View for SqlParam {
    type V = SqlValue;

    open spec fn view(&self) -> SqlValue {
        match self {
            SqlParam::Text(s) => SqlValue::Text(s@),
            SqlParam::Integer(i) => SqlValue::Integer(*i as int),
        }
    }
}

/// The values of the placeholders.
pub open spec fn values(params: Seq<SqlParam>) -> Seq<SqlValue> {
    params.map_values(|p: SqlParam| p@)
}

/// How a condition on the message compares it with its placeholder.
#[derive(Debug, Clone, Copy, PartialEq, Eq, Structural)]
pub enum FilterKind {
    /// The message holds the value.
    Instr,
    /// The message matches the `LIKE` pattern, both in lower case.
    Like,
    /// The message matches the regular expression.
    Regexp,
}

/// A condition on the message.
#[derive(Debug, Clone, Copy, PartialEq, Eq, Structural)]
pub struct FilterClause {
    pub kind: FilterKind,
    /// The number of the placeholder.
    pub index: usize,
}

/// A query over the log entries: its conditions by the numbers of their placeholders, and the
/// values of the placeholders.
#[derive(Debug)]
pub struct QueryPlan {
    /// The number of daemon IDs; their placeholders are the first ones.
    pub daemons: usize,
    pub from: Option<usize>,
    pub to: Option<usize>,
    pub after: Option<usize>,
    pub filters: Vec<FilterClause>,
    pub params: Vec<SqlParam>,
    pub order_desc: bool,
    pub limit: Option<usize>,
}

/// The options of a query.
#[verifier::ext_equal]
pub struct QueryView {
    pub daemon_ids: Seq<Seq<char>>,
    pub from: Option<int>,
    pub to: Option<int>,
    pub limit: Option<usize>,
    pub order_desc: bool,
    pub after_id: Option<int>,
    pub filters: Seq<FilterView>,
}

impl View for LogQuery {
    type V = QueryView;

    open spec fn view(&self) -> QueryView {
        QueryView {
            daemon_ids: text::texts(self.daemon_ids@),
            from: match self.from {
                Some(m) => Some(m@ / 1_000_000),
                None => None,
            },
            to: match self.to {
                Some(m) => Some(m@ / 1_000_000),
                None => None,
            },
            limit: self.limit,
            order_desc: self.order_desc,
            after_id: match self.after_id {
                Some(id) => Some(id as int),
                None => None,
            },
            filters: self.message_filters@.map_values(|f: MessageFilter| f@),
        }
    }
}

/// The query for all entries of a daemon behind a row, from the oldest on.
pub open spec fn tail_view(daemon: Seq<char>, after_id: Option<int>) -> QueryView {
    QueryView {
        daemon_ids: seq![daemon],
        from: None,
        to: None,
        limit: None,
        order_desc: false,
        after_id,
        filters: Seq::empty(),
    }
}

/// A row of the table of log entries.
pub struct Row {
    pub id: int,
    pub daemon_id: Seq<char>,
    pub millis: int,
    pub message: Seq<char>,
}

/// Whether a message passes a filter.
pub open spec fn passes(filter: FilterView, message: Seq<char>) -> bool {
    match filter {
        FilterView::Contains(p) => text::occurs_in(
            log_store::lowered(p),
            log_store::lowered(message),
        ),
        FilterView::ContainsCased(p) => text::occurs_in(p, message),
        FilterView::Regex(p) => regexp::regex_matches(p, message),
    }
}

/// Whether a query asks for a row.
pub open spec fn asks_for(q: QueryView, row: Row) -> bool {
    &&& q.daemon_ids.len() > 0 ==> q.daemon_ids.contains(row.daemon_id)
    &&& q.from matches Some(from) ==> row.millis >= from
    &&& q.to matches Some(to) ==> row.millis <= to
    &&& q.after_id matches Some(id) ==> row.id > id
    &&& q.filters.len() > 0 ==> exists|k: int|
        0 <= k < q.filters.len() && passes(#[trigger] q.filters[k], row.message)
}

/// The value that a filter binds.
pub open spec fn filter_value(filter: FilterView) -> SqlValue {
    match filter {
        FilterView::Contains(p) => SqlValue::Text(log_store::like_pattern(p)),
        FilterView::ContainsCased(p) => SqlValue::Text(p),
        FilterView::Regex(p) => SqlValue::Text(p),
    }
}

/// How a filter compares the message.
pub open spec fn filter_kind(filter: FilterView) -> FilterKind {
    match filter {
        FilterView::Contains(_) => FilterKind::Like,
        FilterView::ContainsCased(_) => FilterKind::Instr,
        FilterView::Regex(_) => FilterKind::Regexp,
    }
}

/// The values that an optional number binds.
pub open spec fn optional_value(value: Option<int>) -> Seq<SqlValue> {
    match value {
        Some(i) => seq![SqlValue::Integer(i)],
        None => Seq::empty(),
    }
}

/// The values of the daemon IDs.
pub open spec fn id_values(ids: Seq<Seq<char>>) -> Seq<SqlValue> {
    ids.map_values(|s: Seq<char>| SqlValue::Text(s))
}

/// The values of the filters.
pub open spec fn filter_values(filters: Seq<FilterView>) -> Seq<SqlValue> {
    filters.map_values(|f: FilterView| filter_value(f))
}

/// The values up to the lower bound of the time.
pub open spec fn values_to_from(q: QueryView) -> Seq<SqlValue> {
    id_values(q.daemon_ids) + optional_value(q.from)
}

/// The values up to the upper bound of the time.
pub open spec fn values_to_to(q: QueryView) -> Seq<SqlValue> {
    values_to_from(q) + optional_value(q.to)
}

/// The values up to the row id.
pub open spec fn values_to_after(q: QueryView) -> Seq<SqlValue> {
    values_to_to(q) + optional_value(q.after_id)
}

/// The number of the placeholder that follows some values, where there is one.
pub open spec fn placeholder(value: Option<int>, before: Seq<SqlValue>) -> Option<usize> {
    match value {
        Some(_) => Some((before.len() + 1) as usize),
        None => None,
    }
}

/// The conditions of the filters, whose placeholders follow `before` values.
pub open spec fn filter_clauses(filters: Seq<FilterView>, before: int) -> Seq<FilterClause> {
    Seq::new(
        filters.len(),
        |k: int| FilterClause {
            kind: filter_kind(filters[k]),
            index: (before + k + 1) as usize,
        },
    )
}

impl QueryPlan {
    /// Whether this is the plan of a query.
    pub open spec fn plans(&self, q: QueryView) -> bool {
        &&& self.daemons == q.daemon_ids.len()
        &&& self.from == placeholder(q.from, id_values(q.daemon_ids))
        &&& self.to == placeholder(q.to, values_to_from(q))
        &&& self.after == placeholder(q.after_id, values_to_to(q))
        &&& self.filters@ == filter_clauses(q.filters, values_to_after(q).len() as int)
        &&& values(self.params@) == values_to_after(q) + filter_values(q.filters)
        &&& self.order_desc == q.order_desc
        &&& self.limit == q.limit
    }

    /// The value of a placeholder; placeholders are counted from one.
    pub open spec fn value(&self, index: usize) -> SqlValue {
        values(self.params@)[index - 1]
    }

    /// Whether a message meets a condition.
    pub open spec fn filter_holds(&self, clause: FilterClause, message: Seq<char>) -> bool {
        self.value(clause.index) matches SqlValue::Text(s) && match clause.kind {
            FilterKind::Instr => text::occurs_in(s, message),
            FilterKind::Like => log_store::like(log_store::lowered(s), log_store::lowered(message)),
            FilterKind::Regexp => regexp::regex_matches(s, message),
        }
    }

    /// Whether a row meets all conditions.
    pub open spec fn accepts(&self, row: Row) -> bool {
        &&& self.daemons > 0 ==> exists|i: usize|
            0 < i <= self.daemons && #[trigger] self.value(i) == SqlValue::Text(row.daemon_id)
        &&& self.from matches Some(i) ==> (self.value(i) matches SqlValue::Integer(n) && row.millis
            >= n)
        &&& self.to matches Some(i) ==> (self.value(i) matches SqlValue::Integer(n) && row.millis
            <= n)
        &&& self.after matches Some(i) ==> (self.value(i) matches SqlValue::Integer(n) && row.id
            > n)
        &&& self.filters@.len() > 0 ==> exists|k: int|
            0 <= k < self.filters@.len() && self.filter_holds(
                #[trigger] self.filters@[k],
                row.message,
            )
    }
}

/// A plan accepts the daemons that a query asks for.
proof fn lemma_daemons(plan: QueryPlan, q: QueryView, daemon_id: Seq<char>)
    requires
        plan.plans(q),
        plan.params@.len() < usize::MAX,
    ensures
        (exists|i: usize|
            0 < i <= plan.daemons && #[trigger] plan.value(i) == SqlValue::Text(daemon_id))
            <==> q.daemon_ids.contains(daemon_id),
{
    let all = values(plan.params@);
    assert(all.len() == plan.params@.len());
    let ids = id_values(q.daemon_ids);
    assert forall|k: int| 0 <= k < ids.len() implies #[trigger] all[k] == SqlValue::Text(
        q.daemon_ids[k],
    ) by {
        assert(all[k] == ids[k]);
    }
    if q.daemon_ids.contains(daemon_id) {
        let k = choose|k: int| 0 <= k < q.daemon_ids.len() && q.daemon_ids[k] == daemon_id;
        let i = (k + 1) as usize;
        assert(plan.value(i) == SqlValue::Text(daemon_id));
    }
}

/// A plan accepts the times and the row ids that a query asks for.
proof fn lemma_bounds(plan: QueryPlan, q: QueryView)
    requires
        plan.plans(q),
        plan.params@.len() < usize::MAX,
    ensures
        q.from matches Some(n) ==> plan.from matches Some(i) && plan.value(i) == SqlValue::Integer(n),
        q.to matches Some(n) ==> plan.to matches Some(i) && plan.value(i) == SqlValue::Integer(n),
        q.after_id matches Some(n) ==> plan.after matches Some(i) && plan.value(i)
            == SqlValue::Integer(n),
{
    let all = values(plan.params@);
    assert(all.len() == plan.params@.len());
    if q.from is Some {
        assert(all[id_values(q.daemon_ids).len() as int] == SqlValue::Integer(q.from->0));
    }
    if q.to is Some {
        assert(all[values_to_from(q).len() as int] == SqlValue::Integer(q.to->0));
    }
    if q.after_id is Some {
        assert(all[values_to_to(q).len() as int] == SqlValue::Integer(q.after_id->0));
    }
}

/// A plan accepts the messages that pass a filter of the query.
proof fn lemma_filters(plan: QueryPlan, q: QueryView, message: Seq<char>)
    requires
        plan.plans(q),
        plan.params@.len() < usize::MAX,
    ensures
        plan.filters@.len() == q.filters.len(),
        (exists|k: int|
            0 <= k < plan.filters@.len() && plan.filter_holds(#[trigger] plan.filters@[k], message))
            <==> (exists|k: int|
            0 <= k < q.filters.len() && passes(#[trigger] q.filters[k], message)),
{
    let all = values(plan.params@);
    assert(all.len() == plan.params@.len());
    let base = values_to_after(q).len() as int;
    assert forall|k: int| 0 <= k < q.filters.len() implies plan.filter_holds(
        #[trigger] plan.filters@[k],
        message,
    ) == passes(q.filters[k], message) by {
        assert(all[base + k] == filter_values(q.filters)[k]);
        assert(plan.filters@[k].index == base + k + 1);
        if let FilterView::Contains(p) = q.filters[k] {
            log_store::lowered_like_pattern_is_literal(p, message);
        }
    }
    if exists|k: int| 0 <= k < q.filters.len() && passes(#[trigger] q.filters[k], message) {
        let k = choose|k: int|
            0 <= k < q.filters.len() && passes(#[trigger] q.filters[k], message);
        assert(plan.filter_holds(plan.filters@[k], message));
    }
    if exists|k: int|
        0 <= k < plan.filters@.len() && plan.filter_holds(#[trigger] plan.filters@[k], message) {
        let k = choose|k: int|
            0 <= k < plan.filters@.len() && plan.filter_holds(#[trigger] plan.filters@[k], message);
        assert(passes(q.filters[k], message));
    }
}

/// The plan of a query accepts exactly the rows that the query asks for.
pub proof fn plan_accepts_what_is_asked(plan: QueryPlan, q: QueryView, row: Row)
    requires
        plan.plans(q),
        plan.params@.len() < usize::MAX,
    ensures
        plan.accepts(row) <==> asks_for(q, row),
{
    lemma_daemons(plan, q, row.daemon_id);
    lemma_bounds(plan, q);
    lemma_filters(plan, q, row.message);
}

/// Whether a row comes before another one: by time, and by row id where the times are the same.
pub open spec fn comes_before(a: Row, b: Row) -> bool {
    a.millis < b.millis || (a.millis == b.millis && a.id < b.id)
}

/// Whether rows stand in an order, from the oldest on or from the newest on.
pub open spec fn in_order(rows: Seq<Row>, desc: bool) -> bool {
    forall|i: int, j: int|
        #![trigger rows[i], rows[j]]
        0 <= i < j < rows.len() ==> if desc {
            comes_before(rows[j], rows[i])
        } else {
            comes_before(rows[i], rows[j])
        }
}

/// The first of some rows, at most as many as a limit says.
pub open spec fn limited(rows: Seq<Row>, limit: Option<usize>) -> Seq<Row> {
    match limit {
        Some(n) => if n < rows.len() {
            rows.take(n as int)
        } else {
            rows
        },
        None => rows,
    }
}

impl QueryPlan {
    /// Whether rows are all of a table that meet the conditions, in the order of the plan.
    pub open spec fn lists(&self, table: Set<Row>, rows: Seq<Row>) -> bool {
        &&& in_order(rows, self.order_desc)
        &&& forall|row: Row| #[trigger]
            rows.contains(row) <==> table.contains(row) && self.accepts(row)
    }

    /// Whether rows are what the statement yields of a table: those that meet the conditions, in
    /// the order of the plan, up to its limit.
    pub open spec fn yields(&self, table: Set<Row>, rows: Seq<Row>) -> bool {
        exists|all: Seq<Row>| #[trigger] self.lists(table, all) && rows == limited(all, self.limit)
    }
}

/// Rows that stand from the oldest on are told by which they are.
proof fn lemma_order_is_unique(a: Seq<Row>, b: Seq<Row>)
    requires
        in_order(a, false),
        in_order(b, false),
        forall|row: Row| #[trigger] a.contains(row) <==> b.contains(row),
    ensures
        a == b,
    decreases a.len(),
{
    if a.len() == 0 {
        if b.len() > 0 {
            assert(b.contains(b[0]));
            assert(a.contains(b[0]));
        }
        assert(a =~= b);
    } else {
        assert(a.contains(a.last()));
        let i = choose|i: int| 0 <= i < b.len() && b[i] == a.last();
        assert(b.contains(b.last()));
        assert(a.contains(b.last()));
        let j = choose|j: int| 0 <= j < a.len() && a[j] == b.last();
        assert(a.last() == b.last());
        let x = a.drop_last();
        let y = b.drop_last();
        assert(in_order(x, false)) by {
            assert forall|i: int, j: int|
                #![trigger x[i], x[j]]
                0 <= i < j < x.len() implies comes_before(x[i], x[j]) by {
                assert(a[i] == x[i] && a[j] == x[j]);
            }
        }
        assert(in_order(y, false)) by {
            assert forall|i: int, j: int|
                #![trigger y[i], y[j]]
                0 <= i < j < y.len() implies comes_before(y[i], y[j]) by {
                assert(b[i] == y[i] && b[j] == y[j]);
            }
        }
        assert forall|row: Row| #[trigger] x.contains(row) implies y.contains(row) by {
            lemma_drop_last_contains(a, b, row);
        }
        assert forall|row: Row| #[trigger] y.contains(row) implies x.contains(row) by {
            lemma_drop_last_contains(b, a, row);
        }
        lemma_order_is_unique(x, y);
        assert(a =~= x.push(a.last()));
        assert(b =~= y.push(b.last()));
    }
}

/// What two lists have in common they have in common without their last row.
proof fn lemma_drop_last_contains(a: Seq<Row>, b: Seq<Row>, row: Row)
    requires
        in_order(a, false),
        a.len() > 0,
        b.len() > 0,
        a.last() == b.last(),
        a.drop_last().contains(row),
        b.contains(row) <==> a.contains(row),
    ensures
        b.drop_last().contains(row),
{
    let k = choose|k: int| 0 <= k < a.drop_last().len() && a.drop_last()[k] == row;
    assert(a[k] == row);
    assert(a.contains(row));
    let n = choose|n: int| 0 <= n < b.len() && b[n] == row;
    assert(comes_before(a[k], a[a.len() - 1]));
    assert(n != b.len() - 1);
    assert(b.drop_last()[n] == row);
}

/// Rows from the oldest on are those from the newest on in reverse.
proof fn lemma_reversed(rows: Seq<Row>, desc: bool)
    requires
        in_order(rows, desc),
    ensures
        in_order(rows.reverse(), !desc),
        forall|row: Row| #[trigger] rows.reverse().contains(row) <==> rows.contains(row),
        rows.reverse().reverse() == rows,
{
    let back = rows.reverse();
    assert(in_order(back, !desc)) by {
        assert forall|i: int, j: int|
            #![trigger back[i], back[j]]
            0 <= i < j < back.len() implies if !desc {
            comes_before(back[j], back[i])
        } else {
            comes_before(back[i], back[j])
        } by {
            assert(back[i] == rows[rows.len() - 1 - i] && back[j] == rows[rows.len() - 1 - j]);
        }
    }
    assert forall|row: Row| #[trigger] back.contains(row) <==> rows.contains(row) by {
        if rows.contains(row) {
            let k = choose|k: int| 0 <= k < rows.len() && rows[k] == row;
            assert(back[rows.len() - 1 - k] == row);
        }
        if back.contains(row) {
            let k = choose|k: int| 0 <= k < back.len() && back[k] == row;
            assert(rows[rows.len() - 1 - k] == row);
        }
    }
    assert(back.reverse() =~= rows);
}

/// Two plans with the same conditions and the same order list the same.
proof fn lemma_same_list(p1: QueryPlan, p2: QueryPlan, table: Set<Row>, a: Seq<Row>, b: Seq<Row>)
    requires
        p1.lists(table, a),
        p2.lists(table, b),
        p1.order_desc == p2.order_desc,
        forall|row: Row| p1.accepts(row) == p2.accepts(row),
    ensures
        a == b,
{
    assert forall|row: Row| #[trigger] a.contains(row) <==> b.contains(row) by {
        assert(p1.accepts(row) == p2.accepts(row));
    }
    if p1.order_desc {
        lemma_reversed(a, true);
        lemma_reversed(b, true);
        lemma_order_is_unique(a.reverse(), b.reverse());
    } else {
        lemma_order_is_unique(a, b);
    }
}

/// A query has one answer.
pub proof fn answer_is_unique(
    plan: QueryPlan,
    table: Set<Row>,
    rows: Seq<Row>,
    others: Seq<Row>,
)
    requires
        plan.yields(table, rows),
        plan.yields(table, others),
    ensures
        rows == others,
{
    let a = choose|all: Seq<Row>| #[trigger]
        plan.lists(table, all) && rows == limited(all, plan.limit);
    let b = choose|all: Seq<Row>| #[trigger]
        plan.lists(table, all) && others == limited(all, plan.limit);
    lemma_same_list(plan, plan, table, a, b);
}

/// A query with a limit is answered with the first rows of the answer without one: as many as the
/// limit says, or all where there are fewer. From the newest on those are the newest.
pub proof fn limit_takes_the_first(
    q: QueryView,
    plan: QueryPlan,
    unlimited: QueryPlan,
    table: Set<Row>,
    rows: Seq<Row>,
    all: Seq<Row>,
)
    requires
        q.limit matches Some(n) && n <= i64::MAX,
        plan.plans(q),
        unlimited.plans(QueryView { limit: None, ..q }),
        plan.params@.len() < usize::MAX,
        unlimited.params@.len() < usize::MAX,
        plan.yields(table, rows),
        unlimited.yields(table, all),
    ensures
        rows == limited(all, q.limit),
        rows.len() <= all.len(),
        q.order_desc ==> forall|i: int, j: int|
            #![trigger rows[i], all[j]]
            0 <= i < rows.len() <= j < all.len() ==> comes_before(all[j], rows[i]),
{
    let free = QueryView { limit: None, ..q };
    let a = choose|list: Seq<Row>| #[trigger]
        plan.lists(table, list) && rows == limited(list, plan.limit);
    assert(unlimited.lists(table, all));
    assert forall|row: Row| plan.accepts(row) == unlimited.accepts(row) by {
        plan_accepts_what_is_asked(plan, q, row);
        plan_accepts_what_is_asked(unlimited, free, row);
        assert(asks_for(q, row) == asks_for(free, row));
    }
    lemma_same_list(plan, unlimited, table, a, all);
}

/// The answer in the other order is the same answer in reverse, where there is no limit.
pub proof fn other_order_is_reversed(
    q: QueryView,
    plan: QueryPlan,
    other: QueryPlan,
    table: Set<Row>,
    rows: Seq<Row>,
    others: Seq<Row>,
)
    requires
        q.limit is None,
        plan.plans(q),
        other.plans(QueryView { order_desc: !q.order_desc, ..q }),
        plan.params@.len() < usize::MAX,
        other.params@.len() < usize::MAX,
        plan.yields(table, rows),
        other.yields(table, others),
    ensures
        others == rows.reverse(),
{
    let turned = QueryView { order_desc: !q.order_desc, ..q };
    assert(plan.lists(table, rows));
    assert(other.lists(table, others));
    assert forall|row: Row| plan.accepts(row) == other.accepts(row) by {
        plan_accepts_what_is_asked(plan, q, row);
        plan_accepts_what_is_asked(other, turned, row);
        assert(asks_for(q, row) == asks_for(turned, row));
    }
    lemma_reversed(rows, plan.order_desc);
    assert forall|row: Row| #[trigger] rows.reverse().contains(row) <==> table.contains(row)
        && other.accepts(row) by {
        assert(plan.accepts(row) == other.accepts(row));
    }
    assert(other.lists(table, rows.reverse()));
    lemma_same_list(other, other, table, others, rows.reverse());
}

/// Joined filters are alternatives: a query with the filters of two is answered with the rows of
/// both answers, none of them twice, where there is no limit.
pub proof fn joined_filters_give_both_answers(
    q: QueryView,
    first: Seq<FilterView>,
    second: Seq<FilterView>,
    plans: (QueryPlan, QueryPlan, QueryPlan),
    table: Set<Row>,
    rows: (Seq<Row>, Seq<Row>, Seq<Row>),
)
    requires
        q.limit is None,
        first.len() > 0,
        second.len() > 0,
        plans.0.plans(QueryView { filters: first + second, ..q }),
        plans.1.plans(QueryView { filters: first, ..q }),
        plans.2.plans(QueryView { filters: second, ..q }),
        plans.0.params@.len() < usize::MAX,
        plans.1.params@.len() < usize::MAX,
        plans.2.params@.len() < usize::MAX,
        plans.0.yields(table, rows.0),
        plans.1.yields(table, rows.1),
        plans.2.yields(table, rows.2),
    ensures
        forall|row: Row| #[trigger]
            rows.0.contains(row) <==> rows.1.contains(row) || rows.2.contains(row),
        rows.0.no_duplicates(),
{
    let joined = QueryView { filters: first + second, ..q };
    let left = QueryView { filters: first, ..q };
    let right = QueryView { filters: second, ..q };
    assert(plans.0.lists(table, rows.0));
    assert(plans.1.lists(table, rows.1));
    assert(plans.2.lists(table, rows.2));
    assert forall|row: Row| #[trigger] rows.0.contains(row) <==> rows.1.contains(row)
        || rows.2.contains(row) by {
        plan_accepts_what_is_asked(plans.0, joined, row);
        plan_accepts_what_is_asked(plans.1, left, row);
        plan_accepts_what_is_asked(plans.2, right, row);
        if asks_for(left, row) {
            let k = choose|k: int| 0 <= k < first.len() && passes(#[trigger] first[k], row.message);
            assert(joined.filters[k] == first[k]);
        }
        if asks_for(right, row) {
            let k = choose|k: int| 0 <= k < second.len() && passes(#[trigger] second[k], row.message);
            assert(joined.filters[first.len() + k] == second[k]);
        }
        if asks_for(joined, row) {
            let k = choose|k: int|
                0 <= k < joined.filters.len() && passes(#[trigger] joined.filters[k], row.message);
            if k < first.len() {
                assert(first[k] == joined.filters[k]);
            } else {
                assert(second[k - first.len()] == joined.filters[k]);
            }
        }
    }
    assert forall|i: int, j: int|
        0 <= i < rows.0.len() && 0 <= j < rows.0.len() && i != j implies rows.0[i] != rows.0[j] by {
        if i < j {
            assert(comes_before(rows.0[i], rows.0[j]) || comes_before(rows.0[j], rows.0[i]));
        } else {
            assert(comes_before(rows.0[i], rows.0[j]) || comes_before(rows.0[j], rows.0[i]));
        }
    }
}

/// Plans a query.
pub fn plan_query(opts: &LogQuery) -> (r: QueryPlan)
    requires
        opts.daemon_ids@.len() + opts.message_filters@.len() + 4 <= usize::MAX,
    ensures
        r.plans(opts@),
        r.params@.len() < usize::MAX,
{
    let ghost q = opts@;
    let mut params: Vec<SqlParam> = Vec::new();
    let mut i: usize = 0;
    while i < opts.daemon_ids.len()
        invariant
            i <= opts.daemon_ids@.len(),
            values(params@) == id_values(text::texts(opts.daemon_ids@)).take(i as int),
        decreases opts.daemon_ids@.len() - i,
    {
        let ghost before = values(params@);
        params.push(SqlParam::Text(opts.daemon_ids[i].clone()));
        assert(values(params@) =~= before.push(SqlValue::Text(opts.daemon_ids@[i as int]@)));
        i = i + 1;
    }
    assert(values(params@) =~= id_values(q.daemon_ids));
    let mut from: Option<usize> = None;
    if let Some(moment) = &opts.from {
        from = Some(params.len() + 1);
        params.push(SqlParam::Integer(moment.millis()));
    }
    assert(values(params@) =~= values_to_from(q));
    let mut to: Option<usize> = None;
    if let Some(moment) = &opts.to {
        to = Some(params.len() + 1);
        params.push(SqlParam::Integer(moment.millis()));
    }
    assert(values(params@) =~= values_to_to(q));
    let mut after: Option<usize> = None;
    if let Some(id) = opts.after_id {
        after = Some(params.len() + 1);
        params.push(SqlParam::Integer(id));
    }
    assert(values(params@) =~= values_to_after(q));
    let ghost fixed = values_to_after(q);
    let mut filters: Vec<FilterClause> = Vec::new();
    let mut j: usize = 0;
    while j < opts.message_filters.len()
        invariant
            q == opts@,
            fixed == values_to_after(q),
            fixed.len() <= q.daemon_ids.len() + 3,
            q.daemon_ids.len() == opts.daemon_ids@.len(),
            q.filters.len() == opts.message_filters@.len(),
            opts.daemon_ids@.len() + opts.message_filters@.len() + 4 <= usize::MAX,
            j <= opts.message_filters@.len(),
            values(params@) == fixed + filter_values(q.filters).take(j as int),
            filters@ == filter_clauses(q.filters, fixed.len() as int).take(j as int),
        decreases opts.message_filters@.len() - j,
    {
        let ghost before = values(params@);
        assert(params@.len() == before.len());
        let index: usize = params.len() + 1;
        match &opts.message_filters[j] {
            MessageFilter::Contains { pattern, case_sensitive } => {
                if *case_sensitive {
                    filters.push(FilterClause { kind: FilterKind::Instr, index });
                    params.push(SqlParam::Text(pattern.clone()));
                } else {
                    let escaped = escape_like_pattern(pattern.as_str());
                    filters.push(FilterClause { kind: FilterKind::Like, index });
                    params.push(
                        SqlParam::Text("%".to_string().concat(escaped.as_str()).concat("%")),
                    );
                }
            },
            MessageFilter::Regex { pattern } => {
                filters.push(FilterClause { kind: FilterKind::Regexp, index });
                params.push(SqlParam::Text(pattern.clone()));
            },
        }
        proof {
            assert(q.filters[j as int] == opts.message_filters@[j as int]@);
            assert(values(params@) =~= before.push(filter_value(q.filters[j as int])));
            assert(filter_values(q.filters).take(j + 1) =~= filter_values(q.filters).take(
                j as int,
            ).push(filter_value(q.filters[j as int])));
            assert(filter_clauses(q.filters, fixed.len() as int).take(j + 1) =~= filter_clauses(
                q.filters,
                fixed.len() as int,
            ).take(j as int).push(filter_clauses(q.filters, fixed.len() as int)[j as int]));
        }
        j = j + 1;
    }
    assert(values(params@) =~= fixed + filter_values(q.filters));
    assert(filters@ =~= filter_clauses(q.filters, fixed.len() as int));
    QueryPlan {
        daemons: opts.daemon_ids.len(),
        from,
        to,
        after,
        filters,
        params,
        order_desc: opts.order_desc,
        limit: opts.limit,
    }
}

/// The text of a placeholder.
pub open spec fn placeholder_text(index: int) -> Seq<char> {
    "?"@ + text::decimal(index)
}

/// The texts of the first placeholders.
pub open spec fn first_placeholders(count: nat) -> Seq<Seq<char>> {
    Seq::new(count, |i: int| placeholder_text(i + 1))
}

/// The text of a list of the first placeholders.
pub open spec fn placeholder_list(count: nat) -> Seq<char> {
    text::joined(first_placeholders(count), ", "@)
}

/// Writes a list of the first placeholders.
pub fn write_placeholders(count: usize) -> (r: String)
    requires
        count < usize::MAX,
    ensures
        r@ == placeholder_list(count as nat),
{
    let mut list: Vec<String> = Vec::new();
    let mut i: usize = 1;
    while i <= count
        invariant
            1 <= i <= count + 1,
            count < usize::MAX,
            text::texts(list@) == first_placeholders(count as nat).take(i - 1),
        decreases count + 1 - i,
    {
        let ghost before = text::texts(list@);
        list.push("?".to_string().concat(nat_text(i as u64).as_str()));
        assert(text::texts(list@) =~= before.push(placeholder_text(i as int)));
        i = i + 1;
    }
    assert(text::texts(list@) =~= first_placeholders(count as nat));
    join(&list, ", ")
}

/// The text of a condition on the message.
pub open spec fn filter_text(clause: FilterClause) -> Seq<char> {
    match clause.kind {
        FilterKind::Instr => "INSTR(message, "@ + placeholder_text(clause.index as int) + ") > 0"@,
        FilterKind::Like => "LOWER(message) LIKE LOWER("@ + placeholder_text(clause.index as int)
            + ") ESCAPE '\\'"@,
        FilterKind::Regexp => "message REGEXP "@ + placeholder_text(clause.index as int),
    }
}

impl FilterClause {
    /// Writes the condition.
    fn sql(&self) -> (r: String)
        ensures
            r@ == filter_text(*self),
    {
        let place = "?".to_string().concat(nat_text(self.index as u64).as_str());
        match self.kind {
            FilterKind::Instr => "INSTR(message, ".to_string().concat(place.as_str()).concat(
                ") > 0",
            ),
            FilterKind::Like => "LOWER(message) LIKE LOWER(".to_string().concat(
                place.as_str(),
            ).concat(") ESCAPE '\\'"),
            FilterKind::Regexp => "message REGEXP ".to_string().concat(place.as_str()),
        }
    }
}

/// The condition that compares with a placeholder, where there is one.
pub open spec fn bound_text(head: Seq<char>, index: Option<usize>) -> Seq<Seq<char>> {
    match index {
        Some(i) => seq![head + placeholder_text(i as int)],
        None => Seq::empty(),
    }
}

impl QueryPlan {
    /// The texts of the conditions on the message.
    pub open spec fn filter_texts(&self) -> Seq<Seq<char>> {
        self.filters@.map_values(|c: FilterClause| filter_text(c))
    }

    /// The texts of the conditions.
    pub open spec fn condition_texts(&self) -> Seq<Seq<char>> {
        (if self.daemons > 0 {
            seq!["daemon_id IN ("@ + placeholder_list(self.daemons as nat) + ")"@]
        } else {
            Seq::empty()
        }) + bound_text("timestamp >= "@, self.from) + bound_text("timestamp <= "@, self.to)
            + bound_text("id > "@, self.after) + if self.filters@.len() > 0 {
            seq!["("@ + text::joined(self.filter_texts(), " OR "@) + ")"@]
        } else {
            Seq::empty()
        }
    }

    /// The text of all conditions.
    pub open spec fn where_text(&self) -> Seq<char> {
        if self.condition_texts().len() == 0 {
            ""@
        } else {
            "WHERE "@ + text::joined(self.condition_texts(), " AND "@)
        }
    }

    /// The word for the order of the rows.
    pub open spec fn order_text(&self) -> Seq<char> {
        if self.order_desc {
            "DESC"@
        } else {
            "ASC"@
        }
    }

    /// The text of the limit.
    pub open spec fn limit_text(&self) -> Seq<char> {
        match self.limit {
            Some(n) => "LIMIT "@ + text::decimal(n as int),
            None => ""@,
        }
    }

    /// The text of the statement.
    pub open spec fn sql_text(&self) -> Seq<char> {
        "SELECT id, daemon_id, timestamp, message FROM log_entries "@ + self.where_text()
            + " ORDER BY timestamp "@ + self.order_text() + ", id "@ + self.order_text() + " "@
            + self.limit_text()
    }

    /// Writes the conditions.
    fn conditions(&self) -> (r: Vec<String>)
        requires
            self.daemons < usize::MAX,
        ensures
            text::texts(r@) == self.condition_texts(),
    {
        let mut list: Vec<String> = Vec::new();
        if self.daemons > 0 {
            list.push(
                "daemon_id IN (".to_string().concat(
                    write_placeholders(self.daemons).as_str(),
                ).concat(")"),
            );
        }
        if let Some(i) = self.from {
            list.push("timestamp >= ".to_string().concat("?").concat(nat_text(i as u64).as_str()));
            assert("timestamp >= "@ + "?"@ + text::decimal(i as int) =~= "timestamp >= "@
                + placeholder_text(i as int));
        }
        if let Some(i) = self.to {
            list.push("timestamp <= ".to_string().concat("?").concat(nat_text(i as u64).as_str()));
            assert("timestamp <= "@ + "?"@ + text::decimal(i as int) =~= "timestamp <= "@
                + placeholder_text(i as int));
        }
        if let Some(i) = self.after {
            list.push("id > ".to_string().concat("?").concat(nat_text(i as u64).as_str()));
            assert("id > "@ + "?"@ + text::decimal(i as int) =~= "id > "@ + placeholder_text(
                i as int,
            ));
        }
        if self.filters.len() > 0 {
            let mut parts: Vec<String> = Vec::new();
            let mut j: usize = 0;
            while j < self.filters.len()
                invariant
                    j <= self.filters@.len(),
                    text::texts(parts@) == self.filter_texts().take(j as int),
                decreases self.filters@.len() - j,
            {
                let ghost before = text::texts(parts@);
                parts.push(self.filters[j].sql());
                assert(text::texts(parts@) =~= before.push(filter_text(self.filters@[j as int])));
                j = j + 1;
            }
            assert(text::texts(parts@) =~= self.filter_texts());
            list.push("(".to_string().concat(join(&parts, " OR ").as_str()).concat(")"));
        }
        assert(text::texts(list@) =~= self.condition_texts());
        list
    }

    /// Writes the statement.
    pub fn sql(&self) -> (r: String)
        requires
            self.daemons < usize::MAX,
        ensures
            r@ == self.sql_text(),
    {
        let conditions = self.conditions();
        assert(conditions@.len() == text::texts(conditions@).len());
        let where_clause = if conditions.len() == 0 {
            "".to_string()
        } else {
            "WHERE ".to_string().concat(join(&conditions, " AND ").as_str())
        };
        let order = if self.order_desc {
            "DESC"
        } else {
            "ASC"
        };
        let limit_clause = match self.limit {
            Some(n) => "LIMIT ".to_string().concat(nat_text(n as u64).as_str()),
            None => "".to_string(),
        };
        "SELECT id, daemon_id, timestamp, message FROM log_entries ".to_string().concat(
            where_clause.as_str(),
        ).concat(" ORDER BY timestamp ").concat(order).concat(", id ").concat(order).concat(
            " ",
        ).concat(limit_clause.as_str())
    }
}

/// A list of placeholders counts from one, with commas between them.
pub proof fn placeholders_count_from_one(count: nat)
    ensures
        placeholder_list(0).len() == 0,
        placeholder_list(1) == "?"@ + text::decimal(1),
        count > 0 ==> placeholder_list(count + 1) == placeholder_list(count) + ", "@ + ("?"@
            + text::decimal((count + 1) as int)),
{
    let list = first_placeholders(count + 1);
    assert(list.drop_last() =~= first_placeholders(count));
    assert(list.last() == placeholder_text((count + 1) as int));
    assert(first_placeholders(1) =~= seq![placeholder_text(1)]);
}

/// What is deleted in batches is what is deleted at once: the oldest entries of a daemon are chosen
/// by the same condition, order and limit, and those before a time by the same condition.
pub proof fn batches_are_chosen_alike()
    ensures
        exists|choice: Seq<char>|
            SELECT_OLDEST@ == "SELECT id, daemon_id, timestamp, message"@ + choice && DELETE_OLDEST@
                == #[trigger] ("DELETE FROM log_entries WHERE id IN (SELECT id"@ + choice) + ")"@,
        exists|condition: Seq<char>|
            SELECT_OLDER@ == "SELECT id, daemon_id, timestamp, message"@ + condition
                + " ORDER BY timestamp ASC, id ASC LIMIT ?3"@ && DELETE_OLDER@ == #[trigger] (
            "DELETE"@ + condition),
{
    reveal_strlit("SELECT id, daemon_id, timestamp, message");
    reveal_strlit("DELETE FROM log_entries WHERE id IN (SELECT id");
    reveal_strlit(")");
    reveal_strlit("DELETE");
    reveal_strlit(" ORDER BY timestamp ASC, id ASC LIMIT ?3");
    reveal_strlit(
        "SELECT id, daemon_id, timestamp, message FROM log_entries \
    WHERE daemon_id = ?1 AND timestamp < ?2 ORDER BY timestamp ASC, id ASC LIMIT ?3",
    );
    reveal_strlit(
        "SELECT id, daemon_id, timestamp, message FROM log_entries \
    WHERE daemon_id = ?1 ORDER BY timestamp ASC, id ASC LIMIT ?2",
    );
    reveal_strlit("DELETE FROM log_entries WHERE daemon_id = ?1 AND timestamp < ?2");
    reveal_strlit(
        "DELETE FROM log_entries WHERE id IN (SELECT id FROM log_entries WHERE daemon_id = ?1 \
    ORDER BY timestamp ASC, id ASC LIMIT ?2)",
    );
    let n = "SELECT id, daemon_id, timestamp, message"@.len() as int;
    let choice = SELECT_OLDEST@.skip(n);
    assert(SELECT_OLDEST@ =~= "SELECT id, daemon_id, timestamp, message"@ + choice);
    assert(DELETE_OLDEST@ =~= ("DELETE FROM log_entries WHERE id IN (SELECT id"@ + choice) + ")"@);
    let condition = DELETE_OLDER@.skip("DELETE"@.len() as int);
    assert(DELETE_OLDER@ =~= "DELETE"@ + condition);
    assert(SELECT_OLDER@ =~= "SELECT id, daemon_id, timestamp, message"@ + condition
        + " ORDER BY timestamp ASC, id ASC LIMIT ?3"@);
}

} // verus!
