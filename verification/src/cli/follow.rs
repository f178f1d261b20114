//! How log lines are followed as they come.
use crate::cli::logs;
use crate::cli::logs::{line_of, LogLine};
use crate::daemon_id;
use crate::daemon_id::DaemonId;
use crate::log_store;
use crate::log_store::sqlite;
use crate::log_store::statement;
use crate::log_store::{ask, LogEntry, LogQuery, LogStore, MessageFilter, StoreError};
use crate::order;
use crate::order::text_at_most;
use crate::text;
use crate::text::{list_contains, text_eq};
use std::cmp::Ordering;
use vstd::prelude::*;

verus! {

/// Whether an identifier comes before another one or is the same: by namespace, then by name.
pub open spec fn id_le(a: (Seq<char>, Seq<char>), b: (Seq<char>, Seq<char>)) -> bool {
    if a.0 == b.0 {
        order::text_le(a.1, b.1)
    } else {
        order::text_le(a.0, b.0)
    }
}

/// Whether identifiers stand in ascending order, each once.
pub open spec fn ids_ascend(ids: Seq<(Seq<char>, Seq<char>)>) -> bool {
    forall|i: int, j: int|
        #![trigger ids[i], ids[j]]
        0 <= i < j < ids.len() ==> id_le(ids[i], ids[j]) && ids[i] != ids[j]
}

/// The values of identifiers.
pub open spec fn id_views(ids: Seq<DaemonId>) -> Seq<(Seq<char>, Seq<char>)> {
    ids.map_values(|d: DaemonId| d@)
}

fn id_at_most(a: &DaemonId, b: &DaemonId) -> (r: bool)
    ensures
        r == id_le(a@, b@),
{
    if text_eq(a.namespace(), b.namespace()) {
        text_at_most(a.name(), b.name())
    } else {
        text_at_most(a.namespace(), b.namespace())
    }
}

proof fn lemma_id_le_total(a: (Seq<char>, Seq<char>), b: (Seq<char>, Seq<char>))
    ensures
        id_le(a, b) || id_le(b, a),
{
    order::text_le_total(a.0, b.0);
    order::text_le_total(a.1, b.1);
}

proof fn lemma_id_le_transitive(
    a: (Seq<char>, Seq<char>),
    b: (Seq<char>, Seq<char>),
    c: (Seq<char>, Seq<char>),
)
    requires
        id_le(a, b),
        id_le(b, c),
    ensures
        id_le(a, c),
{
    if a.0 == b.0 && b.0 == c.0 {
        order::text_le_transitive(a.1, b.1, c.1);
    } else if a.0 == b.0 {
    } else if b.0 == c.0 {
    } else {
        order::text_le_transitive(a.0, b.0, c.0);
        if a.0 == c.0 {
            order::text_le_antisymmetric(a.0, b.0);
        }
    }
}

/// Puts an identifier in its place, where it is not there yet.
fn insert_id(ids: &mut Vec<DaemonId>, id: &DaemonId)
    requires
        ids_ascend(id_views(old(ids)@)),
    ensures
        ids_ascend(id_views(final(ids)@)),
        forall|x: (Seq<char>, Seq<char>)| #[trigger]
            id_views(final(ids)@).contains(x) <==> id_views(old(ids)@).contains(x) || x == id@,
{
    let ghost before = id_views(ids@);
    let mut at: usize = 0;
    while at < ids.len() && !id_at_most(id, &ids[at])
        invariant
            at <= ids@.len(),
            before == id_views(ids@),
            ids_ascend(before),
            forall|k: int| 0 <= k < at ==> !id_le(id@, #[trigger] before[k]),
        decreases ids@.len() - at,
    {
        at = at + 1;
    }
    if at < ids.len() && ids[at].same(id) {
        assert(before[at as int] == id@);
        return;
    }
    ids.insert(at, id.duplicate());
    proof {
        let after = id_views(ids@);
        assert(after =~= before.insert(at as int, id@));
        assert forall|i: int, j: int|
            #![trigger after[i], after[j]]
            0 <= i < j < after.len() implies id_le(after[i], after[j]) && after[i] != after[j] by {
            let a = if i < at { i } else { i - 1 };
            let b = if j < at { j } else { j - 1 };
            if i == at {
                assert(after[j] == before[b]);
                if j - 1 > at {
                    assert(id_le(before[at as int], before[b]));
                    lemma_id_le_transitive(id@, before[at as int], before[b]);
                    if before[b] == id@ {
                        lemma_id_le_antisymmetric(id@, before[at as int]);
                    }
                }
            } else if j == at {
                assert(after[i] == before[a]);
                assert(!id_le(id@, before[a]));
                lemma_id_le_total(id@, before[a]);
                lemma_id_le_reflexive(id@);
            } else {
                assert(after[i] == before[a] && after[j] == before[b]);
            }
        }
        assert forall|x: (Seq<char>, Seq<char>)| #[trigger] after.contains(x)
            <==> before.contains(x) || x == id@ by {
            if before.contains(x) {
                let k = choose|k: int| 0 <= k < before.len() && before[k] == x;
                let m = if k < at { k } else { k + 1 };
                assert(after[m] == x);
            }
            assert(after[at as int] == id@);
            if after.contains(x) && x != id@ {
                let k = choose|k: int| 0 <= k < after.len() && after[k] == x;
                let m = if k < at { k } else { k - 1 };
                assert(before[m] == x);
            }
        }
    }
}

proof fn lemma_id_le_antisymmetric(a: (Seq<char>, Seq<char>), b: (Seq<char>, Seq<char>))
    requires
        id_le(a, b),
        id_le(b, a),
    ensures
        a == b,
{
    if a.0 == b.0 {
        order::text_le_antisymmetric(a.1, b.1);
    } else {
        order::text_le_antisymmetric(a.0, b.0);
    }
}

proof fn lemma_id_le_reflexive(a: (Seq<char>, Seq<char>))
    ensures
        id_le(a, a),
{
    lemma_id_le_total(a, a);
}

/// Whether a daemon is known and has log entries.
pub open spec fn is_logged(
    state: Seq<(Seq<char>, Seq<char>)>,
    config: Seq<(Seq<char>, Seq<char>)>,
    logged: Seq<Seq<char>>,
    id: (Seq<char>, Seq<char>),
) -> bool {
    (state.contains(id) || config.contains(id)) && logged.contains(
        daemon_id::qualified_text(id.0, id.1),
    )
}

/// Adds the daemons that have log entries.
fn add_logged(out: &mut Vec<DaemonId>, ids: &Vec<DaemonId>, logged: &Vec<String>)
    requires
        ids_ascend(id_views(old(out)@)),
    ensures
        ids_ascend(id_views(final(out)@)),
        forall|x: (Seq<char>, Seq<char>)| #[trigger]
            id_views(final(out)@).contains(x) <==> id_views(old(out)@).contains(x) || (id_views(
                ids@,
            ).contains(x) && text::texts(logged@).contains(daemon_id::qualified_text(x.0, x.1))),
{
    let ghost all = id_views(ids@);
    let ghost start = id_views(out@);
    let mut i: usize = 0;
    while i < ids.len()
        invariant
            i <= ids@.len(),
            all == id_views(ids@),
            ids_ascend(id_views(out@)),
            forall|x: (Seq<char>, Seq<char>)| #[trigger]
                id_views(out@).contains(x) <==> start.contains(x) || (all.take(i as int).contains(x)
                    && text::texts(logged@).contains(daemon_id::qualified_text(x.0, x.1))),
        decreases ids@.len() - i,
    {
        let ghost it = ids@[i as int]@;
        proof {
            assert(all.take(i + 1) =~= all.take(i as int).push(it));
            assert forall|x: (Seq<char>, Seq<char>)| #[trigger] all.take(i + 1).contains(x) == (
            all.take(i as int).contains(x) || x == it) by {
                if all.take(i as int).contains(x) {
                    let k = choose|k: int| 0 <= k < i && all.take(i as int)[k] == x;
                    assert(all.take(i + 1)[k] == x);
                }
                assert(all.take(i + 1)[i as int] == it);
            }
        }
        if list_contains(logged, ids[i].qualified().as_str()) {
            insert_id(out, &ids[i]);
        }
        i = i + 1;
    }
    assert(all.take(i as int) =~= all);
}

/// The known daemons that have log entries, in order.
pub fn logged_daemons(
    state: &Vec<DaemonId>,
    config: &Vec<DaemonId>,
    logged: &Vec<String>,
) -> (r: Vec<DaemonId>)
    ensures
        ids_ascend(id_views(r@)),
        forall|x: (Seq<char>, Seq<char>)| #[trigger]
            id_views(r@).contains(x) <==> is_logged(
                id_views(state@),
                id_views(config@),
                text::texts(logged@),
                x,
            ),
{
    let mut out: Vec<DaemonId> = Vec::new();
    assert(id_views(out@) =~= Seq::<(Seq<char>, Seq<char>)>::empty());
    add_logged(&mut out, state, logged);
    add_logged(&mut out, config, logged);
    out
}

/// Where the following of a daemon starts: behind its last entry, or before its first one.
pub fn first_cursor(start_from_end: bool, last_id: Option<i64>) -> (r: i64)
    ensures
        r == if start_from_end && last_id is Some {
            last_id->0
        } else {
            0
        },
{
    match last_id {
        Some(id) => if start_from_end {
            id
        } else {
            0
        },
        None => 0,
    }
}

/// The cursor after a poll: behind the last entry of the answer; where a filter let none through,
/// behind the last entry that there is, so that the others are not looked at again.
pub open spec fn cursor_after(
    cursor: i64,
    answered: Option<i64>,
    filtered: bool,
    last_id: Option<i64>,
) -> i64 {
    match answered {
        Some(id) => id,
        None => if filtered && last_id is Some {
            last_id->0
        } else {
            cursor
        },
    }
}

/// The row id of the last entry.
pub open spec fn last_row(entries: Seq<LogEntry>) -> Option<i64> {
    if entries.len() > 0 {
        Some(entries.last().id)
    } else {
        None
    }
}

/// The row id of the last entry.
pub fn last_row_id(entries: &Vec<LogEntry>) -> (r: Option<i64>)
    ensures
        r == last_row(entries@),
{
    if entries.len() > 0 {
        Some(entries[entries.len() - 1].id)
    } else {
        None
    }
}

/// The cursor after a poll. `last_id` is looked up only where a filter let no entry through.
pub fn next_cursor(
    cursor: i64,
    entries: &Vec<LogEntry>,
    filtered: bool,
    last_id: Option<i64>,
) -> (r: i64)
    ensures
        r == cursor_after(cursor, last_row(entries@), filtered, last_id),
{
    match last_row_id(entries) {
        Some(id) => id,
        None => match last_id {
            Some(id) => if filtered {
                id
            } else {
                cursor
            },
            None => cursor,
        },
    }
}

/// Whether a query asks for what came behind a cursor.
pub open spec fn asks_behind(
    query: LogQuery,
    id: (Seq<char>, Seq<char>),
    cursor: i64,
    filters: Seq<MessageFilter>,
) -> bool {
    &&& text::texts(query.daemon_ids@) == seq![daemon_id::qualified_text(id.0, id.1)]
    &&& query.from is None
    &&& query.to is None
    &&& query.limit is None
    &&& !query.order_desc
    &&& query.after_id == Some(cursor)
    &&& query.message_filters@ == filters
}

/// The query for what came behind the cursor.
pub fn poll_query(id: &DaemonId, cursor: i64, filters: Vec<MessageFilter>) -> (r: LogQuery)
    ensures
        asks_behind(r, id@, cursor, filters@),
{
    let mut daemon_ids: Vec<String> = Vec::new();
    daemon_ids.push(id.qualified());
    assert(text::texts(daemon_ids@) =~= seq![daemon_id::qualified_text(id@.0, id@.1)]);
    LogQuery {
        daemon_ids,
        from: None,
        to: None,
        limit: None,
        order_desc: false,
        after_id: Some(cursor),
        message_filters: filters,
    }
}

/// What came of a poll: the entries behind the cursor, and the next cursor.
#[derive(Debug)]
pub struct Poll {
    pub entries: Vec<LogEntry>,
    pub cursor: i64,
}

/// What a store says of the last row of a daemon; nothing where it cannot say.
pub open spec fn told_row(answer: Result<Option<i64>, StoreError>) -> Option<i64> {
    match answer {
        Ok(row) => row,
        Err(_) => None,
    }
}

/// Whether an answer is one that a store may give about the last row of a daemon.
pub open spec fn may_tell<S: LogStore>(
    store: &S,
    id: &DaemonId,
    answer: Result<Option<i64>, StoreError>,
) -> bool {
    call_ensures(S::last_id, (store, id), answer)
}

/// Asks a store for what came behind a cursor.
///
/// The last row is asked for only where a filter let no entry through.
pub fn poll<S: LogStore>(
    store: &S,
    id: &DaemonId,
    cursor: i64,
    filters: Vec<MessageFilter>,
) -> (r: Result<Poll, StoreError>)
    ensures
        match r {
            Ok(p) => {
                &&& exists|query: &LogQuery| #[trigger]
                    asks_behind(*query, id@, cursor, filters@) && log_store::may_answer(
                        store,
                        query,
                        Ok(p.entries),
                    )
                &&& if p.entries@.len() == 0 && filters@.len() > 0 {
                    exists|told: Result<Option<i64>, StoreError>| #[trigger]
                        may_tell(store, id, told) && p.cursor == cursor_after(
                            cursor,
                            None,
                            true,
                            told_row(told),
                        )
                } else {
                    p.cursor == cursor_after(cursor, last_row(p.entries@), false, None)
                }
            },
            Err(e) => exists|query: &LogQuery| #[trigger]
                asks_behind(*query, id@, cursor, filters@) && log_store::may_answer(
                    store,
                    query,
                    Err(e),
                ),
        },
{
    let filtered = filters.len() > 0;
    let query = poll_query(id, cursor, filters);
    let asked = &query;
    assert(asks_behind(*asked, id@, cursor, filters@));
    match ask(store, asked) {
        Ok(entries) => {
            assert(log_store::may_answer(store, asked, Ok(entries)));
            let next: i64 = if filtered && entries.len() == 0 {
                let last_id = S::last_id;
                let told = last_id(store, id);
                assert(may_tell(store, id, told));
                let row = match told {
                    Ok(row) => row,
                    Err(_) => None,
                };
                next_cursor(cursor, &entries, true, row)
            } else {
                next_cursor(cursor, &entries, false, None)
            };
            Ok(Poll { entries, cursor: next })
        },
        Err(e) => Err(e),
    }
}

/// Whether row ids ascend.
pub open spec fn rows_ascend(entries: Seq<LogEntry>) -> bool {
    forall|i: int, j: int|
        #![trigger entries[i], entries[j]]
        0 <= i < j < entries.len() ==> entries[i].id < entries[j].id
}

/// What the store holds behind a cursor.
pub open spec fn behind(entries: Seq<LogEntry>, cursor: i64) -> Seq<LogEntry>
    decreases entries.len(),
{
    if entries.len() == 0 {
        Seq::empty()
    } else if entries.last().id > cursor {
        behind(entries.drop_last(), cursor).push(entries.last())
    } else {
        behind(entries.drop_last(), cursor)
    }
}

proof fn lemma_behind_all(entries: Seq<LogEntry>, cursor: i64)
    requires
        forall|i: int| 0 <= i < entries.len() ==> (#[trigger] entries[i]).id > cursor,
    ensures
        behind(entries, cursor) == entries,
    decreases entries.len(),
{
    if entries.len() > 0 {
        assert forall|i: int| 0 <= i < entries.drop_last().len() implies (
        #[trigger] entries.drop_last()[i]).id > cursor by {
            assert(entries.drop_last()[i] == entries[i]);
        }
        lemma_behind_all(entries.drop_last(), cursor);
        assert(entries[entries.len() - 1].id > cursor);
        assert(behind(entries, cursor) =~= entries);
    } else {
        assert(behind(entries, cursor) =~= entries);
    }
}

proof fn lemma_behind_none(entries: Seq<LogEntry>, cursor: i64)
    requires
        forall|i: int| 0 <= i < entries.len() ==> (#[trigger] entries[i]).id <= cursor,
    ensures
        behind(entries, cursor) == Seq::<LogEntry>::empty(),
    decreases entries.len(),
{
    if entries.len() > 0 {
        assert forall|i: int| 0 <= i < entries.drop_last().len() implies (
        #[trigger] entries.drop_last()[i]).id <= cursor by {
            assert(entries.drop_last()[i] == entries[i]);
        }
        lemma_behind_none(entries.drop_last(), cursor);
        assert(entries[entries.len() - 1].id <= cursor);
    }
}

proof fn lemma_behind_split(a: Seq<LogEntry>, b: Seq<LogEntry>, cursor: i64)
    ensures
        behind(a + b, cursor) == behind(a, cursor) + behind(b, cursor),
    decreases b.len(),
{
    if b.len() == 0 {
        assert(a + b =~= a);
        assert(behind(a, cursor) + behind(b, cursor) =~= behind(a, cursor));
    } else {
        assert((a + b).drop_last() =~= a + b.drop_last());
        lemma_behind_split(a, b.drop_last(), cursor);
        assert((a + b).last() == b.last());
        assert(behind(a + b, cursor) =~= behind(a, cursor) + behind(b, cursor));
    }
}

/// A poll without a filter shows every entry that came since the poll before, once and in order.
///
/// `old` are the entries at the poll before and `new` those that came since; entries are
/// numbered in the order in which they come.
pub proof fn polls_show_each_entry_once(old: Seq<LogEntry>, new: Seq<LogEntry>, cursor: i64)
    requires
        rows_ascend(old + new),
        last_row(old) matches Some(id) ==> cursor <= id,
        last_row(old) is None ==> forall|i: int|
            0 <= i < new.len() ==> (#[trigger] new[i]).id > cursor,
    ensures
        behind(
            old + new,
            cursor_after(cursor, last_row(behind(old, cursor)), false, None),
        ) == new,
{
    let all = old + new;
    let seen = behind(old, cursor);
    let next = cursor_after(cursor, last_row(seen), false, None);
    if old.len() > 0 {
        let last = old.last();
        assert(all[old.len() - 1] == last);
        if last.id > cursor {
            assert(seen.last() == last);
        } else {
            assert(last.id == cursor);
            assert forall|i: int| 0 <= i < old.len() implies (#[trigger] old[i]).id <= cursor by {
                assert(all[i] == old[i]);
            }
            lemma_behind_none(old, cursor);
        }
        assert(next == last.id);
        assert forall|i: int| 0 <= i < old.len() implies (#[trigger] old[i]).id <= next by {
            assert(all[i] == old[i]);
        }
        assert forall|i: int| 0 <= i < new.len() implies (#[trigger] new[i]).id > next by {
            assert(all[old.len() + i] == new[i]);
        }
    } else {
        assert(seen =~= Seq::<LogEntry>::empty());
    }
    lemma_behind_none(old, next);
    lemma_behind_all(new, next);
    lemma_behind_split(old, new, next);
    assert(Seq::<LogEntry>::empty() + new =~= new);
}

/// Whether a line comes before another one or beside it: by time, then by daemon.
pub open spec fn line_le(a: logs::LineView, b: logs::LineView) -> bool {
    if a.date == b.date {
        order::text_le(a.daemon_id, b.daemon_id)
    } else {
        order::text_le(a.date, b.date)
    }
}

/// Whether lines were sorted, and those that are alike in time and daemon kept their order: each
/// line after is one of the lines before, `from` says which.
pub open spec fn sorted_from(
    before: Seq<logs::LineView>,
    after: Seq<logs::LineView>,
    from: Seq<int>,
) -> bool {
    &&& from.len() == before.len()
    &&& after.len() == before.len()
    &&& forall|i: int| 0 <= i < from.len() ==> 0 <= #[trigger] from[i] < before.len()
    &&& forall|i: int| 0 <= i < after.len() ==> after[i] == before[#[trigger] from[i]]
    &&& forall|i: int, j: int|
        #![trigger from[i], from[j]]
        0 <= i < j < from.len() ==> from[i] != from[j] && line_le(after[i], after[j]) && (line_le(
            after[j],
            after[i],
        ) ==> from[i] < from[j])
}

/// How two lines stand to each other: by time, then by daemon.
pub fn line_order(a: &LogLine, b: &LogLine) -> (r: Ordering)
    ensures
        r is Equal <==> line_le(a@, b@) && line_le(b@, a@),
        r is Less <==> line_le(a@, b@) && !line_le(b@, a@),
{
    proof {
        order::text_le_total(a.date@, b.date@);
        order::text_le_total(a.daemon_id@, b.daemon_id@);
    }
    let (le, ge) = if text_eq(a.date.as_str(), b.date.as_str()) {
        (
            text_at_most(a.daemon_id.as_str(), b.daemon_id.as_str()),
            text_at_most(b.daemon_id.as_str(), a.daemon_id.as_str()),
        )
    } else {
        (
            text_at_most(a.date.as_str(), b.date.as_str()),
            text_at_most(b.date.as_str(), a.date.as_str()),
        )
    };
    if le && ge {
        Ordering::Equal
    } else if le {
        Ordering::Less
    } else {
        Ordering::Greater
    }
}

/// `itertools::Itertools::sorted_by`: lines sorted by time and daemon; those that are alike keep
/// their order.
#[verifier::external_body]
pub(crate) fn sort_lines(lines: Vec<LogLine>) -> (r: Vec<LogLine>)
    ensures
        exists|from: Seq<int>| #[trigger]
            sorted_from(logs::line_views(lines@), logs::line_views(r@), from),
{
    itertools::Itertools::sorted_by(lines.into_iter(), |a, b| line_order(a, b)).collect()
}

/// The lines of one round of polls over several daemons, sorted by time and daemon.
pub fn merge_lines(answers: &Vec<Vec<LogEntry>>) -> (r: Vec<LogLine>)
    ensures
        exists|from: Seq<int>| #[trigger]
            sorted_from(all_lines(answers@), logs::line_views(r@), from),
{
    let mut out: Vec<LogLine> = Vec::new();
    let mut i: usize = 0;
    assert(logs::line_views(out@) =~= all_lines(answers@.take(0)));
    while i < answers.len()
        invariant
            i <= answers@.len(),
            logs::line_views(out@) == all_lines(answers@.take(i as int)),
        decreases answers@.len() - i,
    {
        let entries = &answers[i];
        let ghost before = logs::line_views(out@);
        let ghost more = logs::entry_lines(entries@);
        let mut j: usize = 0;
        assert(before =~= before + more.take(0));
        while j < entries.len()
            invariant
                j <= entries@.len(),
                more == logs::entry_lines(entries@),
                logs::line_views(out@) == before + more.take(j as int),
            decreases entries@.len() - j,
        {
            let ghost so_far = logs::line_views(out@);
            out.push(line_of(&entries[j]));
            assert(logs::line_views(out@) =~= so_far.push(more[j as int]));
            assert(before + more.take(j + 1) =~= (before + more.take(j as int)).push(
                more[j as int],
            ));
            j = j + 1;
        }
        assert(more.take(j as int) =~= more);
        assert(answers@.take(i + 1).drop_last() =~= answers@.take(i as int));
        assert(answers@.take(i + 1).last() == *entries);
        i = i + 1;
    }
    assert(answers@.take(i as int) =~= answers@);
    sort_lines(out)
}

/// The lines of the entries of several daemons, one daemon after the other.
pub open spec fn all_lines(answers: Seq<Vec<LogEntry>>) -> Seq<logs::LineView>
    decreases answers.len(),
{
    if answers.len() == 0 {
        Seq::empty()
    } else {
        all_lines(answers.drop_last()) + logs::entry_lines(answers.last()@)
    }
}

/// A poll asks the store for exactly the rows of the daemon that came behind the cursor and pass one
/// of the filters, where there are any, from the oldest on and without a limit.
pub proof fn polls_ask_for_what_came_behind(
    query: LogQuery,
    id: (Seq<char>, Seq<char>),
    cursor: i64,
    filters: Seq<MessageFilter>,
    plan: sqlite::QueryPlan,
    row: sqlite::Row,
)
    requires
        asks_behind(query, id, cursor, filters),
        plan.plans(query@),
        plan.params@.len() < usize::MAX,
    ensures
        statement::where_finds(plan.where_text(), sqlite::values(plan.params@), row) <==> {
            &&& row.daemon_id == daemon_id::qualified_text(id.0, id.1)
            &&& row.id > cursor
            &&& filters.len() == 0 || exists|k: int|
                0 <= k < filters.len() && statement::lets_pass(#[trigger] filters[k], row.message)
        },
        statement::read(plan.sql_text()) matches Some(reading) && !reading.newest_first
            && reading.limit is None,
{
    statement::statement_finds_what_was_asked(query, plan, row);
    statement::statement_is_read_as_asked(query, plan);
    let ids = text::texts(query.daemon_ids@);
    assert(ids.len() == 1 && query.daemon_ids@.len() == 1);
    assert(ids[0] == query.daemon_ids@[0]@);
    assert(ids[0] == daemon_id::qualified_text(id.0, id.1));
}

/// A poll never goes back, and skips nothing that it did not look at: its next cursor is behind the
/// last entry of the answer where there is one; without one it stays, or, where a filter was at work,
/// moves to the last row that there was. Every later row lies behind it.
pub proof fn cursors_skip_only_what_was_looked_at(
    rows: Seq<LogEntry>,
    cursor: i64,
    shown: Seq<LogEntry>,
    filtered: bool,
    later: i64,
)
    requires
        rows_ascend(rows),
        forall|i: int| 0 <= i < shown.len() ==> rows.contains(#[trigger] shown[i]),
        forall|i: int| 0 <= i < shown.len() ==> (#[trigger] shown[i]).id > cursor,
        cursor < later,
        forall|i: int| 0 <= i < rows.len() ==> (#[trigger] rows[i]).id < later,
    ensures
        ({
            let next = cursor_after(cursor, last_row(shown), filtered, last_row(rows));
            &&& next < later
            &&& shown.len() > 0 ==> next == shown.last().id && next > cursor
            &&& shown.len() == 0 && !filtered ==> next == cursor
            &&& shown.len() == 0 && filtered && rows.len() > 0 ==> next == rows.last().id
            &&& shown.len() == 0 && rows.len() == 0 ==> next == cursor
        }),
{
    if shown.len() > 0 {
        assert(shown[shown.len() - 1] == shown.last());
        assert(rows.contains(shown.last()));
        let k = choose|k: int| 0 <= k < rows.len() && rows[k] == shown.last();
        assert(rows[k].id < later);
    }
    if rows.len() > 0 {
        assert(rows[rows.len() - 1] == rows.last());
    }
}

/// Merged lines ascend by their dates, and those of one date by their daemons; each line that came in
/// is there, and none else.
pub proof fn merged_lines_ascend(
    before: Seq<logs::LineView>,
    after: Seq<logs::LineView>,
    from: Seq<int>,
    i: int,
    j: int,
)
    requires
        sorted_from(before, after, from),
        0 <= i < j < after.len(),
    ensures
        after.len() == before.len(),
        order::text_le(after[i].date, after[j].date),
        after[i].date == after[j].date ==> order::text_le(after[i].daemon_id, after[j].daemon_id),
        before.contains(after[i]),
        after[i].date == after[j].date && after[i].daemon_id == after[j].daemon_id ==> from[i]
            < from[j],
{
    assert(from[i] != from[j]);
    assert(line_le(after[i], after[j]));
    assert(after[i] == before[from[i]]);
    order::text_le_total(after[i].date, after[i].date);
    order::text_le_total(after[i].daemon_id, after[i].daemon_id);
}

/// All lines of all answers are merged, those of one answer in their order.
pub proof fn every_answer_is_merged(answers: Seq<Vec<LogEntry>>, i: int, j: int)
    requires
        0 <= i < answers.len(),
        0 <= j < answers[i]@.len(),
    ensures
        all_lines(answers).contains(logs::entry_line(answers[i]@[j])),
    decreases answers.len(),
{
    let all = all_lines(answers);
    let first = all_lines(answers.drop_last());
    let own = logs::entry_lines(answers.last()@);
    let line = logs::entry_line(answers[i]@[j]);
    if i < answers.len() - 1 {
        every_answer_is_merged(answers.drop_last(), i, j);
        let k = choose|k: int| 0 <= k < first.len() && first[k] == line;
        assert(all[k] == line);
    } else {
        assert(own[j] == line);
        assert(all[first.len() + j] == line);
    }
}

/// A daemon is offered for its log exactly where the state or the configuration knows it and the
/// store has entries of it.
pub proof fn known_daemons_with_entries_are_logged(
    state: Seq<(Seq<char>, Seq<char>)>,
    config: Seq<(Seq<char>, Seq<char>)>,
    logged: Seq<Seq<char>>,
    id: (Seq<char>, Seq<char>),
)
    ensures
        is_logged(state, config, logged, id) <==> {
            &&& (exists|i: int| 0 <= i < state.len() && #[trigger] state[i] == id) || (exists|i: int|
                0 <= i < config.len() && #[trigger] config[i] == id)
            &&& exists|k: int|
                0 <= k < logged.len() && #[trigger] logged[k] == daemon_id::qualified_text(id.0, id.1)
        },
{
}

/// Identifiers are ordered by their namespaces, and within one by their names.
pub proof fn namespaces_come_before_names(
    a: (Seq<char>, Seq<char>),
    b: (Seq<char>, Seq<char>),
)
    ensures
        a.0 != b.0 ==> id_le(a, b) == order::text_le(a.0, b.0),
        a.0 == b.0 ==> id_le(a, b) == order::text_le(a.1, b.1),
{
}

/// Daemons are offered in order, and none of them twice.
pub proof fn offered_daemons_ascend(ids: Seq<(Seq<char>, Seq<char>)>, i: int, j: int)
    requires
        ids_ascend(ids),
        0 <= i < j < ids.len(),
    ensures
        ids[i] != ids[j],
        ids[i].0 == ids[j].0 ==> order::text_le(ids[i].1, ids[j].1),
        ids[i].0 != ids[j].0 ==> order::text_le(ids[i].0, ids[j].0),
{
}

} // verus!
