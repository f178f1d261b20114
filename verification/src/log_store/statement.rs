//! How the database reads the text of a query, and that it finds what was asked for.
use crate::log_store;
use crate::log_store::sqlite;
use crate::log_store::sqlite::{FilterClause, FilterKind, QueryPlan, Row, SqlValue};
use crate::log_store::{LogQuery, MessageFilter};
use crate::regexp;
use crate::text;
use vstd::prelude::*;

verus! {

/// The parts of a text between the occurrences of a separator.
pub open spec fn parts(s: Seq<char>, sep: Seq<char>) -> Seq<Seq<char>>
    decreases s.len(),
{
    if sep.len() == 0 {
        seq![s]
    } else {
        proof {
            text::lemma_split_joins(s, sep);
        }
        match text::split_once(s, sep) {
            Some((first, rest)) => seq![first] + parts(rest, sep),
            None => seq![s],
        }
    }
}

/// What stands in a text between its beginning and its end, where these are as given.
pub open spec fn between(s: Seq<char>, head: Seq<char>, tail: Seq<char>) -> Option<Seq<char>> {
    if head.len() + tail.len() <= s.len() && s.take(head.len() as int) == head && s.skip(
        s.len() - tail.len(),
    ) == tail {
        Some(s.subrange(head.len() as int, s.len() - tail.len()))
    } else {
        None
    }
}

/// The value that is bound to a placeholder: `?` and the number of the value, counted from one.
pub open spec fn bound_value(place: Seq<char>, params: Seq<SqlValue>) -> Option<SqlValue> {
    let number = text::digits_value(place.skip(1));
    if place.len() >= 2 && place[0] == '?' && text::all_digits(place.skip(1)) && 1 <= number
        <= params.len() {
        Some(params[number - 1])
    } else {
        None
    }
}

/// The number that is bound to a placeholder.
pub open spec fn bound_number(place: Seq<char>, params: Seq<SqlValue>) -> Option<int> {
    match bound_value(place, params) {
        Some(SqlValue::Integer(n)) => Some(n),
        _ => None,
    }
}

/// The text that is bound to a placeholder.
pub open spec fn bound_text(place: Seq<char>, params: Seq<SqlValue>) -> Option<Seq<char>> {
    match bound_value(place, params) {
        Some(SqlValue::Text(s)) => Some(s),
        _ => None,
    }
}

/// Whether a message meets a condition on it, as the database reads the text of that condition.
pub open spec fn message_meets(
    condition: Seq<char>,
    params: Seq<SqlValue>,
    message: Seq<char>,
) -> bool {
    ||| {
        &&& between(condition, "INSTR(message, "@, ") > 0"@) matches Some(place)
        &&& bound_text(place, params) matches Some(s)
        &&& text::occurs_in(s, message)
    }
    ||| {
        &&& between(condition, "LOWER(message) LIKE LOWER("@, ") ESCAPE '\\'"@) matches Some(place)
        &&& bound_text(place, params) matches Some(s)
        &&& log_store::like(log_store::lowered(s), log_store::lowered(message))
    }
    ||| {
        &&& between(condition, "message REGEXP "@, ""@) matches Some(place)
        &&& bound_text(place, params) matches Some(s)
        &&& regexp::regex_matches(s, message)
    }
}

/// Whether a message meets one of the conditions of a list, as the database reads it.
pub open spec fn one_meets(list: Seq<char>, params: Seq<SqlValue>, message: Seq<char>) -> bool {
    exists|k: int|
        0 <= k < parts(list, " OR "@).len() && message_meets(
            #[trigger] parts(list, " OR "@)[k],
            params,
            message,
        )
}

/// Whether a text is one of the values of a list of placeholders, as the database reads it.
pub open spec fn one_is(list: Seq<char>, params: Seq<SqlValue>, s: Seq<char>) -> bool {
    exists|k: int|
        0 <= k < parts(list, ", "@).len() && bound_text(#[trigger] parts(list, ", "@)[k], params)
            == Some(s)
}

/// Whether a row meets a condition, as the database reads the text of that condition.
pub open spec fn row_meets(condition: Seq<char>, params: Seq<SqlValue>, row: Row) -> bool {
    ||| {
        &&& between(condition, "daemon_id IN ("@, ")"@) matches Some(list)
        &&& one_is(list, params, row.daemon_id)
    }
    ||| {
        &&& between(condition, "timestamp >= "@, ""@) matches Some(place)
        &&& bound_number(place, params) matches Some(n)
        &&& row.millis >= n
    }
    ||| {
        &&& between(condition, "timestamp <= "@, ""@) matches Some(place)
        &&& bound_number(place, params) matches Some(n)
        &&& row.millis <= n
    }
    ||| {
        &&& between(condition, "id > "@, ""@) matches Some(place)
        &&& bound_number(place, params) matches Some(n)
        &&& row.id > n
    }
    ||| {
        &&& between(condition, "("@, ")"@) matches Some(list)
        &&& one_meets(list, params, row.message)
    }
}

/// Whether a row meets all conditions of a list, as the database reads it.
pub open spec fn all_meet(list: Seq<char>, params: Seq<SqlValue>, row: Row) -> bool {
    forall|k: int|
        0 <= k < parts(list, " AND "@).len() ==> row_meets(
            #[trigger] parts(list, " AND "@)[k],
            params,
            row,
        )
}

/// Whether a row meets all conditions, as the database reads their text. Without a text every row
/// does.
pub open spec fn where_finds(clause: Seq<char>, params: Seq<SqlValue>, row: Row) -> bool {
    ||| clause.len() == 0
    ||| {
        &&& between(clause, "WHERE "@, ""@) matches Some(list)
        &&& all_meet(list, params, row)
    }
}

/// What a statement says: its conditions, whether the newest rows come first, and how many rows it
/// yields at most.
pub struct Reading {
    pub clause: Seq<char>,
    pub newest_first: bool,
    pub limit: Option<nat>,
}

/// The limit in the text behind the order of a statement.
pub open spec fn limit_read(s: Seq<char>) -> Option<Option<nat>> {
    if s.len() == 0 {
        Some(None)
    } else {
        match between(s, "LIMIT "@, ""@) {
            Some(number) => if number.len() > 0 && text::all_digits(number) {
                Some(Some(text::digits_value(number)))
            } else {
                None
            },
            None => None,
        }
    }
}

/// How the database reads a statement over the log entries.
pub open spec fn read(statement: Seq<char>) -> Option<Reading> {
    match text::split_once(statement, " ORDER BY "@) {
        None => None,
        Some((head, order)) => match between(
            head,
            "SELECT id, daemon_id, timestamp, message FROM log_entries "@,
            ""@,
        ) {
            None => None,
            Some(clause) => match (
                between(order, "timestamp DESC, id DESC "@, ""@),
                between(order, "timestamp ASC, id ASC "@, ""@),
            ) {
                (Some(rest), _) => match limit_read(rest) {
                    Some(limit) => Some(Reading { clause, newest_first: true, limit }),
                    None => None,
                },
                (None, Some(rest)) => match limit_read(rest) {
                    Some(limit) => Some(Reading { clause, newest_first: false, limit }),
                    None => None,
                },
                (None, None) => None,
            },
        },
    }
}

/// Whether a character does not stand in a text.
spec fn lacks(s: Seq<char>, c: char) -> bool {
    forall|i: int| 0 <= i < s.len() ==> #[trigger] s[i] != c
}

proof fn lemma_lacks_both(a: Seq<char>, b: Seq<char>, c: char)
    requires
        lacks(a, c),
        lacks(b, c),
    ensures
        lacks(a + b, c),
{
    assert forall|i: int| 0 <= i < (a + b).len() implies #[trigger] (a + b)[i] != c by {
        if i < a.len() {
            assert((a + b)[i] == a[i]);
        } else {
            assert((a + b)[i] == b[i - a.len()]);
        }
    }
}

proof fn lemma_lacks_joined(list: Seq<Seq<char>>, sep: Seq<char>, c: char)
    requires
        lacks(sep, c),
        forall|i: int| 0 <= i < list.len() ==> lacks(#[trigger] list[i], c),
    ensures
        lacks(text::joined(list, sep), c),
    decreases list.len(),
{
    if list.len() > 1 {
        assert forall|i: int| 0 <= i < list.drop_last().len() implies lacks(
            #[trigger] list.drop_last()[i],
            c,
        ) by {
            assert(list.drop_last()[i] == list[i]);
        }
        lemma_lacks_joined(list.drop_last(), sep, c);
        assert(list[list.len() - 1] == list.last());
        lemma_lacks_both(text::joined(list.drop_last(), sep), sep, c);
        lemma_lacks_both(text::joined(list.drop_last(), sep) + sep, list.last(), c);
    }
}

/// Whether a separator behind a text is the first one.
spec fn keeps_apart(item: Seq<char>, sep: Seq<char>) -> bool {
    forall|p: int| 0 <= p < item.len() ==> !#[trigger] text::occurs_at(sep, item + sep, p)
}

/// A text without a character of the separator is kept apart from what follows.
proof fn lemma_lacking_is_apart(item: Seq<char>, sep: Seq<char>, k: int)
    requires
        0 <= k < sep.len(),
        lacks(item, sep[k]),
        forall|j: int| 0 <= j < k ==> sep[j] != sep[k],
    ensures
        keeps_apart(item, sep),
{
    let hay = item + sep;
    assert forall|p: int| 0 <= p < item.len() implies !#[trigger] text::occurs_at(sep, hay, p) by {
        if text::occurs_at(sep, hay, p) {
            assert(hay.subrange(p, p + sep.len())[k] == sep[k]);
            assert(hay[p + k] == sep[k]);
            if p + k < item.len() {
                assert(item[p + k] == sep[k]);
            } else {
                assert(sep[p + k - item.len()] == sep[k]);
            }
        }
    }
}

/// A text that is kept apart is split off.
proof fn lemma_split_off(item: Seq<char>, sep: Seq<char>, rest: Seq<char>)
    requires
        sep.len() > 0,
        keeps_apart(item, sep),
    ensures
        text::split_once(item + sep + rest, sep) == Some((item, rest)),
        text::split_once(item, sep) is None,
{
    let hay = item + sep + rest;
    let near = item + sep;
    let n = item.len() as int;
    assert(hay.subrange(n, n + sep.len()) =~= sep);
    assert forall|k: int| 0 <= k < n implies !#[trigger] text::occurs_at(sep, hay, k) by {
        assert(hay.subrange(k, k + sep.len()) =~= near.subrange(k, k + sep.len()));
        assert(!text::occurs_at(sep, near, k));
    }
    text::lemma_found_first(sep, hay, 0, n);
    assert(hay.take(n) =~= item);
    assert(hay.skip(n + sep.len()) =~= rest);
    text::lemma_found_occurs(sep, item, 0);
    if let Some(at) = text::found_from(sep, item, 0) {
        assert(item.subrange(at, at + sep.len()) =~= near.subrange(at, at + sep.len()));
        assert(text::occurs_at(sep, near, at));
    }
}

/// A joined list begins with its first text.
proof fn lemma_joined_front(list: Seq<Seq<char>>, sep: Seq<char>)
    requires
        list.len() > 1,
    ensures
        text::joined(list, sep) == list[0] + sep + text::joined(list.drop_first(), sep),
    decreases list.len(),
{
    if list.len() == 2 {
        assert(list.drop_last().len() == 1);
        assert(list.drop_first().len() == 1);
        assert(text::joined(list.drop_last(), sep) == list[0]);
        assert(text::joined(list.drop_first(), sep) == list[1]);
    } else {
        let first = list.drop_last();
        lemma_joined_front(first, sep);
        assert(first.drop_first() =~= list.drop_first().drop_last());
        assert(list.drop_first().last() == list.last());
        let inner = text::joined(first.drop_first(), sep);
        assert(text::joined(list.drop_first(), sep) == inner + sep + list.last());
        assert(list[0] + sep + inner + sep + list.last() =~= list[0] + sep + (inner + sep
            + list.last()));
    }
}

/// The parts of a joined list are its texts.
proof fn lemma_parts_of_joined(list: Seq<Seq<char>>, sep: Seq<char>)
    requires
        list.len() > 0,
        sep.len() > 0,
        forall|i: int| 0 <= i < list.len() ==> keeps_apart(#[trigger] list[i], sep),
    ensures
        parts(text::joined(list, sep), sep) == list,
    decreases list.len(),
{
    assert(keeps_apart(list[0], sep));
    if list.len() == 1 {
        lemma_split_off(list[0], sep, Seq::empty());
        assert(parts(text::joined(list, sep), sep) =~= list);
    } else {
        let rest = list.drop_first();
        lemma_joined_front(list, sep);
        lemma_split_off(list[0], sep, text::joined(rest, sep));
        assert forall|i: int| 0 <= i < rest.len() implies keeps_apart(#[trigger] rest[i], sep) by {
            assert(rest[i] == list[i + 1]);
        }
        lemma_parts_of_joined(rest, sep);
        assert(seq![list[0]] + rest =~= list);
    }
}

proof fn lemma_between(head: Seq<char>, inner: Seq<char>, tail: Seq<char>)
    ensures
        between(head + inner + tail, head, tail) == Some(inner),
{
    let s = head + inner + tail;
    assert(s.take(head.len() as int) =~= head);
    assert(s.skip(s.len() - tail.len()) =~= tail);
    assert(s.subrange(head.len() as int, s.len() - tail.len()) =~= inner);
}

proof fn lemma_behind(head: Seq<char>, inner: Seq<char>)
    ensures
        between(head + inner, head, ""@) == Some(inner),
{
    reveal_strlit("");
    lemma_between(head, inner, ""@);
    assert(head + inner + ""@ =~= head + inner);
}

/// A text that differs at a place does not begin like another one.
proof fn lemma_not_between(s: Seq<char>, head: Seq<char>, tail: Seq<char>, k: int)
    requires
        0 <= k < head.len(),
        s.len() <= k || s[k] != head[k],
    ensures
        between(s, head, tail) is None,
{
    if s.len() > k && s.take(head.len() as int) == head && head.len() <= s.len() {
        assert(s.take(head.len() as int)[k] == s[k]);
    }
}

/// A placeholder is read as the value of its number, and holds a question mark and digits only.
proof fn lemma_placeholder(index: int, params: Seq<SqlValue>)
    requires
        1 <= index <= params.len(),
    ensures
        bound_value(sqlite::placeholder_text(index), params) == Some(params[index - 1]),
        forall|i: int|
            0 <= i < sqlite::placeholder_text(index).len() ==> (#[trigger] sqlite::placeholder_text(
                index,
            )[i]) == '?' || text::is_digit(sqlite::placeholder_text(index)[i]),
{
    reveal_strlit("?");
    text::lemma_digits_value(index as nat);
    let place = sqlite::placeholder_text(index);
    assert(place.skip(1) =~= text::digits(index as nat));
    assert(place[0] == '?');
    assert forall|i: int| 0 <= i < place.len() implies (#[trigger] place[i]) == '?'
        || text::is_digit(place[i]) by {
        if i > 0 {
            assert(place[i] == text::digits(index as nat)[i - 1]);
        }
    }
}

proof fn lemma_placeholder_lacks(index: int, params: Seq<SqlValue>, c: char)
    requires
        1 <= index <= params.len(),
        c != '?',
        !text::is_digit(c),
    ensures
        lacks(sqlite::placeholder_text(index), c),
{
    lemma_placeholder(index, params);
}

/// Whether all placeholders of a plan have values.
pub open spec fn is_bound(plan: QueryPlan) -> bool {
    let n = sqlite::values(plan.params@).len();
    &&& plan.daemons <= n
    &&& plan.from matches Some(i) ==> 1 <= i <= n
    &&& plan.to matches Some(i) ==> 1 <= i <= n
    &&& plan.after matches Some(i) ==> 1 <= i <= n
    &&& forall|k: int|
        0 <= k < plan.filters@.len() ==> 1 <= (#[trigger] plan.filters@[k]).index <= n
}

/// The condition on the message means what its clause says.
proof fn lemma_filter(plan: QueryPlan, clause: FilterClause, message: Seq<char>)
    requires
        1 <= clause.index <= sqlite::values(plan.params@).len(),
    ensures
        message_meets(sqlite::filter_text(clause), sqlite::values(plan.params@), message)
            <==> plan.filter_holds(clause, message),
        lacks(sqlite::filter_text(clause), 'D'),
        lacks(sqlite::filter_text(clause), 'Y'),
        keeps_apart(sqlite::filter_text(clause), " OR "@),
{
    let params = sqlite::values(plan.params@);
    let place = sqlite::placeholder_text(clause.index as int);
    let s = sqlite::filter_text(clause);
    lemma_placeholder(clause.index as int, params);
    reveal_strlit("INSTR(message, ");
    reveal_strlit(") > 0");
    reveal_strlit("LOWER(message) LIKE LOWER(");
    reveal_strlit(") ESCAPE '\\'");
    reveal_strlit("message REGEXP ");
    reveal_strlit(" OR ");
    reveal_strlit("");
    match clause.kind {
        FilterKind::Instr => {
            lemma_between("INSTR(message, "@, place, ") > 0"@);
            assert(s[0] == 'I');
            lemma_not_between(s, "LOWER(message) LIKE LOWER("@, ") ESCAPE '\\'"@, 0);
            lemma_not_between(s, "message REGEXP "@, ""@, 0);
            assert(lacks("INSTR(message, "@, 'D') && lacks("INSTR(message, "@, 'Y') && lacks(
                "INSTR(message, "@,
                'O',
            ));
            assert(lacks(") > 0"@, 'D') && lacks(") > 0"@, 'Y') && lacks(") > 0"@, 'O'));
            lemma_lacks_around("INSTR(message, "@, place, ") > 0"@, 'D');
            lemma_lacks_around("INSTR(message, "@, place, ") > 0"@, 'Y');
            lemma_lacks_around("INSTR(message, "@, place, ") > 0"@, 'O');
            lemma_lacking_is_apart(s, " OR "@, 1);
        },
        FilterKind::Like => {
            lemma_between("LOWER(message) LIKE LOWER("@, place, ") ESCAPE '\\'"@);
            assert(s[0] == 'L');
            lemma_not_between(s, "INSTR(message, "@, ") > 0"@, 0);
            lemma_not_between(s, "message REGEXP "@, ""@, 0);
            let head = "LOWER(message) LIKE LOWER("@;
            let tail = ") ESCAPE '\\'"@;
            assert(lacks(head, 'D') && lacks(head, 'Y'));
            assert(lacks(tail, 'D') && lacks(tail, 'Y') && lacks(tail, 'O'));
            lemma_lacks_around(head, place, tail, 'D');
            lemma_lacks_around(head, place, tail, 'Y');
            lemma_placeholder_lacks(clause.index as int, params, 'O');
            assert forall|i: int| 0 <= i < s.len() && #[trigger] s[i] == 'O' implies i + 1 < s.len()
                && s[i + 1] == 'W' by {
                if i < head.len() {
                    assert(s[i] == head[i]);
                    assert(i == 1 || i == 21);
                    assert(s[i + 1] == head[i + 1]);
                } else if i < head.len() + place.len() {
                    assert(s[i] == place[i - head.len()]);
                } else {
                    assert(s[i] == tail[i - head.len() - place.len()]);
                }
            }
            lemma_or_is_apart(s);
        },
        FilterKind::Regexp => {
            lemma_behind("message REGEXP "@, place);
            assert(s[0] == 'm');
            lemma_not_between(s, "INSTR(message, "@, ") > 0"@, 0);
            lemma_not_between(s, "LOWER(message) LIKE LOWER("@, ") ESCAPE '\\'"@, 0);
            let head = "message REGEXP "@;
            assert(lacks(head, 'D') && lacks(head, 'Y') && lacks(head, 'O'));
            lemma_placeholder_lacks(clause.index as int, params, 'D');
            lemma_placeholder_lacks(clause.index as int, params, 'Y');
            lemma_placeholder_lacks(clause.index as int, params, 'O');
            lemma_lacks_both(head, place, 'D');
            lemma_lacks_both(head, place, 'Y');
            lemma_lacks_both(head, place, 'O');
            lemma_lacking_is_apart(s, " OR "@, 1);
        },
    }
}

proof fn lemma_lacks_around(head: Seq<char>, place: Seq<char>, tail: Seq<char>, c: char)
    requires
        lacks(head, c),
        lacks(tail, c),
        c != '?',
        !text::is_digit(c),
        forall|i: int|
            0 <= i < place.len() ==> (#[trigger] place[i]) == '?' || text::is_digit(place[i]),
    ensures
        lacks(head + place + tail, c),
{
    assert(lacks(place, c));
    lemma_lacks_both(head, place, c);
    lemma_lacks_both(head + place, tail, c);
}

proof fn lemma_or_is_apart(s: Seq<char>)
    requires
        forall|i: int| 0 <= i < s.len() && #[trigger] s[i] == 'O' ==> i + 1 < s.len() && s[i + 1] == 'W',
    ensures
        keeps_apart(s, " OR "@),
{
    reveal_strlit(" OR ");
    let sep = " OR "@;
    let hay = s + sep;
    assert forall|p: int| 0 <= p < s.len() implies !#[trigger] text::occurs_at(sep, hay, p) by {
        if text::occurs_at(sep, hay, p) {
            assert(hay.subrange(p, p + 4)[1] == 'O');
            assert(hay.subrange(p, p + 4)[2] == 'R');
            assert(hay[p + 1] == 'O' && hay[p + 2] == 'R');
            if p + 1 < s.len() {
                assert(s[p + 1] == 'O');
                assert(s[p + 2] == 'W');
                assert(hay[p + 2] == s[p + 2]);
            } else {
                assert(hay[p + 1] == sep[0]);
            }
        }
    }
}

/// The condition on the daemon means that it is one of those of the plan.
proof fn lemma_daemon_condition(plan: QueryPlan, row: Row)
    requires
        is_bound(plan),
        plan.daemons > 0,
    ensures
        ({
            let s = "daemon_id IN ("@ + sqlite::placeholder_list(plan.daemons as nat) + ")"@;
            &&& row_meets(s, sqlite::values(plan.params@), row) <==> exists|i: usize|
                0 < i <= plan.daemons && #[trigger] plan.value(i) == SqlValue::Text(row.daemon_id)
            &&& lacks(s, 'D')
            &&& lacks(s, 'Y')
        }),
{
    let params = sqlite::values(plan.params@);
    let places = sqlite::first_placeholders(plan.daemons as nat);
    let list = sqlite::placeholder_list(plan.daemons as nat);
    let head = "daemon_id IN ("@;
    let s = head + list + ")"@;
    reveal_strlit("daemon_id IN (");
    reveal_strlit(")");
    reveal_strlit(", ");
    reveal_strlit("timestamp >= ");
    reveal_strlit("timestamp <= ");
    reveal_strlit("id > ");
    reveal_strlit("(");
    reveal_strlit("");
    lemma_between(head, list, ")"@);
    assert(s[0] == 'd');
    lemma_not_between(s, "timestamp >= "@, ""@, 0);
    lemma_not_between(s, "timestamp <= "@, ""@, 0);
    lemma_not_between(s, "id > "@, ""@, 0);
    lemma_not_between(s, "("@, ")"@, 0);
    assert forall|i: int| 0 <= i < places.len() implies {
        &&& keeps_apart(#[trigger] places[i], ", "@)
        &&& lacks(places[i], 'D')
        &&& lacks(places[i], 'Y')
        &&& bound_value(places[i], params) == Some(params[i])
    } by {
        lemma_placeholder(i + 1, params);
        lemma_placeholder_lacks(i + 1, params, ',');
        lemma_placeholder_lacks(i + 1, params, 'D');
        lemma_placeholder_lacks(i + 1, params, 'Y');
        lemma_lacking_is_apart(places[i], ", "@, 0);
    }
    lemma_parts_of_joined(places, ", "@);
    lemma_lacks_joined(places, ", "@, 'D');
    lemma_lacks_joined(places, ", "@, 'Y');
    assert(lacks(head, 'D') && lacks(head, 'Y') && lacks(")"@, 'D') && lacks(")"@, 'Y'));
    lemma_lacks_both(head, list, 'D');
    lemma_lacks_both(head + list, ")"@, 'D');
    lemma_lacks_both(head, list, 'Y');
    lemma_lacks_both(head + list, ")"@, 'Y');
    if exists|i: usize|
        0 < i <= plan.daemons && #[trigger] plan.value(i) == SqlValue::Text(row.daemon_id) {
        let i = choose|i: usize|
            0 < i <= plan.daemons && #[trigger] plan.value(i) == SqlValue::Text(row.daemon_id);
        assert(bound_text(parts(list, ", "@)[i - 1], params) == Some(row.daemon_id));
        assert(one_is(list, params, row.daemon_id));
    }
    if row_meets(s, params, row) {
        let k = choose|k: int|
            0 <= k < parts(list, ", "@).len() && bound_text(#[trigger] parts(list, ", "@)[k], params)
                == Some(row.daemon_id);
        let i = (k + 1) as usize;
        assert(plan.value(i) == SqlValue::Text(row.daemon_id));
    }
}

/// A condition that compares a number means that comparison.
proof fn lemma_bound_condition(plan: QueryPlan, index: usize, row: Row)
    requires
        1 <= index <= sqlite::values(plan.params@).len(),
    ensures
        ({
            let params = sqlite::values(plan.params@);
            let place = sqlite::placeholder_text(index as int);
            &&& row_meets("timestamp >= "@ + place, params, row) <==> (plan.value(
                index,
            ) matches SqlValue::Integer(n) && row.millis >= n)
            &&& row_meets("timestamp <= "@ + place, params, row) <==> (plan.value(
                index,
            ) matches SqlValue::Integer(n) && row.millis <= n)
            &&& row_meets("id > "@ + place, params, row) <==> (plan.value(
                index,
            ) matches SqlValue::Integer(n) && row.id > n)
            &&& lacks("timestamp >= "@ + place, 'D') && lacks("timestamp >= "@ + place, 'Y')
            &&& lacks("timestamp <= "@ + place, 'D') && lacks("timestamp <= "@ + place, 'Y')
            &&& lacks("id > "@ + place, 'D') && lacks("id > "@ + place, 'Y')
        }),
{
    let params = sqlite::values(plan.params@);
    let place = sqlite::placeholder_text(index as int);
    reveal_strlit("daemon_id IN (");
    reveal_strlit(")");
    reveal_strlit("timestamp >= ");
    reveal_strlit("timestamp <= ");
    reveal_strlit("id > ");
    reveal_strlit("(");
    reveal_strlit("");
    lemma_placeholder(index as int, params);
    lemma_placeholder_lacks(index as int, params, 'D');
    lemma_placeholder_lacks(index as int, params, 'Y');
    let from = "timestamp >= "@ + place;
    let to = "timestamp <= "@ + place;
    let after = "id > "@ + place;
    lemma_behind("timestamp >= "@, place);
    lemma_behind("timestamp <= "@, place);
    lemma_behind("id > "@, place);
    assert(from[0] == 't' && from[10] == '>');
    assert(to[0] == 't' && to[10] == '<');
    assert(after[0] == 'i');
    lemma_not_between(from, "daemon_id IN ("@, ")"@, 0);
    lemma_not_between(from, "timestamp <= "@, ""@, 10);
    lemma_not_between(from, "id > "@, ""@, 0);
    lemma_not_between(from, "("@, ")"@, 0);
    lemma_not_between(to, "daemon_id IN ("@, ")"@, 0);
    lemma_not_between(to, "timestamp >= "@, ""@, 10);
    lemma_not_between(to, "id > "@, ""@, 0);
    lemma_not_between(to, "("@, ")"@, 0);
    lemma_not_between(after, "daemon_id IN ("@, ")"@, 0);
    lemma_not_between(after, "timestamp >= "@, ""@, 0);
    lemma_not_between(after, "timestamp <= "@, ""@, 0);
    lemma_not_between(after, "("@, ")"@, 0);
    assert(lacks("timestamp >= "@, 'D') && lacks("timestamp >= "@, 'Y'));
    assert(lacks("timestamp <= "@, 'D') && lacks("timestamp <= "@, 'Y'));
    assert(lacks("id > "@, 'D') && lacks("id > "@, 'Y'));
    lemma_lacks_both("timestamp >= "@, place, 'D');
    lemma_lacks_both("timestamp >= "@, place, 'Y');
    lemma_lacks_both("timestamp <= "@, place, 'D');
    lemma_lacks_both("timestamp <= "@, place, 'Y');
    lemma_lacks_both("id > "@, place, 'D');
    lemma_lacks_both("id > "@, place, 'Y');
}

/// The condition on the message means that one of the filters holds.
proof fn lemma_message_condition(plan: QueryPlan, row: Row)
    requires
        is_bound(plan),
        plan.filters@.len() > 0,
    ensures
        ({
            let s = "("@ + text::joined(plan.filter_texts(), " OR "@) + ")"@;
            &&& row_meets(s, sqlite::values(plan.params@), row) <==> exists|k: int|
                0 <= k < plan.filters@.len() && plan.filter_holds(
                    #[trigger] plan.filters@[k],
                    row.message,
                )
            &&& lacks(s, 'D')
            &&& lacks(s, 'Y')
        }),
{
    let params = sqlite::values(plan.params@);
    let texts = plan.filter_texts();
    let list = text::joined(texts, " OR "@);
    let s = "("@ + list + ")"@;
    reveal_strlit("daemon_id IN (");
    reveal_strlit(")");
    reveal_strlit("timestamp >= ");
    reveal_strlit("timestamp <= ");
    reveal_strlit("id > ");
    reveal_strlit("(");
    reveal_strlit(" OR ");
    reveal_strlit("");
    lemma_between("("@, list, ")"@);
    assert(s[0] == '(');
    lemma_not_between(s, "daemon_id IN ("@, ")"@, 0);
    lemma_not_between(s, "timestamp >= "@, ""@, 0);
    lemma_not_between(s, "timestamp <= "@, ""@, 0);
    lemma_not_between(s, "id > "@, ""@, 0);
    assert forall|i: int| 0 <= i < texts.len() implies {
        &&& keeps_apart(#[trigger] texts[i], " OR "@)
        &&& lacks(texts[i], 'D')
        &&& lacks(texts[i], 'Y')
        &&& message_meets(texts[i], params, row.message) <==> plan.filter_holds(
            plan.filters@[i],
            row.message,
        )
    } by {
        assert(1 <= plan.filters@[i].index <= params.len());
        lemma_filter(plan, plan.filters@[i], row.message);
    }
    lemma_parts_of_joined(texts, " OR "@);
    assert(lacks(" OR "@, 'D') && lacks(" OR "@, 'Y'));
    lemma_lacks_joined(texts, " OR "@, 'D');
    lemma_lacks_joined(texts, " OR "@, 'Y');
    lemma_lacks_both("("@, list, 'D');
    lemma_lacks_both("("@ + list, ")"@, 'D');
    lemma_lacks_both("("@, list, 'Y');
    lemma_lacks_both("("@ + list, ")"@, 'Y');
    if exists|k: int|
        0 <= k < plan.filters@.len() && plan.filter_holds(#[trigger] plan.filters@[k], row.message) {
        let k = choose|k: int|
            0 <= k < plan.filters@.len() && plan.filter_holds(
                #[trigger] plan.filters@[k],
                row.message,
            );
        assert(message_meets(texts[k], params, row.message));
        assert(message_meets(parts(list, " OR "@)[k], params, row.message));
        assert(between(s, "("@, ")"@) == Some(list));
        assert(0 <= k < parts(list, " OR "@).len());
        assert(one_meets(list, params, row.message));
        assert(row_meets(s, params, row));
    }
    if row_meets(s, params, row) {
        let k = choose|k: int|
            0 <= k < parts(list, " OR "@).len() && message_meets(
                #[trigger] parts(list, " OR "@)[k],
                params,
                row.message,
            );
        assert(message_meets(texts[k], params, row.message));
        assert(plan.filter_holds(plan.filters@[k], row.message));
    }
}

/// The conditions of a plan, read one by one, hold exactly where the plan accepts the row, and none of
/// them holds a word that stands between two of them.
proof fn lemma_conditions(plan: QueryPlan, row: Row)
    requires
        is_bound(plan),
    ensures
        forall|k: int|
            0 <= k < plan.condition_texts().len() ==> lacks(
                #[trigger] plan.condition_texts()[k],
                'D',
            ) && lacks(plan.condition_texts()[k], 'Y'),
        plan.accepts(row) <==> forall|k: int|
            0 <= k < plan.condition_texts().len() ==> row_meets(
                #[trigger] plan.condition_texts()[k],
                sqlite::values(plan.params@),
                row,
            ),
{
    let params = sqlite::values(plan.params@);
    let all = plan.condition_texts();
    let a = if plan.daemons > 0 {
        seq!["daemon_id IN ("@ + sqlite::placeholder_list(plan.daemons as nat) + ")"@]
    } else {
        Seq::empty()
    };
    let b = sqlite::bound_text("timestamp >= "@, plan.from);
    let c = sqlite::bound_text("timestamp <= "@, plan.to);
    let d = sqlite::bound_text("id > "@, plan.after);
    let e = if plan.filters@.len() > 0 {
        seq!["("@ + text::joined(plan.filter_texts(), " OR "@) + ")"@]
    } else {
        Seq::empty()
    };
    assert(all =~= a + b + c + d + e);
    if plan.daemons > 0 {
        lemma_daemon_condition(plan, row);
        assert(all[0] == a[0]);
    }
    if let Some(i) = plan.from {
        lemma_bound_condition(plan, i, row);
        assert(all[a.len() as int] == b[0]);
    }
    if let Some(i) = plan.to {
        lemma_bound_condition(plan, i, row);
        assert(all[(a + b).len() as int] == c[0]);
    }
    if let Some(i) = plan.after {
        lemma_bound_condition(plan, i, row);
        assert(all[(a + b + c).len() as int] == d[0]);
    }
    if plan.filters@.len() > 0 {
        lemma_message_condition(plan, row);
        assert(all[(a + b + c + d).len() as int] == e[0]);
    }
    assert forall|k: int| 0 <= k < all.len() implies {
        ||| a.len() > 0 && (#[trigger] all[k]) == a[0]
        ||| b.len() > 0 && all[k] == b[0]
        ||| c.len() > 0 && all[k] == c[0]
        ||| d.len() > 0 && all[k] == d[0]
        ||| e.len() > 0 && all[k] == e[0]
    } by {
        let n1 = a.len() as int;
        let n2 = n1 + b.len();
        let n3 = n2 + c.len();
        let n4 = n3 + d.len();
        if k < n1 {
            assert(all[k] == a[k]);
        } else if k < n2 {
            assert(all[k] == b[k - n1]);
        } else if k < n3 {
            assert(all[k] == c[k - n2]);
        } else if k < n4 {
            assert(all[k] == d[k - n3]);
        } else {
            assert(all[k] == e[k - n4]);
        }
    }
}

/// The conditions of a statement mean what the plan means: the database finds a row by their text
/// exactly where the plan accepts it.
pub proof fn text_means_the_plan(plan: QueryPlan, row: Row)
    requires
        is_bound(plan),
    ensures
        where_finds(plan.where_text(), sqlite::values(plan.params@), row) <==> plan.accepts(row),
{
    let params = sqlite::values(plan.params@);
    let all = plan.condition_texts();
    reveal_strlit("WHERE ");
    reveal_strlit(" AND ");
    reveal_strlit("");
    lemma_conditions(plan, row);
    if all.len() > 0 {
        assert forall|k: int| 0 <= k < all.len() implies keeps_apart(#[trigger] all[k], " AND "@) by {
            lemma_lacking_is_apart(all[k], " AND "@, 3);
        }
        lemma_parts_of_joined(all, " AND "@);
        let list = text::joined(all, " AND "@);
        lemma_behind("WHERE "@, list);
        assert(plan.where_text() == "WHERE "@ + list);
        assert(plan.where_text().len() >= 6);
        assert(parts(list, " AND "@) == all);
        assert(between(plan.where_text(), "WHERE "@, ""@) == Some(list));
        if plan.accepts(row) {
            assert forall|k: int| 0 <= k < parts(list, " AND "@).len() implies row_meets(
                #[trigger] parts(list, " AND "@)[k],
                params,
                row,
            ) by {
                assert(row_meets(all[k], params, row));
            }
        }
        if where_finds(plan.where_text(), params, row) {
            assert forall|k: int| 0 <= k < all.len() implies row_meets(
                #[trigger] all[k],
                params,
                row,
            ) by {
                assert(row_meets(parts(list, " AND "@)[k], params, row));
            }
        }
    }
}

/// Where the plan has a bound, its condition stands in the text, whatever else the plan has.
pub proof fn bounds_stand_in_the_text(plan: QueryPlan)
    ensures
        plan.from matches Some(i) ==> plan.condition_texts().contains(
            "timestamp >= ?"@ + text::decimal(i as int),
        ),
        plan.to matches Some(i) ==> plan.condition_texts().contains(
            "timestamp <= ?"@ + text::decimal(i as int),
        ),
        plan.after matches Some(i) ==> plan.condition_texts().contains(
            "id > ?"@ + text::decimal(i as int),
        ),
{
    reveal_strlit("timestamp >= ");
    reveal_strlit("timestamp <= ");
    reveal_strlit("id > ");
    reveal_strlit("timestamp >= ?");
    reveal_strlit("timestamp <= ?");
    reveal_strlit("id > ?");
    reveal_strlit("?");
    let all = plan.condition_texts();
    let a = if plan.daemons > 0 {
        seq!["daemon_id IN ("@ + sqlite::placeholder_list(plan.daemons as nat) + ")"@]
    } else {
        Seq::empty()
    };
    let b = sqlite::bound_text("timestamp >= "@, plan.from);
    let c = sqlite::bound_text("timestamp <= "@, plan.to);
    let d = sqlite::bound_text("id > "@, plan.after);
    if let Some(i) = plan.from {
        assert("timestamp >= ?"@ + text::decimal(i as int) =~= b[0]);
        assert(all[a.len() as int] == b[0]);
    }
    if let Some(i) = plan.to {
        assert("timestamp <= ?"@ + text::decimal(i as int) =~= c[0]);
        assert(all[(a + b).len() as int] == c[0]);
    }
    if let Some(i) = plan.after {
        assert("id > ?"@ + text::decimal(i as int) =~= d[0]);
        assert(all[(a + b + c).len() as int] == d[0]);
    }
}

/// The placeholders of the plan of a query have values.
proof fn lemma_plan_is_bound(plan: QueryPlan, opts: LogQuery)
    requires
        plan.plans(opts@),
        plan.params@.len() < usize::MAX,
    ensures
        is_bound(plan),
{
    let q = opts@;
    let all = sqlite::values(plan.params@);
    assert(all.len() == plan.params@.len());
    assert(all == sqlite::values_to_after(q) + sqlite::filter_values(q.filters));
    assert forall|k: int| 0 <= k < plan.filters@.len() implies 1 <= (
    #[trigger] plan.filters@[k]).index <= all.len() by {
        assert(plan.filters@[k].index == sqlite::values_to_after(q).len() + k + 1);
    }
}

/// Whether a message passes a filter: it holds the pattern, whatever the casing of ASCII letters or
/// in the same casing, or it matches the expression.
pub open spec fn lets_pass(filter: MessageFilter, message: Seq<char>) -> bool {
    match filter {
        MessageFilter::Contains { pattern, case_sensitive } => if case_sensitive {
            text::occurs_in(pattern@, message)
        } else {
            text::occurs_in(log_store::lowered(pattern@), log_store::lowered(message))
        },
        MessageFilter::Regex { pattern } => regexp::regex_matches(pattern@, message),
    }
}

/// The database finds by the text of a query exactly the rows that were asked for: those of one of
/// the daemons, where any are named; not before the lower and not behind the upper bound of the time,
/// each in milliseconds and each where it is given; behind the row id, where one is given; and with a
/// message that passes one of the filters, where there are any.
pub proof fn statement_finds_what_was_asked(opts: LogQuery, plan: QueryPlan, row: Row)
    requires
        plan.plans(opts@),
        plan.params@.len() < usize::MAX,
    ensures
        where_finds(plan.where_text(), sqlite::values(plan.params@), row) <==> {
            &&& opts.daemon_ids@.len() == 0 || exists|i: int|
                0 <= i < opts.daemon_ids@.len() && (#[trigger] opts.daemon_ids@[i])@ == row.daemon_id
            &&& opts.from matches Some(from) ==> row.millis >= from@ / 1_000_000
            &&& opts.to matches Some(to) ==> row.millis <= to@ / 1_000_000
            &&& opts.after_id matches Some(id) ==> row.id > id
            &&& opts.message_filters@.len() == 0 || exists|k: int|
                0 <= k < opts.message_filters@.len() && lets_pass(
                    #[trigger] opts.message_filters@[k],
                    row.message,
                )
        },
{
    let q = opts@;
    lemma_plan_is_bound(plan, opts);
    text_means_the_plan(plan, row);
    sqlite::plan_accepts_what_is_asked(plan, q, row);
    let ids = text::texts(opts.daemon_ids@);
    assert(ids.len() == opts.daemon_ids@.len());
    if exists|i: int| 0 <= i < opts.daemon_ids@.len() && (#[trigger] opts.daemon_ids@[i])@
        == row.daemon_id {
        let i = choose|i: int|
            0 <= i < opts.daemon_ids@.len() && (#[trigger] opts.daemon_ids@[i])@ == row.daemon_id;
        assert(ids[i] == row.daemon_id);
    }
    if ids.contains(row.daemon_id) {
        let i = choose|i: int| 0 <= i < ids.len() && ids[i] == row.daemon_id;
        assert(opts.daemon_ids@[i]@ == row.daemon_id);
    }
    assert forall|k: int| 0 <= k < q.filters.len() implies sqlite::passes(
        #[trigger] q.filters[k],
        row.message,
    ) == lets_pass(opts.message_filters@[k], row.message) by {}
    if exists|k: int| 0 <= k < q.filters.len() && sqlite::passes(#[trigger] q.filters[k], row.message) {
        let k = choose|k: int|
            0 <= k < q.filters.len() && sqlite::passes(#[trigger] q.filters[k], row.message);
        assert(lets_pass(opts.message_filters@[k], row.message));
    }
    if exists|k: int|
        0 <= k < opts.message_filters@.len() && lets_pass(
            #[trigger] opts.message_filters@[k],
            row.message,
        ) {
        let k = choose|k: int|
            0 <= k < opts.message_filters@.len() && lets_pass(
                #[trigger] opts.message_filters@[k],
                row.message,
            );
        assert(sqlite::passes(q.filters[k], row.message));
    }
}

/// The database reads the text of a query with the conditions, the order and the limit that were asked
/// for: the newest rows first exactly where that was asked for, and a limit exactly where one was
/// given.
pub proof fn statement_is_read_as_asked(opts: LogQuery, plan: QueryPlan)
    requires
        plan.plans(opts@),
        plan.params@.len() < usize::MAX,
    ensures
        read(plan.sql_text()) == Some(
            Reading {
                clause: plan.where_text(),
                newest_first: opts.order_desc,
                limit: match opts.limit {
                    Some(n) => Some(n as nat),
                    None => None,
                },
            },
        ),
{
    let head = "SELECT id, daemon_id, timestamp, message FROM log_entries "@ + plan.where_text();
    let order = if plan.order_desc {
        "timestamp DESC, id DESC "@
    } else {
        "timestamp ASC, id ASC "@
    };
    let sep = " ORDER BY "@;
    reveal_strlit("SELECT id, daemon_id, timestamp, message FROM log_entries ");
    reveal_strlit(" ORDER BY timestamp ");
    reveal_strlit(" ORDER BY ");
    reveal_strlit("timestamp DESC, id DESC ");
    reveal_strlit("timestamp ASC, id ASC ");
    reveal_strlit("DESC");
    reveal_strlit("ASC");
    reveal_strlit(", id ");
    reveal_strlit(" ");
    reveal_strlit("WHERE ");
    reveal_strlit(" AND ");
    reveal_strlit("LIMIT ");
    reveal_strlit("");
    let tail = order + plan.limit_text();
    assert(plan.sql_text() =~= head + sep + tail);
    lemma_plan_is_bound(plan, opts);
    let any = Row { id: 0, daemon_id: Seq::empty(), millis: 0, message: Seq::empty() };
    lemma_conditions(plan, any);
    assert(lacks("WHERE "@, 'Y') && lacks(" AND "@, 'Y'));
    lemma_lacks_joined(plan.condition_texts(), " AND "@, 'Y');
    lemma_lacks_both("WHERE "@, text::joined(plan.condition_texts(), " AND "@), 'Y');
    assert(lacks(plan.where_text(), 'Y'));
    assert(lacks("SELECT id, daemon_id, timestamp, message FROM log_entries "@, 'Y'));
    lemma_lacks_both(
        "SELECT id, daemon_id, timestamp, message FROM log_entries "@,
        plan.where_text(),
        'Y',
    );
    lemma_lacking_is_apart(head, sep, 8);
    lemma_split_off(head, sep, tail);
    lemma_behind("SELECT id, daemon_id, timestamp, message FROM log_entries "@, plan.where_text());
    lemma_behind(order, plan.limit_text());
    if !plan.order_desc {
        assert(tail[10] == 'A');
        lemma_not_between(tail, "timestamp DESC, id DESC "@, ""@, 10);
    }
    if let Some(n) = plan.limit {
        text::lemma_digits_value(n as nat);
        lemma_behind("LIMIT "@, text::decimal(n as int));
    }
}

} // verus!
