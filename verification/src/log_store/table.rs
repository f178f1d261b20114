//! The table of log entries, and what appending and pruning leave in it.
use crate::log_store::rotation;
use crate::log_store::rotation::{PolicyStep, PruningView, RotationView};
use crate::log_store::sqlite;
use crate::log_store::sqlite::{QueryPlan, Row};
use crate::log_store::{RetentionPolicy, StoreError};
use vstd::prelude::*;

verus! {

/// Whether rows are those of a table: there is an end to them, and no row id occurs twice.
pub open spec fn are_rows(rows: Set<Row>) -> bool {
    &&& rows.finite()
    &&& forall|a: Row, b: Row|
        #![trigger rows.contains(a), rows.contains(b)]
        rows.contains(a) && rows.contains(b) && a.id == b.id ==> a == b
}

/// The rows of a daemon.
pub open spec fn rows_of(rows: Set<Row>, daemon: Seq<char>) -> Set<Row> {
    rows.filter(|row: Row| row.daemon_id == daemon)
}

/// The rows that come before one.
pub open spec fn before(rows: Set<Row>, row: Row) -> Set<Row> {
    rows.filter(|other: Row| sqlite::comes_before(other, row))
}

/// The rows that come behind one.
pub open spec fn behind(rows: Set<Row>, row: Row) -> Set<Row> {
    rows.filter(|other: Row| sqlite::comes_before(row, other))
}

/// The oldest of some rows, at most so many: those with fewer rows before them.
pub open spec fn oldest(rows: Set<Row>, count: nat) -> Set<Row> {
    rows.filter(|row: Row| before(rows, row).len() < count)
}

/// The newest of some rows, at most so many: those with fewer rows behind them.
pub open spec fn newest(rows: Set<Row>, count: nat) -> Set<Row> {
    rows.filter(|row: Row| behind(rows, row).len() < count)
}

/// Whether a list holds rows from the oldest on.
pub open spec fn is_listing(rows: Set<Row>, listed: Seq<Row>) -> bool {
    &&& sqlite::in_order(listed, false)
    &&& listed.to_set() == rows
}

/// The newest of some rows.
proof fn lemma_newest_row(rows: Set<Row>) -> (last: Row)
    requires
        are_rows(rows),
        rows.len() > 0,
    ensures
        rows.contains(last),
        forall|row: Row| #[trigger]
            rows.contains(row) && row != last ==> sqlite::comes_before(row, last),
    decreases rows.len(),
{
    let some = rows.choose();
    let others = rows.remove(some);
    if others.len() == 0 {
        assert forall|row: Row| #[trigger] rows.contains(row) && row != some implies
            sqlite::comes_before(row, some) by {
            assert(others.contains(row));
        }
        some
    } else {
        let last = lemma_newest_row(others);
        assert(rows.contains(last));
        assert(sqlite::comes_before(last, some) || sqlite::comes_before(some, last));
        assert forall|row: Row| #[trigger] rows.contains(row) && row != some && row != last implies
            sqlite::comes_before(row, last) by {
            assert(others.contains(row));
        }
        if sqlite::comes_before(last, some) {
            some
        } else {
            last
        }
    }
}

/// Rows can be listed.
proof fn lemma_can_be_listed(rows: Set<Row>) -> (listed: Seq<Row>)
    requires
        are_rows(rows),
    ensures
        is_listing(rows, listed),
        listed.len() == rows.len(),
    decreases rows.len(),
{
    if rows.len() == 0 {
        assert(rows =~= Seq::<Row>::empty().to_set());
        Seq::empty()
    } else {
        let last = lemma_newest_row(rows);
        let rest = lemma_can_be_listed(rows.remove(last));
        let listed = rest.push(last);
        assert forall|i: int, j: int|
            #![trigger listed[i], listed[j]]
            0 <= i < j < listed.len() implies sqlite::comes_before(listed[i], listed[j]) by {
            assert(rest[i] == listed[i]);
            assert(rest.to_set().contains(rest[i]));
            if j < rest.len() {
                assert(rest[j] == listed[j]);
            }
        }
        assert forall|row: Row| listed.to_set().contains(row) == rows.contains(row) by {
            if rows.contains(row) && row != last {
                assert(rest.to_set().contains(row));
                let i = choose|i: int| 0 <= i < rest.len() && rest[i] == row;
                assert(listed[i] == row);
            }
            if row == last {
                assert(listed[rest.len() as int] == row);
            }
            if listed.contains(row) && row != last {
                let i = choose|i: int| 0 <= i < listed.len() && listed[i] == row;
                assert(rest[i] == row);
                assert(rest.to_set().contains(row));
            }
        }
        assert(listed.to_set() =~= rows);
        listed
    }
}

/// A list in order holds no row twice.
proof fn lemma_listing_len(rows: Set<Row>, listed: Seq<Row>)
    requires
        is_listing(rows, listed),
    ensures
        listed.no_duplicates(),
        rows.len() == listed.len(),
        rows.finite(),
        forall|i: int| 0 <= i < listed.len() ==> rows.contains(#[trigger] listed[i]),
{
    assert forall|i: int, j: int|
        0 <= i < listed.len() && 0 <= j < listed.len() && i != j implies listed[i] != listed[j] by {
        if i < j {
            assert(sqlite::comes_before(listed[i], listed[j]));
        } else {
            assert(sqlite::comes_before(listed[j], listed[i]));
        }
    }
    listed.unique_seq_to_set();
    vstd::seq_lib::seq_to_set_is_finite(listed);
    assert forall|i: int| 0 <= i < listed.len() implies rows.contains(#[trigger] listed[i]) by {
        assert(listed.to_set().contains(listed[i]));
    }
}

/// A part of a list in order is in order.
proof fn lemma_part_in_order(listed: Seq<Row>, from: int, to: int)
    requires
        sqlite::in_order(listed, false),
        0 <= from <= to <= listed.len(),
    ensures
        sqlite::in_order(listed.subrange(from, to), false),
{
    let part = listed.subrange(from, to);
    assert forall|i: int, j: int|
        #![trigger part[i], part[j]]
        0 <= i < j < part.len() implies sqlite::comes_before(part[i], part[j]) by {
        assert(sqlite::comes_before(listed[from + i], listed[from + j]));
    }
}

/// As many rows come before a row as its place in the list says.
proof fn lemma_place(rows: Set<Row>, listed: Seq<Row>, at: int)
    requires
        is_listing(rows, listed),
        0 <= at < listed.len(),
    ensures
        before(rows, listed[at]).len() == at,
        behind(rows, listed[at]).len() == listed.len() - 1 - at,
{
    lemma_listing_len(rows, listed);
    let row = listed[at];
    let first = listed.subrange(0, at);
    let last = listed.subrange(at + 1, listed.len() as int);
    lemma_part_in_order(listed, 0, at);
    lemma_part_in_order(listed, at + 1, listed.len() as int);
    assert forall|other: Row| before(rows, row).contains(other) == first.to_set().contains(other) by {
        if before(rows, row).contains(other) {
            assert(listed.to_set().contains(other));
            let i = choose|i: int| 0 <= i < listed.len() && listed[i] == other;
            if i > at {
                assert(sqlite::comes_before(listed[at], listed[i]));
            }
            assert(first[i] == other);
        }
        if first.contains(other) {
            let i = choose|i: int| 0 <= i < first.len() && first[i] == other;
            assert(sqlite::comes_before(listed[i], listed[at]));
        }
    }
    assert(before(rows, row) =~= first.to_set());
    lemma_listing_len(first.to_set(), first);
    assert forall|other: Row| behind(rows, row).contains(other) == last.to_set().contains(other) by {
        if behind(rows, row).contains(other) {
            assert(listed.to_set().contains(other));
            let i = choose|i: int| 0 <= i < listed.len() && listed[i] == other;
            if i < at {
                assert(sqlite::comes_before(listed[i], listed[at]));
            }
            assert(last[i - at - 1] == other);
        }
        if last.contains(other) {
            let i = choose|i: int| 0 <= i < last.len() && last[i] == other;
            assert(sqlite::comes_before(listed[at], listed[at + 1 + i]));
        }
    }
    assert(behind(rows, row) =~= last.to_set());
    lemma_listing_len(last.to_set(), last);
}

/// The oldest rows are the first ones of a list, the newest the last ones.
proof fn lemma_ends_of_listing(rows: Set<Row>, listed: Seq<Row>, count: nat)
    requires
        is_listing(rows, listed),
        count <= listed.len(),
    ensures
        is_listing(oldest(rows, count), listed.take(count as int)),
        oldest(rows, count).len() == count,
        is_listing(newest(rows, count), listed.skip(listed.len() - count)),
        newest(rows, count).len() == count,
        is_listing(rows.difference(oldest(rows, count)), listed.skip(count as int)),
{
    lemma_listing_len(rows, listed);
    let n = count as int;
    let len = listed.len() as int;
    let first = listed.take(n);
    let last = listed.skip(len - n);
    let rest = listed.skip(n);
    assert(first =~= listed.subrange(0, n));
    assert(last =~= listed.subrange(len - n, len));
    assert(rest =~= listed.subrange(n, len));
    lemma_part_in_order(listed, 0, n);
    lemma_part_in_order(listed, len - n, len);
    lemma_part_in_order(listed, n, len);
    assert forall|row: Row| oldest(rows, count).contains(row) == first.to_set().contains(row) by {
        if rows.contains(row) {
            assert(listed.to_set().contains(row));
            let i = choose|i: int| 0 <= i < listed.len() && listed[i] == row;
            lemma_place(rows, listed, i);
            if i < n {
                assert(first[i] == row);
            }
        }
        if first.contains(row) {
            let i = choose|i: int| 0 <= i < first.len() && first[i] == row;
            assert(listed[i] == row);
            lemma_place(rows, listed, i);
        }
    }
    assert(oldest(rows, count) =~= first.to_set());
    assert forall|row: Row| newest(rows, count).contains(row) == last.to_set().contains(row) by {
        if rows.contains(row) {
            assert(listed.to_set().contains(row));
            let i = choose|i: int| 0 <= i < listed.len() && listed[i] == row;
            lemma_place(rows, listed, i);
            if i >= len - n {
                assert(last[i - (len - n)] == row);
            }
        }
        if last.contains(row) {
            let i = choose|i: int| 0 <= i < last.len() && last[i] == row;
            assert(listed[len - n + i] == row);
            lemma_place(rows, listed, len - n + i);
        }
    }
    assert(newest(rows, count) =~= last.to_set());
    let left = rows.difference(oldest(rows, count));
    assert forall|row: Row| left.contains(row) == rest.to_set().contains(row) by {
        if left.contains(row) {
            assert(listed.to_set().contains(row));
            let i = choose|i: int| 0 <= i < listed.len() && listed[i] == row;
            if i < n {
                assert(first[i] == row);
                assert(first.to_set().contains(row));
            }
            assert(rest[i - n] == row);
        }
        if rest.contains(row) {
            let i = choose|i: int| 0 <= i < rest.len() && rest[i] == row;
            assert(listed[n + i] == row);
            if first.to_set().contains(row) {
                let k = choose|k: int| 0 <= k < first.len() && first[k] == row;
                assert(listed[k] == listed[n + i]);
            }
        }
    }
    assert(left =~= rest.to_set());
    lemma_listing_len(oldest(rows, count), first);
    lemma_listing_len(newest(rows, count), last);
}

/// Which rows a rotation goes for: those of a daemon, or only those of before a time.
pub struct Scope {
    pub daemon: Seq<char>,
    pub before: Option<int>,
}

/// The rows that a rotation goes for.
pub open spec fn scoped(rows: Set<Row>, scope: Scope) -> Set<Row> {
    rows.filter(
        |row: Row|
            row.daemon_id == scope.daemon && (scope.before matches Some(time) ==> row.millis
                < time),
    )
}

/// What comes of a pruning: the rows that are left, and the number of those that went.
pub struct Pruned {
    pub rows: Set<Row>,
    pub total: nat,
}

/// The rows without the oldest ones that a rotation goes for are fewer of them.
pub proof fn lemma_batch_shrinks(rows: Set<Row>, scope: Scope, limit: nat)
    requires
        rows.finite(),
        oldest(scoped(rows, scope), limit).len() > 0,
    ensures
        scoped(rows.difference(oldest(scoped(rows, scope), limit)), scope).len() < scoped(
            rows,
            scope,
        ).len(),
{
    let all = scoped(rows, scope);
    let batch = oldest(all, limit);
    let left = scoped(rows.difference(batch), scope);
    let some = batch.choose();
    assert(batch.contains(some));
    assert(left.subset_of(all.remove(some)));
    vstd::set_lib::lemma_len_subset(left, all.remove(some));
}

/// What comes of a rotation in batches, where a hook takes each batch: the oldest rows that it goes
/// for are fetched, archived and deleted until there are none to fetch.
pub open spec fn in_batches(rows: Set<Row>, scope: Scope, r: RotationView) -> Pruned
    decreases scoped(rows, scope).len(),
{
    let batch = oldest(scoped(rows, scope), rotation::next_limit(r));
    if !rows.finite() || batch.len() == 0 {
        Pruned { rows, total: r.total }
    } else {
        proof {
            lemma_batch_shrinks(rows, scope, rotation::next_limit(r));
        }
        in_batches(
            rows.difference(batch),
            scope,
            rotation::after_batch(r, batch.len(), batch.len()),
        )
    }
}

/// What comes of a pruning.
pub open spec fn pruned(rows: Set<Row>, scope: Scope, pruning: PruningView) -> Pruned {
    match pruning {
        PruningView::Nothing => Pruned { rows, total: 0 },
        PruningView::AtOnce(limit) => {
            let gone = match limit {
                Some(n) => oldest(scoped(rows, scope), n),
                None => scoped(rows, scope),
            };
            Pruned { rows: rows.difference(gone), total: gone.len() }
        },
        PruningView::InBatches(r) => in_batches(rows, scope, r),
    }
}

/// A part of the rows of a table could be those of one.
proof fn lemma_part_are_rows(rows: Set<Row>, part: Set<Row>)
    requires
        are_rows(rows),
        part.subset_of(rows),
    ensures
        are_rows(part),
        part.len() <= rows.len(),
{
    vstd::set_lib::lemma_set_subset_finite(rows, part);
    vstd::set_lib::lemma_len_subset(part, rows);
    assert forall|a: Row, b: Row|
        #![trigger part.contains(a), part.contains(b)]
        part.contains(a) && part.contains(b) && a.id == b.id implies a == b by {
        assert(rows.contains(a) && rows.contains(b));
    }
}

/// In batches go exactly the rows that one statement would delete.
proof fn lemma_batches(rows: Set<Row>, scope: Scope, r: RotationView)
    requires
        are_rows(rows),
        r.batch_size > 0,
        r.remaining matches Some(n) ==> n <= scoped(rows, scope).len(),
    ensures
        ({
            let all = scoped(rows, scope);
            let count = match r.remaining {
                Some(n) => n,
                None => all.len(),
            };
            in_batches(rows, scope, r) == (Pruned {
                rows: rows.difference(oldest(all, count)),
                total: r.total + count,
            })
        }),
    decreases scoped(rows, scope).len(),
{
    let all = scoped(rows, scope);
    lemma_part_are_rows(rows, all);
    let listed = lemma_can_be_listed(all);
    let count = match r.remaining {
        Some(n) => n,
        None => all.len(),
    };
    let limit = rotation::next_limit(r);
    let fetched = rotation::smaller(limit, all.len());
    let batch = oldest(all, limit);
    lemma_ends_of_listing(all, listed, fetched);
    lemma_ends_of_listing(all, listed, count);
    assert(batch =~= oldest(all, fetched)) by {
        if limit > all.len() {
            assert forall|row: Row| #[trigger] all.contains(row) implies before(all, row).len()
                < limit && before(all, row).len() < all.len() by {
                assert(listed.to_set().contains(row));
                let i = choose|i: int| 0 <= i < listed.len() && listed[i] == row;
                lemma_place(all, listed, i);
            }
        }
    }
    if fetched == 0 {
        assert(count == 0);
        assert(oldest(all, count) =~= Set::empty());
        assert(rows.difference(oldest(all, count)) =~= rows);
    } else {
        let rest = rows.difference(batch);
        let next = rotation::after_batch(r, fetched, fetched);
        lemma_batch_shrinks(rows, scope, limit);
        lemma_part_are_rows(rows, rest);
        assert(scoped(rest, scope) =~= all.difference(batch));
        let others = listed.skip(fetched as int);
        lemma_listing_len(scoped(rest, scope), others);
        lemma_batches(rest, scope, next);
        let left = (count - fetched) as nat;
        lemma_ends_of_listing(scoped(rest, scope), others, left);
        assert(oldest(all, count) =~= batch.union(oldest(scoped(rest, scope), left))) by {
            assert(listed.take(count as int) =~= listed.take(fetched as int) + others.take(
                left as int,
            ));
            vstd::seq_lib::seq_to_set_distributes_over_add(
                listed.take(fetched as int),
                others.take(left as int),
            );
        }
        assert(rest.difference(oldest(scoped(rest, scope), left)) =~= rows.difference(
            oldest(all, count),
        ));
    }
}

/// What a pruning removes lies in its scope, and it counts what it removes.
proof fn lemma_pruned(rows: Set<Row>, scope: Scope, gone: Set<Row>)
    requires
        are_rows(rows),
        gone.subset_of(scoped(rows, scope)),
    ensures
        are_rows(rows.difference(gone)),
        rows.difference(gone).len() == rows.len() - gone.len(),
        rows_of(rows.difference(gone), scope.daemon) == rows_of(rows, scope.daemon).difference(gone),
        forall|daemon: Seq<char>|
            daemon != scope.daemon ==> #[trigger] rows_of(rows.difference(gone), daemon) == rows_of(
                rows,
                daemon,
            ),
{
    lemma_part_are_rows(rows, rows.difference(gone));
    lemma_part_are_rows(rows, gone);
    assert(rows.difference(gone).disjoint(gone));
    vstd::set_lib::lemma_set_disjoint_lens(rows.difference(gone), gone);
    assert(rows.difference(gone) + gone =~= rows);
    assert(rows_of(rows.difference(gone), scope.daemon) =~= rows_of(
        rows,
        scope.daemon,
    ).difference(gone));
    assert forall|daemon: Seq<char>| daemon != scope.daemon implies #[trigger] rows_of(
        rows.difference(gone),
        daemon,
    ) == rows_of(rows, daemon) by {
        assert(rows_of(rows.difference(gone), daemon) =~= rows_of(rows, daemon));
    }
}

/// What comes of a rotation by count of the entries of a daemon, with a hook that takes batches of a
/// size or without one.
pub open spec fn rotated_by_count(
    rows: Set<Row>,
    daemon: Seq<char>,
    max_count: nat,
    batch: Option<usize>,
) -> Pruned {
    pruned(
        rows,
        Scope { daemon, before: None },
        rotation::count_pruning(rows_of(rows, daemon).len() as int, max_count as int, batch),
    )
}

/// What comes of a rotation by age of the entries of a daemon, with a hook that takes batches of a
/// size or without one.
pub open spec fn rotated_by_age(
    rows: Set<Row>,
    daemon: Seq<char>,
    cutoff: int,
    batch: Option<usize>,
) -> Pruned {
    pruned(rows, Scope { daemon, before: Some(cutoff) }, rotation::age_pruning(batch))
}

/// A rotation by count removes exactly the rows of the daemon beyond the number that is kept, and
/// says how many they are. The newest ones are left, those of other daemons are untouched, and a
/// second rotation removes nothing. It makes no difference whether a hook takes the rows.
pub proof fn count_rotation_leaves_the_newest(
    rows: Set<Row>,
    daemon: Seq<char>,
    max_count: nat,
    batch: Option<usize>,
)
    requires
        are_rows(rows),
        batch matches Some(size) ==> size > 0,
    ensures
        ({
            let all = rows_of(rows, daemon);
            let after = rotated_by_count(rows, daemon, max_count, batch);
            &&& after.total == rotation::excess(all.len() as int, max_count as int)
            &&& after.rows.len() == rows.len() - after.total
            &&& rows_of(after.rows, daemon) == newest(all, max_count)
            &&& rows_of(after.rows, daemon).len() == rotation::smaller(all.len(), max_count)
            &&& forall|left: Row, gone: Row|
                #![trigger after.rows.contains(left), all.contains(gone)]
                left.daemon_id == daemon && after.rows.contains(left) && all.contains(gone)
                    && !after.rows.contains(gone) ==> sqlite::comes_before(gone, left)
            &&& after.rows.subset_of(rows)
            &&& forall|other: Seq<char>|
                other != daemon ==> #[trigger] rows_of(after.rows, other) == rows_of(rows, other)
            &&& rotated_by_count(after.rows, daemon, max_count, batch) == (Pruned {
                rows: after.rows,
                total: 0,
            })
            &&& are_rows(after.rows)
        }),
{
    let scope = Scope { daemon, before: None };
    let all = rows_of(rows, daemon);
    assert(scoped(rows, scope) =~= all);
    lemma_part_are_rows(rows, all);
    let listed = lemma_can_be_listed(all);
    let over = rotation::excess(all.len() as int, max_count as int) as nat;
    let gone = oldest(all, over);
    let kept = rotation::smaller(all.len(), max_count);
    lemma_ends_of_listing(all, listed, over);
    lemma_ends_of_listing(all, listed, kept);
    if over == 0 {
        assert(gone =~= Set::empty());
        assert(rows.difference(gone) =~= rows);
    } else if batch is Some {
        lemma_batches(
            rows,
            scope,
            RotationView { batch_size: batch->0 as nat, remaining: Some(over), total: 0 },
        );
    }
    let after = rotated_by_count(rows, daemon, max_count, batch);
    assert(after.rows == rows.difference(gone));
    lemma_pruned(rows, scope, gone);
    assert(all.difference(gone) =~= newest(all, kept)) by {
        assert(listed.skip(over as int) =~= listed.skip(listed.len() - kept));
    }
    lemma_listing_len(newest(all, kept), listed.skip(listed.len() - kept));
    assert(newest(all, kept) =~= newest(all, max_count)) by {
        assert forall|row: Row| #[trigger] all.contains(row) implies behind(all, row).len()
            < all.len() by {
            assert(listed.to_set().contains(row));
            let i = choose|i: int| 0 <= i < listed.len() && listed[i] == row;
            lemma_place(all, listed, i);
        }
    }
    assert forall|left: Row, row: Row|
        #![trigger after.rows.contains(left), all.contains(row)]
        left.daemon_id == daemon && after.rows.contains(left) && all.contains(row)
            && !after.rows.contains(row) implies sqlite::comes_before(row, left) by {
        assert(rows_of(after.rows, daemon).contains(left));
        assert(listed.skip(over as int).to_set().contains(left));
        assert(gone.contains(row));
        assert(listed.take(over as int).to_set().contains(row));
        let i = choose|i: int|
            0 <= i < listed.skip(over as int).len() && listed.skip(over as int)[i] == left;
        let k = choose|k: int|
            0 <= k < listed.take(over as int).len() && listed.take(over as int)[k] == row;
        assert(sqlite::comes_before(listed[k], listed[over + i]));
    }
}

/// A rotation by age removes exactly the rows of the daemon of before the time, and says how many
/// they are. Those of other daemons are untouched, and a second rotation removes nothing. It makes
/// no difference whether a hook takes the rows.
pub proof fn age_rotation_leaves_the_young(
    rows: Set<Row>,
    daemon: Seq<char>,
    cutoff: int,
    batch: Option<usize>,
)
    requires
        are_rows(rows),
        batch matches Some(size) ==> size > 0,
    ensures
        ({
            let after = rotated_by_age(rows, daemon, cutoff, batch);
            &&& after.total == scoped(rows, Scope { daemon, before: Some(cutoff) }).len()
            &&& after.rows.len() == rows.len() - after.total
            &&& rows_of(after.rows, daemon) == young(rows_of(rows, daemon), Some(cutoff))
            &&& after.rows.subset_of(rows)
            &&& forall|other: Seq<char>|
                other != daemon ==> #[trigger] rows_of(after.rows, other) == rows_of(rows, other)
            &&& rotated_by_age(after.rows, daemon, cutoff, batch) == (Pruned {
                rows: after.rows,
                total: 0,
            })
            &&& are_rows(after.rows)
        }),
{
    let scope = Scope { daemon, before: Some(cutoff) };
    lemma_age_once(rows, daemon, cutoff, batch);
    let after = rotated_by_age(rows, daemon, cutoff, batch);
    lemma_pruned(rows, scope, scoped(rows, scope));
    assert(rows_of(after.rows, daemon) =~= young(rows_of(rows, daemon), Some(cutoff)));
    assert(scoped(after.rows, scope) =~= Set::empty());
    lemma_age_once(after.rows, daemon, cutoff, batch);
    assert(after.rows.difference(scoped(after.rows, scope)) =~= after.rows);
}

/// A rotation by age removes what it goes for.
proof fn lemma_age_once(rows: Set<Row>, daemon: Seq<char>, cutoff: int, batch: Option<usize>)
    requires
        are_rows(rows),
        batch matches Some(size) ==> size > 0,
    ensures
        ({
            let gone = scoped(rows, Scope { daemon, before: Some(cutoff) });
            rotated_by_age(rows, daemon, cutoff, batch) == (Pruned {
                rows: rows.difference(gone),
                total: gone.len(),
            })
        }),
{
    let scope = Scope { daemon, before: Some(cutoff) };
    let gone = scoped(rows, scope);
    if batch is Some {
        lemma_batches(
            rows,
            scope,
            RotationView { batch_size: batch->0 as nat, remaining: None, total: 0 },
        );
        lemma_part_are_rows(rows, gone);
        let listed = lemma_can_be_listed(gone);
        lemma_ends_of_listing(gone, listed, gone.len());
        assert(listed.take(listed.len() as int) =~= listed);
    }
}

/// The rows that are not of before a time.
pub open spec fn young(rows: Set<Row>, cutoff: Option<int>) -> Set<Row> {
    rows.filter(|row: Row| cutoff matches Some(time) ==> row.millis >= time)
}

/// What comes of a step of a policy, taken at a time in nanoseconds.
pub open spec fn step_taken(
    rows: Set<Row>,
    daemon: Seq<char>,
    step: PolicyStep,
    now: int,
    batch: Option<usize>,
) -> Pruned {
    match step {
        PolicyStep::ByAge(age) => rotated_by_age(rows, daemon, (now - age@) / 1_000_000, batch),
        PolicyStep::ByCount(count) => rotated_by_count(rows, daemon, count as nat, batch),
    }
}

/// What comes of steps of a policy, one behind the other.
pub open spec fn steps_taken(
    rows: Set<Row>,
    daemon: Seq<char>,
    steps: Seq<PolicyStep>,
    now: int,
    batch: Option<usize>,
) -> Pruned
    decreases steps.len(),
{
    if steps.len() == 0 {
        Pruned { rows, total: 0 }
    } else {
        let first = step_taken(rows, daemon, steps.first(), now, batch);
        let rest = steps_taken(first.rows, daemon, steps.drop_first(), now, batch);
        Pruned { rows: rest.rows, total: first.total + rest.total }
    }
}

/// The turn of a daemon in a retention pass: its policy, the time in nanoseconds at which the policy
/// is applied, and the size of the batches that a hook takes, where there is one.
pub struct Turn {
    pub daemon: Seq<char>,
    pub policy: RetentionPolicy,
    pub now: int,
    pub batch: Option<usize>,
}

/// What comes of a turn.
pub open spec fn turn_taken(rows: Set<Row>, turn: Turn) -> Pruned {
    steps_taken(rows, turn.daemon, rotation::policy_order(turn.policy), turn.now, turn.batch)
}

/// The time, in milliseconds, before which the entries of a daemon are too old.
pub open spec fn cutoff_of(turn: Turn) -> Option<int> {
    match turn.policy.age {
        Some(age) => Some((turn.now - age@) / 1_000_000),
        None => None,
    }
}

/// The rows of a daemon that its turn keeps: of those that are not too old the newest ones, as many
/// as the policy says.
pub open spec fn kept(all: Set<Row>, turn: Turn) -> Set<Row> {
    match turn.policy.count {
        Some(count) => newest(young(all, cutoff_of(turn)), count as nat),
        None => young(all, cutoff_of(turn)),
    }
}

/// Rows that are no more than a number are all among the newest of that number.
proof fn lemma_newest_of_few(rows: Set<Row>, count: nat)
    requires
        are_rows(rows),
        rows.len() <= count,
    ensures
        newest(rows, count) == rows,
{
    assert forall|row: Row| #[trigger] rows.contains(row) implies behind(rows, row).len() < count by {
        assert(behind(rows, row).subset_of(rows.remove(row)));
        vstd::set_lib::lemma_len_subset(behind(rows, row), rows.remove(row));
    }
    assert(newest(rows, count) =~= rows);
}

/// What a turn keeps it keeps again.
proof fn lemma_kept_twice(all: Set<Row>, turn: Turn)
    requires
        are_rows(all),
    ensures
        kept(all, turn).subset_of(all),
        kept(kept(all, turn), turn) == kept(all, turn),
{
    let cutoff = cutoff_of(turn);
    let fresh = young(all, cutoff);
    lemma_part_are_rows(all, fresh);
    let once = kept(all, turn);
    lemma_part_are_rows(all, once);
    assert(young(once, cutoff) =~= once);
    if let Some(count) = turn.policy.count {
        let listed = lemma_can_be_listed(fresh);
        if fresh.len() <= count {
            lemma_newest_of_few(fresh, count as nat);
        } else {
            lemma_ends_of_listing(fresh, listed, count as nat);
        }
        lemma_newest_of_few(once, count as nat);
    }
}

/// The rows of a table are told by those of each daemon.
proof fn lemma_same_by_daemon(a: Set<Row>, b: Set<Row>)
    requires
        forall|daemon: Seq<char>| #[trigger] rows_of(a, daemon) == rows_of(b, daemon),
    ensures
        a == b,
{
    assert forall|row: Row| a.contains(row) == b.contains(row) by {
        assert(rows_of(a, row.daemon_id) == rows_of(b, row.daemon_id));
        assert(rows_of(a, row.daemon_id).contains(row) == rows_of(b, row.daemon_id).contains(row));
    }
    assert(a =~= b);
}

/// A policy leaves of the rows of its daemon the newest of those that are not too old, and says how
/// many went. Other daemons are untouched.
proof fn lemma_turn(rows: Set<Row>, turn: Turn)
    requires
        are_rows(rows),
        turn.batch matches Some(size) ==> size > 0,
    ensures
        ({
            let after = turn_taken(rows, turn);
            &&& rows_of(after.rows, turn.daemon) == kept(rows_of(rows, turn.daemon), turn)
            &&& forall|other: Seq<char>|
                other != turn.daemon ==> #[trigger] rows_of(after.rows, other) == rows_of(rows, other)
            &&& after.total == rows.len() - after.rows.len()
            &&& after.rows.subset_of(rows)
            &&& are_rows(after.rows)
        }),
{
    let steps = rotation::policy_order(turn.policy);
    let d = turn.daemon;
    let all = rows_of(rows, d);
    reveal_with_fuel(steps_taken, 3);
    assert(young(all, None) =~= all);
    match (turn.policy.age, turn.policy.count) {
        (Some(age), Some(count)) => {
            let cutoff = (turn.now - age@) / 1_000_000;
            assert(steps =~= seq![PolicyStep::ByAge(age), PolicyStep::ByCount(count)]);
            assert(steps.drop_first() =~= seq![PolicyStep::ByCount(count)]);
            assert(steps.drop_first().drop_first() =~= Seq::<PolicyStep>::empty());
            age_rotation_leaves_the_young(rows, d, cutoff, turn.batch);
            let mid = rotated_by_age(rows, d, cutoff, turn.batch).rows;
            count_rotation_leaves_the_newest(mid, d, count as nat, turn.batch);
        },
        (Some(age), None) => {
            let cutoff = (turn.now - age@) / 1_000_000;
            assert(steps =~= seq![PolicyStep::ByAge(age)]);
            assert(steps.drop_first() =~= Seq::<PolicyStep>::empty());
            age_rotation_leaves_the_young(rows, d, cutoff, turn.batch);
        },
        (None, Some(count)) => {
            assert(steps =~= seq![PolicyStep::ByCount(count)]);
            assert(steps.drop_first() =~= Seq::<PolicyStep>::empty());
            count_rotation_leaves_the_newest(rows, d, count as nat, turn.batch);
        },
        (None, None) => {
            assert(steps =~= Seq::<PolicyStep>::empty());
        },
    }
}

/// A turn that keeps all rows of its daemon changes nothing.
proof fn lemma_idle_turn(rows: Set<Row>, turn: Turn)
    requires
        are_rows(rows),
        turn.batch matches Some(size) ==> size > 0,
        kept(rows_of(rows, turn.daemon), turn) == rows_of(rows, turn.daemon),
    ensures
        turn_taken(rows, turn) == (Pruned { rows, total: 0 }),
{
    lemma_turn(rows, turn);
    let after = turn_taken(rows, turn);
    assert forall|daemon: Seq<char>| #[trigger] rows_of(after.rows, daemon) == rows_of(
        rows,
        daemon,
    ) by {}
    lemma_same_by_daemon(after.rows, rows);
}

/// A policy leaves of the rows of its daemon the newest of those that are not too old, as many as it
/// says, and counts those that went. Other daemons are untouched, and a second time at the same
/// moment nothing goes. It makes no difference whether a hook takes the rows.
pub proof fn policy_keeps_the_newest_young(rows: Set<Row>, turn: Turn)
    requires
        are_rows(rows),
        turn.batch matches Some(size) ==> size > 0,
    ensures
        ({
            let after = turn_taken(rows, turn);
            &&& rows_of(after.rows, turn.daemon) == kept(rows_of(rows, turn.daemon), turn)
            &&& forall|other: Seq<char>|
                other != turn.daemon ==> #[trigger] rows_of(after.rows, other) == rows_of(rows, other)
            &&& after.total == rows.len() - after.rows.len()
            &&& after.rows.subset_of(rows)
            &&& turn_taken(after.rows, turn) == (Pruned { rows: after.rows, total: 0 })
        }),
{
    lemma_turn(rows, turn);
    lemma_part_are_rows(rows, rows_of(rows, turn.daemon));
    lemma_kept_twice(rows_of(rows, turn.daemon), turn);
    lemma_idle_turn(turn_taken(rows, turn).rows, turn);
}

/// What comes of a retention pass: the turns of daemons, one behind the other.
pub open spec fn pass_made(rows: Set<Row>, turns: Seq<Turn>) -> Pruned
    decreases turns.len(),
{
    if turns.len() == 0 {
        Pruned { rows, total: 0 }
    } else {
        let earlier = pass_made(rows, turns.drop_last());
        let last = turn_taken(earlier.rows, turns.last());
        Pruned { rows: last.rows, total: earlier.total + last.total }
    }
}

/// Whether turns could be those of a pass: no daemon has two different ones, and a hook takes at
/// least one entry at a time.
pub open spec fn are_turns(turns: Seq<Turn>) -> bool {
    &&& forall|i: int, j: int|
        #![trigger turns[i], turns[j]]
        0 <= i < turns.len() && 0 <= j < turns.len() && turns[i].daemon == turns[j].daemon
            ==> turns[i] == turns[j]
    &&& forall|i: int|
        0 <= i < turns.len() ==> ((#[trigger] turns[i]).batch matches Some(size) ==> size > 0)
}

/// Whether a daemon has a turn.
pub open spec fn has_turn(turns: Seq<Turn>, daemon: Seq<char>) -> bool {
    exists|i: int| 0 <= i < turns.len() && (#[trigger] turns[i]).daemon == daemon
}

/// What a pass leaves.
proof fn lemma_pass(rows: Set<Row>, turns: Seq<Turn>)
    requires
        are_rows(rows),
        are_turns(turns),
    ensures
        ({
            let after = pass_made(rows, turns);
            &&& forall|i: int|
                #![trigger turns[i]]
                0 <= i < turns.len() ==> rows_of(after.rows, turns[i].daemon) == kept(
                    rows_of(rows, turns[i].daemon),
                    turns[i],
                )
            &&& forall|daemon: Seq<char>|
                !has_turn(turns, daemon) ==> #[trigger] rows_of(after.rows, daemon) == rows_of(
                    rows,
                    daemon,
                )
            &&& after.total == rows.len() - after.rows.len()
            &&& after.rows.subset_of(rows)
            &&& are_rows(after.rows)
        }),
    decreases turns.len(),
{
    if turns.len() > 0 {
        let first = turns.drop_last();
        let turn = turns.last();
        assert(are_turns(first)) by {
            assert forall|i: int, j: int|
                #![trigger first[i], first[j]]
                0 <= i < first.len() && 0 <= j < first.len() && first[i].daemon
                    == first[j].daemon implies first[i] == first[j] by {
                assert(turns[i] == first[i] && turns[j] == first[j]);
            }
            assert forall|i: int|
                0 <= i < first.len() implies ((#[trigger] first[i]).batch matches Some(size)
                ==> size > 0) by {
                assert(turns[i] == first[i]);
            }
        }
        assert(turns[turns.len() - 1] == turn);
        lemma_pass(rows, first);
        let earlier = pass_made(rows, first);
        lemma_turn(earlier.rows, turn);
        let after = pass_made(rows, turns);
        assert forall|i: int|
            #![trigger turns[i]]
            0 <= i < turns.len() implies rows_of(after.rows, turns[i].daemon) == kept(
            rows_of(rows, turns[i].daemon),
            turns[i],
        ) by {
            let d = turns[i].daemon;
            if d == turn.daemon {
                assert(turns[i] == turn);
                if has_turn(first, d) {
                    let k = choose|k: int| 0 <= k < first.len() && (#[trigger] first[k]).daemon == d;
                    assert(turns[k] == first[k]);
                    assert(turns[k] == turn);
                    lemma_part_are_rows(rows, rows_of(rows, d));
                    lemma_kept_twice(rows_of(rows, d), turn);
                }
            } else {
                assert(first[i] == turns[i]);
            }
        }
        assert forall|daemon: Seq<char>| !has_turn(turns, daemon) implies #[trigger] rows_of(
            after.rows,
            daemon,
        ) == rows_of(rows, daemon) by {
            assert(turns[turns.len() - 1].daemon != daemon);
            if has_turn(first, daemon) {
                let k = choose|k: int| 0 <= k < first.len() && (#[trigger] first[k]).daemon == daemon;
                assert(turns[k] == first[k]);
            }
        }
    }
}

/// A pass of turns that keep all rows of their daemons changes nothing.
proof fn lemma_idle_pass(rows: Set<Row>, turns: Seq<Turn>)
    requires
        are_rows(rows),
        forall|i: int|
            0 <= i < turns.len() ==> ((#[trigger] turns[i]).batch matches Some(size) ==> size > 0),
        forall|i: int|
            0 <= i < turns.len() ==> kept(rows_of(rows, turns[i].daemon), #[trigger] turns[i])
                == rows_of(rows, turns[i].daemon),
    ensures
        pass_made(rows, turns) == (Pruned { rows, total: 0 }),
    decreases turns.len(),
{
    if turns.len() > 0 {
        let first = turns.drop_last();
        assert forall|i: int|
            0 <= i < first.len() implies ((#[trigger] first[i]).batch matches Some(size) ==> size
            > 0) by {
            assert(turns[i] == first[i]);
        }
        assert forall|i: int| 0 <= i < first.len() implies kept(
            rows_of(rows, first[i].daemon),
            #[trigger] first[i],
        ) == rows_of(rows, first[i].daemon) by {
            assert(turns[i] == first[i]);
        }
        lemma_idle_pass(rows, first);
        assert(turns[turns.len() - 1] == turns.last());
        lemma_idle_turn(rows, turns.last());
    }
}

/// A retention pass leaves of each daemon that has a turn the newest of its entries that are not too
/// old, as many as its policy says, and counts those that went. Daemons without a turn are
/// untouched. A second pass of any of the turns at the same moments removes nothing. It makes no
/// difference whether hooks take the rows.
pub proof fn pass_keeps_by_policy(rows: Set<Row>, turns: Seq<Turn>, again: Seq<Turn>)
    requires
        are_rows(rows),
        are_turns(turns),
        forall|i: int| 0 <= i < again.len() ==> turns.contains(#[trigger] again[i]),
    ensures
        ({
            let after = pass_made(rows, turns);
            &&& forall|i: int|
                #![trigger turns[i]]
                0 <= i < turns.len() ==> rows_of(after.rows, turns[i].daemon) == kept(
                    rows_of(rows, turns[i].daemon),
                    turns[i],
                )
            &&& forall|daemon: Seq<char>|
                !has_turn(turns, daemon) ==> #[trigger] rows_of(after.rows, daemon) == rows_of(
                    rows,
                    daemon,
                )
            &&& after.total == rows.len() - after.rows.len()
            &&& after.rows.subset_of(rows)
            &&& pass_made(after.rows, again) == (Pruned { rows: after.rows, total: 0 })
        }),
{
    lemma_pass(rows, turns);
    let after = pass_made(rows, turns).rows;
    assert forall|i: int| 0 <= i < again.len() implies {
        &&& (#[trigger] again[i]).batch matches Some(size) ==> size > 0
        &&& kept(rows_of(after, again[i].daemon), again[i]) == rows_of(after, again[i].daemon)
    } by {
        assert(turns.contains(again[i]));
        let k = choose|k: int| 0 <= k < turns.len() && turns[k] == again[i];
        let all = rows_of(rows, turns[k].daemon);
        lemma_part_are_rows(rows, all);
        lemma_kept_twice(all, turns[k]);
    }
    lemma_idle_pass(after, again);
}

/// The table of log entries: its rows, and the highest row id that was ever given, zero before the
/// first.
pub struct Table {
    pub rows: Set<Row>,
    pub last_id: int,
}

impl Table {
    /// Whether this is a table: no row has an id that was not given yet.
    pub open spec fn is_valid(self) -> bool {
        &&& are_rows(self.rows)
        &&& self.last_id >= 0
        &&& forall|row: Row| #[trigger] self.rows.contains(row) ==> row.id <= self.last_id
    }

    /// The table with new rows behind the others.
    pub open spec fn with(self, new: Seq<Row>) -> Table {
        Table {
            rows: self.rows.union(new.to_set()),
            last_id: if new.len() > 0 {
                new.last().id
            } else {
                self.last_id
            },
        }
    }

    /// The table after new rows were put in within one transaction, which was committed or not.
    pub open spec fn after_insert(self, new: Seq<Row>, committed: bool) -> Table {
        if committed {
            self.with(new)
        } else {
            self
        }
    }

    /// The table without the rows of a daemon.
    pub open spec fn cleared(self, daemon: Seq<char>) -> Table {
        Table { rows: self.rows.difference(rows_of(self.rows, daemon)), last_id: self.last_id }
    }
}

/// Whether row ids are new ones: each is higher than any that was given before.
pub open spec fn are_new_ids(ids: Seq<int>, last_id: int) -> bool {
    &&& forall|i: int| 0 <= i < ids.len() ==> #[trigger] ids[i] > last_id
    &&& forall|i: int, j: int|
        #![trigger ids[i], ids[j]]
        0 <= i < j < ids.len() ==> ids[i] < ids[j]
}

/// The times and messages of lines that are appended together: each a millisecond after the one
/// before.
pub open spec fn batch_lines(base: int, messages: Seq<Seq<char>>) -> Seq<(int, Seq<char>)> {
    Seq::new(messages.len(), |i: int| (base + i, messages[i]))
}

/// The rows of lines of a daemon.
pub open spec fn line_rows(
    daemon: Seq<char>,
    lines: Seq<(int, Seq<char>)>,
    ids: Seq<int>,
) -> Seq<Row> {
    Seq::new(
        lines.len(),
        |i: int|
            Row { id: ids[i], daemon_id: daemon, millis: lines[i].0, message: lines[i].1 },
    )
}

/// Texts as sequences of characters.
pub open spec fn message_texts(messages: Seq<&str>) -> Seq<Seq<char>> {
    messages.map_values(|s: &str| s@)
}

/// Times and texts as numbers and sequences of characters.
pub open spec fn line_views(lines: Seq<(i64, &str)>) -> Seq<(int, Seq<char>)> {
    lines.map_values(|line: (i64, &str)| (line.0 as int, line.1@))
}

/// The times and messages of lines that are appended together: each a millisecond after the one
/// before, so that the order by time is the order of the lines.
pub fn batch_rows<'a>(base: i64, messages: &Vec<&'a str>) -> (r: Result<
    Vec<(i64, &'a str)>,
    StoreError,
>)
    ensures
        match r {
            Ok(lines) => base + messages@.len() <= i64::MAX && line_views(lines@) == batch_lines(
                base as int,
                message_texts(messages@),
            ),
            Err(e) => base + messages@.len() > i64::MAX && e.message@ == "too many log lines"@,
        },
{
    if base as i128 + messages.len() as i128 > i64::MAX as i128 {
        return Err(StoreError { message: "too many log lines".to_string() });
    }
    let ghost goal = batch_lines(base as int, message_texts(messages@));
    let mut lines: Vec<(i64, &'a str)> = Vec::new();
    let mut i: usize = 0;
    while i < messages.len()
        invariant
            i <= messages@.len(),
            base + messages@.len() <= i64::MAX,
            goal == batch_lines(base as int, message_texts(messages@)),
            line_views(lines@) == goal.take(i as int),
        decreases messages@.len() - i,
    {
        let ghost done = line_views(lines@);
        lines.push(((base as i128 + i as i128) as i64, messages[i]));
        assert(line_views(lines@) =~= done.push(goal[i as int]));
        i = i + 1;
    }
    assert(line_views(lines@) =~= goal);
    Ok(lines)
}

/// Lines that are appended together are read back behind the last row: exactly they, in their order,
/// with row ids that grow and that no row ever had. All other rows are as they were. Where the
/// transaction is not committed the table is as it was, and so it is without lines.
pub proof fn appended_lines_are_read_back(
    table: Table,
    daemon: Seq<char>,
    base: int,
    messages: Seq<Seq<char>>,
    ids: Seq<int>,
    plan: QueryPlan,
)
    requires
        table.is_valid(),
        ids.len() == messages.len(),
        are_new_ids(ids, table.last_id),
        plan.plans(sqlite::tail_view(daemon, Some(table.last_id))),
        plan.params@.len() < usize::MAX,
    ensures
        ({
            let new = line_rows(daemon, batch_lines(base, messages), ids);
            let after = table.after_insert(new, true);
            &&& plan.yields(after.rows, new)
            &&& forall|rows: Seq<Row>| #[trigger] plan.yields(after.rows, rows) ==> rows == new
            &&& new.len() == messages.len()
            &&& forall|i: int|
                0 <= i < new.len() ==> (#[trigger] new[i]).message == messages[i] && new[i].id
                    > table.last_id
            &&& forall|i: int, j: int|
                #![trigger new[i], new[j]]
                0 <= i < j < new.len() ==> new[i].id < new[j].id
            &&& forall|row: Row|
                row.id <= table.last_id ==> (#[trigger] after.rows.contains(row)
                    <==> table.rows.contains(row))
            &&& after.is_valid()
            &&& messages.len() == 0 ==> after == table
            &&& table.after_insert(new, false) == table
        }),
{
    let q = sqlite::tail_view(daemon, Some(table.last_id));
    let new = line_rows(daemon, batch_lines(base, messages), ids);
    let after = table.with(new);
    vstd::seq_lib::seq_to_set_is_finite(new);
    assert forall|i: int| 0 <= i < new.len() implies (#[trigger] new[i]).id == ids[i] && ids[i]
        > table.last_id && new[i].id <= after.last_id by {
        if i < new.len() - 1 {
            assert(ids[i] < ids[new.len() - 1]);
        }
    }
    assert forall|row: Row| #[trigger] after.rows.contains(row) implies table.rows.contains(row)
        || exists|i: int| 0 <= i < new.len() && new[i] == row by {
        if !table.rows.contains(row) {
            assert(new.to_set().contains(row));
            assert(new.contains(row));
        }
    }
    assert forall|i: int| 0 <= i < new.len() implies after.rows.contains(#[trigger] new[i]) by {
        assert(new.to_set().contains(new[i]));
    }
    assert(sqlite::in_order(new, false));
    assert forall|row: Row| #[trigger] new.contains(row) <==> after.rows.contains(row)
        && plan.accepts(row) by {
        sqlite::plan_accepts_what_is_asked(plan, q, row);
        if new.contains(row) {
            let i = choose|i: int| 0 <= i < new.len() && new[i] == row;
            assert(q.daemon_ids[0] == daemon);
            assert(q.daemon_ids.contains(row.daemon_id));
        }
    }
    assert(plan.lists(after.rows, new));
    assert(plan.yields(after.rows, new));
    assert forall|rows: Seq<Row>| #[trigger] plan.yields(after.rows, rows) implies rows == new by {
        sqlite::answer_is_unique(plan, after.rows, rows, new);
    }
    if messages.len() == 0 {
        assert(new.to_set() =~= Set::empty());
        assert(after.rows =~= table.rows);
    }
    assert(are_rows(after.rows));
}

/// Clearing a daemon leaves the rows of the others, and no row id is given again.
pub proof fn cleared_row_ids_are_not_reused(table: Table, daemon: Seq<char>)
    requires
        table.is_valid(),
    ensures
        table.cleared(daemon).is_valid(),
        table.cleared(daemon).last_id == table.last_id,
        rows_of(table.cleared(daemon).rows, daemon) == Set::<Row>::empty(),
        forall|other: Seq<char>|
            other != daemon ==> #[trigger] rows_of(table.cleared(daemon).rows, other) == rows_of(
                table.rows,
                other,
            ),
{
    let after = table.cleared(daemon);
    lemma_part_are_rows(table.rows, after.rows);
    assert(rows_of(after.rows, daemon) =~= Set::empty());
    assert forall|other: Seq<char>| other != daemon implies #[trigger] rows_of(after.rows, other)
        == rows_of(table.rows, other) by {
        assert(rows_of(after.rows, other) =~= rows_of(table.rows, other));
    }
}

} // verus!
