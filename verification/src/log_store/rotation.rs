//! How old log entries are pruned.
use crate::clock;
use crate::clock::{Moment, Stamp, TimeSpan};
use crate::daemon_id;
use crate::daemon_id::DaemonId;
use crate::log_store::sqlite;
use crate::log_store::sqlite::write_placeholders;
use crate::log_store::{ArchiveHook, LogEntry, RetentionPolicy, StoreError};
use crate::text;
use crate::text::text_eq;
use vstd::prelude::*;

verus! {

/// The number of placeholders that one statement may hold.
pub const MAX_PLACEHOLDERS: usize = 999;

/// A list cut into pieces of `size` items; the last piece may be shorter.
pub open spec fn chunked<A>(items: Seq<A>, size: nat) -> Seq<Seq<A>>
    decreases items.len(),
{
    if items.len() == 0 || size == 0 {
        Seq::empty()
    } else if items.len() <= size {
        seq![items]
    } else {
        seq![items.take(size as int)] + chunked(items.skip(size as int), size)
    }
}

/// The items of all pieces in order.
pub open spec fn flattened<A>(pieces: Seq<Seq<A>>) -> Seq<A>
    decreases pieces.len(),
{
    if pieces.len() == 0 {
        Seq::empty()
    } else {
        pieces.first() + flattened(pieces.drop_first())
    }
}

/// The pieces of a list hold its items in order; none is empty or longer than the size.
pub proof fn pieces_hold_all<A>(items: Seq<A>, size: nat)
    requires
        size > 0,
    ensures
        flattened(chunked(items, size)) == items,
        forall|i: int|
            0 <= i < chunked(items, size).len() ==> 0 < (#[trigger] chunked(items, size)[i]).len()
                <= size,
    decreases items.len(),
{
    let pieces = chunked(items, size);
    if items.len() == 0 {
        assert(flattened(pieces) =~= items);
    } else if items.len() <= size {
        assert(pieces.drop_first() =~= Seq::<Seq<A>>::empty());
        assert(flattened(pieces.drop_first()) =~= Seq::<A>::empty());
        assert(flattened(pieces) =~= items);
    } else {
        let rest = items.skip(size as int);
        pieces_hold_all(rest, size);
        assert(pieces.drop_first() =~= chunked(rest, size));
        assert(flattened(pieces) =~= items.take(size as int) + rest);
        assert(items.take(size as int) + rest =~= items);
        assert forall|i: int| 0 <= i < pieces.len() implies 0 < (#[trigger] pieces[i]).len()
            <= size by {
            if i > 0 {
                assert(pieces[i] == chunked(rest, size)[i - 1]);
            }
        }
    }
}

/// A statement that deletes rows by their ids, which are the values of its placeholders.
#[derive(Debug)]
pub struct DeleteStatement {
    pub sql: String,
    pub ids: Vec<i64>,
}

/// The text of a statement that deletes a number of rows.
pub open spec fn delete_text(count: nat) -> Seq<char> {
    "DELETE FROM log_entries WHERE id IN ("@ + sqlite::placeholder_list(count) + ")"@
}

/// Whether statements delete pieces of ids.
pub open spec fn deletes(statements: Seq<DeleteStatement>, pieces: Seq<Seq<i64>>) -> bool {
    &&& statements.len() == pieces.len()
    &&& forall|i: int|
        0 <= i < statements.len() ==> {
            &&& (#[trigger] statements[i]).ids@ == pieces[i]
            &&& statements[i].sql@ == delete_text(pieces[i].len())
        }
}

/// The statements that delete rows by their ids, each with as many ids as it may hold.
pub fn delete_by_ids(ids: &Vec<i64>) -> (r: Vec<DeleteStatement>)
    ensures
        deletes(r@, chunked(ids@, MAX_PLACEHOLDERS as nat)),
{
    let mut out: Vec<DeleteStatement> = Vec::new();
    let total: usize = ids.len();
    let mut from: usize = 0;
    let ghost pieces = chunked(ids@, MAX_PLACEHOLDERS as nat);
    assert(ids@.skip(0) =~= ids@);
    assert(pieces.skip(0) =~= pieces);
    while from < total
        invariant
            total == ids@.len(),
            from <= total,
            pieces == chunked(ids@, MAX_PLACEHOLDERS as nat),
            out@.len() <= pieces.len(),
            deletes(out@, pieces.take(out@.len() as int)),
            pieces.skip(out@.len() as int) == chunked(
                ids@.skip(from as int),
                MAX_PLACEHOLDERS as nat,
            ),
        decreases total - from,
    {
        let to: usize = if total - from <= MAX_PLACEHOLDERS {
            total
        } else {
            from + MAX_PLACEHOLDERS
        };
        let mut piece: Vec<i64> = Vec::new();
        let mut i: usize = from;
        while i < to
            invariant
                from <= i <= to <= ids@.len(),
                piece@ == ids@.subrange(from as int, i as int),
            decreases to - i,
        {
            piece.push(ids[i]);
            i = i + 1;
        }
        let sql = "DELETE FROM log_entries WHERE id IN (".to_string().concat(
            write_placeholders(piece.len()).as_str(),
        ).concat(")");
        let ghost n = out@.len() as int;
        let ghost rest = ids@.skip(from as int);
        proof {
            assert(rest.len() > 0);
            assert(piece@ =~= rest.take(to - from));
            if rest.len() <= MAX_PLACEHOLDERS {
                assert(piece@ =~= rest);
                assert(rest.skip(to - from) =~= Seq::<i64>::empty());
            }
            assert(pieces.skip(n).len() == pieces.len() - n);
            assert(pieces.skip(n)[0] == piece@);
            assert(pieces[n] == piece@);
            assert(pieces.skip(n + 1) =~= pieces.skip(n).drop_first());
            assert(rest.skip(to - from) =~= ids@.skip(to as int));
            assert(pieces.skip(n + 1) =~= chunked(ids@.skip(to as int), MAX_PLACEHOLDERS as nat));
            assert(pieces.take(n + 1) =~= pieces.take(n).push(piece@));
        }
        out.push(DeleteStatement { sql, ids: piece });
        from = to;
    }
    proof {
        assert(ids@.skip(from as int) =~= Seq::<i64>::empty());
        assert(pieces.skip(out@.len() as int).len() == 0);
        assert(pieces.take(out@.len() as int) =~= pieces);
    }
    out
}

/// The size of the batches that the hook archives before they are deleted, where there is a hook
/// with a command.
pub open spec fn hook_batch(hook: Option<&ArchiveHook>) -> Option<usize> {
    match hook {
        Some(h) => if h.enabled() {
            Some(h.batch_size)
        } else {
            None
        },
        None => None,
    }
}

/// The size of the batches that the hook archives before they are deleted.
pub fn archive_batch_size(hook: Option<&ArchiveHook>) -> (r: Option<usize>)
    ensures
        r == hook_batch(hook),
{
    match hook {
        Some(h) => if h.is_enabled() {
            Some(h.batch_size)
        } else {
            None
        },
        None => None,
    }
}

/// The time, in milliseconds, before which entries are too old, where the calendar holds it.
pub fn age_cutoff(now: &Moment, max_age: &TimeSpan) -> (r: Option<i64>)
    ensures
        match r {
            Some(millis) => clock::nanos_in_calendar(now@ - max_age@) && millis == (now@ - max_age@)
                / 1_000_000,
            None => !clock::nanos_in_calendar(now@ - max_age@),
        },
{
    match now.minus(max_age) {
        Some(moment) => Some(moment.millis()),
        None => None,
    }
}

/// The number of entries beyond those that are kept.
pub open spec fn excess(count: int, max_count: int) -> int {
    if count > max_count {
        count - max_count
    } else {
        0
    }
}

/// The number of entries beyond those that are kept.
pub fn excess_entries(count: i64, max_count: u64) -> (r: i64)
    requires
        count >= 0,
    ensures
        r == excess(count as int, max_count as int),
{
    if count as u64 > max_count {
        (count as u64 - max_count) as i64
    } else {
        0
    }
}

/// A rotation that archives and deletes batch by batch.
#[derive(Debug)]
pub struct BatchRotation {
    batch_size: usize,
    /// The number of entries that are still to go, where only so many are.
    remaining: Option<i64>,
    total: u64,
}

/// The state of a rotation.
pub struct RotationView {
    pub batch_size: nat,
    pub remaining: Option<nat>,
    pub total: nat,
}

/// The number of entries that a rotation asks for next.
pub open spec fn next_limit(r: RotationView) -> nat {
    match r.remaining {
        Some(n) => if n < r.batch_size {
            n
        } else {
            r.batch_size
        },
        None => r.batch_size,
    }
}

/// The state after a batch was deleted.
pub open spec fn after_batch(r: RotationView, fetched: nat, deleted: nat) -> RotationView {
    RotationView {
        batch_size: r.batch_size,
        remaining: match r.remaining {
            Some(n) => Some((n - fetched) as nat),
            None => None,
        },
        total: r.total + deleted,
    }
}

impl View for BatchRotation {
    type V = RotationView;

    closed spec fn view(&self) -> RotationView {
        RotationView {
            batch_size: self.batch_size as nat,
            remaining: match self.remaining {
                Some(n) => Some(n as nat),
                None => None,
            },
            total: self.total as nat,
        }
    }
}

impl BatchRotation {
    #[verifier::type_invariant]
    spec fn is_consistent(self) -> bool {
        self.remaining matches Some(n) ==> n >= 0
    }

    /// A rotation of all entries that are too old.
    pub fn by_age(batch_size: usize) -> (r: BatchRotation)
        ensures
            r@ == (RotationView { batch_size: batch_size as nat, remaining: None, total: 0 }),
    {
        BatchRotation { batch_size, remaining: None, total: 0 }
    }

    /// A rotation of a number of entries, the oldest first.
    pub fn by_count(batch_size: usize, to_delete: i64) -> (r: BatchRotation)
        requires
            to_delete >= 0,
        ensures
            r@ == (RotationView {
                batch_size: batch_size as nat,
                remaining: Some(to_delete as nat),
                total: 0,
            }),
    {
        BatchRotation { batch_size, remaining: Some(to_delete), total: 0 }
    }

    /// The number of entries to ask for next; the rotation ends where none are left.
    pub fn limit(&self) -> (r: usize)
        ensures
            r == next_limit(self@),
    {
        proof {
            use_type_invariant(self);
        }
        match self.remaining {
            Some(n) => if (n as u64) < self.batch_size as u64 {
                n as usize
            } else {
                self.batch_size
            },
            None => self.batch_size,
        }
    }

    /// The rows to delete of a batch, from what came of its archiving: all of them where the hook
    /// took it, and none where it did not. The rotation then ends with the error.
    pub fn archived(&self, batch: &Vec<LogEntry>, verdict: Result<(), StoreError>) -> (r: Result<
        Vec<i64>,
        StoreError,
    >)
        ensures
            match verdict {
                Ok(_) => r matches Ok(ids) && ids@ == row_ids(batch@),
                Err(e) => r matches Err(told) && told.message@ == e.message@,
            },
    {
        match verdict {
            Ok(_) => {
                let mut ids: Vec<i64> = Vec::new();
                let mut i: usize = 0;
                while i < batch.len()
                    invariant
                        i <= batch@.len(),
                        ids@ == row_ids(batch@).take(i as int),
                    decreases batch@.len() - i,
                {
                    ids.push(batch[i].id);
                    assert(ids@ =~= row_ids(batch@).take(i + 1));
                    i = i + 1;
                }
                assert(ids@ =~= row_ids(batch@));
                Ok(ids)
            },
            Err(e) => Err(e),
        }
    }

    /// Notes that a batch was archived and deleted.
    pub fn batch_deleted(&mut self, fetched: usize, deleted: u64)
        requires
            old(self)@.remaining matches Some(n) ==> fetched <= n,
            old(self)@.total + deleted <= u64::MAX,
        ensures
            final(self)@ == after_batch(old(self)@, fetched as nat, deleted as nat),
    {
        proof {
            use_type_invariant(&*self);
        }
        let total: u64 = self.total + deleted;
        let remaining: Option<i64> = match self.remaining {
            Some(n) => Some(n - fetched as i64),
            None => None,
        };
        *self = BatchRotation { batch_size: self.batch_size, remaining, total };
    }

    /// The number of entries that were deleted.
    pub fn total(&self) -> (r: u64)
        ensures
            r == self@.total,
    {
        self.total
    }
}

/// How the entries of a daemon are pruned once.
#[derive(Debug)]
pub enum Pruning {
    /// Nothing is pruned.
    Nothing,
    /// One statement deletes the entries: the oldest ones, where there is a limit.
    AtOnce { limit: Option<i64> },
    /// The entries are archived and deleted batch by batch.
    InBatches(BatchRotation),
}

/// How the entries of a daemon are pruned once.
pub enum PruningView {
    Nothing,
    AtOnce(Option<nat>),
    InBatches(RotationView),
}

impl View for Pruning {
    type V = PruningView;

    open spec fn view(&self) -> PruningView {
        match self {
            Pruning::Nothing => PruningView::Nothing,
            Pruning::AtOnce { limit: Some(n) } => PruningView::AtOnce(Some(*n as nat)),
            Pruning::AtOnce { limit: None } => PruningView::AtOnce(None),
            Pruning::InBatches(r) => PruningView::InBatches(r@),
        }
    }
}

/// How entries are pruned down to a number: not where there are no more than that; else the oldest
/// ones beyond it go, in batches where a hook takes them.
pub open spec fn count_pruning(count: int, max_count: int, batch: Option<usize>) -> PruningView {
    let over = excess(count, max_count) as nat;
    if over == 0 {
        PruningView::Nothing
    } else {
        match batch {
            Some(size) => PruningView::InBatches(
                RotationView { batch_size: size as nat, remaining: Some(over), total: 0 },
            ),
            None => PruningView::AtOnce(Some(over)),
        }
    }
}

/// How entries are pruned down to a number, from the number that there is.
pub fn plan_count_pruning(count: i64, max_count: u64, hook: Option<&ArchiveHook>) -> (r: Pruning)
    requires
        count >= 0,
    ensures
        r@ == count_pruning(count as int, max_count as int, hook_batch(hook)),
{
    let over: i64 = excess_entries(count, max_count);
    if over == 0 {
        return Pruning::Nothing;
    }
    match archive_batch_size(hook) {
        Some(size) => Pruning::InBatches(BatchRotation::by_count(size, over)),
        None => Pruning::AtOnce { limit: Some(over) },
    }
}

/// How entries that are too old are pruned: all of them go, in batches where a hook takes them.
pub open spec fn age_pruning(batch: Option<usize>) -> PruningView {
    match batch {
        Some(size) => PruningView::InBatches(
            RotationView { batch_size: size as nat, remaining: None, total: 0 },
        ),
        None => PruningView::AtOnce(None),
    }
}

/// How entries that are too old are pruned.
pub fn plan_age_pruning(hook: Option<&ArchiveHook>) -> (r: Pruning)
    ensures
        r@ == age_pruning(hook_batch(hook)),
{
    match archive_batch_size(hook) {
        Some(size) => Pruning::InBatches(BatchRotation::by_age(size)),
        None => Pruning::AtOnce { limit: None },
    }
}

/// A step of a retention policy.
#[derive(Debug, Clone, Copy)]
pub enum PolicyStep {
    /// Entries above an age go.
    ByAge(TimeSpan),
    /// Entries beyond a number go.
    ByCount(u64),
}

/// The steps of a policy: first those go that are too old, then those beyond the number.
pub open spec fn policy_order(policy: RetentionPolicy) -> Seq<PolicyStep> {
    (match policy.age {
        Some(age) => seq![PolicyStep::ByAge(age)],
        None => Seq::empty(),
    }) + (match policy.count {
        Some(count) => seq![PolicyStep::ByCount(count)],
        None => Seq::empty(),
    })
}

/// The steps of a policy in their order.
pub fn policy_steps(policy: &RetentionPolicy) -> (r: Vec<PolicyStep>)
    ensures
        r@ == policy_order(*policy),
{
    let mut steps: Vec<PolicyStep> = Vec::new();
    if let Some(age) = policy.age {
        steps.push(PolicyStep::ByAge(age));
    }
    if let Some(count) = policy.count {
        steps.push(PolicyStep::ByCount(count));
    }
    assert(steps@ =~= policy_order(*policy));
    steps
}

/// The row ids of entries.
pub open spec fn row_ids(entries: Seq<LogEntry>) -> Seq<i64> {
    entries.map_values(|e: LogEntry| e.id)
}

/// The smaller of two numbers.
pub open spec fn smaller(a: nat, b: nat) -> nat {
    if a < b {
        a
    } else {
        b
    }
}

/// What a rotation leaves of entries, the oldest first, where each batch is archived and then
/// deleted.
pub open spec fn left_by<A>(entries: Seq<A>, r: RotationView) -> Seq<A>
    decreases entries.len(),
{
    let fetched = smaller(next_limit(r), entries.len());
    if fetched == 0 {
        entries
    } else {
        left_by(entries.skip(fetched as int), after_batch(r, fetched, fetched))
    }
}

/// What a rotation hands to the archive hook, in order.
pub open spec fn archived_by<A>(entries: Seq<A>, r: RotationView) -> Seq<A>
    decreases entries.len(),
{
    let fetched = smaller(next_limit(r), entries.len());
    if fetched == 0 {
        Seq::empty()
    } else {
        entries.take(fetched as int) + archived_by(
            entries.skip(fetched as int),
            after_batch(r, fetched, fetched),
        )
    }
}

/// A rotation by count archives exactly the oldest entries beyond the limit, in order, and keeps
/// the newest ones, whatever the size of the batches.
pub proof fn count_rotation_keeps_newest<A>(entries: Seq<A>, r: RotationView)
    requires
        r.batch_size > 0,
        r.remaining matches Some(n) && n <= entries.len(),
    ensures
        left_by(entries, r) == entries.skip(r.remaining->0 as int),
        archived_by(entries, r) == entries.take(r.remaining->0 as int),
    decreases entries.len(),
{
    let n = r.remaining->0;
    let fetched = smaller(next_limit(r), entries.len());
    if fetched == 0 {
        assert(entries.skip(0) =~= entries);
        assert(entries.take(0) =~= Seq::<A>::empty());
    } else {
        let rest = entries.skip(fetched as int);
        let next = after_batch(r, fetched, fetched);
        count_rotation_keeps_newest(rest, next);
        assert(rest.skip(n - fetched) =~= entries.skip(n as int));
        assert(entries.take(fetched as int) + rest.take(n - fetched) =~= entries.take(n as int));
    }
}

/// A rotation by age archives all entries that are too old, in order, and leaves none of them.
pub proof fn age_rotation_leaves_none<A>(entries: Seq<A>, r: RotationView)
    requires
        r.batch_size > 0,
        r.remaining is None,
    ensures
        left_by(entries, r) == Seq::<A>::empty(),
        archived_by(entries, r) == entries,
    decreases entries.len(),
{
    let fetched = smaller(next_limit(r), entries.len());
    if fetched == 0 {
        assert(entries =~= Seq::<A>::empty());
    } else {
        age_rotation_leaves_none(entries.skip(fetched as int), after_batch(r, fetched, fetched));
        assert(entries.take(fetched as int) + entries.skip(fetched as int) =~= entries);
    }
}

/// What comes of a rotation: the entries that are left, those that a run of the hook took, the
/// number of entries that were deleted, and whether the rotation ended with an error.
pub struct Outcome<A> {
    pub left: Seq<A>,
    pub archived: Seq<A>,
    pub total: nat,
    pub failed: bool,
}

/// What comes of a rotation of entries, the oldest first, where the hook is run once for each batch
/// and takes it or not. A batch is deleted when the hook has taken it; the first one that it does
/// not take ends the rotation.
pub open spec fn rotated<A>(entries: Seq<A>, r: RotationView, takes: Seq<bool>) -> Outcome<A>
    decreases entries.len(),
{
    let fetched = smaller(next_limit(r), entries.len());
    if fetched == 0 {
        Outcome { left: entries, archived: Seq::empty(), total: r.total, failed: false }
    } else if takes.len() == 0 || !takes[0] {
        Outcome { left: entries, archived: Seq::empty(), total: r.total, failed: true }
    } else {
        let rest = rotated(
            entries.skip(fetched as int),
            after_batch(r, fetched, fetched),
            takes.drop_first(),
        );
        Outcome { archived: entries.take(fetched as int) + rest.archived, ..rest }
    }
}

/// The number of entries that a rotation goes for.
pub open spec fn goes_for<A>(entries: Seq<A>, r: RotationView) -> nat {
    match r.remaining {
        Some(n) => n,
        None => entries.len(),
    }
}

/// Where a run of the hook fails, the rotation fails, and exactly the batches before it are deleted,
/// each of them taken by a run that succeeded. All other entries are left.
pub proof fn failed_run_ends_rotation<A>(
    entries: Seq<A>,
    r: RotationView,
    takes: Seq<bool>,
    k: nat,
)
    requires
        r.batch_size > 0,
        r.remaining matches Some(n) ==> n <= entries.len(),
        k < takes.len(),
        forall|i: int| 0 <= i < k ==> #[trigger] takes[i],
        !takes[k as int],
        k * r.batch_size < goes_for(entries, r),
    ensures
        rotated(entries, r, takes).failed,
        rotated(entries, r, takes).left == entries.skip((k * r.batch_size) as int),
        rotated(entries, r, takes).archived == entries.take((k * r.batch_size) as int),
        rotated(entries, r, takes).total == r.total + k * r.batch_size,
    decreases k,
{
    let b = r.batch_size;
    if k == 0 {
        assert(k * b == 0) by (nonlinear_arith)
            requires
                k == 0,
        ;
        assert(entries.skip(0) =~= entries);
        assert(entries.take(0) =~= Seq::<A>::empty());
    } else {
        assert(k * b == (k - 1) * b + b) by (nonlinear_arith);
        assert((k - 1) * b >= 0) by (nonlinear_arith)
            requires
                k >= 1,
        ;
        let done = ((k - 1) * b) as int;
        let rest = entries.skip(b as int);
        let next = after_batch(r, b, b);
        assert forall|i: int| 0 <= i < k - 1 implies #[trigger] takes.drop_first()[i] by {
            assert(takes[i + 1]);
        }
        assert(takes[0]);
        failed_run_ends_rotation(rest, next, takes.drop_first(), (k - 1) as nat);
        assert(rest.skip(done) =~= entries.skip(done + b));
        assert(entries.take(b as int) + rest.take(done) =~= entries.take(done + b));
    }
}

/// Where no run of the hook fails, the rotation succeeds, and each entry that it goes for is taken
/// once and deleted.
pub proof fn taken_batches_are_deleted<A>(entries: Seq<A>, r: RotationView, takes: Seq<bool>)
    requires
        takes.len() >= entries.len(),
        forall|i: int| 0 <= i < takes.len() ==> #[trigger] takes[i],
    ensures
        !rotated(entries, r, takes).failed,
        rotated(entries, r, takes).left == left_by(entries, r),
        rotated(entries, r, takes).archived == archived_by(entries, r),
        rotated(entries, r, takes).total == r.total + archived_by(entries, r).len(),
    decreases entries.len(),
{
    let fetched = smaller(next_limit(r), entries.len());
    if fetched > 0 {
        assert forall|i: int| 0 <= i < takes.drop_first().len() implies #[trigger]
            takes.drop_first()[i] by {
            assert(takes[i + 1]);
        }
        assert(takes[0]);
        taken_batches_are_deleted(
            entries.skip(fetched as int),
            after_batch(r, fetched, fetched),
            takes.drop_first(),
        );
    }
}

/// After a rotation by count the newest entries are left, as many as are to be kept.
pub proof fn kept_count<A>(entries: Seq<A>, batch_size: nat, max_count: nat)
    requires
        batch_size > 0,
    ensures
        ({
            let over = excess(entries.len() as int, max_count as int) as nat;
            let r = RotationView { batch_size, remaining: Some(over), total: 0 };
            let left = left_by(entries, r);
            left.len() == smaller(entries.len(), max_count) && left == entries.skip(
                entries.len() - left.len(),
            )
        }),
{
    let over = excess(entries.len() as int, max_count as int) as nat;
    let r = RotationView { batch_size, remaining: Some(over), total: 0 };
    count_rotation_keeps_newest(entries, r);
}

/// The daemon that an ID in the store stands for: one without a namespace is a global one, and
/// one that no daemon can have stands for the supervisor.
pub open spec fn stored_daemon(id: Seq<char>) -> (Seq<char>, Seq<char>) {
    if daemon_id::qualified_fault(id) is None {
        text::split_once(id, "/"@)->0
    } else if daemon_id::pair_fault("global"@, id) is None {
        ("global"@, id)
    } else {
        ("global"@, "pitchfork"@)
    }
}

/// The daemon that an ID in the store stands for.
pub fn daemon_of_stored_id(id: &str) -> (r: DaemonId)
    ensures
        r@ == stored_daemon(id@),
{
    match DaemonId::parse(id) {
        Ok(daemon) => daemon,
        Err(_) => match DaemonId::try_new("global", id) {
            Ok(daemon) => daemon,
            Err(_) => DaemonId::pitchfork(),
        },
    }
}

/// The qualified forms of identifiers.
pub open spec fn qualified_forms(ids: Seq<DaemonId>) -> Seq<Seq<char>> {
    ids.map_values(|d: DaemonId| daemon_id::qualified_text(d@.0, d@.1))
}

/// The daemons that a global policy prunes: those with entries, without the excluded ones.
pub open spec fn pruned_daemons(
    stored: Seq<Seq<char>>,
    excluded: Seq<Seq<char>>,
) -> Seq<(Seq<char>, Seq<char>)>
    decreases stored.len(),
{
    if stored.len() == 0 {
        Seq::empty()
    } else {
        let before = pruned_daemons(stored.drop_last(), excluded);
        if excluded.contains(stored.last()) {
            before
        } else {
            before.push(stored_daemon(stored.last()))
        }
    }
}

/// The values of identifiers.
pub open spec fn id_views(ids: Seq<DaemonId>) -> Seq<(Seq<char>, Seq<char>)> {
    ids.map_values(|d: DaemonId| d@)
}

/// Whether a list of identifiers holds one with a qualified form.
fn is_excluded(excluded: &Vec<DaemonId>, id: &str) -> (r: bool)
    ensures
        r == qualified_forms(excluded@).contains(id@),
{
    let ghost forms = qualified_forms(excluded@);
    let mut i: usize = 0;
    while i < excluded.len()
        invariant
            i <= excluded@.len(),
            forms == qualified_forms(excluded@),
            forall|k: int| 0 <= k < i ==> #[trigger] forms[k] != id@,
        decreases excluded@.len() - i,
    {
        if text_eq(excluded[i].qualified().as_str(), id) {
            assert(forms[i as int] == id@);
            return true;
        }
        i = i + 1;
    }
    false
}

/// The daemons that a global policy prunes, in the order of their IDs in the store.
pub fn retention_targets(stored: &Vec<String>, excluded: &Vec<DaemonId>) -> (r: Vec<DaemonId>)
    ensures
        id_views(r@) == pruned_daemons(text::texts(stored@), qualified_forms(excluded@)),
{
    let mut out: Vec<DaemonId> = Vec::new();
    let ghost ids = text::texts(stored@);
    let ghost forms = qualified_forms(excluded@);
    assert(id_views(out@) =~= pruned_daemons(ids.take(0), forms));
    let mut i: usize = 0;
    while i < stored.len()
        invariant
            i <= stored@.len(),
            ids == text::texts(stored@),
            forms == qualified_forms(excluded@),
            id_views(out@) == pruned_daemons(ids.take(i as int), forms),
        decreases stored@.len() - i,
    {
        let ghost before = id_views(out@);
        assert(ids.take(i + 1).drop_last() =~= ids.take(i as int));
        assert(ids.take(i + 1).last() == stored@[i as int]@);
        if !is_excluded(excluded, stored[i].as_str()) {
            out.push(daemon_of_stored_id(stored[i].as_str()));
            assert(id_views(out@) =~= before.push(stored_daemon(stored@[i as int]@)));
        }
        i = i + 1;
    }
    assert(ids.take(i as int) =~= ids);
    out
}

/// A global policy does not prune the daemons that it excludes.
pub proof fn excluded_daemons_are_kept(
    stored: Seq<Seq<char>>,
    excluded: Seq<(Seq<char>, Seq<char>)>,
    at: int,
)
    requires
        forall|i: int|
            0 <= i < stored.len() ==> daemon_id::qualified_fault(#[trigger] stored[i]) is None,
        forall|i: int|
            0 <= i < excluded.len() ==> daemon_id::valid_component((#[trigger] excluded[i]).0)
                && daemon_id::valid_component(excluded[i].1),
        0 <= at < excluded.len(),
    ensures
        !pruned_daemons(
            stored,
            excluded.map_values(
                |d: (Seq<char>, Seq<char>)| daemon_id::qualified_text(d.0, d.1),
            ),
        ).contains(excluded[at]),
    decreases stored.len(),
{
    let forms = excluded.map_values(
        |d: (Seq<char>, Seq<char>)| daemon_id::qualified_text(d.0, d.1),
    );
    if stored.len() > 0 {
        let before = pruned_daemons(stored.drop_last(), forms);
        excluded_daemons_are_kept(stored.drop_last(), excluded, at);
        let id = stored.last();
        if !forms.contains(id) && stored_daemon(id) == excluded[at] {
            daemon_id::lemma_split_is_qualified(id);
            assert(forms[at] == id);
        }
    }
}

/// The generation of the last clear as the store keeps it.
pub fn clear_generation(stored: Option<i64>) -> (r: Result<Option<u64>, StoreError>)
    ensures
        match stored {
            Some(g) => if g < 0 {
                r matches Err(e) && e.message@ == "log clear generation cannot be negative"@
            } else {
                r == Ok::<Option<u64>, StoreError>(Some(g as u64))
            },
            None => r == Ok::<Option<u64>, StoreError>(None),
        },
{
    match stored {
        Some(g) => if g < 0 {
            Err(StoreError { message: "log clear generation cannot be negative".to_string() })
        } else {
            Ok(Some(g as u64))
        },
        None => Ok(None),
    }
}

/// The entry of a row with the stamp of its time.
pub fn entry_with(id: i64, daemon_id: String, stamp: Stamp, message: String) -> (r: LogEntry)
    ensures
        r.id == id,
        r.daemon_id@ == daemon_id@,
        r.timestamp@ == stamp@,
        r.message@ == message@,
{
    LogEntry { id, daemon_id, timestamp: stamp, message }
}

/// The entry of a row; its time stands on the local clock.
pub fn row_to_entry(id: i64, daemon_id: String, millis: i64, message: String) -> (r: LogEntry)
    ensures
        r.id == id,
        r.daemon_id@ == daemon_id@,
        clock::is_stamp_at(r.timestamp@, millis),
        r.message@ == message@,
{
    entry_with(id, daemon_id, clock::stamp_at(millis), message)
}

/// Every piece but the last one is full.
pub proof fn pieces_are_full<A>(items: Seq<A>, size: nat, i: int)
    requires
        size > 0,
        0 <= i < chunked(items, size).len() - 1,
    ensures
        chunked(items, size)[i].len() == size,
    decreases items.len(),
{
    let rest = items.skip(size as int);
    if i > 0 {
        pieces_are_full(rest, size, i - 1);
        assert(chunked(items, size)[i] == chunked(rest, size)[i - 1]);
    }
}

/// The statements that delete rows hold every id once, in order, at most as many as a statement may
/// hold, and each of them has a placeholder for each of its ids.
pub proof fn statements_delete_every_row(statements: Seq<DeleteStatement>, ids: Seq<i64>, i: int)
    requires
        deletes(statements, chunked(ids, MAX_PLACEHOLDERS as nat)),
        0 <= i < statements.len(),
    ensures
        flattened(statements.map_values(|s: DeleteStatement| s.ids@)) == ids,
        0 < statements[i].ids@.len() <= 999,
        i < statements.len() - 1 ==> statements[i].ids@.len() == 999,
        statements[i].sql@ == "DELETE FROM log_entries WHERE id IN ("@ + sqlite::placeholder_list(
            statements[i].ids@.len(),
        ) + ")"@,
{
    let pieces = chunked(ids, MAX_PLACEHOLDERS as nat);
    pieces_hold_all(ids, MAX_PLACEHOLDERS as nat);
    assert(statements.map_values(|s: DeleteStatement| s.ids@) =~= pieces);
    assert(statements[i].ids@ == pieces[i]);
    if i < statements.len() - 1 {
        pieces_are_full(ids, MAX_PLACEHOLDERS as nat, i);
    }
}

/// A hook with a command archives in batches of its size; without one nothing is archived.
pub proof fn batches_have_the_size_of_the_hook(hook: &ArchiveHook, k: int)
    ensures
        0 <= k < hook.command@.len() && !text::whitespace(hook.command@[k]) ==> hook_batch(
            Some(hook),
        ) == Some(hook.batch_size),
        (forall|i: int| 0 <= i < hook.command@.len() ==> text::whitespace(
            #[trigger] hook.command@[i],
        )) ==> hook_batch(Some(hook)) is None,
        hook_batch(None) is None,
{
}

/// As many entries go by count as there are beyond those that are kept: what goes and what is kept
/// are all entries, and where there are no more than are kept, none goes.
pub proof fn only_the_excess_goes(count: int, max_count: int)
    requires
        count >= 0,
        max_count >= 0,
    ensures
        count <= max_count ==> excess(count, max_count) == 0,
        count > max_count ==> excess(count, max_count) + max_count == count,
{
}

/// Entries beyond a number go, all at once without a hook and in batches with one; nothing is done
/// where there are none.
pub proof fn entries_beyond_the_number_go(count: int, max_count: int, size: usize)
    requires
        count >= 0,
        max_count >= 0,
    ensures
        count <= max_count ==> count_pruning(count, max_count, None) is Nothing && count_pruning(
            count,
            max_count,
            Some(size),
        ) is Nothing,
        count > max_count ==> count_pruning(count, max_count, None) == PruningView::AtOnce(
            Some((count - max_count) as nat),
        ),
        count > max_count ==> count_pruning(count, max_count, Some(size))
            == PruningView::InBatches(
            RotationView {
                batch_size: size as nat,
                remaining: Some((count - max_count) as nat),
                total: 0,
            },
        ),
        age_pruning(None) == PruningView::AtOnce(None),
        age_pruning(Some(size)) == PruningView::InBatches(
            RotationView { batch_size: size as nat, remaining: None, total: 0 },
        ),
{
}

/// A batch is as large as it may be and never larger than what is still to go; what was fetched is
/// no longer to go, and what was deleted is counted.
pub proof fn batches_count_down(r: RotationView, fetched: nat, deleted: nat)
    ensures
        next_limit(r) <= r.batch_size,
        r.remaining is None ==> next_limit(r) == r.batch_size,
        r.remaining is Some ==> next_limit(r) <= r.remaining->0 && (next_limit(r) == r.batch_size
            || next_limit(r) == r.remaining->0),
        after_batch(r, fetched, deleted).batch_size == r.batch_size,
        after_batch(r, fetched, deleted).total == r.total + deleted,
        r.remaining is None ==> after_batch(r, fetched, deleted).remaining is None,
        r.remaining is Some && fetched <= r.remaining->0 ==> after_batch(
            r,
            fetched,
            deleted,
        ).remaining is Some && after_batch(r, fetched, deleted).remaining->0 + fetched
            == r.remaining->0,
{
}

/// A policy prunes by age before it prunes by count, each where it says so.
pub proof fn old_entries_go_first(policy: RetentionPolicy)
    ensures
        policy.age is Some && policy.count is Some ==> policy_order(policy) == seq![
            PolicyStep::ByAge(policy.age->0),
            PolicyStep::ByCount(policy.count->0),
        ],
        policy.age is Some && policy.count is None ==> policy_order(policy) == seq![
            PolicyStep::ByAge(policy.age->0),
        ],
        policy.age is None && policy.count is Some ==> policy_order(policy) == seq![
            PolicyStep::ByCount(policy.count->0),
        ],
        policy.age is None && policy.count is None ==> policy_order(policy).len() == 0,
{
}

/// The daemon of a stored ID is the one whose qualified form it is; a name without a namespace is a
/// global one.
pub proof fn stored_ids_name_their_daemon(namespace: Seq<char>, name: Seq<char>)
    requires
        daemon_id::valid_component(namespace),
        daemon_id::valid_component(name),
    ensures
        stored_daemon(namespace + "/"@ + name) == (namespace, name),
        stored_daemon(name) == ("global"@, name),
{
    daemon_id::qualified_form_is_read_back(namespace, name);
    daemon_id::names_follow_the_rules(name);
    if name.contains('/') {
        let k = choose|k: int| 0 <= k < name.len() && name[k] == '/';
        assert(false);
    }
    daemon_id::identifiers_have_two_parts(name);
    reveal_strlit("global");
    reveal_strlit("..");
    reveal_strlit("--");
    reveal_strlit(".");
    let g = "global"@;
    assert(!text::occurs_in(".."@, g)) by {
        if text::occurs_in(".."@, g) {
            let at = choose|at: int| #[trigger] text::occurs_at(".."@, g, at);
            assert(g.subrange(at, at + 2)[0] == g[at]);
        }
    }
    assert(!text::occurs_in("--"@, g)) by {
        if text::occurs_in("--"@, g) {
            let at = choose|at: int| #[trigger] text::occurs_at("--"@, g, at);
            assert(g.subrange(at, at + 2)[0] == g[at]);
        }
    }
    daemon_id::names_follow_the_rules(g);
    daemon_id::the_namespace_is_checked_first(g, name);
}

/// A global policy prunes every daemon with entries that is not excluded, in order.
pub proof fn all_other_daemons_are_pruned(
    a: Seq<Seq<char>>,
    id: Seq<char>,
    excluded: Seq<Seq<char>>,
)
    ensures
        pruned_daemons(Seq::empty(), excluded).len() == 0,
        excluded.contains(id) ==> pruned_daemons(a.push(id), excluded) == pruned_daemons(
            a,
            excluded,
        ),
        !excluded.contains(id) ==> pruned_daemons(a.push(id), excluded) == pruned_daemons(
            a,
            excluded,
        ).push(stored_daemon(id)),
{
    assert(a.push(id).drop_last() =~= a);
    assert(a.push(id).last() == id);
}

/// The row ids of a batch are those of its entries.
pub proof fn batches_are_deleted_by_their_ids(entries: Seq<LogEntry>, i: int)
    requires
        0 <= i < entries.len(),
    ensures
        row_ids(entries).len() == entries.len(),
        row_ids(entries)[i] == entries[i].id,
{
}

} // verus!
