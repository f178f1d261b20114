//! What the archive hook is given and how its end is judged.
use crate::clock;
use crate::log_store::rotation;
use crate::log_store::{ArchiveHook, LogEntry, StoreError};
use crate::text;
use vstd::prelude::*;

verus! {

/// A value of a JSON object.
#[derive(Debug)]
pub enum JsonValue {
    Text(String),
    Integer(i64),
}

/// The value that a JSON value stands for.
pub enum JsonView {
    Text(Seq<char>),
    Integer(int),
}

impl View for JsonValue {
    type V = JsonView;

    open spec fn view(&self) -> JsonView {
        match self {
            JsonValue::Text(s) => JsonView::Text(s@),
            JsonValue::Integer(i) => JsonView::Integer(*i as int),
        }
    }
}

/// The text of a JSON object.
pub uninterp spec fn json_text(fields: Seq<(Seq<char>, JsonView)>) -> Seq<char>;

/// The fields of a JSON object.
pub open spec fn json_fields(fields: Seq<(String, JsonValue)>) -> Seq<(Seq<char>, JsonView)> {
    fields.map_values(|f: (String, JsonValue)| (f.0@, f.1@))
}

/// `serde_json::Value::to_string` on an object: its compact text.
///
/// The text depends on the names and the values of the fields alone.
#[verifier::external_body]
fn json_object(fields: Vec<(String, JsonValue)>) -> (r: String)
    ensures
        r@ == json_text(json_fields(fields@)),
{
    let mut object = serde_json::Map::new();
    for (name, value) in fields {
        let value = match value {
            JsonValue::Text(s) => serde_json::Value::from(s),
            JsonValue::Integer(i) => serde_json::Value::from(i),
        };
        object.insert(name, value);
    }
    serde_json::Value::Object(object).to_string()
}

/// The time of a stamp as RFC 3339 has it.
pub open spec fn rfc3339(stamp: (int, int)) -> Seq<char> {
    clock::rfc3339_text(
        clock::second_of(stamp.0) as i64,
        clock::rest_of(stamp.0) as u32,
        stamp.1 as i32,
    )
}

/// The line for an entry: its row id, daemon, time and message.
pub open spec fn archive_line_text(entry: LogEntry) -> Seq<char> {
    json_text(
        seq![
            ("id"@, JsonView::Integer(entry.id as int)),
            ("daemon_id"@, JsonView::Text(entry.daemon_id@)),
            ("timestamp"@, JsonView::Text(rfc3339(entry.timestamp@))),
            ("message"@, JsonView::Text(entry.message@)),
        ],
    )
}

/// Writes the line for an entry.
pub fn archive_line(entry: &LogEntry) -> (r: String)
    ensures
        r@ == archive_line_text(*entry),
{
    let mut fields: Vec<(String, JsonValue)> = Vec::new();
    fields.push(("id".to_string(), JsonValue::Integer(entry.id)));
    fields.push(("daemon_id".to_string(), JsonValue::Text(entry.daemon_id.clone())));
    fields.push(("timestamp".to_string(), JsonValue::Text(entry.timestamp.rfc3339())));
    fields.push(("message".to_string(), JsonValue::Text(entry.message.clone())));
    assert(json_fields(fields@) =~= seq![
        ("id"@, JsonView::Integer(entry.id as int)),
        ("daemon_id"@, JsonView::Text(entry.daemon_id@)),
        ("timestamp"@, JsonView::Text(rfc3339(entry.timestamp@))),
        ("message"@, JsonView::Text(entry.message@)),
    ]);
    json_object(fields)
}

/// The number of entries that one run of the hook is given at most.
pub open spec fn run_size(hook: ArchiveHook) -> nat {
    if hook.batch_size == 0 {
        1
    } else {
        hook.batch_size as nat
    }
}

/// The lines of the runs of the hook.
pub open spec fn run_lines(entries: Seq<LogEntry>, hook: ArchiveHook) -> Seq<Seq<Seq<char>>> {
    rotation::chunked(entries.map_values(|e: LogEntry| archive_line_text(e)), run_size(hook))
}

/// The lines of lists.
pub open spec fn list_lines(lists: Seq<Vec<String>>) -> Seq<Seq<Seq<char>>> {
    lists.map_values(|list: Vec<String>| text::texts(list@))
}

/// The lines for each run of the hook: all entries in order, in batches.
pub fn archive_runs(entries: &Vec<LogEntry>, hook: &ArchiveHook) -> (r: Vec<Vec<String>>)
    ensures
        list_lines(r@) == run_lines(entries@, *hook),
{
    let size: usize = if hook.batch_size == 0 {
        1
    } else {
        hook.batch_size
    };
    let total: usize = entries.len();
    let ghost lines = entries@.map_values(|e: LogEntry| archive_line_text(e));
    let ghost pieces = run_lines(entries@, *hook);
    let mut out: Vec<Vec<String>> = Vec::new();
    let mut from: usize = 0;
    assert(lines.skip(0) =~= lines);
    assert(pieces.skip(0) =~= pieces);
    assert(list_lines(out@) =~= pieces.take(0));
    while from < total
        invariant
            total == entries@.len(),
            total == lines.len(),
            from <= total,
            size > 0,
            lines == entries@.map_values(|e: LogEntry| archive_line_text(e)),
            pieces == rotation::chunked(lines, size as nat),
            out@.len() <= pieces.len(),
            list_lines(out@) == pieces.take(out@.len() as int),
            pieces.skip(out@.len() as int) == rotation::chunked(
                lines.skip(from as int),
                size as nat,
            ),
        decreases total - from,
    {
        let to: usize = if total - from <= size {
            total
        } else {
            from + size
        };
        let mut piece: Vec<String> = Vec::new();
        let mut i: usize = from;
        while i < to
            invariant
                from <= i <= to <= entries@.len(),
                lines == entries@.map_values(|e: LogEntry| archive_line_text(e)),
                text::texts(piece@) == lines.subrange(from as int, i as int),
            decreases to - i,
        {
            let ghost before = text::texts(piece@);
            piece.push(archive_line(&entries[i]));
            assert(text::texts(piece@) =~= before.push(lines[i as int]));
            i = i + 1;
        }
        proof {
            let n = out@.len() as int;
            let rest = lines.skip(from as int);
            assert(text::texts(piece@) =~= rest.take(to - from));
            if rest.len() <= size {
                assert(rest.take(to - from) =~= rest);
                assert(rest.skip(to - from) =~= Seq::<Seq<char>>::empty());
            }
            assert(pieces.skip(n).len() == pieces.len() - n);
            assert(pieces.skip(n)[0] == text::texts(piece@));
            assert(pieces.skip(n + 1) =~= pieces.skip(n).drop_first());
            assert(rest.skip(to - from) =~= lines.skip(to as int));
            assert(pieces.skip(n + 1) =~= rotation::chunked(lines.skip(to as int), size as nat));
            assert(pieces.take(n + 1) =~= pieces.take(n).push(text::texts(piece@)));
        }
        let ghost before = list_lines(out@);
        let ghost lines_of_piece = text::texts(piece@);
        out.push(piece);
        assert(list_lines(out@) =~= before.push(lines_of_piece));
        from = to;
    }
    proof {
        assert(lines.skip(from as int) =~= Seq::<Seq<char>>::empty());
        assert(pieces.skip(out@.len() as int).len() == 0);
        assert(pieces.take(out@.len() as int) =~= pieces);
    }
    out
}

/// The runs of the hook are given every entry once, in order, and never more than its batch size
/// at a time.
pub proof fn runs_hold_every_entry(entries: Seq<LogEntry>, hook: ArchiveHook)
    ensures
        rotation::flattened(run_lines(entries, hook)) == entries.map_values(
            |e: LogEntry| archive_line_text(e),
        ),
        forall|i: int|
            0 <= i < run_lines(entries, hook).len() ==> 0 < (#[trigger] run_lines(
                entries,
                hook,
            )[i]).len() <= run_size(hook),
{
    rotation::pieces_hold_all(
        entries.map_values(|e: LogEntry| archive_line_text(e)),
        run_size(hook),
    );
}

/// How a run of the hook went; texts of errors come from the system.
#[derive(Debug)]
pub enum HookRun {
    /// The command did not start.
    NotSpawned { error: String },
    /// A line could not be written.
    NotWritten { error: String },
    /// The written lines did not reach the command.
    NotFlushed { error: String },
    /// The end of the command could not be awaited.
    NotAwaited { error: String },
    /// The command ended.
    Ended { success: bool, status: String, stderr: String },
}

impl HookRun {
    /// The message of the failure, where the run failed.
    pub open spec fn failure(&self) -> Option<Seq<char>> {
        match self {
            HookRun::NotSpawned { error } => Some("failed to spawn archive hook: "@ + error@),
            HookRun::NotWritten { error } => Some(
                "failed to write to archive hook stdin: "@ + error@,
            ),
            HookRun::NotFlushed { error } => Some(
                "failed to flush archive hook stdin: "@ + error@,
            ),
            HookRun::NotAwaited { error } => Some(error@),
            HookRun::Ended { success, status, stderr } => if *success {
                None
            } else {
                Some("archive hook failed with status "@ + status@ + ": "@ + stderr@)
            },
        }
    }

    /// Whether the command still runs and must be killed.
    pub fn must_kill(&self) -> (r: bool)
        ensures
            r == (self is NotWritten || self is NotFlushed),
    {
        match self {
            HookRun::NotWritten { .. } => true,
            HookRun::NotFlushed { .. } => true,
            _ => false,
        }
    }

    /// Whether the entries of the run count as archived. Only those may be deleted.
    pub fn verdict(self) -> (r: Result<(), StoreError>)
        ensures
            match r {
                Ok(_) => self.failure() is None,
                Err(e) => self.failure() == Some(e.message@),
            },
    {
        match self {
            HookRun::NotSpawned { error } => Err(
                StoreError {
                    message: "failed to spawn archive hook: ".to_string().concat(error.as_str()),
                },
            ),
            HookRun::NotWritten { error } => Err(
                StoreError {
                    message: "failed to write to archive hook stdin: ".to_string().concat(
                        error.as_str(),
                    ),
                },
            ),
            HookRun::NotFlushed { error } => Err(
                StoreError {
                    message: "failed to flush archive hook stdin: ".to_string().concat(
                        error.as_str(),
                    ),
                },
            ),
            HookRun::NotAwaited { error } => Err(StoreError { message: error }),
            HookRun::Ended { success, status, stderr } => if success {
                Ok(())
            } else {
                Err(
                    StoreError {
                        message: "archive hook failed with status ".to_string().concat(
                            status.as_str(),
                        ).concat(": ").concat(stderr.as_str()),
                    },
                )
            },
        }
    }
}

/// What an archiving does next.
pub enum ArchiveAction {
    /// Run the hook on lines.
    Run(Seq<Seq<char>>),
    /// End; all lines are taken.
    Done,
    /// End with an error.
    Fail(Seq<char>),
}

/// What an archiving does next, with the lines of the runs that are left and the failure of the last
/// run: a failure ends it, whatever is left.
pub open spec fn next_action(left: Seq<Seq<Seq<char>>>, failure: Option<Seq<char>>) -> ArchiveAction {
    match failure {
        Some(message) => ArchiveAction::Fail(message),
        None => if left.len() > 0 {
            ArchiveAction::Run(left.first())
        } else {
            ArchiveAction::Done
        },
    }
}

/// An archiving of entries, run by run.
#[derive(Debug)]
pub struct Archiving {
    /// The lines of the runs that are left, the last run first.
    left: Vec<Vec<String>>,
}

impl View for Archiving {
    type V = Seq<Seq<Seq<char>>>;

    /// The lines of the runs that are left, in order.
    closed spec fn view(&self) -> Seq<Seq<Seq<char>>> {
        list_lines(self.left@).reverse()
    }
}

/// A step of an archiving. It is handed back only with a run, so that no run comes behind the end.
#[derive(Debug)]
pub enum ArchiveStep {
    /// Run the hook on lines.
    Run { lines: Vec<String>, rest: Archiving },
    /// All lines are taken.
    Done,
    /// A run failed.
    Failed { error: StoreError },
}

impl ArchiveStep {
    /// Whether this is the step of an action, with the lines of the runs that are then left.
    pub open spec fn does(&self, action: ArchiveAction, left: Seq<Seq<Seq<char>>>) -> bool {
        match self {
            ArchiveStep::Run { lines, rest } => action == ArchiveAction::Run(text::texts(lines@))
                && rest@ == left,
            ArchiveStep::Done => action is Done,
            ArchiveStep::Failed { error } => action == ArchiveAction::Fail(error.message@),
        }
    }
}

/// The failure of the last run, where there was one and it failed.
pub open spec fn last_failure(last: Option<HookRun>) -> Option<Seq<char>> {
    match last {
        Some(run) => run.failure(),
        None => None,
    }
}

impl Archiving {
    /// An archiving that begins.
    pub fn new(entries: &Vec<LogEntry>, hook: &ArchiveHook) -> (r: Archiving)
        ensures
            r@ == run_lines(entries@, *hook),
    {
        let mut runs = archive_runs(entries, hook);
        let ghost all = list_lines(runs@);
        let mut left: Vec<Vec<String>> = Vec::new();
        assert(list_lines(left@).reverse() =~= all.skip(all.len() as int));
        while runs.len() > 0
            invariant
                list_lines(runs@).len() == runs@.len(),
                runs@.len() <= all.len(),
                list_lines(runs@) == all.take(runs@.len() as int),
                list_lines(left@) == all.skip(runs@.len() as int).reverse(),
            decreases runs@.len(),
        {
            let ghost before = runs@;
            let ghost done = list_lines(left@);
            assert(all.take(before.len() as int)[before.len() - 1] == all[before.len() - 1]);
            if let Some(lines) = runs.pop() {
                let ghost texts = text::texts(lines@);
                assert(list_lines(before)[before.len() - 1] == texts);
                left.push(lines);
                assert(list_lines(left@) =~= done.push(texts));
                assert(list_lines(left@) =~= all.skip(runs@.len() as int).reverse());
                assert(list_lines(runs@) =~= all.take(runs@.len() as int));
            }
        }
        assert(all.skip(0) =~= all);
        assert(list_lines(left@).reverse() =~= all);
        Archiving { left }
    }

    /// The next step, from how the last run went: the first run that fails ends the archiving with
    /// its error.
    pub fn step(self, last: Option<HookRun>) -> (r: ArchiveStep)
        ensures
            r.does(next_action(self@, last_failure(last)), self@.drop_first()),
    {
        if let Some(run) = last {
            if let Err(error) = run.verdict() {
                return ArchiveStep::Failed { error };
            }
        }
        let mut left = self.left;
        let ghost before = list_lines(left@);
        match left.pop() {
            Some(lines) => {
                assert(before.last() == text::texts(lines@));
                assert(self@.first() == before.last());
                assert(list_lines(left@) =~= before.drop_last());
                assert(list_lines(left@).reverse() =~= self@.drop_first());
                ArchiveStep::Run { lines, rest: Archiving { left } }
            },
            None => {
                assert(before.reverse().len() == 0);
                ArchiveStep::Done
            },
        }
    }
}

/// What comes of an archiving: the lines of the runs that were made, and the error that it ended
/// with, where it did.
pub struct ArchiveOutcome {
    pub made: Seq<Seq<Seq<char>>>,
    pub failure: Option<Seq<char>>,
}

/// What comes of an archiving with runs that are left, where `failure` is that of the last run and
/// `ends` are those of the next ones.
pub open spec fn archived(
    left: Seq<Seq<Seq<char>>>,
    failure: Option<Seq<char>>,
    ends: Seq<Option<Seq<char>>>,
) -> ArchiveOutcome
    decreases left.len(),
{
    match next_action(left, failure) {
        ArchiveAction::Run(lines) => if left.len() > 0 {
            let rest = archived(left.drop_first(), ends.first(), ends.drop_first());
            ArchiveOutcome { made: seq![lines] + rest.made, ..rest }
        } else {
            ArchiveOutcome { made: Seq::empty(), failure: None }
        },
        ArchiveAction::Done => ArchiveOutcome { made: Seq::empty(), failure: None },
        ArchiveAction::Fail(message) => ArchiveOutcome {
            made: Seq::empty(),
            failure: Some(message),
        },
    }
}

/// Where no run fails, each is made, and the archiving succeeds.
proof fn lemma_all_taken(left: Seq<Seq<Seq<char>>>, ends: Seq<Option<Seq<char>>>)
    requires
        ends.len() >= left.len(),
        forall|i: int| 0 <= i < left.len() ==> #[trigger] ends[i] is None,
    ensures
        archived(left, None, ends) == (ArchiveOutcome { made: left, failure: None }),
    decreases left.len(),
{
    if left.len() > 0 {
        assert(ends[0] is None);
        let rest = ends.drop_first();
        assert forall|i: int| 0 <= i < left.drop_first().len() implies #[trigger] rest[i] is None by {
            assert(ends[i + 1] is None);
        }
        lemma_all_taken(left.drop_first(), rest);
        assert(seq![left.first()] + left.drop_first() =~= left);
    } else {
        assert(left =~= Seq::empty());
    }
}

/// Where a run fails, it is the last one.
proof fn lemma_first_failure(left: Seq<Seq<Seq<char>>>, ends: Seq<Option<Seq<char>>>, k: int)
    requires
        0 <= k < left.len() <= ends.len(),
        forall|i: int| 0 <= i < k ==> #[trigger] ends[i] is None,
        ends[k] is Some,
    ensures
        archived(left, None, ends) == (ArchiveOutcome { made: left.take(k + 1), failure: ends[k] }),
    decreases left.len(),
{
    let rest = ends.drop_first();
    if k == 0 {
        assert(archived(left.drop_first(), ends[0], rest).made =~= Seq::empty());
        assert(seq![left.first()] + Seq::<Seq<Seq<char>>>::empty() =~= left.take(1));
    } else {
        assert(ends[0] is None);
        assert forall|i: int| 0 <= i < k - 1 implies #[trigger] rest[i] is None by {
            assert(ends[i + 1] is None);
        }
        lemma_first_failure(left.drop_first(), rest, k - 1);
        assert(seq![left.first()] + left.drop_first().take(k) =~= left.take(k + 1));
    }
}

/// The hook is run on the lines of the entries, batch by batch and in order, until a run fails. The
/// archiving succeeds exactly where every run does. The first failure is its error, and no run comes
/// behind that one. Without entries there is no run.
pub proof fn first_failure_ends_archiving(
    entries: Seq<LogEntry>,
    hook: ArchiveHook,
    ends: Seq<Option<Seq<char>>>,
)
    requires
        ends.len() >= run_lines(entries, hook).len(),
    ensures
        ({
            let runs = run_lines(entries, hook);
            let outcome = archived(runs, None, ends);
            &&& outcome.failure is None <==> forall|i: int|
                0 <= i < runs.len() ==> #[trigger] ends[i] is None
            &&& outcome.failure is None ==> outcome.made == runs && rotation::flattened(
                outcome.made,
            ) == entries.map_values(|e: LogEntry| archive_line_text(e))
            &&& forall|k: int|
                0 <= k < runs.len() && (#[trigger] ends[k]) is Some && (forall|i: int|
                    0 <= i < k ==> #[trigger] ends[i] is None) ==> outcome.failure == ends[k]
                    && outcome.made == runs.take(k + 1)
            &&& entries.len() == 0 ==> outcome.made.len() == 0 && outcome.failure is None
        }),
{
    let runs = run_lines(entries, hook);
    runs_hold_every_entry(entries, hook);
    assert forall|k: int|
        0 <= k < runs.len() && (#[trigger] ends[k]) is Some && (forall|i: int|
            0 <= i < k ==> #[trigger] ends[i] is None) implies archived(runs, None, ends).failure
        == ends[k] && archived(runs, None, ends).made == runs.take(k + 1) by {
        lemma_first_failure(runs, ends, k);
    }
    if forall|i: int| 0 <= i < runs.len() ==> #[trigger] ends[i] is None {
        lemma_all_taken(runs, ends);
    } else {
        let k = lemma_some_first(ends, runs.len() as int);
        lemma_first_failure(runs, ends, k);
    }
}

/// Where some of the first runs fail, one of them is the first to.
proof fn lemma_some_first(ends: Seq<Option<Seq<char>>>, count: int) -> (k: int)
    requires
        0 <= count <= ends.len(),
        exists|i: int| 0 <= i < count && (#[trigger] ends[i]) is Some,
    ensures
        0 <= k < count,
        ends[k] is Some,
        forall|i: int| 0 <= i < k ==> #[trigger] ends[i] is None,
    decreases count,
{
    if forall|i: int| 0 <= i < count - 1 ==> #[trigger] ends[i] is None {
        count - 1
    } else {
        lemma_some_first(ends, count - 1)
    }
}

/// The line for an entry holds its row id, its daemon, its time and its message, under their names.
pub proof fn archived_lines_hold_the_entry(entry: LogEntry)
    ensures
        archive_line_text(entry) == json_text(
            seq![
                ("id"@, JsonView::Integer(entry.id as int)),
                ("daemon_id"@, JsonView::Text(entry.daemon_id@)),
                ("timestamp"@, JsonView::Text(rfc3339(entry.timestamp@))),
                ("message"@, JsonView::Text(entry.message@)),
            ],
        ),
{
}

/// A run is given as many entries as the hook takes, and one where the hook takes none.
pub proof fn runs_are_as_large_as_the_hook_takes(hook: ArchiveHook)
    ensures
        hook.batch_size > 0 ==> run_size(hook) == hook.batch_size,
        hook.batch_size == 0 ==> run_size(hook) == 1,
{
}

/// Each run but the last one is full.
pub proof fn runs_are_full(entries: Seq<LogEntry>, hook: ArchiveHook, i: int)
    requires
        0 <= i < run_lines(entries, hook).len() - 1,
    ensures
        run_lines(entries, hook)[i].len() == run_size(hook),
{
    rotation::pieces_are_full(
        entries.map_values(|e: LogEntry| archive_line_text(e)),
        run_size(hook),
        i,
    );
}

/// A run succeeds where the command ended well, and in no other way; each failure tells where it
/// came from.
pub proof fn only_a_good_end_is_a_success(run: HookRun)
    ensures
        run.failure() is None <==> run is Ended && run->success,
        run is NotSpawned ==> run.failure() == Some(
            "failed to spawn archive hook: "@ + run->NotSpawned_error@,
        ),
        run is NotWritten ==> run.failure() == Some(
            "failed to write to archive hook stdin: "@ + run->NotWritten_error@,
        ),
        run is NotFlushed ==> run.failure() == Some(
            "failed to flush archive hook stdin: "@ + run->NotFlushed_error@,
        ),
        run is NotAwaited ==> run.failure() == Some(run->NotAwaited_error@),
        run is Ended && !run->success ==> run.failure() == Some(
            "archive hook failed with status "@ + run->status@ + ": "@ + run->stderr@,
        ),
{
}

/// A step after a failed run fails with its message; else it runs the hook on the next lines, or is
/// done where none are left.
pub proof fn steps_follow_the_last_run(
    step: ArchiveStep,
    left: Seq<Seq<Seq<char>>>,
    last: Option<HookRun>,
)
    requires
        step.does(next_action(left, last_failure(last)), left.drop_first()),
    ensures
        last is Some && (last->0).failure() is Some ==> step is Failed && step->error.message@ == (
        last->0).failure()->0,
        (last is None || (last->0).failure() is None) && left.len() == 0 ==> step is Done,
        (last is None || (last->0).failure() is None) && left.len() > 0 ==> step is Run
            && text::texts(step->lines@) == left[0] && step->rest@ == left.drop_first(),
{
}

} // verus!
