//! How text logs of the older format are taken over into the store.
use crate::clock;
use crate::clock::{parse_wall_clock, resolve_wall_clock, Moment, DATE_TIME};
use crate::daemon_id;
use crate::daemon_id::DaemonId;
use crate::log_store::rotation;
use crate::log_store::StoreError;
use crate::regexp;
use crate::regexp::{captures, compile};
use crate::text;
use crate::text::{contains_text, join, nat_text, text_eq};
use vstd::prelude::*;

verus! {

/// The form of a line that starts an entry: a date and a time, a daemon and the message.
pub const ENTRY_LINE: &'static str =
    "^(\\d{4}-\\d{2}-\\d{2} \\d{2}:\\d{2}:\\d{2}) ([\\w./-]+) (.*)$";

/// The number of entries that are inserted together.
pub const BATCH: usize = 1000;

/// What a line of a text log is.
#[derive(Debug)]
pub enum LegacyLine {
    /// The start of an entry; its time is missing where the local clock never or twice shows it.
    Header { moment: Option<Moment>, message: String },
    /// A further line of the message before it.
    Other,
}

/// The group at a position, or nothing.
pub open spec fn group_or_empty(groups: Seq<Option<Seq<char>>>, at: int) -> Seq<char> {
    if at < groups.len() && groups[at] is Some {
        groups[at]->0
    } else {
        Seq::empty()
    }
}

/// The time and the message of a line that starts an entry.
pub open spec fn header_texts(groups: Option<Seq<Option<Seq<char>>>>) -> Option<
    (Seq<char>, Seq<char>),
> {
    match groups {
        Some(g) => Some((group_or_empty(g, 1), group_or_empty(g, 3))),
        None => None,
    }
}

/// The group at a position, or nothing.
fn take_group(groups: &Vec<Option<String>>, at: usize) -> (r: String)
    ensures
        r@ == group_or_empty(regexp::group_texts(groups@), at as int),
{
    if at < groups.len() {
        match &groups[at] {
            Some(s) => s.clone(),
            None => String::new(),
        }
    } else {
        String::new()
    }
}

/// The groups as texts.
pub open spec fn opt_groups(groups: Option<Vec<Option<String>>>) -> Option<
    Seq<Option<Seq<char>>>,
> {
    match groups {
        Some(g) => Some(regexp::group_texts(g@)),
        None => None,
    }
}

/// The time and the message of a line that starts an entry, from the groups of its match.
pub fn header_of(groups: Option<Vec<Option<String>>>) -> (r: Option<(String, String)>)
    ensures
        match r {
            Some(h) => header_texts(opt_groups(groups)) == Some((h.0@, h.1@)),
            None => groups is None,
        },
{
    match groups {
        Some(g) => Some((take_group(&g, 1), take_group(&g, 3))),
        None => None,
    }
}

/// Reads the lines of text logs.
pub struct LineReader {
    form: regex::Regex,
}

impl LineReader {
    /// Whether the reader looks for the form of a line that starts an entry.
    pub closed spec fn wf(&self) -> bool {
        regexp::regex_source(self.form) == ENTRY_LINE@
    }

    /// A reader; an error where the form is no regular expression.
    pub fn new() -> (r: Result<LineReader, String>)
        ensures
            match r {
                Ok(reader) => reader.wf() && regexp::regex_fault(ENTRY_LINE@) is None,
                Err(e) => regexp::regex_fault(ENTRY_LINE@) == Some(e@),
            },
    {
        match compile(ENTRY_LINE) {
            Ok(form) => Ok(LineReader { form }),
            Err(e) => Err(e),
        }
    }

    /// Reads a line. A line that starts an entry has its time from the local clock.
    pub fn read(&self, line: &str) -> (r: LegacyLine)
        requires
            self.wf(),
        ensures
            match header_texts(regexp::regex_groups(ENTRY_LINE@, line@)) {
                Some((time, message)) => r matches LegacyLine::Header { moment, message: kept }
                    && kept@ == message && match clock::wall_clock(time, DATE_TIME@) {
                    Some(wall) => clock::is_answer(moment, wall.0, wall.1),
                    None => moment is None,
                },
                None => r is Other,
            },
    {
        match header_of(captures(&self.form, line)) {
            Some((time, message)) => {
                let moment = match parse_wall_clock(time.as_str(), DATE_TIME) {
                    Some((secs, nanos)) => resolve_wall_clock(secs, nanos),
                    None => None,
                };
                LegacyLine::Header { moment, message }
            },
            None => LegacyLine::Other,
        }
    }
}

/// An entry of a text log: its moment and its message.
pub type EntryView = (int, Seq<char>);

/// A line of a text log.
pub enum LineView {
    Header(Option<int>, Seq<char>),
    Other(Seq<char>),
}

/// The line that a text was read as.
pub open spec fn line_view(line: LegacyLine, s: Seq<char>) -> LineView {
    match line {
        LegacyLine::Header { moment, message } => LineView::Header(
            match moment {
                Some(m) => Some(m@),
                None => None,
            },
            message@,
        ),
        LegacyLine::Other => LineView::Other(s),
    }
}

/// The entry that a line completes: the start of the next one completes the one before.
pub open spec fn completed(open: Option<EntryView>, line: LineView) -> Seq<EntryView> {
    match (line, open) {
        (LineView::Header(_, _), Some(entry)) => seq![entry],
        _ => Seq::empty(),
    }
}

/// The entry that is open after a line: the one that it starts, or the one before with the line
/// added to its message. Lines behind a start without a time belong to no entry.
pub open spec fn opened(open: Option<EntryView>, line: LineView) -> Option<EntryView> {
    match line {
        LineView::Header(Some(at), message) => Some((at, message)),
        LineView::Header(None, _) => None,
        LineView::Other(s) => match open {
            Some(entry) => Some((entry.0, entry.1 + "\n"@ + s)),
            None => None,
        },
    }
}

/// The entries that lines complete, and the one that is still open.
pub open spec fn entries_of(lines: Seq<LineView>) -> (Seq<EntryView>, Option<EntryView>)
    decreases lines.len(),
{
    if lines.len() == 0 {
        (Seq::empty(), None)
    } else {
        let (done, open) = entries_of(lines.drop_last());
        (done + completed(open, lines.last()), opened(open, lines.last()))
    }
}

/// The entries behind `done`, where the open one ends.
pub open spec fn closed_entries(done: Seq<EntryView>, open: Option<EntryView>) -> Seq<EntryView> {
    match open {
        Some(entry) => done.push(entry),
        None => done,
    }
}

/// The values of entries.
pub open spec fn entry_views(entries: Seq<(Moment, String)>) -> Seq<EntryView> {
    entries.map_values(|e: (Moment, String)| (e.0@, e.1@))
}

/// The value of an open entry.
pub open spec fn open_view(open: Option<(Moment, String)>) -> Option<EntryView> {
    match open {
        Some(e) => Some((e.0@, e.1@)),
        None => None,
    }
}

/// The import of a text log, line by line.
#[derive(Debug)]
pub struct Migration {
    open: Option<(Moment, String)>,
    pending: Vec<(Moment, String)>,
}

impl View for Migration {
    type V = (Seq<EntryView>, Option<EntryView>);

    /// The entries that wait to be inserted, and the open one.
    closed spec fn view(&self) -> (Seq<EntryView>, Option<EntryView>) {
        (entry_views(self.pending@), open_view(self.open))
    }
}

impl Migration {
    /// The import before the first line.
    pub fn new() -> (r: Migration)
        ensures
            r@ == (Seq::<EntryView>::empty(), None::<EntryView>),
    {
        let r = Migration { open: None, pending: Vec::new() };
        assert(entry_views(r.pending@) =~= Seq::<EntryView>::empty());
        r
    }

    /// Takes in the next line.
    pub fn feed(&mut self, line: LegacyLine, s: &str)
        ensures
            final(self)@.0 == old(self)@.0 + completed(old(self)@.1, line_view(line, s@)),
            final(self)@.1 == opened(old(self)@.1, line_view(line, s@)),
    {
        let ghost pending = self@.0;
        let mut open: Option<(Moment, String)> = None;
        std::mem::swap(&mut open, &mut self.open);
        match line {
            LegacyLine::Header { moment, message } => {
                if let Some(entry) = open {
                    self.pending.push(entry);
                    assert(entry_views(self.pending@) =~= pending + seq![(entry.0@, entry.1@)]);
                } else {
                    assert(pending =~= pending + Seq::<EntryView>::empty());
                }
                self.open = match moment {
                    Some(m) => Some((m, message)),
                    None => None,
                };
            },
            LegacyLine::Other => {
                self.open = match open {
                    Some((moment, message)) => Some((moment, message.concat("\n").concat(s))),
                    None => None,
                };
                assert(pending =~= pending + Seq::<EntryView>::empty());
            },
        }
    }

    /// Hands out the entries that wait, where they make a full batch.
    pub fn full_batch(&mut self) -> (r: Option<Vec<(Moment, String)>>)
        ensures
            final(self)@.1 == old(self)@.1,
            match r {
                Some(batch) => old(self)@.0.len() >= BATCH && entry_views(batch@) == old(self)@.0
                    && final(self)@.0 == Seq::<EntryView>::empty(),
                None => old(self)@.0.len() < BATCH && final(self)@.0 == old(self)@.0,
            },
    {
        assert(self@.0.len() == self.pending@.len());
        if self.pending.len() >= BATCH {
            let mut batch: Vec<(Moment, String)> = Vec::new();
            std::mem::swap(&mut batch, &mut self.pending);
            assert(entry_views(self.pending@) =~= Seq::<EntryView>::empty());
            Some(batch)
        } else {
            None
        }
    }

    /// Hands out what is left behind the last line.
    pub fn finish(self) -> (r: Vec<(Moment, String)>)
        ensures
            entry_views(r@) == closed_entries(self@.0, self@.1),
    {
        let Migration { open, pending } = self;
        let mut out = pending;
        let ghost before = entry_views(out@);
        if let Some(entry) = open {
            out.push(entry);
            assert(entry_views(out@) =~= before.push((entry.0@, entry.1@)));
        }
        out
    }
}

/// The batches that an import hands out over lines, and the entries that wait behind the last
/// line with the open one.
pub open spec fn import(lines: Seq<LineView>) -> (
    Seq<Seq<EntryView>>,
    (Seq<EntryView>, Option<EntryView>),
)
    decreases lines.len(),
{
    if lines.len() == 0 {
        (Seq::empty(), (Seq::empty(), None))
    } else {
        let (batches, (waiting, open)) = import(lines.drop_last());
        let pending = waiting + completed(open, lines.last());
        let next = opened(open, lines.last());
        if pending.len() >= BATCH {
            (batches.push(pending), (Seq::empty(), next))
        } else {
            (batches, (pending, next))
        }
    }
}

/// The items of a list of pieces with one more piece behind it.
proof fn lemma_flattened_push<A>(pieces: Seq<Seq<A>>, piece: Seq<A>)
    ensures
        rotation::flattened(pieces.push(piece)) == rotation::flattened(pieces) + piece,
    decreases pieces.len(),
{
    let all = pieces.push(piece);
    if pieces.len() == 0 {
        assert(all.drop_first() =~= Seq::<Seq<A>>::empty());
        assert(rotation::flattened(all.drop_first()) =~= Seq::<A>::empty());
        assert(rotation::flattened(all) =~= rotation::flattened(pieces) + piece);
    } else {
        assert(all.drop_first() =~= pieces.drop_first().push(piece));
        lemma_flattened_push(pieces.drop_first(), piece);
        assert(rotation::flattened(all) =~= rotation::flattened(pieces) + piece);
    }
}

/// The batches and what is left behind them hold every entry of a text log once, in order, and
/// no batch is longer than the limit.
pub proof fn batches_hold_every_entry(lines: Seq<LineView>)
    ensures
        ({
            let (batches, (waiting, open)) = import(lines);
            let (done, still_open) = entries_of(lines);
            &&& rotation::flattened(batches) + waiting == done
            &&& open == still_open
            &&& waiting.len() < BATCH
            &&& forall|i: int| 0 <= i < batches.len() ==> (#[trigger] batches[i]).len() == BATCH
        }),
    decreases lines.len(),
{
    if lines.len() > 0 {
        let (batches, (waiting, open)) = import(lines.drop_last());
        batches_hold_every_entry(lines.drop_last());
        let done = entries_of(lines.drop_last()).0;
        let more = completed(open, lines.last());
        let pending = waiting + more;
        assert(rotation::flattened(batches) + pending =~= done + more);
        if pending.len() >= BATCH {
            lemma_flattened_push(batches, pending);
            assert(rotation::flattened(batches.push(pending)) + Seq::<EntryView>::empty()
                =~= done + more);
        }
    } else {
        assert(rotation::flattened(Seq::<Seq<EntryView>>::empty()) + Seq::<EntryView>::empty()
            =~= Seq::<EntryView>::empty());
    }
}

/// The daemon whose text log stands in a directory: the directory is named by the safe path of
/// the daemon. The supervisor's own log is not taken over.
pub open spec fn legacy_daemon(dir: Seq<char>) -> Option<(Seq<char>, Seq<char>)> {
    if dir == "pitchfork"@ || !text::occurs_in("--"@, dir) || daemon_id::safe_path_fault(dir)
        is Some || text::split_once(dir, "--"@) == Some(("global"@, "pitchfork"@)) {
        None
    } else {
        text::split_once(dir, "--"@)
    }
}

/// The daemon whose text log stands in a directory.
pub fn daemon_of_log_dir(dir: &str) -> (r: Option<DaemonId>)
    ensures
        match r {
            Some(id) => legacy_daemon(dir@) == Some(id@),
            None => legacy_daemon(dir@) is None,
        },
{
    if text_eq(dir, "pitchfork") {
        return None;
    }
    if !contains_text(dir, "--") {
        return None;
    }
    match DaemonId::from_safe_path(dir) {
        Ok(id) => {
            if id.same(&DaemonId::pitchfork()) {
                None
            } else {
                Some(id)
            }
        },
        Err(_) => None,
    }
}

/// Whether a text log is removed after its import: where entries of it were taken over.
pub fn removes_log(imported: u64) -> (r: bool)
    ensures
        r == (imported > 0),
{
    imported > 0
}

/// An entry of the store: the daemon and the entry.
pub type StoredView = ((Seq<char>, Seq<char>), EntryView);

/// The text logs by the names of their directories, and the entries of the store.
pub struct LogsView {
    pub logs: Map<Seq<char>, Seq<LineView>>,
    pub stored: Seq<StoredView>,
}

/// The entries of a text log.
pub open spec fn log_entries(lines: Seq<LineView>) -> Seq<EntryView> {
    closed_entries(entries_of(lines).0, entries_of(lines).1)
}

/// Whether entries are taken over from a directory: it is the one of a daemon, and its text log has
/// entries.
pub open spec fn is_imported(s: LogsView, dir: Seq<char>) -> bool {
    legacy_daemon(dir) is Some && s.logs.contains_key(dir) && log_entries(s.logs[dir]).len() > 0
}

/// The text logs and the store after the import from a directory: its entries are behind those of
/// the store, and its text log is gone.
pub open spec fn after_import(s: LogsView, dir: Seq<char>) -> LogsView {
    if is_imported(s, dir) {
        LogsView {
            logs: s.logs.remove(dir),
            stored: s.stored + log_entries(s.logs[dir]).map_values(
                |e: EntryView| (legacy_daemon(dir)->0, e),
            ),
        }
    } else {
        s
    }
}

/// The text logs and the store after the imports from directories.
pub open spec fn after_imports(s: LogsView, dirs: Seq<Seq<char>>) -> LogsView
    decreases dirs.len(),
{
    if dirs.len() == 0 {
        s
    } else {
        after_import(after_imports(s, dirs.drop_last()), dirs.last())
    }
}

/// After the imports from some directories nothing more is imported from them, and no text log is
/// new or other than before.
proof fn lemma_imported(s: LogsView, dirs: Seq<Seq<char>>, dir: Seq<char>)
    ensures
        dirs.contains(dir) ==> !is_imported(after_imports(s, dirs), dir),
        after_imports(s, dirs).logs.contains_key(dir) ==> s.logs.contains_key(dir)
            && after_imports(s, dirs).logs[dir] == s.logs[dir],
    decreases dirs.len(),
{
    if dirs.len() > 0 {
        let before = dirs.drop_last();
        lemma_imported(s, before, dir);
        if dirs.contains(dir) && dir != dirs.last() {
            let k = choose|k: int| 0 <= k < dirs.len() && dirs[k] == dir;
            assert(before[k] == dir);
        }
    }
}

/// A second import changes nothing, whatever directories it goes through: no entry is taken over
/// twice.
pub proof fn import_happens_once(s: LogsView, dirs: Seq<Seq<char>>, again: Seq<Seq<char>>)
    requires
        forall|dir: Seq<char>| #[trigger] s.logs.contains_key(dir) ==> dirs.contains(dir),
    ensures
        after_imports(after_imports(s, dirs), again) == after_imports(s, dirs),
    decreases again.len(),
{
    if again.len() > 0 {
        import_happens_once(s, dirs, again.drop_last());
        lemma_imported(s, dirs, again.last());
    }
}

/// Directories that are not the ones of daemons are left alone: the one of the supervisor, and those
/// whose names are no safe paths.
pub proof fn other_directories_are_left_alone(s: LogsView, dir: Seq<char>)
    requires
        dir == "pitchfork"@ || !text::occurs_in("--"@, dir) || daemon_id::safe_path_fault(dir)
            is Some,
    ensures
        after_import(s, dir) == s,
{
}

/// What an import of all text logs has taken over so far.
#[derive(Debug)]
pub struct MigrationTally {
    pub total: u64,
    pub ids: Vec<String>,
}

impl MigrationTally {
    /// Nothing was taken over yet.
    pub fn new() -> (r: MigrationTally)
        ensures
            r.total == 0,
            r.ids@.len() == 0,
    {
        MigrationTally { total: 0, ids: Vec::new() }
    }

    /// Notes the entries of a daemon; one without entries is not counted.
    pub fn note(&mut self, id: &DaemonId, count: u64)
        requires
            old(self).total + count <= u64::MAX,
        ensures
            final(self).total == old(self).total + count,
            text::texts(final(self).ids@) == if count == 0 {
                text::texts(old(self).ids@)
            } else {
                text::texts(old(self).ids@).push(daemon_id::qualified_text(id@.0, id@.1))
            },
    {
        if count > 0 {
            let ghost before = text::texts(self.ids@);
            self.total = self.total + count;
            self.ids.push(id.qualified());
            assert(text::texts(self.ids@) =~= before.push(
                daemon_id::qualified_text(id@.0, id@.1),
            ));
        }
    }

    /// Notes what came of the import of a daemon; one that failed is told and counts for nothing, so
    /// that the others go on.
    pub fn note_answer(&mut self, id: &DaemonId, answer: Result<u64, StoreError>) -> (r: Option<
        String,
    >)
        requires
            answer matches Ok(count) ==> old(self).total + count <= u64::MAX,
        ensures
            match answer {
                Ok(count) => r is None && final(self).total == old(self).total + count
                    && text::texts(final(self).ids@) == if count == 0 {
                    text::texts(old(self).ids@)
                } else {
                    text::texts(old(self).ids@).push(daemon_id::qualified_text(id@.0, id@.1))
                },
                Err(e) => {
                    &&& *final(self) == *old(self)
                    &&& r matches Some(told)
                    &&& told@ == "failed to migrate text logs for "@ + daemon_id::qualified_text(
                        id@.0,
                        id@.1,
                    ) + ": "@ + e.message@
                },
            },
    {
        match answer {
            Ok(count) => {
                self.note(id, count);
                None
            },
            Err(e) => Some(
                "failed to migrate text logs for ".to_string().concat(
                    id.qualified().as_str(),
                ).concat(": ").concat(e.message.as_str()),
            ),
        }
    }

    /// The message about the import, where there is something to say.
    pub fn report(&self) -> (r: Option<String>)
        ensures
            match r {
                Some(s) => self.total > 0 && s@ == "auto-migrated "@ + text::decimal(
                    self.total as int,
                ) + " legacy log entries from "@ + text::decimal(self.ids@.len() as int)
                    + " daemon(s): "@ + text::joined(text::texts(self.ids@), ", "@),
                None => self.total == 0,
            },
    {
        if self.total > 0 {
            Some(
                "auto-migrated ".to_string().concat(nat_text(self.total).as_str()).concat(
                    " legacy log entries from ",
                ).concat(nat_text(self.ids.len() as u64).as_str()).concat(" daemon(s): ").concat(
                    join(&self.ids, ", ").as_str(),
                ),
            )
        } else {
            None
        }
    }
}

/// Lines that start no entry.
pub open spec fn further(lines: Seq<Seq<char>>) -> Seq<LineView> {
    Seq::new(lines.len(), |i: int| LineView::Other(lines[i]))
}

/// A line that starts an entry with a time makes one entry with all further lines behind it, which
/// are the lines of its message, in order; the entries before it stay.
pub proof fn further_lines_belong_to_the_entry(
    before: Seq<LineView>,
    at: int,
    message: Seq<char>,
    more: Seq<Seq<char>>,
)
    ensures
        log_entries(before.push(LineView::Header(Some(at), message)) + further(more))
            == log_entries(before).push((at, text::joined(seq![message] + more, "\n"@))),
{
    lemma_further_lines(before, at, message, more);
    let all = before.push(LineView::Header(Some(at), message)) + further(more);
    assert(log_entries(all) =~= log_entries(before).push(
        (at, text::joined(seq![message] + more, "\n"@)),
    ));
}

proof fn lemma_further_lines(
    before: Seq<LineView>,
    at: int,
    message: Seq<char>,
    more: Seq<Seq<char>>,
)
    ensures
        entries_of(before.push(LineView::Header(Some(at), message)) + further(more)).0
            == log_entries(before),
        entries_of(before.push(LineView::Header(Some(at), message)) + further(more)).1 == Some(
            (at, text::joined(seq![message] + more, "\n"@)),
        ),
    decreases more.len(),
{
    let head = before.push(LineView::Header(Some(at), message));
    let all = head + further(more);
    if more.len() == 0 {
        assert(all =~= head);
        assert(head.drop_last() =~= before);
        assert(seq![message] + more =~= seq![message]);
        let (done, open) = entries_of(before);
        assert(done + completed(open, head.last()) =~= log_entries(before));
    } else {
        let rest = more.drop_last();
        lemma_further_lines(before, at, message, rest);
        assert(all.drop_last() =~= head + further(rest));
        assert(all.last() == LineView::Other(more.last()));
        assert((seq![message] + more).drop_last() =~= seq![message] + rest);
        assert((seq![message] + more).last() == more.last());
        let done = entries_of(all.drop_last()).0;
        assert(done + Seq::<EntryView>::empty() =~= done);
    }
}

/// A line that starts an entry without a time makes no entry, and neither do the further lines
/// behind it, nor those before the first start.
pub proof fn lines_without_a_time_make_no_entry(
    before: Seq<LineView>,
    message: Seq<char>,
    more: Seq<Seq<char>>,
)
    ensures
        log_entries(before.push(LineView::Header(None, message)) + further(more)) == log_entries(
            before,
        ),
        log_entries(further(more)).len() == 0,
    decreases more.len(),
{
    lemma_lost_lines(before, message, more);
    lemma_leading_lines(more);
}

proof fn lemma_lost_lines(before: Seq<LineView>, message: Seq<char>, more: Seq<Seq<char>>)
    ensures
        entries_of(before.push(LineView::Header(None, message)) + further(more)).0 == log_entries(
            before,
        ),
        entries_of(before.push(LineView::Header(None, message)) + further(more)).1 is None,
    decreases more.len(),
{
    let head = before.push(LineView::Header(None, message));
    let all = head + further(more);
    if more.len() == 0 {
        assert(all =~= head);
        assert(head.drop_last() =~= before);
        let (done, open) = entries_of(before);
        assert(done + completed(open, head.last()) =~= log_entries(before));
    } else {
        let rest = more.drop_last();
        lemma_lost_lines(before, message, rest);
        assert(all.drop_last() =~= head + further(rest));
        assert(all.last() == LineView::Other(more.last()));
        let done = entries_of(all.drop_last()).0;
        assert(done + Seq::<EntryView>::empty() =~= done);
    }
}

proof fn lemma_leading_lines(more: Seq<Seq<char>>)
    ensures
        entries_of(further(more)).0.len() == 0,
        entries_of(further(more)).1 is None,
    decreases more.len(),
{
    let all = further(more);
    if more.len() > 0 {
        lemma_leading_lines(more.drop_last());
        assert(all.drop_last() =~= further(more.drop_last()));
        assert(all.last() == LineView::Other(more.last()));
    }
}

/// The time of a line that starts an entry is the first part of its form, the message the last
/// one; a line of another form starts none.
pub proof fn starts_hold_time_and_message(
    time: Seq<char>,
    daemon: Seq<char>,
    message: Seq<char>,
    line: Seq<char>,
)
    ensures
        header_texts(Some(seq![Some(line), Some(time), Some(daemon), Some(message)])) == Some(
            (time, message),
        ),
        header_texts(None) is None,
{
}

/// The text log of every daemon but the supervisor is found in the directory that is named by its
/// safe path.
pub proof fn logs_stand_under_safe_paths(namespace: Seq<char>, name: Seq<char>)
    requires
        daemon_id::valid_component(namespace),
        daemon_id::valid_component(name),
    ensures
        (namespace, name) != ("global"@, "pitchfork"@) ==> legacy_daemon(
            namespace + "--"@ + name,
        ) == Some((namespace, name)),
        (namespace, name) == ("global"@, "pitchfork"@) ==> legacy_daemon(
            namespace + "--"@ + name,
        ) is None,
{
    daemon_id::safe_path_is_read_back(namespace, name);
    let dir = namespace + "--"@ + name;
    text::texts_are_split_at_the_first_separator(dir, "--"@);
    reveal_strlit("--");
    reveal_strlit("pitchfork");
    assert(dir[namespace.len() as int] == '-');
    assert(!"pitchfork"@.contains('-'));
    if dir == "pitchfork"@ {
        assert("pitchfork"@.contains(dir[namespace.len() as int]));
    }
}

/// An import moves: the entries of a text log go behind those of the store, under the daemon of the
/// directory, and the text log is gone; all other text logs stay.
pub proof fn imports_move_entries(
    s: LogsView,
    namespace: Seq<char>,
    name: Seq<char>,
    dir: Seq<char>,
    other: Seq<char>,
)
    requires
        daemon_id::valid_component(namespace),
        daemon_id::valid_component(name),
        (namespace, name) != ("global"@, "pitchfork"@),
        dir == namespace + "--"@ + name,
        s.logs.contains_key(dir),
        log_entries(s.logs[dir]).len() > 0,
        other != dir,
    ensures
        !after_import(s, dir).logs.contains_key(dir),
        after_import(s, dir).stored.len() == s.stored.len() + log_entries(s.logs[dir]).len(),
        after_import(s, dir).stored.take(s.stored.len() as int) == s.stored,
        forall|i: int|
            0 <= i < log_entries(s.logs[dir]).len() ==> #[trigger] after_import(s, dir).stored[
            s.stored.len() + i] == ((namespace, name), log_entries(s.logs[dir])[i]),
        after_import(s, dir).logs.contains_key(other) == s.logs.contains_key(other),
        s.logs.contains_key(other) ==> after_import(s, dir).logs[other] == s.logs[other],
{
    logs_stand_under_safe_paths(namespace, name);
    let after = after_import(s, dir);
    assert(after.stored.take(s.stored.len() as int) =~= s.stored);
}

/// A text log without entries stays, and the store with it.
pub proof fn logs_without_entries_stay(s: LogsView, dir: Seq<char>)
    requires
        s.logs.contains_key(dir) ==> log_entries(s.logs[dir]).len() == 0,
    ensures
        after_import(s, dir) == s,
{
}

} // verus!
