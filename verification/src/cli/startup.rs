//! What is shown while daemons start, and of those that fail.
use crate::cli::logs;
use crate::cli::logs::{lines_of, LogLine};
use crate::clock;
use crate::clock::{Moment, TIME_OF_DAY};
use crate::daemon_id;
use crate::daemon_id::DaemonId;
use crate::log_store;
use crate::log_store::{ask, LogEntry, LogQuery, LogStore, StoreError};
use crate::terminal;
use crate::terminal::{
    colored_id_label, dimmed_id, pad, strip_ansi, strip_pty_controls, styled, width_of, TextStyle,
};
use crate::text;
use crate::text::{nat_text, split_on, text_eq};
use vstd::prelude::*;

verus! {

/// A message as it is shown: without what moves the cursor, and without colors where the output
/// is no terminal.
pub open spec fn shown_message(msg: Seq<char>, is_tty: bool) -> Seq<char> {
    if is_tty {
        terminal::without_controls(msg)
    } else {
        terminal::plain_text(terminal::without_controls(msg))
    }
}

/// A message as it is shown.
pub fn show_message(msg: &str, is_tty: bool) -> (r: String)
    ensures
        r@ == shown_message(msg@, is_tty),
{
    let stripped = strip_pty_controls(msg);
    if is_tty {
        stripped
    } else {
        strip_ansi(stripped.as_str())
    }
}

/// The time of a date and a time: what stands between the first and the second space, or the
/// whole text where there is no space.
pub open spec fn time_part(date: Seq<char>) -> Seq<char> {
    if text::split(date, ' ').len() > 1 {
        text::split(date, ' ')[1]
    } else {
        date
    }
}

fn time_of(date: &str) -> (r: String)
    ensures
        r@ == time_part(date@),
{
    let parts = split_on(date, ' ');
    assert(text::texts(parts@).len() == parts@.len());
    if parts.len() > 1 {
        assert(text::texts(parts@)[1] == parts@[1]@);
        parts[1].clone()
    } else {
        date.to_string()
    }
}

/// Whether lines are of more than one daemon.
pub open spec fn several_daemons(ids: Seq<Seq<char>>) -> bool {
    exists|i: int, j: int|
        #![trigger ids[i], ids[j]]
        0 <= i < ids.len() && 0 <= j < ids.len() && ids[i] != ids[j]
}

/// The number of columns of the widest of some texts.
pub open spec fn widest(list: Seq<Seq<char>>) -> usize
    decreases list.len(),
{
    if list.len() == 0 {
        0
    } else {
        let before = widest(list.drop_last());
        let last = terminal::text_width(list.last());
        if last > before {
            last
        } else {
            before
        }
    }
}

/// How error lines are shown.
#[derive(Debug, Clone, Copy)]
pub struct ErrorFormat {
    /// Whether the output is a terminal.
    pub is_tty: bool,
    /// Whether the output takes colors.
    pub colors: bool,
}

/// An error line as it is shown; its daemon stands before it where `width` is given.
pub open spec fn error_line(line: logs::LineView, width: Option<usize>, f: ErrorFormat) -> Seq<
    char,
> {
    let time = terminal::styled_text(time_part(line.date), TextStyle::RedDim, f.colors);
    let rest = time + " "@ + shown_message(line.message, f.is_tty);
    match width {
        Some(w) => terminal::padded(terminal::dimmed(line.daemon_id, f.is_tty && f.colors), w)
            + "  "@ + rest,
        None => rest,
    }
}

/// The identifiers of lines.
pub open spec fn view_ids(lines: Seq<logs::LineView>) -> Seq<Seq<char>> {
    lines.map_values(|l: logs::LineView| l.daemon_id)
}

/// The width of the column of daemons, where lines are of more than one.
pub open spec fn error_width(lines: Seq<logs::LineView>) -> Option<usize> {
    if several_daemons(view_ids(lines)) {
        Some(widest(view_ids(lines)))
    } else {
        None
    }
}

/// The block of error lines: a tag behind an empty line, then the lines. Nothing comes of no lines.
pub open spec fn error_block(lines: Seq<logs::LineView>, f: ErrorFormat) -> Seq<Seq<char>> {
    if lines.len() == 0 {
        Seq::empty()
    } else {
        seq![
            "\n"@ + terminal::styled_text(" ERROR LOGS "@, TextStyle::WhiteOnRed, f.colors),
        ] + lines.map_values(|l: logs::LineView| error_line(l, error_width(lines), f))
    }
}

fn format_error_line(line: &LogLine, width: Option<usize>, f: ErrorFormat) -> (r: String)
    ensures
        r@ == error_line(line@, width, f),
{
    let time = time_of(line.date.as_str());
    let rest = styled(time.as_str(), TextStyle::RedDim, f.colors).concat(" ").concat(
        show_message(line.message.as_str(), f.is_tty).as_str(),
    );
    match width {
        Some(w) => {
            let colored = dimmed_id(line.daemon_id.as_str(), f.is_tty && f.colors);
            pad(colored.as_str(), w).concat("  ").concat(rest.as_str())
        },
        None => rest,
    }
}

/// The width of the column of daemons, where lines are of more than one.
fn width_of_daemons(lines: &Vec<LogLine>) -> (r: Option<usize>)
    ensures
        r == error_width(logs::line_views(lines@)),
{
    let ghost views = logs::line_views(lines@);
    let ghost ids = view_ids(views);
    let mut several = false;
    let mut width: usize = 0;
    let mut i: usize = 0;
    while i < lines.len()
        invariant
            i <= lines@.len(),
            views == logs::line_views(lines@),
            ids == view_ids(views),
            ids.len() == lines@.len(),
            width == widest(ids.take(i as int)),
            several ==> several_daemons(ids),
            !several ==> forall|k: int| 0 <= k < i ==> #[trigger] ids[k] == ids[0],
        decreases lines@.len() - i,
    {
        assert(ids[i as int] == lines@[i as int].daemon_id@);
        assert(ids[0] == lines@[0].daemon_id@);
        assert(ids.take(i + 1).drop_last() =~= ids.take(i as int));
        if !text_eq(lines[i].daemon_id.as_str(), lines[0].daemon_id.as_str()) {
            several = true;
        }
        let w: usize = width_of(lines[i].daemon_id.as_str());
        if w > width {
            width = w;
        }
        i = i + 1;
    }
    assert(ids.take(i as int) =~= ids);
    if several {
        Some(width)
    } else {
        None
    }
}

/// The lines of an error log block matching the startup logs format.
///
/// Format:
/// ```text
///  ERROR LOGS
///  12:00:00 error message
/// ```
///
/// Timestamps use dimmed red. The tag uses white text on red background.
pub fn error_logs_block(lines: &Vec<LogLine>, f: ErrorFormat) -> (r: Vec<String>)
    ensures
        text::texts(r@) == error_block(logs::line_views(lines@), f),
{
    let mut out: Vec<String> = Vec::new();
    let ghost views = logs::line_views(lines@);
    if lines.len() == 0 {
        assert(text::texts(out@) =~= error_block(views, f));
        return out;
    }
    let width = width_of_daemons(lines);
    let ghost goal = error_block(views, f);
    out.push(
        "\n".to_string().concat(styled(" ERROR LOGS ", TextStyle::WhiteOnRed, f.colors).as_str()),
    );
    assert(text::texts(out@) =~= goal.take(1));
    let mut i: usize = 0;
    while i < lines.len()
        invariant
            i <= lines@.len(),
            views == logs::line_views(lines@),
            lines@.len() > 0,
            width == error_width(views),
            goal == error_block(views, f),
            text::texts(out@) == goal.take(i + 1),
        decreases lines@.len() - i,
    {
        let ghost before = text::texts(out@);
        out.push(format_error_line(&lines[i], width, f));
        assert(goal[i + 1] == error_line(views[i as int], width, f));
        assert(text::texts(out@) =~= before.push(goal[i + 1]));
        i = i + 1;
    }
    assert(goal.take(i + 1) =~= goal);
    out
}

/// Describes the type of ready check being performed for display purposes.
#[derive(Debug)]
pub enum ReadyCheckType {
    Output(String),
    Http(String),
    Port(u16),
    Cmd(String),
    Delay(u64),
    Default,
}

impl ReadyCheckType {
    /// The words for the check.
    pub open spec fn shown(&self) -> Seq<char> {
        match self {
            ReadyCheckType::Output(pattern) => "output matching '"@ + pattern@ + "'"@,
            ReadyCheckType::Http(url) => "HTTP "@ + url@,
            ReadyCheckType::Port(port) => "TCP port "@ + text::decimal(*port as int),
            ReadyCheckType::Cmd(cmd) => "command '"@ + cmd@ + "'"@,
            ReadyCheckType::Delay(secs) => "delay ("@ + text::decimal(*secs as int) + "s)"@,
            ReadyCheckType::Default => "default readiness check"@,
        }
    }

    /// The words for the check.
    pub fn describe(&self) -> (r: String)
        ensures
            r@ == self.shown(),
    {
        match self {
            ReadyCheckType::Output(pattern) => "output matching '".to_string().concat(
                pattern.as_str(),
            ).concat("'"),
            ReadyCheckType::Http(url) => "HTTP ".to_string().concat(url.as_str()),
            ReadyCheckType::Port(port) => "TCP port ".to_string().concat(
                nat_text(*port as u64).as_str(),
            ),
            ReadyCheckType::Cmd(cmd) => "command '".to_string().concat(cmd.as_str()).concat("'"),
            ReadyCheckType::Delay(secs) => "delay (".to_string().concat(
                nat_text(*secs).as_str(),
            ).concat("s)"),
            ReadyCheckType::Default => "default readiness check".to_string(),
        }
    }
}

/// The template of the progress line of a ready check: the time where one is given, else a
/// spinner, then the daemon.
pub open spec fn ready_body(
    id: (Seq<char>, Seq<char>),
    time: Option<Seq<char>>,
    is_tty: bool,
    colors: bool,
) -> Seq<char> {
    (match time {
        Some(t) => terminal::styled_text(t, TextStyle::Dim, colors),
        None => "{{spinner()}}"@,
    }) + " "@ + terminal::label(daemon_id::qualified_text(id.0, id.1), is_tty && colors)
        + " waiting for {{ check_type }}..."@
}

/// The template of the progress line of a ready check.
pub fn ready_check_body(id: &DaemonId, time: Option<&str>, is_tty: bool, colors: bool) -> (r:
    String)
    ensures
        r@ == ready_body(id@, text::opt_str(time), is_tty, colors),
{
    let prefix = match time {
        Some(t) => styled(t, TextStyle::Dim, colors),
        None => "{{spinner()}}".to_string(),
    };
    prefix.concat(" ").concat(
        colored_id_label(id.qualified().as_str(), is_tty && colors).as_str(),
    ).concat(" waiting for {{ check_type }}...")
}

/// How the log lines of a starting daemon are shown.
#[derive(Debug, Clone, Copy)]
pub struct StartupFormat {
    pub show_timestamp: bool,
    /// Whether the output is a terminal.
    pub is_tty: bool,
    /// Whether the output takes colors.
    pub colors: bool,
}

/// A log line of a starting daemon: its time or a bullet, the daemon and the message.
pub open spec fn startup_text(
    entry: LogEntry,
    id: (Seq<char>, Seq<char>),
    f: StartupFormat,
) -> Seq<char> {
    terminal::styled_text(
        if f.show_timestamp {
            clock::stamp_text(entry.timestamp@, TIME_OF_DAY@)
        } else {
            "•"@
        },
        TextStyle::Dim,
        f.colors,
    ) + " "@ + terminal::label(daemon_id::qualified_text(id.0, id.1), f.is_tty && f.colors) + " "@
        + shown_message(entry.message@, f.is_tty)
}

/// A log line of a starting daemon.
pub fn startup_line(entry: &LogEntry, id: &DaemonId, f: StartupFormat) -> (r: String)
    ensures
        r@ == startup_text(*entry, id@, f),
{
    let prefix = if f.show_timestamp {
        styled(entry.timestamp.time_of_day().as_str(), TextStyle::Dim, f.colors)
    } else {
        styled("•", TextStyle::Dim, f.colors)
    };
    let label = colored_id_label(id.qualified().as_str(), f.is_tty && f.colors);
    prefix.concat(" ").concat(label.as_str()).concat(" ").concat(
        show_message(entry.message.as_str(), f.is_tty).as_str(),
    )
}

/// The log lines of a starting daemon, with the row that the next ones come behind.
#[derive(Debug)]
pub struct StartupPoll {
    pub lines: Vec<String>,
    pub last_id: i64,
}

/// Takes in what came behind the last row: the lines to show, and the row that the next ones come
/// behind.
pub fn startup_poll(
    entries: &Vec<LogEntry>,
    last_id: i64,
    id: &DaemonId,
    f: StartupFormat,
) -> (r: StartupPoll)
    ensures
        text::texts(r.lines@) == entries@.map_values(|e: LogEntry| startup_text(e, id@, f)),
        r.last_id == if entries@.len() > 0 {
            entries@.last().id
        } else {
            last_id
        },
{
    let mut lines: Vec<String> = Vec::new();
    let ghost goal = entries@.map_values(|e: LogEntry| startup_text(e, id@, f));
    let mut i: usize = 0;
    while i < entries.len()
        invariant
            i <= entries@.len(),
            goal == entries@.map_values(|e: LogEntry| startup_text(e, id@, f)),
            text::texts(lines@) == goal.take(i as int),
        decreases entries@.len() - i,
    {
        let ghost before = text::texts(lines@);
        lines.push(startup_line(&entries[i], id, f));
        assert(text::texts(lines@) =~= before.push(goal[i as int]));
        i = i + 1;
    }
    assert(text::texts(lines@) =~= goal);
    let last_id: i64 = if entries.len() > 0 {
        entries[entries.len() - 1].id
    } else {
        last_id
    };
    StartupPoll { lines, last_id }
}

/// What happened while the start of a daemon is followed.
#[derive(Debug, Clone, Copy, PartialEq, Eq, Structural)]
pub enum FollowEvent {
    /// The following began.
    Began,
    /// The new entries were looked up and shown.
    Looked,
    /// The time between two looks is over.
    Waited,
    /// The following is to end.
    Stopped,
}

/// What is done next while the start of a daemon is followed.
#[derive(Debug, Clone, Copy, PartialEq, Eq, Structural)]
pub enum FollowStep {
    /// Look for new entries.
    Look,
    /// Wait for the next look or for the stop.
    Wait,
    /// End.
    End,
}

/// Whether the following is to end, behind an event.
pub open spec fn is_stopping(stopping: bool, event: FollowEvent) -> bool {
    stopping || event is Stopped
}

/// What is done next: the store is looked at once more behind the stop, and only then the
/// following ends.
pub open spec fn next_step(stopping: bool, event: FollowEvent) -> FollowStep {
    match event {
        FollowEvent::Looked => if stopping {
            FollowStep::End
        } else {
            FollowStep::Wait
        },
        _ => FollowStep::Look,
    }
}

/// The following of the start of a daemon.
#[derive(Debug)]
pub struct StartupFollow {
    /// Whether it is to end.
    pub stopping: bool,
}

impl StartupFollow {
    /// A following that begins.
    pub fn new() -> (r: StartupFollow)
        ensures
            !r.stopping,
    {
        StartupFollow { stopping: false }
    }

    /// Takes in an event; what is done next.
    pub fn step(&mut self, event: FollowEvent) -> (r: FollowStep)
        ensures
            r == next_step(old(self).stopping, event),
            final(self).stopping == is_stopping(old(self).stopping, event),
    {
        match event {
            FollowEvent::Looked => if self.stopping {
                FollowStep::End
            } else {
                FollowStep::Wait
            },
            FollowEvent::Stopped => {
                self.stopping = true;
                FollowStep::Look
            },
            _ => FollowStep::Look,
        }
    }
}

/// Whether a following is to end, behind events.
pub open spec fn stopping_after(events: Seq<FollowEvent>) -> bool
    decreases events.len(),
{
    events.len() > 0 && is_stopping(stopping_after(events.drop_last()), events.last())
}

/// What is done behind events, the first of which is the beginning.
pub open spec fn step_after(events: Seq<FollowEvent>) -> FollowStep {
    next_step(stopping_after(events.drop_last()), events.last())
}

/// A following is to end exactly where the stop is among the events.
proof fn lemma_stopping(events: Seq<FollowEvent>)
    ensures
        stopping_after(events) <==> events.contains(FollowEvent::Stopped),
    decreases events.len(),
{
    if events.len() > 0 {
        let before = events.drop_last();
        lemma_stopping(before);
        if before.contains(FollowEvent::Stopped) {
            let i = choose|i: int| 0 <= i < before.len() && before[i] == FollowEvent::Stopped;
            assert(events[i] == FollowEvent::Stopped);
        }
        if events.contains(FollowEvent::Stopped) && events.last() != FollowEvent::Stopped {
            let i = choose|i: int| 0 <= i < events.len() && events[i] == FollowEvent::Stopped;
            assert(before[i] == FollowEvent::Stopped);
        }
    }
}

/// No entry from before the stop is missed: the following ends only with a look behind the stop,
/// the stop itself is answered with a look, and that look is the last.
pub proof fn last_look_comes_behind_the_stop(events: Seq<FollowEvent>)
    requires
        events.len() > 0,
    ensures
        step_after(events) is End <==> events.last() is Looked && events.drop_last().contains(
            FollowEvent::Stopped,
        ),
        step_after(events.push(FollowEvent::Stopped)) is Look,
        step_after(events.push(FollowEvent::Stopped).push(FollowEvent::Looked)) is End,
{
    lemma_stopping(events.drop_last());
    let stopped = events.push(FollowEvent::Stopped);
    assert(stopped.drop_last() =~= events);
    assert(stopped.push(FollowEvent::Looked).drop_last() =~= stopped);
    assert(stopped.last() is Stopped);
}

/// The query for the newest entry of a daemon, from which its start is followed.
pub fn anchor_query(id: &DaemonId) -> (r: LogQuery)
    ensures
        r.asks_newest(id@),
{
    log_store::newest_of(id)
}

/// The row from which the start of a daemon is followed: that of its newest entry, or the
/// beginning where there is none.
pub fn anchor_row(entries: Option<&Vec<LogEntry>>) -> (r: i64)
    ensures
        r == match entries {
            Some(list) => if list@.len() > 0 {
                list@.last().id
            } else {
                0
            },
            None => 0,
        },
{
    match entries {
        Some(list) => if list.len() > 0 {
            list[list.len() - 1].id
        } else {
            0
        },
        None => 0,
    }
}

/// Whether a query asks for the entries of a daemon since a moment.
pub open spec fn asks_since(query: LogQuery, id: (Seq<char>, Seq<char>), from: Moment) -> bool {
    &&& text::texts(query.daemon_ids@) == seq![daemon_id::qualified_text(id.0, id.1)]
    &&& query.from == Some(from)
    &&& query.to is None
    &&& query.limit is None
    &&& !query.order_desc
    &&& query.after_id is None
    &&& query.message_filters@.len() == 0
}

/// The query for the entries of a daemon since a moment.
pub fn startup_query(id: &DaemonId, from: Moment) -> (r: LogQuery)
    ensures
        asks_since(r, id@, from),
{
    let mut daemon_ids: Vec<String> = Vec::new();
    daemon_ids.push(id.qualified());
    assert(text::texts(daemon_ids@) =~= seq![daemon_id::qualified_text(id@.0, id@.1)]);
    LogQuery {
        daemon_ids,
        from: Some(from),
        to: None,
        limit: None,
        order_desc: false,
        after_id: None,
        message_filters: Vec::new(),
    }
}

/// Collects startup log lines for a single daemon: those of the entries since a moment.
pub fn collect_startup_logs<S: LogStore>(store: &S, id: &DaemonId, from: Moment) -> (r: Result<
    Vec<LogLine>,
    StoreError,
>)
    ensures
        match r {
            Ok(lines) => exists|query: &LogQuery, entries: Vec<LogEntry>|
                {
                    &&& #[trigger] asks_since(*query, id@, from)
                    &&& log_store::may_answer(store, query, Ok(entries))
                    &&& logs::line_views(lines@) == #[trigger] logs::entry_lines(entries@)
                },
            Err(e) => exists|query: &LogQuery| #[trigger]
                asks_since(*query, id@, from) && log_store::may_answer(store, query, Err(e)),
        },
{
    let query = startup_query(id, from);
    let asked = &query;
    assert(asks_since(*asked, id@, from));
    match ask(store, asked) {
        Ok(entries) => {
            assert(log_store::may_answer(store, asked, Ok(entries)));
            Ok(lines_of(&entries))
        },
        Err(e) => Err(e),
    }
}

/// On a terminal a message is shown without what moves the cursor, elsewhere without colors too.
pub proof fn colors_are_for_terminals(msg: Seq<char>)
    ensures
        shown_message(msg, true) == terminal::without_controls(msg),
        shown_message(msg, false) == terminal::plain_text(terminal::without_controls(msg)),
{
}

/// A text without a character is not split at it.
proof fn lemma_not_split(s: Seq<char>, c: char)
    requires
        !s.contains(c),
    ensures
        text::split(s, c) == seq![s],
    decreases s.len(),
{
    if s.len() > 0 {
        let less = s.drop_last();
        assert forall|i: int| 0 <= i < less.len() implies less[i] != c by {
            assert(s[i] == less[i]);
            assert(s.contains(s[i]));
        }
        lemma_not_split(less, c);
        assert(s.contains(s.last()));
        assert(seq![less].drop_last() =~= Seq::empty());
        assert(less.push(s.last()) =~= s);
        assert(text::split(s, c) =~= seq![s]);
    } else {
        assert(s =~= Seq::empty());
        assert(text::split(s, c) =~= seq![s]);
    }
}

/// A text is split where the character stands.
proof fn lemma_split_at(a: Seq<char>, c: char, b: Seq<char>)
    requires
        !a.contains(c),
        !b.contains(c),
    ensures
        text::split(a.push(c) + b, c) == seq![a, b],
    decreases b.len(),
{
    let s = a.push(c) + b;
    if b.len() == 0 {
        assert(s =~= a.push(c));
        assert(s.drop_last() =~= a);
        lemma_not_split(a, c);
        assert(b =~= Seq::empty());
        assert(text::split(s, c) =~= seq![a, b]);
    } else {
        let less = b.drop_last();
        assert forall|i: int| 0 <= i < less.len() implies less[i] != c by {
            assert(b[i] == less[i]);
            assert(b.contains(b[i]));
        }
        assert(s.drop_last() =~= a.push(c) + less);
        assert(s.last() == b.last());
        assert(b.contains(b.last()));
        lemma_split_at(a, c, less);
        assert(seq![a, less].drop_last() =~= seq![a]);
        assert(less.push(b.last()) =~= b);
        assert(text::split(s, c) =~= seq![a, b]);
    }
}

/// Of a date and a time that a space parts the time is shown; a text without a space is shown whole.
pub proof fn error_lines_show_the_time(date: Seq<char>, time: Seq<char>)
    requires
        !date.contains(' '),
        !time.contains(' '),
    ensures
        time_part(date + " "@ + time) == time,
        time_part(date) == date,
{
    reveal_strlit(" ");
    lemma_not_split(date, ' ');
    lemma_split_at(date, ' ', time);
    assert(date + " "@ + time =~= date.push(' ') + time);
}

/// An error block has a tag and then each line once, in order; without lines there is none. Daemons
/// are named exactly where the lines are of more than one.
pub proof fn error_blocks_hold_every_line(lines: Seq<logs::LineView>, f: ErrorFormat, i: int)
    requires
        0 <= i < lines.len(),
    ensures
        error_block(lines, f).len() == lines.len() + 1,
        error_block(lines, f)[i + 1] == error_line(lines[i], error_width(lines), f),
        error_block(Seq::empty(), f).len() == 0,
        error_width(lines) is Some <==> exists|a: int, b: int|
            #![trigger lines[a], lines[b]]
            0 <= a < lines.len() && 0 <= b < lines.len() && lines[a].daemon_id != lines[b].daemon_id,
{
    let ids = view_ids(lines);
    if exists|a: int, b: int|
        #![trigger lines[a], lines[b]]
        0 <= a < lines.len() && 0 <= b < lines.len() && lines[a].daemon_id != lines[b].daemon_id {
        let (a, b) = choose|a: int, b: int|
            #![trigger lines[a], lines[b]]
            0 <= a < lines.len() && 0 <= b < lines.len() && lines[a].daemon_id != lines[b].daemon_id;
        assert(ids[a] != ids[b]);
    }
    if several_daemons(ids) {
        let (a, b) = choose|a: int, b: int|
            #![trigger ids[a], ids[b]]
            0 <= a < ids.len() && 0 <= b < ids.len() && ids[a] != ids[b];
        assert(lines[a].daemon_id != lines[b].daemon_id);
    }
}

/// An error line without colors: the daemon in its column, where there is one, the time and the
/// message.
pub proof fn plain_error_lines(line: logs::LineView, width: Option<usize>, is_tty: bool)
    ensures
        ({
            let f = ErrorFormat { is_tty, colors: false };
            error_line(line, width, f) == (match width {
                Some(w) => terminal::padded(line.daemon_id, w) + "  "@,
                None => Seq::empty(),
            }) + time_part(line.date) + " "@ + shown_message(line.message, is_tty)
        }),
{
    let f = ErrorFormat { is_tty, colors: false };
    let whole = (match width {
        Some(w) => terminal::padded(line.daemon_id, w) + "  "@,
        None => Seq::empty(),
    }) + time_part(line.date) + " "@ + shown_message(line.message, is_tty);
    assert(error_line(line, width, f) =~= whole);
}

/// The column of daemons is as wide as the widest of them.
pub proof fn columns_hold_the_widest(list: Seq<Seq<char>>, at: int)
    requires
        0 <= at < list.len(),
    ensures
        terminal::text_width(list[at]) <= widest(list),
        exists|k: int| 0 <= k < list.len() && terminal::text_width(#[trigger] list[k]) == widest(list),
    decreases list.len(),
{
    let first = list.drop_last();
    assert(list[list.len() - 1] == list.last());
    if first.len() > 0 {
        columns_hold_the_widest(
            first,
            if at < first.len() {
                at
            } else {
                0
            },
        );
        let k = choose|k: int|
            0 <= k < first.len() && terminal::text_width(#[trigger] first[k]) == widest(first);
        assert(list[k] == first[k]);
        if at < first.len() {
            assert(list[at] == first[at]);
        }
    } else {
        assert(widest(first) == 0);
        assert(terminal::text_width(list[0]) == widest(list));
    }
}

/// A line of a starting daemon without colors: the time of the day or a bullet, the daemon in
/// brackets, and the message.
pub proof fn startup_lines_tell_the_entry(
    entry: LogEntry,
    id: (Seq<char>, Seq<char>),
    show_timestamp: bool,
    is_tty: bool,
)
    ensures
        ({
            let f = StartupFormat { show_timestamp, is_tty, colors: false };
            startup_text(entry, id, f) == (if show_timestamp {
                clock::stamp_text(entry.timestamp@, "%H:%M:%S"@)
            } else {
                "•"@
            }) + " "@ + terminal::label(daemon_id::qualified_text(id.0, id.1), false) + " "@
                + shown_message(entry.message@, is_tty)
        }),
{
}

/// An error line with colors is the one without them, with the time in dimmed red and the daemon in
/// its own color, which a terminal only is given.
pub proof fn colored_error_lines(line: logs::LineView, width: usize, is_tty: bool)
    ensures
        ({
            let f = ErrorFormat { is_tty, colors: true };
            let time = terminal::styled_text(time_part(line.date), TextStyle::RedDim, true);
            &&& error_line(line, None, f) == time + " "@ + shown_message(line.message, is_tty)
            &&& error_line(line, Some(width), f) == terminal::padded(
                terminal::dimmed(line.daemon_id, is_tty),
                width,
            ) + "  "@ + (time + " "@ + shown_message(line.message, is_tty))
        }),
{
}

/// A line of a starting daemon with colors has its time or its bullet dimmed and, on a terminal, its
/// daemon in color.
pub proof fn colored_startup_lines(entry: LogEntry, id: (Seq<char>, Seq<char>), is_tty: bool)
    ensures
        startup_text(entry, id, StartupFormat { show_timestamp: true, is_tty, colors: true })
            == terminal::styled_text(
            clock::stamp_text(entry.timestamp@, "%H:%M:%S"@),
            TextStyle::Dim,
            true,
        ) + " "@ + terminal::label(daemon_id::qualified_text(id.0, id.1), is_tty) + " "@
            + shown_message(entry.message@, is_tty),
        startup_text(entry, id, StartupFormat { show_timestamp: false, is_tty, colors: true })
            == terminal::styled_text("•"@, TextStyle::Dim, true) + " "@ + terminal::label(
            daemon_id::qualified_text(id.0, id.1),
            is_tty,
        ) + " "@ + shown_message(entry.message@, is_tty),
{
}

/// The tag of an error block stands behind an empty line, in white on red where there are colors.
pub proof fn error_blocks_are_tagged(lines: Seq<logs::LineView>, is_tty: bool)
    requires
        lines.len() > 0,
    ensures
        error_block(lines, ErrorFormat { is_tty, colors: false })[0] == "\n"@ + " ERROR LOGS "@,
        error_block(lines, ErrorFormat { is_tty, colors: true })[0] == "\n"@
            + terminal::styled_text(" ERROR LOGS "@, TextStyle::WhiteOnRed, true),
{
}

/// The column of daemons in an error block is as wide as the widest of their identifiers.
pub proof fn error_columns_hold_the_daemons(lines: Seq<logs::LineView>, i: int)
    requires
        0 <= i < lines.len(),
        error_width(lines) is Some,
    ensures
        terminal::text_width(lines[i].daemon_id) <= error_width(lines)->0,
        exists|k: int|
            0 <= k < lines.len() && terminal::text_width((#[trigger] lines[k]).daemon_id)
                == error_width(lines)->0,
{
    let ids = view_ids(lines);
    columns_hold_the_widest(ids, i);
    assert(ids[i] == lines[i].daemon_id);
    let k = choose|k: int|
        0 <= k < ids.len() && terminal::text_width(#[trigger] ids[k]) == widest(ids);
    assert(lines[k].daemon_id == ids[k]);
}

/// A ready check is described by what is waited for.
pub proof fn ready_checks_say_what_they_wait_for(check: ReadyCheckType)
    ensures
        match check {
            ReadyCheckType::Output(p) => check.shown() == "output matching '"@ + p@ + "'"@,
            ReadyCheckType::Http(url) => check.shown() == "HTTP "@ + url@,
            ReadyCheckType::Port(port) => check.shown() == "TCP port "@ + text::decimal(port as int),
            ReadyCheckType::Cmd(cmd) => check.shown() == "command '"@ + cmd@ + "'"@,
            ReadyCheckType::Delay(secs) => check.shown() == "delay ("@ + text::decimal(secs as int)
                + "s)"@,
            ReadyCheckType::Default => check.shown() == "default readiness check"@,
        },
{
}

/// The progress line of a ready check has the time, where one is given, or a spinner, and then the
/// daemon in brackets; colors are for terminals.
pub proof fn progress_lines_name_the_daemon(id: (Seq<char>, Seq<char>), time: Seq<char>)
    ensures
        ready_body(id, None, false, true) == "{{spinner()}}"@ + " "@ + terminal::label(
            daemon_id::qualified_text(id.0, id.1),
            false,
        ) + " waiting for {{ check_type }}..."@,
        ready_body(id, None, true, true) == "{{spinner()}}"@ + " "@ + terminal::label(
            daemon_id::qualified_text(id.0, id.1),
            true,
        ) + " waiting for {{ check_type }}..."@,
        ready_body(id, Some(time), true, false) == time + " "@ + terminal::label(
            daemon_id::qualified_text(id.0, id.1),
            false,
        ) + " waiting for {{ check_type }}..."@,
        ready_body(id, Some(time), true, true) == terminal::styled_text(time, TextStyle::Dim, true)
            + " "@ + terminal::label(daemon_id::qualified_text(id.0, id.1), true)
            + " waiting for {{ check_type }}..."@,
{
}

/// The entries of a starting daemon are asked for from the moment of its start on, all of them, the
/// oldest first.
pub proof fn starts_are_asked_for_from_their_moment(
    query: LogQuery,
    id: (Seq<char>, Seq<char>),
    from: Moment,
)
    requires
        asks_since(query, id, from),
    ensures
        query.daemon_ids@.len() == 1,
        query.daemon_ids@[0]@ == id.0 + "/"@ + id.1,
        query.from == Some(from),
        query.to is None && query.limit is None && query.after_id is None,
        !query.order_desc,
        query.message_filters@.len() == 0,
{
    assert(text::texts(query.daemon_ids@).len() == 1);
    assert(text::texts(query.daemon_ids@)[0] == query.daemon_ids@[0]@);
}

/// A following looks, waits, and looks again until it is stopped.
pub proof fn looks_and_waits_take_turns(events: Seq<FollowEvent>)
    requires
        !events.contains(FollowEvent::Stopped),
    ensures
        step_after(events.push(FollowEvent::Looked)) is Wait,
        step_after(events.push(FollowEvent::Waited)) is Look,
        step_after(events.push(FollowEvent::Began)) is Look,
{
    lemma_stopping(events);
    assert(events.push(FollowEvent::Looked).drop_last() =~= events);
    assert(events.push(FollowEvent::Waited).drop_last() =~= events);
    assert(events.push(FollowEvent::Began).drop_last() =~= events);
}

} // verus!
