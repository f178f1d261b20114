//! The `logs` command: what is asked of the store and how log lines are shown.
use crate::cli::json_output::JsonLogEntry;
use crate::clock;
use crate::clock::{Moment, DATE_TIME};
use crate::collect::TextSet;
use crate::daemon_id;
use crate::daemon_id::DaemonId;
use crate::log_store;
use crate::log_store::sqlite;
use crate::log_store::statement;
use crate::log_store::{
    ask, FilterView, LogEntry, LogQuery, LogStore, MessageFilter, StoreError,
};
use crate::regexp;
use crate::regexp::compile;
use crate::terminal;
use crate::terminal::{dimmed_id, output_colors, pad, strip_ansi, styled, TextStyle};
use crate::text;
use crate::text::{contains_text, parse_usize, text_eq};
use vstd::prelude::*;

verus! {

/// The program that shows long output page by page.
#[derive(Debug)]
pub struct PagerConfig {
    pub command: String,
    pub args: Vec<String>,
}

/// The arguments of a pager: `less` shows colors, and starts at the end where that is asked for.
pub open spec fn pager_args(pager: Seq<char>, start_at_end: bool) -> Seq<Seq<char>> {
    if pager == "less"@ {
        if start_at_end {
            seq!["-R"@, "+G"@]
        } else {
            seq!["-R"@]
        }
    } else {
        Seq::empty()
    }
}

impl PagerConfig {
    /// The pager of the environment, else `less`.
    pub fn new(pager: Option<String>, start_at_end: bool) -> (r: PagerConfig)
        ensures
            r.command@ == match pager {
                Some(p) => p@,
                None => "less"@,
            },
            text::texts(r.args@) == pager_args(r.command@, start_at_end),
    {
        let command = match pager {
            Some(p) => p,
            None => "less".to_string(),
        };
        let args = PagerConfig::build_args(command.as_str(), start_at_end);
        PagerConfig { command, args }
    }

    /// The arguments of a pager.
    pub fn build_args(pager: &str, start_at_end: bool) -> (r: Vec<String>)
        ensures
            text::texts(r@) == pager_args(pager@, start_at_end),
    {
        let mut args: Vec<String> = Vec::new();
        if text_eq(pager, "less") {
            args.push("-R".to_string());
            if start_at_end {
                args.push("+G".to_string());
            }
        }
        assert(text::texts(args@) =~= pager_args(pager@, start_at_end));
        args
    }
}

/// How a log line is shown.
#[derive(Debug, Clone, Copy)]
pub struct LineFormat {
    /// Whether the identifier of the daemon is left out.
    pub single_daemon: bool,
    /// The width of the column of identifiers.
    pub id_width: usize,
    /// Whether control sequences are removed from the message and none are added.
    pub strip_ansi: bool,
    pub show_timestamp: bool,
}

/// A message as it is shown.
pub open spec fn shown_message(msg: Seq<char>, format: LineFormat) -> Seq<char> {
    if format.strip_ansi {
        terminal::plain_text(msg)
    } else {
        msg
    }
}

/// A log line as it is shown.
pub open spec fn line_text(
    date: Seq<char>,
    id: Seq<char>,
    msg: Seq<char>,
    format: LineFormat,
    colors: bool,
) -> Seq<char> {
    let shown = shown_message(msg, format);
    let colored = !format.strip_ansi && colors;
    let time = terminal::styled_text(date, TextStyle::Dim, colored);
    if format.single_daemon {
        if format.show_timestamp {
            time + " "@ + shown
        } else {
            shown
        }
    } else {
        let column = terminal::padded(terminal::dimmed(id, colored), format.id_width);
        if format.show_timestamp {
            column + "  "@ + time + " "@ + shown
        } else {
            column + "  "@ + shown
        }
    }
}

/// The number of characters before the message of a line with an identifier that the column holds.
pub open spec fn message_column(date: Seq<char>, format: LineFormat) -> nat {
    (format.id_width + 2 + if format.show_timestamp {
        date.len() + 1
    } else {
        0
    }) as nat
}

/// Format a single log line for output, on a terminal with or without colors.
/// When `single_daemon` is set, omits the daemon ID from the output.
/// `id_width` is the display width used to pad the daemon name column
/// so messages line up vertically across different daemon names.
/// When `strip_ansi` is set, strips ANSI escape codes from the message and adds none.
pub fn format_log_line_with(
    date: &str,
    id: &str,
    msg: &str,
    format: LineFormat,
    colors: bool,
) -> (r: String)
    ensures
        r@ == line_text(date@, id@, msg@, format, colors),
        !format.single_daemon && (format.strip_ansi || !colors) && terminal::is_printable(id@)
            && id@.len() <= format.id_width ==> r@.len() == message_column(date@, format)
            + shown_message(msg@, format).len(),
{
    proof {
        reveal_strlit(" ");
        reveal_strlit("  ");
    }
    let shown = if format.strip_ansi {
        strip_ansi(msg)
    } else {
        msg.to_string()
    };
    let colored = !format.strip_ansi && colors;
    if format.single_daemon {
        if format.show_timestamp {
            styled(date, TextStyle::Dim, colored).concat(" ").concat(shown.as_str())
        } else {
            shown
        }
    } else {
        let column = pad(dimmed_id(id, colored).as_str(), format.id_width);
        if format.show_timestamp {
            column.concat("  ").concat(styled(date, TextStyle::Dim, colored).as_str()).concat(
                " ",
            ).concat(shown.as_str())
        } else {
            column.concat("  ").concat(shown.as_str())
        }
    }
}

/// Format a single log line for the standard output, which decides on the colors.
pub fn format_log_line(date: &str, id: &str, msg: &str, format: LineFormat) -> (r: String)
    ensures
        exists|colors: bool| #[trigger]
            terminal::console_tells(colors) && r@ == line_text(date@, id@, msg@, format, colors),
{
    format_log_line_with(date, id, msg, format, output_colors())
}

/// A log line: its time, its daemon and its message.
#[derive(Debug)]
pub struct LogLine {
    pub date: String,
    pub daemon_id: String,
    pub message: String,
}

/// The texts of a log line.
pub struct LineView {
    pub date: Seq<char>,
    pub daemon_id: Seq<char>,
    pub message: Seq<char>,
}

impl View for LogLine {
    type V = LineView;

    open spec fn view(&self) -> LineView {
        LineView { date: self.date@, daemon_id: self.daemon_id@, message: self.message@ }
    }
}

/// The values of log lines.
pub open spec fn line_views(lines: Seq<LogLine>) -> Seq<LineView> {
    lines.map_values(|l: LogLine| l@)
}

/// The line of an entry.
pub open spec fn entry_line(e: LogEntry) -> LineView {
    LineView {
        date: clock::stamp_text(e.timestamp@, DATE_TIME@),
        daemon_id: e.daemon_id@,
        message: e.message@,
    }
}

/// The lines of entries.
pub open spec fn entry_lines(entries: Seq<LogEntry>) -> Seq<LineView> {
    entries.map_values(|e: LogEntry| entry_line(e))
}

/// The line of an entry.
pub fn line_of(e: &LogEntry) -> (r: LogLine)
    ensures
        r@ == entry_line(*e),
{
    LogLine {
        date: e.timestamp.date_time(),
        daemon_id: e.daemon_id.clone(),
        message: e.message.clone(),
    }
}

/// The lines of entries.
pub fn lines_of(entries: &Vec<LogEntry>) -> (r: Vec<LogLine>)
    ensures
        line_views(r@) == entry_lines(entries@),
{
    let mut out: Vec<LogLine> = Vec::new();
    let ghost goal = entry_lines(entries@);
    let mut i: usize = 0;
    while i < entries.len()
        invariant
            i <= entries@.len(),
            goal == entry_lines(entries@),
            line_views(out@) == goal.take(i as int),
        decreases entries@.len() - i,
    {
        let ghost before = line_views(out@);
        out.push(line_of(&entries[i]));
        assert(line_views(out@) =~= before.push(goal[i as int]));
        i = i + 1;
    }
    assert(line_views(out@) =~= goal);
    out
}

/// Displays logs for daemon(s)
#[derive(Debug)]
pub struct Logs {
    /// Show only logs for the specified daemon(s)
    pub id: Vec<String>,
    /// Delete logs
    pub clear: bool,
    /// Show last N lines of logs
    ///
    /// Only applies when --since/--until is not used.
    /// Without this option, all logs are shown.
    pub n: Option<usize>,
    /// Show logs in real-time
    pub tail: bool,
    /// Show logs from this time
    ///
    /// Supports multiple formats:
    /// - Full datetime: "YYYY-MM-DD HH:MM:SS" or "YYYY-MM-DD HH:MM"
    /// - Time only: "HH:MM:SS" or "HH:MM" (uses today's date)
    /// - Relative time: "5min", "2h", "1d" (e.g., last 5 minutes)
    pub since: Option<String>,
    /// Show logs until this time
    ///
    /// Supports multiple formats:
    /// - Full datetime: "YYYY-MM-DD HH:MM:SS" or "YYYY-MM-DD HH:MM"
    /// - Time only: "HH:MM:SS" or "HH:MM" (uses today's date)
    pub until: Option<String>,
    /// Disable pager even in interactive terminal
    pub no_pager: bool,
    /// Output raw log lines without color or formatting
    pub raw: bool,
    /// Output in JSON format
    pub json: bool,
    /// Filter logs by case-insensitive substring (can be repeated)
    ///
    /// Multiple --grep options are combined with OR.
    pub grep: Vec<String>,
    /// Filter logs by regular expression
    pub regex: Option<String>,
    /// Make --grep matching case-sensitive
    pub case_sensitive: bool,
    /// Omit timestamps from log output
    pub no_timestamp: bool,
}

/// What the command does with the daemons that it is about.
#[derive(Debug, Clone, Copy, PartialEq, Eq, Structural)]
pub enum LogsAction {
    Clear,
    Json,
    Show,
}

/// The filter of a pattern.
pub open spec fn grep_filter(pattern: Seq<char>, case_sensitive: bool) -> FilterView {
    if case_sensitive {
        FilterView::ContainsCased(pattern)
    } else {
        FilterView::Contains(pattern)
    }
}

/// The values of filters.
pub open spec fn filter_views(filters: Seq<MessageFilter>) -> Seq<FilterView> {
    filters.map_values(|f: MessageFilter| f@)
}

/// How the lines are put out.
#[derive(Debug, Clone, Copy, PartialEq, Eq, Structural)]
pub enum LogsOutput {
    /// There are none.
    Nothing,
    Direct,
    Pager,
}

impl Logs {
    /// The filters of the patterns.
    pub open spec fn grep_filters(&self) -> Seq<FilterView> {
        text::texts(self.grep@).map_values(|p: Seq<char>| grep_filter(p, self.case_sensitive))
    }

    /// All filters.
    pub open spec fn filters(&self) -> Seq<FilterView> {
        match self.regex {
            Some(pattern) => self.grep_filters().push(FilterView::Regex(pattern@)),
            None => self.grep_filters(),
        }
    }

    /// What is wrong with the regular expression, where something is.
    pub open spec fn regex_fault(&self) -> Option<Seq<char>> {
        match self.regex {
            Some(pattern) => regexp::regex_fault(pattern@),
            None => None,
        }
    }

    /// What the command does. Deleting comes before showing.
    pub fn action(&self) -> (r: LogsAction)
        ensures
            r == if self.clear {
                LogsAction::Clear
            } else if self.json {
                LogsAction::Json
            } else {
                LogsAction::Show
            },
    {
        if self.clear {
            LogsAction::Clear
        } else if self.json {
            LogsAction::Json
        } else {
            LogsAction::Show
        }
    }

    /// Whether lines are shown with their times.
    pub fn shows_timestamps(&self, setting: bool) -> (r: bool)
        ensures
            r == (setting && !self.no_timestamp),
    {
        setting && !self.no_timestamp
    }

    /// Whether case sensitivity is asked for without a pattern that it would apply to.
    pub fn warns_of_case(&self) -> (r: bool)
        ensures
            r == (self.case_sensitive && self.grep@.len() == 0),
    {
        self.case_sensitive && self.grep.len() == 0
    }

    /// The filters of the patterns and of the regular expression; an error where the latter is
    /// none.
    pub fn build_message_filters(&self) -> (r: Result<Vec<MessageFilter>, String>)
        ensures
            match r {
                Ok(filters) => self.regex_fault() is None && filter_views(filters@)
                    == self.filters(),
                Err(e) => self.regex_fault() matches Some(fault) && e@
                    == "invalid regex pattern: "@ + fault,
            },
    {
        let mut filters: Vec<MessageFilter> = Vec::new();
        let ghost goal = self.grep_filters();
        let mut i: usize = 0;
        while i < self.grep.len()
            invariant
                i <= self.grep@.len(),
                goal == self.grep_filters(),
                filter_views(filters@) == goal.take(i as int),
            decreases self.grep@.len() - i,
        {
            let ghost before = filter_views(filters@);
            filters.push(
                MessageFilter::Contains {
                    pattern: self.grep[i].clone(),
                    case_sensitive: self.case_sensitive,
                },
            );
            assert(filter_views(filters@) =~= before.push(goal[i as int]));
            i = i + 1;
        }
        assert(filter_views(filters@) =~= goal);
        if let Some(pattern) = &self.regex {
            if let Err(e) = compile(pattern.as_str()) {
                return Err("invalid regex pattern: ".to_string().concat(e.as_str()));
            }
            filters.push(MessageFilter::Regex { pattern: pattern.clone() });
            assert(filter_views(filters@) =~= goal.push(FilterView::Regex(pattern@)));
        }
        Ok(filters)
    }

    /// Whether a query asks for the lines of daemons: without a range of time for the newest ones,
    /// as many as are asked for; with one for all of them.
    pub open spec fn asks(
        &self,
        query: LogQuery,
        ids: Seq<DaemonId>,
        from: Option<Moment>,
        to: Option<Moment>,
        filters: Seq<MessageFilter>,
    ) -> bool {
        &&& text::texts(query.daemon_ids@) == ids.map_values(
            |d: DaemonId| daemon_id::qualified_text(d@.0, d@.1),
        )
        &&& query.from == from
        &&& query.to == to
        &&& query.limit == if from is None && to is None {
            self.n
        } else {
            None
        }
        &&& query.order_desc == (from is None && to is None)
        &&& query.after_id is None
        &&& query.message_filters@ == filters
    }

    /// The query for the lines of daemons: without a range of time the newest ones, as many as
    /// are asked for; with one all of them.
    pub fn query_for(
        &self,
        ids: &Vec<DaemonId>,
        from: Option<Moment>,
        to: Option<Moment>,
        filters: Vec<MessageFilter>,
    ) -> (r: LogQuery)
        ensures
            self.asks(r, ids@, from, to, filters@),
    {
        let daemon_ids = qualified_ids(ids);
        let ranged = from.is_some() || to.is_some();
        LogQuery {
            daemon_ids,
            from,
            to,
            limit: if ranged {
                None
            } else {
                self.n
            },
            order_desc: !ranged,
            after_id: None,
            message_filters: filters,
        }
    }

    /// The lines of the answer to the query, the oldest first.
    pub fn select_lines(&self, entries: &Vec<LogEntry>, ranged: bool) -> (r: Vec<LogLine>)
        ensures
            line_views(r@) == selected(entry_lines(entries@), ranged, self.n),
    {
        let lines = lines_of(entries);
        if ranged {
            return lines;
        }
        let mut count: usize = lines.len();
        if let Some(n) = self.n {
            if n < count {
                count = n;
            }
        }
        let ghost all = entry_lines(entries@);
        let ghost goal = all.take(count as int).reverse();
        let mut out: Vec<LogLine> = Vec::new();
        let mut left: usize = count;
        while left > 0
            invariant
                left <= count <= lines@.len(),
                count == goal.len(),
                all.len() == lines@.len(),
                line_views(lines@) == all,
                goal == all.take(count as int).reverse(),
                line_views(out@) == goal.take(count - left),
            decreases left,
        {
            let ghost before = line_views(out@);
            let line = &lines[left - 1];
            out.push(
                LogLine {
                    date: line.date.clone(),
                    daemon_id: line.daemon_id.clone(),
                    message: line.message.clone(),
                },
            );
            assert(line@ == all[left - 1]);
            assert(goal[count - left] == all[left - 1]);
            assert(line_views(out@) =~= before.push(goal[count - left]));
            left = left - 1;
        }
        assert(line_views(out@) =~= goal);
        out
    }

    /// Asks a store for the lines of daemons, the oldest first.
    pub fn fetch_log_lines<S: LogStore>(
        &self,
        store: &S,
        ids: &Vec<DaemonId>,
        from: Option<Moment>,
        to: Option<Moment>,
        filters: Vec<MessageFilter>,
    ) -> (r: Result<Vec<LogLine>, StoreError>)
        ensures
            match r {
                Ok(lines) => exists|query: &LogQuery, entries: Vec<LogEntry>|
                    {
                        &&& #[trigger] self.asks(*query, ids@, from, to, filters@)
                        &&& log_store::may_answer(store, query, Ok(entries))
                        &&& line_views(lines@) == selected(
                            #[trigger] entry_lines(entries@),
                            from is Some || to is Some,
                            self.n,
                        )
                    },
                Err(e) => exists|query: &LogQuery| #[trigger]
                    self.asks(*query, ids@, from, to, filters@) && log_store::may_answer(
                        store,
                        query,
                        Err(e),
                    ),
            },
    {
        let ranged = from.is_some() || to.is_some();
        let query = self.query_for(ids, from, to, filters);
        let asked = &query;
        assert(self.asks(*asked, ids@, from, to, filters@));
        match ask(store, asked) {
            Ok(entries) => {
                assert(log_store::may_answer(store, asked, Ok(entries)));
                Ok(self.select_lines(&entries, ranged))
            },
            Err(e) => Err(e),
        }
    }

    /// How the lines are formatted, on an output with or without colors.
    pub fn line_format(
        &self,
        single_daemon: bool,
        id_width: usize,
        colors: bool,
        show_timestamp: bool,
    ) -> (r: LineFormat)
        ensures
            r == (LineFormat {
                single_daemon,
                id_width,
                strip_ansi: self.raw || !colors,
                show_timestamp,
            }),
    {
        LineFormat { single_daemon, id_width, strip_ansi: self.raw || !colors, show_timestamp }
    }

    /// How a number of lines are put out on a terminal of some height, or where there is none.
    pub fn output(
        &self,
        lines: usize,
        is_terminal: bool,
        height: Option<usize>,
    ) -> (r: LogsOutput)
        ensures
            r == if lines == 0 {
                LogsOutput::Nothing
            } else if !self.raw && !self.tail && !self.no_pager && pages(
                lines as int,
                is_terminal,
                height,
            ) {
                LogsOutput::Pager
            } else {
                LogsOutput::Direct
            },
    {
        if lines == 0 {
            LogsOutput::Nothing
        } else if !self.raw && !self.tail && !self.no_pager && should_use_pager(
            lines,
            is_terminal,
            height,
        ) {
            LogsOutput::Pager
        } else {
            LogsOutput::Direct
        }
    }
}

/// The lines that are shown of an answer: with a range of time all of them; without one the first
/// `n`, which are the newest, turned round.
pub open spec fn selected(lines: Seq<LineView>, ranged: bool, n: Option<usize>) -> Seq<LineView> {
    if ranged {
        lines
    } else {
        match n {
            Some(k) => if k < lines.len() {
                lines.take(k as int).reverse()
            } else {
                lines.reverse()
            },
            None => lines.reverse(),
        }
    }
}

/// The last items of a list, at most `n` of them.
pub open spec fn last_of<A>(items: Seq<A>, n: nat) -> Seq<A> {
    if n < items.len() {
        items.skip(items.len() - n)
    } else {
        items
    }
}

/// Where the store answers with the newest lines first, at most as many as were asked for, the
/// lines that are shown are the last ones, in order.
pub proof fn last_lines_are_shown(all: Seq<LineView>, n: usize)
    ensures
        selected(
            if n < all.len() {
                all.reverse().take(n as int)
            } else {
                all.reverse()
            },
            false,
            Some(n),
        ) == last_of(all, n as nat),
        selected(all.reverse(), false, None) == all,
{
    if n < all.len() {
        assert(all.reverse().take(n as int).reverse() =~= last_of(all, n as nat));
    } else {
        assert(all.reverse().reverse() =~= all);
    }
    assert(all.reverse().reverse() =~= all);
}

/// The qualified forms of identifiers.
pub fn qualified_ids(ids: &Vec<DaemonId>) -> (r: Vec<String>)
    ensures
        text::texts(r@) == ids@.map_values(
            |d: DaemonId| daemon_id::qualified_text(d@.0, d@.1),
        ),
{
    let mut out: Vec<String> = Vec::new();
    let ghost goal = ids@.map_values(|d: DaemonId| daemon_id::qualified_text(d@.0, d@.1));
    let mut i: usize = 0;
    while i < ids.len()
        invariant
            i <= ids@.len(),
            goal == ids@.map_values(|d: DaemonId| daemon_id::qualified_text(d@.0, d@.1)),
            text::texts(out@) == goal.take(i as int),
        decreases ids@.len() - i,
    {
        let ghost before = text::texts(out@);
        out.push(ids[i].qualified());
        assert(text::texts(out@) =~= before.push(goal[i as int]));
        i = i + 1;
    }
    assert(text::texts(out@) =~= goal);
    out
}

/// Whether lines are more than a terminal shows at once.
pub open spec fn pages(lines: int, is_terminal: bool, height: Option<usize>) -> bool {
    is_terminal && lines > match height {
        Some(h) => h as int,
        None => 24,
    }
}

/// Whether lines are more than a terminal shows at once.
pub fn should_use_pager(line_count: usize, is_terminal: bool, height: Option<usize>) -> (r: bool)
    ensures
        r == pages(line_count as int, is_terminal, height),
{
    if !is_terminal {
        return false;
    }
    let terminal_height: usize = match height {
        Some(h) => h,
        None => 24,
    };
    line_count > terminal_height
}

/// The height of the terminal: what the environment says, where that is a number, else what the
/// terminal says.
pub fn get_terminal_height(lines_setting: Option<&str>, rows: Option<u16>) -> (r: Option<usize>)
    ensures
        r == match lines_setting {
            Some(s) => match text::parsed_usize(s@) {
                Some(h) => Some(h),
                None => rows_height(rows),
            },
            None => rows_height(rows),
        },
{
    if let Some(s) = lines_setting {
        if let Some(h) = parse_usize(s) {
            return Some(h);
        }
    }
    match rows {
        Some(h) => Some(h as usize),
        None => None,
    }
}

/// The height that a terminal says it has.
pub open spec fn rows_height(rows: Option<u16>) -> Option<usize> {
    match rows {
        Some(h) => Some(h as usize),
        None => None,
    }
}

/// The length in bytes of the longest of some texts.
pub open spec fn longest(list: Seq<Seq<char>>) -> nat
    decreases list.len(),
{
    if list.len() == 0 {
        0
    } else {
        let before = longest(list.drop_last());
        let last = terminal::bytes_of(list.last()).len();
        if last > before {
            last
        } else {
            before
        }
    }
}

/// A text has at least as many bytes as characters.
proof fn lemma_bytes_of_chars(s: Seq<char>)
    ensures
        terminal::bytes_of(s).len() >= s.len(),
    decreases s.len(),
{
    if s.len() > 0 {
        lemma_bytes_of_chars(s.drop_first());
    }
}

/// The column of identifiers holds each of them, so that messages of different daemons line up.
pub proof fn columns_hold_every_id(list: Seq<Seq<char>>, at: int)
    requires
        0 <= at < list.len(),
    ensures
        list[at].len() <= longest(list),
    decreases list.len(),
{
    lemma_bytes_of_chars(list.last());
    if at < list.len() - 1 {
        columns_hold_every_id(list.drop_last(), at);
    }
}

/// The identifiers of log lines.
pub open spec fn line_ids(lines: Seq<LogLine>) -> Seq<Seq<char>> {
    lines.map_values(|l: LogLine| l.daemon_id@)
}

/// The width of the column of identifiers of log lines.
pub fn id_width(lines: &Vec<LogLine>) -> (r: usize)
    ensures
        r == longest(line_ids(lines@)),
{
    let mut width: usize = 0;
    let mut i: usize = 0;
    let ghost ids = line_ids(lines@);
    while i < lines.len()
        invariant
            i <= lines@.len(),
            ids == line_ids(lines@),
            width == longest(ids.take(i as int)),
        decreases lines@.len() - i,
    {
        assert(ids.take(i + 1).drop_last() =~= ids.take(i as int));
        let bytes = lines[i].daemon_id.as_str().as_bytes();
        let n: usize = bytes.len();
        if n > width {
            width = n;
        }
        i = i + 1;
    }
    assert(ids.take(i as int) =~= ids);
    width
}

/// The width of the column of identifiers of daemons.
pub fn daemon_id_width(ids: &Vec<DaemonId>) -> (r: usize)
    ensures
        r == longest(
            ids@.map_values(|d: DaemonId| daemon_id::qualified_text(d@.0, d@.1)),
        ),
{
    let list = qualified_ids(ids);
    let mut width: usize = 0;
    let mut i: usize = 0;
    let ghost forms = text::texts(list@);
    while i < list.len()
        invariant
            i <= list@.len(),
            forms == text::texts(list@),
            width == longest(forms.take(i as int)),
        decreases list@.len() - i,
    {
        assert(forms.take(i + 1).drop_last() =~= forms.take(i as int));
        let n: usize = list[i].as_str().as_bytes().len();
        if n > width {
            width = n;
        }
        i = i + 1;
    }
    assert(forms.take(i as int) =~= forms);
    width
}

/// The JSON entries of log lines: their messages are without control sequences.
pub fn json_entries(lines: &Vec<LogLine>) -> (r: Vec<JsonLogEntry>)
    ensures
        r@.len() == lines@.len(),
        forall|i: int|
            0 <= i < lines@.len() ==> {
                &&& (#[trigger] r@[i]).timestamp@ == lines@[i].date@
                &&& r@[i].daemon_id@ == lines@[i].daemon_id@
                &&& r@[i].message@ == terminal::plain_text(lines@[i].message@)
            },
{
    let mut out: Vec<JsonLogEntry> = Vec::new();
    let mut i: usize = 0;
    while i < lines.len()
        invariant
            i <= lines@.len(),
            out@.len() == i,
            forall|k: int|
                0 <= k < i ==> {
                    &&& (#[trigger] out@[k]).timestamp@ == lines@[k].date@
                    &&& out@[k].daemon_id@ == lines@[k].daemon_id@
                    &&& out@[k].message@ == terminal::plain_text(lines@[k].message@)
                },
        decreases lines@.len() - i,
    {
        out.push(
            JsonLogEntry {
                timestamp: lines[i].date.clone(),
                daemon_id: lines[i].daemon_id.clone(),
                message: strip_ansi(lines[i].message.as_str()),
            },
        );
        i = i + 1;
    }
    out
}

/// What becomes of a directory among the logs that may have the older layout.
#[derive(Debug, Clone, Copy, PartialEq, Eq, Structural)]
pub enum DirStep {
    /// It stays.
    Keep,
    /// It stays; its name looks like the newer layout and is none of its names.
    WarnOfName,
    /// It stays; it has the older layout, and its name is no name of a daemon.
    WarnOfDaemon,
    /// It gets its name in the newer layout, and so does the log in it.
    Rename,
}

/// What becomes of a directory, by its name, whether it holds a log of its name, and whether its
/// name in the newer layout is taken.
pub open spec fn dir_step(
    name: Seq<char>,
    known: Set<Seq<char>>,
    has_log: bool,
    is_taken: bool,
) -> DirStep {
    if name == "pitchfork"@ {
        DirStep::Keep
    } else if text::occurs_in("--"@, name) {
        if daemon_id::safe_path_fault(name) is None || known.contains(name) {
            DirStep::Keep
        } else {
            DirStep::WarnOfName
        }
    } else if !has_log {
        DirStep::Keep
    } else if daemon_id::pair_fault("legacy"@, name) is Some {
        DirStep::WarnOfDaemon
    } else if is_taken {
        DirStep::Keep
    } else {
        DirStep::Rename
    }
}

/// What becomes of a directory. `known` are the safe paths of known daemons, `has_log` tells whether
/// it holds a log of its name, and `is_taken` whether its name in the newer layout is taken.
pub fn legacy_dir_step(name: &str, known: &TextSet, has_log: bool, is_taken: bool) -> (r: DirStep)
    ensures
        r == dir_step(name@, known@, has_log, is_taken),
{
    if text_eq(name, "pitchfork") {
        return DirStep::Keep;
    }
    if contains_text(name, "--") {
        if DaemonId::from_safe_path(name).is_ok() {
            return DirStep::Keep;
        }
        if known.contains(name) {
            return DirStep::Keep;
        }
        return DirStep::WarnOfName;
    }
    if !has_log {
        return DirStep::Keep;
    }
    if DaemonId::try_new("legacy", name).is_err() {
        return DirStep::WarnOfDaemon;
    }
    if is_taken {
        DirStep::Keep
    } else {
        DirStep::Rename
    }
}

/// The name of a directory of the older layout in the newer one; nothing where the name is no
/// name of a daemon.
pub fn migrated_dir_name(name: &str) -> (r: Option<String>)
    ensures
        match r {
            Some(s) => daemon_id::pair_fault("legacy"@, name@) is None && s@
                == daemon_id::safe_text("legacy"@, name@),
            None => daemon_id::pair_fault("legacy"@, name@) is Some,
        },
{
    match DaemonId::try_new("legacy", name) {
        Ok(id) => Some(id.safe_path()),
        Err(_) => None,
    }
}

/// The name of a directory in the newer layout.
pub open spec fn newer_name(name: Seq<char>) -> Seq<char> {
    daemon_id::safe_text("legacy"@, name)
}

/// The name of the log in a directory.
pub open spec fn log_name(dir: Seq<char>) -> Seq<char> {
    dir + ".log"@
}

/// The directories among the logs, each with the names of the files in it.
pub type LogDirs = Map<Seq<char>, Set<Seq<char>>>;

/// Whether a directory is renamed.
pub open spec fn is_renamed(dirs: LogDirs, known: Set<Seq<char>>, name: Seq<char>) -> bool {
    dirs.contains_key(name) && dir_step(
        name,
        known,
        dirs[name].contains(log_name(name)),
        dirs.contains_key(newer_name(name)),
    ) is Rename
}

/// The directories after one of them was looked at.
pub open spec fn after_dir(dirs: LogDirs, known: Set<Seq<char>>, name: Seq<char>) -> LogDirs {
    if is_renamed(dirs, known, name) {
        dirs.remove(name).insert(
            newer_name(name),
            dirs[name].remove(log_name(name)).insert(log_name(newer_name(name))),
        )
    } else {
        dirs
    }
}

/// The directories after some of them were looked at.
pub open spec fn after_dirs(
    dirs: LogDirs,
    known: Set<Seq<char>>,
    names: Seq<Seq<char>>,
) -> LogDirs
    decreases names.len(),
{
    if names.len() == 0 {
        dirs
    } else {
        after_dir(after_dirs(dirs, known, names.drop_last()), known, names.last())
    }
}

/// A name in the newer layout looks like one.
proof fn lemma_newer_name(name: Seq<char>)
    ensures
        text::occurs_in("--"@, newer_name(name)),
{
    let dir = newer_name(name);
    reveal_strlit("--");
    let at = "legacy"@.len() as int;
    assert(dir.subrange(at, at + 2) =~= "--"@);
    assert(text::occurs_at("--"@, dir, at));
}

/// A directory is renamed exactly where it has the older layout with its log, under a name that a
/// daemon can have, and its name in the newer layout is free. No other directory changes then, and
/// none is overwritten.
pub proof fn only_older_logs_are_renamed(dirs: LogDirs, known: Set<Seq<char>>, name: Seq<char>)
    requires
        dirs.contains_key(name),
    ensures
        is_renamed(dirs, known, name) <==> name != "pitchfork"@ && !text::occurs_in("--"@, name)
            && dirs[name].contains(log_name(name)) && daemon_id::pair_fault("legacy"@, name) is None
            && !dirs.contains_key(newer_name(name)),
        is_renamed(dirs, known, name) ==> !after_dir(dirs, known, name).contains_key(name)
            && after_dir(dirs, known, name).contains_key(newer_name(name)),
        forall|other: Seq<char>| #[trigger]
            dirs.contains_key(other) && other != name ==> after_dir(dirs, known, name).contains_key(
                other,
            ) && after_dir(dirs, known, name)[other] == dirs[other],
{
    lemma_newer_name(name);
}

/// A directory that is not renamed now is not renamed after another one was looked at.
proof fn lemma_stays_unrenamed(
    dirs: LogDirs,
    known: Set<Seq<char>>,
    other: Seq<char>,
    name: Seq<char>,
)
    requires
        !is_renamed(dirs, known, name),
    ensures
        !is_renamed(after_dir(dirs, known, other), known, name),
{
    if is_renamed(dirs, known, other) {
        lemma_newer_name(other);
        lemma_newer_name(name);
    }
}

/// After some directories were looked at, none of them is renamed any more, and a new one has a
/// name of the newer layout.
proof fn lemma_looked_at(
    dirs: LogDirs,
    known: Set<Seq<char>>,
    names: Seq<Seq<char>>,
    name: Seq<char>,
)
    ensures
        names.contains(name) ==> !is_renamed(after_dirs(dirs, known, names), known, name),
        after_dirs(dirs, known, names).contains_key(name) ==> dirs.contains_key(name)
            || text::occurs_in("--"@, name),
    decreases names.len(),
{
    if names.len() > 0 {
        let before = names.drop_last();
        let last = names.last();
        let half = after_dirs(dirs, known, before);
        lemma_looked_at(dirs, known, before, name);
        lemma_newer_name(last);
        if names.contains(name) {
            if name != last {
                let k = choose|k: int| 0 <= k < names.len() && names[k] == name;
                assert(before[k] == name);
                lemma_stays_unrenamed(half, known, last, name);
            }
        }
    }
}

/// A second look renames nothing, whatever it looks at.
pub proof fn migration_happens_once(
    dirs: LogDirs,
    known: Set<Seq<char>>,
    names: Seq<Seq<char>>,
    again: Seq<Seq<char>>,
)
    requires
        forall|name: Seq<char>| #[trigger] dirs.contains_key(name) ==> names.contains(name),
    ensures
        after_dirs(after_dirs(dirs, known, names), known, again) == after_dirs(dirs, known, names),
    decreases again.len(),
{
    if again.len() > 0 {
        let once = after_dirs(dirs, known, names);
        migration_happens_once(dirs, known, names, again.drop_last());
        lemma_looked_at(dirs, known, names, again.last());
        assert(!is_renamed(once, known, again.last()));
    }
}

/// The safe paths of daemons.
pub fn known_safe_paths(state: &Vec<DaemonId>, config: &Vec<DaemonId>) -> (r: TextSet)
    ensures
        forall|s: Seq<char>| #[trigger]
            r@.contains(s) <==> has_safe_path(state@, s) || has_safe_path(config@, s),
{
    let mut out = TextSet::new();
    let mut i: usize = 0;
    while i < state.len()
        invariant
            i <= state@.len(),
            forall|s: Seq<char>| #[trigger]
                out@.contains(s) <==> has_safe_path(state@.take(i as int), s),
        decreases state@.len() - i,
    {
        proof {
            lemma_safe_path_push(state@, i as int);
        }
        out.insert(state[i].safe_path());
        i = i + 1;
    }
    assert(state@.take(i as int) =~= state@);
    let mut j: usize = 0;
    while j < config.len()
        invariant
            j <= config@.len(),
            forall|s: Seq<char>| #[trigger]
                out@.contains(s) <==> has_safe_path(state@, s) || has_safe_path(
                    config@.take(j as int),
                    s,
                ),
        decreases config@.len() - j,
    {
        proof {
            lemma_safe_path_push(config@, j as int);
        }
        out.insert(config[j].safe_path());
        j = j + 1;
    }
    assert(config@.take(j as int) =~= config@);
    out
}

/// Whether one of some daemons has a safe path.
pub open spec fn has_safe_path(ids: Seq<DaemonId>, s: Seq<char>) -> bool {
    exists|i: int|
        0 <= i < ids.len() && daemon_id::safe_text((#[trigger] ids[i])@.0, ids[i]@.1) == s
}

proof fn lemma_safe_path_push(ids: Seq<DaemonId>, n: int)
    requires
        0 <= n < ids.len(),
    ensures
        forall|s: Seq<char>| #[trigger]
            has_safe_path(ids.take(n + 1), s) == (has_safe_path(ids.take(n), s)
                || daemon_id::safe_text(ids[n]@.0, ids[n]@.1) == s),
{
    let more = ids.take(n + 1);
    let less = ids.take(n);
    assert forall|s: Seq<char>| #[trigger] has_safe_path(more, s) == (has_safe_path(less, s)
        || daemon_id::safe_text(ids[n]@.0, ids[n]@.1) == s) by {
        if has_safe_path(less, s) {
            let i = choose|i: int|
                0 <= i < less.len() && daemon_id::safe_text((#[trigger] less[i])@.0, less[i]@.1)
                    == s;
            assert(more[i] == less[i]);
        }
        if has_safe_path(more, s) {
            let i = choose|i: int|
                0 <= i < more.len() && daemon_id::safe_text((#[trigger] more[i])@.0, more[i]@.1)
                    == s;
            if i < n {
                assert(less[i] == more[i]);
            }
        }
        assert(more[n] == ids[n]);
    }
}

/// The command asks the store for exactly the entries of its daemons within its range of time that
/// pass one of its filters, where there are any. Without a range it asks for the newest ones first, at
/// most as many as `-n` says; with one it asks for all, the oldest first.
pub proof fn logs_ask_for_what_was_asked(
    args: Logs,
    query: LogQuery,
    ids: Seq<DaemonId>,
    from: Option<Moment>,
    to: Option<Moment>,
    filters: Seq<MessageFilter>,
    plan: sqlite::QueryPlan,
    row: sqlite::Row,
)
    requires
        args.asks(query, ids, from, to, filters),
        plan.plans(query@),
        plan.params@.len() < usize::MAX,
    ensures
        statement::where_finds(plan.where_text(), sqlite::values(plan.params@), row) <==> {
            &&& ids.len() == 0 || exists|i: int|
                0 <= i < ids.len() && daemon_id::qualified_text((#[trigger] ids[i])@.0, ids[i]@.1)
                    == row.daemon_id
            &&& from matches Some(m) ==> row.millis >= m@ / 1_000_000
            &&& to matches Some(m) ==> row.millis <= m@ / 1_000_000
            &&& filters.len() == 0 || exists|k: int|
                0 <= k < filters.len() && statement::lets_pass(#[trigger] filters[k], row.message)
        },
        statement::read(plan.sql_text()) matches Some(reading) && {
            &&& reading.newest_first <==> from is None && to is None
            &&& from is Some || to is Some ==> reading.limit is None
            &&& from is None && to is None ==> reading.limit == match args.n {
                Some(n) => Some(n as nat),
                None => None,
            }
        },
{
    statement::statement_finds_what_was_asked(query, plan, row);
    statement::statement_is_read_as_asked(query, plan);
    let forms = ids.map_values(|d: DaemonId| daemon_id::qualified_text(d@.0, d@.1));
    let texts = text::texts(query.daemon_ids@);
    assert(texts.len() == query.daemon_ids@.len());
    assert(forms.len() == ids.len());
    assert forall|i: int| 0 <= i < ids.len() implies (#[trigger] query.daemon_ids@[i])@
        == daemon_id::qualified_text(ids[i]@.0, ids[i]@.1) by {
        assert(texts[i] == forms[i]);
    }
    if exists|i: int|
        0 <= i < ids.len() && daemon_id::qualified_text((#[trigger] ids[i])@.0, ids[i]@.1)
            == row.daemon_id {
        let i = choose|i: int|
            0 <= i < ids.len() && daemon_id::qualified_text((#[trigger] ids[i])@.0, ids[i]@.1)
                == row.daemon_id;
        assert(query.daemon_ids@[i]@ == row.daemon_id);
    }
    if exists|i: int|
        0 <= i < query.daemon_ids@.len() && (#[trigger] query.daemon_ids@[i])@ == row.daemon_id {
        let i = choose|i: int|
            0 <= i < query.daemon_ids@.len() && (#[trigger] query.daemon_ids@[i])@ == row.daemon_id;
        assert(daemon_id::qualified_text(ids[i]@.0, ids[i]@.1) == row.daemon_id);
    }
}

/// Each `--grep` is a filter, in the same casing exactly where that is asked for, and `--regex` is one
/// more behind them.
pub proof fn each_pattern_is_a_filter(args: Logs)
    ensures
        args.filters().len() == args.grep@.len() + if args.regex is Some {
            1int
        } else {
            0
        },
        forall|i: int|
            0 <= i < args.grep@.len() ==> #[trigger] args.filters()[i] == if args.case_sensitive {
                FilterView::ContainsCased(args.grep@[i]@)
            } else {
                FilterView::Contains(args.grep@[i]@)
            },
        args.regex matches Some(pattern) ==> args.filters().last() == FilterView::Regex(pattern@),
{
    let texts = text::texts(args.grep@);
    assert(texts.len() == args.grep@.len());
    assert forall|i: int| 0 <= i < args.grep@.len() implies #[trigger] args.filters()[i]
        == if args.case_sensitive {
        FilterView::ContainsCased(args.grep@[i]@)
    } else {
        FilterView::Contains(args.grep@[i]@)
    } by {
        assert(texts[i] == args.grep@[i]@);
        assert(args.grep_filters()[i] == grep_filter(texts[i], args.case_sensitive));
    }
}

/// Of an answer with a range of time every line is shown as it comes; without one the newest `n` are,
/// or all, the oldest of them first.
pub proof fn answers_are_shown_oldest_first(all: Seq<LineView>, n: Option<usize>)
    ensures
        selected(all, true, n) == all,
        n is None ==> selected(all.reverse(), false, n) == all,
        n matches Some(k) ==> selected(all.reverse(), false, n) == if k < all.len() {
            all.skip(all.len() - k)
        } else {
            all
        },
{
    assert(all.reverse().reverse() =~= all);
    if let Some(k) = n {
        if k < all.len() {
            assert(all.reverse().take(k as int).reverse() =~= all.skip(all.len() - k));
        }
    }
}

/// The line of an entry holds its date and time, its daemon and its message.
pub proof fn lines_tell_their_entries(e: LogEntry)
    ensures
        entry_line(e).date == clock::stamp_text(e.timestamp@, "%Y-%m-%d %H:%M:%S"@),
        entry_line(e).daemon_id == e.daemon_id@,
        entry_line(e).message == e.message@,
{
}

/// A line without colors: the identifier in its column, unless there is one daemon only; the time,
/// where it is shown; then the message, without control sequences where they are removed.
pub proof fn plain_lines_hold_all_that_is_shown(
    date: Seq<char>,
    id: Seq<char>,
    msg: Seq<char>,
    format: LineFormat,
    colors: bool,
)
    requires
        format.strip_ansi || !colors,
    ensures
        line_text(date, id, msg, format, colors) == (if format.single_daemon {
            Seq::empty()
        } else {
            terminal::padded(id, format.id_width) + "  "@
        }) + (if format.show_timestamp {
            date + " "@
        } else {
            Seq::empty()
        }) + (if format.strip_ansi {
            terminal::plain_text(msg)
        } else {
            msg
        }),
{
    let shown = if format.strip_ansi {
        terminal::plain_text(msg)
    } else {
        msg
    };
    let whole = (if format.single_daemon {
        Seq::empty()
    } else {
        terminal::padded(id, format.id_width) + "  "@
    }) + (if format.show_timestamp {
        date + " "@
    } else {
        Seq::empty()
    }) + shown;
    assert(line_text(date, id, msg, format, colors) =~= whole);
}

/// Lines are paged on a terminal exactly where they are more than its height, which counts as 24 where
/// it is not known.
pub proof fn long_output_is_paged(lines: int, height: Option<usize>)
    ensures
        !pages(lines, false, height),
        height matches Some(h) ==> (pages(lines, true, height) <==> lines > h),
        height is None ==> (pages(lines, true, height) <==> lines > 24),
{
}

/// The column of identifiers is no wider than one of them.
pub proof fn columns_are_no_wider_than_an_id(list: Seq<Seq<char>>)
    requires
        list.len() > 0,
    ensures
        exists|at: int|
            0 <= at < list.len() && terminal::bytes_of(#[trigger] list[at]).len() == longest(list),
        forall|at: int|
            0 <= at < list.len() ==> terminal::bytes_of(#[trigger] list[at]).len() <= longest(list),
    decreases list.len(),
{
    let first = list.drop_last();
    assert(list[list.len() - 1] == list.last());
    if first.len() > 0 {
        columns_are_no_wider_than_an_id(first);
        let at = choose|at: int|
            0 <= at < first.len() && terminal::bytes_of(#[trigger] first[at]).len() == longest(first);
        assert(list[at] == first[at]);
        assert forall|at: int| 0 <= at < list.len() implies terminal::bytes_of(
            #[trigger] list[at],
        ).len() <= longest(list) by {
            if at < first.len() {
                assert(first[at] == list[at]);
            }
        }
    } else {
        assert(longest(first) == 0);
        if terminal::bytes_of(list.last()).len() == 0 {
            assert(terminal::bytes_of(list[0]).len() == longest(list));
        }
    }
}

/// The pager gets arguments only where it is `less`: to show colors, and to start at the end exactly
/// where that is asked for.
pub proof fn only_less_gets_arguments(pager: Seq<char>, start_at_end: bool)
    ensures
        pager != "less"@ ==> pager_args(pager, start_at_end).len() == 0,
        pager_args("less"@, start_at_end).contains("-R"@),
        pager_args("less"@, start_at_end).contains("+G"@) <==> start_at_end,
{
    reveal_strlit("-R");
    reveal_strlit("+G");
    let args = pager_args("less"@, start_at_end);
    assert(args[0] == "-R"@);
    assert("-R"@[0] != "+G"@[0]);
    if start_at_end {
        assert(args[1] == "+G"@);
    }
}

/// A directory is warned of exactly where its name looks like the newer layout and neither is a safe
/// path nor known, or where it is of the older layout with a log and its name is none of a daemon.
pub proof fn odd_directories_are_told(
    name: Seq<char>,
    known: Set<Seq<char>>,
    has_log: bool,
    is_taken: bool,
)
    ensures
        dir_step(name, known, has_log, is_taken) is WarnOfName <==> name != "pitchfork"@
            && text::occurs_in("--"@, name) && daemon_id::safe_path_fault(name) is Some
            && !known.contains(name),
        dir_step(name, known, has_log, is_taken) is WarnOfDaemon <==> name != "pitchfork"@
            && !text::occurs_in("--"@, name) && has_log && daemon_id::pair_fault("legacy"@, name)
            is Some,
{
}

/// A line with colors is the one without them, with the time dimmed and the identifier in its own
/// color; the message is shown as it is.
pub proof fn colored_lines_hold_all_that_is_shown(
    date: Seq<char>,
    id: Seq<char>,
    msg: Seq<char>,
    format: LineFormat,
)
    requires
        !format.strip_ansi,
    ensures
        line_text(date, id, msg, format, true) == (if format.single_daemon {
            Seq::empty()
        } else {
            terminal::padded(terminal::dimmed(id, true), format.id_width) + "  "@
        }) + (if format.show_timestamp {
            terminal::styled_text(date, TextStyle::Dim, true) + " "@
        } else {
            Seq::empty()
        }) + msg,
{
    let whole = (if format.single_daemon {
        Seq::empty()
    } else {
        terminal::padded(terminal::dimmed(id, true), format.id_width) + "  "@
    }) + (if format.show_timestamp {
        terminal::styled_text(date, TextStyle::Dim, true) + " "@
    } else {
        Seq::empty()
    }) + msg;
    assert(line_text(date, id, msg, format, true) =~= whole);
}

/// Entries become lines one by one, in order.
pub proof fn entries_become_lines(entries: Seq<LogEntry>, i: int)
    requires
        0 <= i < entries.len(),
    ensures
        entry_lines(entries).len() == entries.len(),
        entry_lines(entries)[i] == entry_line(entries[i]),
{
}

/// A terminal is as high as it says.
pub proof fn heights_are_the_rows(rows: u16)
    ensures
        rows_height(Some(rows)) == Some(rows as usize),
        rows_height(None) is None,
{
}

/// A directory of the older layout, named by a daemon, goes to the namespace `legacy`, with its log;
/// all other directories stay.
pub proof fn older_logs_go_to_the_legacy_namespace(
    dirs: LogDirs,
    known: Set<Seq<char>>,
    name: Seq<char>,
    other: Seq<char>,
)
    requires
        dirs.contains_key(name),
        dirs[name].contains(name + ".log"@),
        daemon_id::valid_component(name),
        name != "pitchfork"@,
        !dirs.contains_key("legacy"@ + "--"@ + name),
        other != name,
        other != "legacy"@ + "--"@ + name,
    ensures
        !after_dir(dirs, known, name).contains_key(name),
        after_dir(dirs, known, name).contains_key("legacy"@ + "--"@ + name),
        after_dir(dirs, known, name)["legacy"@ + "--"@ + name] == dirs[name].remove(
            name + ".log"@,
        ).insert("legacy"@ + "--"@ + name + ".log"@),
        after_dir(dirs, known, name).contains_key(other) == dirs.contains_key(other),
        dirs.contains_key(other) ==> after_dir(dirs, known, name)[other] == dirs[other],
{
    daemon_id::names_follow_the_rules(name);
    reveal_strlit("legacy");
    reveal_strlit("..");
    reveal_strlit("--");
    reveal_strlit(".");
    let g = "legacy"@;
    assert(!text::occurs_in(".."@, g)) by {
        if text::occurs_in(".."@, g) {
            let at = choose|at: int| #[trigger] text::occurs_at(".."@, g, at);
            assert(g.subrange(at, at + 2)[0] == g[at]);
        }
    }
    assert(!text::occurs_in("--"@, g)) by {
        if text::occurs_in("--"@, g) {
            let at = choose|at: int| #[trigger] text::occurs_at("--"@, g, at);
            assert(g.subrange(at, at + 2)[0] == g[at]);
        }
    }
    daemon_id::names_follow_the_rules(g);
    daemon_id::the_namespace_is_checked_first(g, name);
    assert(g + "--"@ + name != name) by {
        assert((g + "--"@ + name).len() > name.len());
    }
}

/// The known safe paths are those of the daemons, of the state and of the configuration.
pub proof fn safe_paths_are_those_of_daemons(ids: Seq<DaemonId>, s: Seq<char>)
    ensures
        has_safe_path(ids, s) <==> exists|i: int|
            0 <= i < ids.len() && s == (#[trigger] ids[i])@.0 + "--"@ + ids[i]@.1,
{
    if has_safe_path(ids, s) {
        let i = choose|i: int|
            0 <= i < ids.len() && daemon_id::safe_text((#[trigger] ids[i])@.0, ids[i]@.1) == s;
        assert(s == ids[i]@.0 + "--"@ + ids[i]@.1);
    }
    if exists|i: int| 0 <= i < ids.len() && s == (#[trigger] ids[i])@.0 + "--"@ + ids[i]@.1 {
        let i = choose|i: int|
            0 <= i < ids.len() && s == (#[trigger] ids[i])@.0 + "--"@ + ids[i]@.1;
        assert(daemon_id::safe_text(ids[i]@.0, ids[i]@.1) == s);
    }
}

} // verus!
