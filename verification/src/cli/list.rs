//! The `list` command: which daemons it shows, and how.
use crate::cli::json_output::JsonListEntry;
use crate::daemon_id;
use crate::daemon_id::DaemonId;
use crate::daemon_status::DaemonStatus;
use crate::settings::AllSettings;
use crate::text;
use crate::text::{chars_of, copy_opt, join, nat_text, text_eq, text_of};
use vstd::prelude::*;

verus! {

/// Status values accepted by `list --status`.
///
/// `available` and `disabled` are no states of a daemon: they filter on
/// the list entry's flags instead. The remaining values match the corresponding
/// state (only on non-available entries, since an available
/// daemon displays as "available" regardless of its underlying status).
#[derive(Debug, Clone, Copy, PartialEq, Eq, Structural)]
pub enum StatusFilter {
    Running,
    Stopped,
    Waiting,
    Stopping,
    Failed,
    Errored,
    Available,
    Disabled,
}

/// List all daemons
#[derive(Debug)]
pub struct List {
    /// Hide the table header row
    pub hide_header: bool,
    /// Show each daemon's directory (useful with namespace_per_worktree to
    /// tell checkouts apart)
    pub dirs: bool,
    /// Output in JSON format
    pub json: bool,
    /// Filter daemons by status (repeatable for OR logic)
    ///
    /// Values: running, stopped, waiting, stopping, failed, errored, available, disabled
    pub status: Vec<StatusFilter>,
}

/// A daemon of the list.
#[derive(Debug)]
pub struct ListEntry {
    pub id: DaemonId,
    pub status: DaemonStatus,
    /// The words for the state.
    pub status_text: String,
    /// The message of a failure.
    pub error: Option<String>,
    pub pid: Option<u32>,
    pub active_port: Option<u16>,
    pub resolved_port: Vec<u16>,
    /// The directory as it is shown.
    pub dir: Option<String>,
    /// The name under which the proxy reaches it.
    pub slug: Option<String>,
    /// Whether it is configured and was not started.
    pub is_available: bool,
    pub is_disabled: bool,
}

/// Whether an entry passes a filter.
pub open spec fn passes(entry: ListEntry, filter: StatusFilter) -> bool {
    match filter {
        StatusFilter::Available => entry.is_available,
        StatusFilter::Disabled => entry.is_disabled,
        StatusFilter::Running => !entry.is_available && entry.status == DaemonStatus::Running,
        StatusFilter::Stopped => !entry.is_available && entry.status == DaemonStatus::Stopped,
        StatusFilter::Waiting => !entry.is_available && entry.status == DaemonStatus::Waiting,
        StatusFilter::Stopping => !entry.is_available && entry.status == DaemonStatus::Stopping,
        StatusFilter::Failed => !entry.is_available && entry.status == DaemonStatus::Failed,
        StatusFilter::Errored => !entry.is_available && entry.status == DaemonStatus::Errored,
    }
}

/// Whether an entry is shown: there are no filters, or it passes one.
pub open spec fn is_shown(entry: ListEntry, filters: Seq<StatusFilter>) -> bool {
    filters.len() == 0 || exists|i: int|
        0 <= i < filters.len() && passes(entry, #[trigger] filters[i])
}

impl ListEntry {
    fn passes_filter(&self, filter: StatusFilter) -> (r: bool)
        ensures
            r == passes(*self, filter),
    {
        match filter {
            StatusFilter::Available => self.is_available,
            StatusFilter::Disabled => self.is_disabled,
            StatusFilter::Running => !self.is_available && self.status == DaemonStatus::Running,
            StatusFilter::Stopped => !self.is_available && self.status == DaemonStatus::Stopped,
            StatusFilter::Waiting => !self.is_available && self.status == DaemonStatus::Waiting,
            StatusFilter::Stopping => !self.is_available && self.status == DaemonStatus::Stopping,
            StatusFilter::Failed => !self.is_available && self.status == DaemonStatus::Failed,
            StatusFilter::Errored => !self.is_available && self.status == DaemonStatus::Errored,
        }
    }

    /// The words for the state; a daemon that is only configured is available.
    pub open spec fn shown_status(&self) -> Seq<char> {
        if self.is_available {
            "available"@
        } else {
            self.status_text@
        }
    }

    fn shown_status_text(&self) -> (r: String)
        ensures
            r@ == self.shown_status(),
    {
        if self.is_available {
            "available".to_string()
        } else {
            self.status_text.clone()
        }
    }

    /// Whether the daemon has a port.
    pub open spec fn has_port(&self) -> bool {
        self.active_port is Some || self.resolved_port@.len() > 0
    }

    /// The URL of the daemon: where the proxy is on, and it has a port and a slug.
    pub open spec fn url(&self, s: AllSettings) -> Option<Seq<char>> {
        if s.proxy.enable && self.has_port() {
            proxy_url(text::opt_text(self.slug), s)
        } else {
            None
        }
    }

    fn url_text(&self, s: &AllSettings) -> (r: Option<String>)
        ensures
            text::opt_text(r) == self.url(*s),
    {
        if s.proxy.enable && (self.active_port.is_some() || self.resolved_port.len() > 0) {
            match &self.slug {
                Some(slug) => build_proxy_url(Some(slug.as_str()), s),
                None => build_proxy_url(None, s),
            }
        } else {
            None
        }
    }
}

/// A port, where a number is one.
pub open spec fn valid_port(port: int) -> Option<u16> {
    if 0 < port <= 65535 {
        Some(port as u16)
    } else {
        None
    }
}

/// A port, where a number is one.
pub fn to_port(port: i64) -> (r: Option<u16>)
    ensures
        r == valid_port(port as int),
{
    if 0 < port && port <= 65535 {
        Some(port as u16)
    } else {
        None
    }
}

/// The scheme of the proxy.
pub open spec fn proxy_scheme(https: bool) -> Seq<char> {
    if https {
        "https"@
    } else {
        "http"@
    }
}

/// A URL; the port that a scheme has anyway is left out.
pub open spec fn url_at(https: bool, host: Seq<char>, port: u16) -> Seq<char> {
    let base = proxy_scheme(https) + "://"@ + host;
    if port == if https {
        443u16
    } else {
        80u16
    } {
        base
    } else {
        base + ":"@ + text::decimal(port as int)
    }
}

/// A URL; the port that a scheme has anyway is left out.
pub fn format_url(https: bool, host: &str, port: u16) -> (r: String)
    ensures
        r@ == url_at(https, host@, port),
{
    let (scheme, standard_port) = if https {
        ("https", 443u16)
    } else {
        ("http", 80u16)
    };
    let base = scheme.to_string().concat("://").concat(host);
    if port == standard_port {
        base
    } else {
        base.concat(":").concat(nat_text(port as u64).as_str())
    }
}

/// The URL of a slug.
pub open spec fn proxy_url(slug: Option<Seq<char>>, s: AllSettings) -> Option<Seq<char>> {
    match slug {
        None => None,
        Some(name) => match valid_port(s.proxy.port as int) {
            None => None,
            Some(port) => Some(url_at(s.proxy.https, name + "."@ + s.proxy.tld@, port)),
        },
    }
}

/// Build the proxy URL for a daemon based on its slug and proxy settings.
///
/// Only daemons with a `slug` are routable through the proxy — no slug means
/// not proxied.
///
/// Returns `None` if:
/// - The daemon has no slug (not proxied)
/// - `proxy.port` is invalid (out of range or zero)
pub fn build_proxy_url(slug: Option<&str>, s: &AllSettings) -> (r: Option<String>)
    ensures
        text::opt_text(r) == proxy_url(text::opt_str(slug), *s),
{
    match slug {
        None => None,
        Some(name) => match to_port(s.proxy.port) {
            None => None,
            Some(port) => {
                let host = name.to_string().concat(".").concat(s.proxy.tld.as_str());
                Some(format_url(s.proxy.https, host.as_str(), port))
            },
        },
    }
}

/// Whether a JSON entry shows a daemon.
pub open spec fn json_shows(j: JsonListEntry, e: ListEntry, s: AllSettings) -> bool {
    &&& j.id@ == daemon_id::qualified_text(e.id@.0, e.id@.1)
    &&& j.namespace@ == e.id@.0
    &&& j.name@ == e.id@.1
    &&& j.pid == e.pid
    &&& j.status@ == e.shown_status()
    &&& j.disabled == e.is_disabled
    &&& j.available == e.is_available
    &&& text::opt_text(j.proxy_url) == e.url(s)
    &&& text::opt_text(j.error) == text::opt_text(e.error)
    &&& j.active_port == e.active_port
    &&& j.port@ == e.resolved_port@
}

fn copy_ports(ports: &Vec<u16>) -> (r: Vec<u16>)
    ensures
        r@ == ports@,
{
    let mut out: Vec<u16> = Vec::new();
    let mut i: usize = 0;
    while i < ports.len()
        invariant
            i <= ports@.len(),
            out@ == ports@.take(i as int),
        decreases ports@.len() - i,
    {
        out.push(ports[i]);
        assert(ports@.take(i + 1) =~= ports@.take(i as int).push(ports@[i as int]));
        i = i + 1;
    }
    assert(ports@.take(i as int) =~= ports@);
    out
}

/// A color of a table.
#[derive(Debug, Clone, Copy, PartialEq, Eq, Structural)]
pub enum CellColor {
    Cyan,
    Red,
    Yellow,
    Green,
    DarkGrey,
}

/// The color of the state of a daemon.
pub open spec fn status_color(e: ListEntry) -> CellColor {
    if e.is_available {
        CellColor::Cyan
    } else {
        match e.status {
            DaemonStatus::Failed => CellColor::Red,
            DaemonStatus::Waiting => CellColor::Yellow,
            DaemonStatus::Running => CellColor::Green,
            DaemonStatus::Stopping => CellColor::Yellow,
            DaemonStatus::Stopped => CellColor::DarkGrey,
            DaemonStatus::Errored => CellColor::Red,
        }
    }
}

/// The message of a failure; nothing where there is none.
pub open spec fn error_text(e: ListEntry) -> Seq<char> {
    match e.error {
        Some(s) => s@,
        None => Seq::empty(),
    }
}

/// What stands in the last column: that the daemon is disabled, its URL, and its failure.
pub open spec fn extra_parts(e: ListEntry, s: AllSettings) -> Seq<Seq<char>> {
    (if e.is_disabled {
        seq!["disabled"@]
    } else {
        Seq::empty()
    }) + (match e.url(s) {
        Some(url) => seq![url],
        None => Seq::empty(),
    }) + if error_text(e).len() > 0 {
        seq![error_text(e)]
    } else {
        Seq::empty()
    }
}

/// The last column.
pub open spec fn extra_text(e: ListEntry, s: AllSettings) -> Seq<char> {
    text::joined(extra_parts(e, s), "  "@)
}

/// The color of the last column: a failure comes before being disabled, and that before a URL.
pub open spec fn extra_color(e: ListEntry, s: AllSettings) -> Option<CellColor> {
    if extra_text(e, s).len() == 0 {
        None
    } else if error_text(e).len() > 0 {
        Some(CellColor::Red)
    } else if e.is_disabled {
        Some(CellColor::DarkGrey)
    } else {
        Some(CellColor::Cyan)
    }
}

/// A row of the table.
#[derive(Debug)]
pub struct ListRow {
    pub id: DaemonId,
    /// Whether the name is shown with its namespace.
    pub with_namespace: bool,
    pub status: String,
    pub status_color: CellColor,
    /// The directory, where the table has a column for it.
    pub dir: Option<String>,
    pub extra: String,
    pub extra_color: Option<CellColor>,
}

/// Whether another namespace has a daemon of the same name.
pub open spec fn shares_name(all: Seq<ListEntry>, id: (Seq<char>, Seq<char>)) -> bool {
    exists|i: int|
        0 <= i < all.len() && (#[trigger] all[i]).id@.1 == id.1 && all[i].id@.0 != id.0
}

/// Whether a row shows a daemon, one of all. Its namespace is shown where the name alone would not
/// say which daemon it is.
pub open spec fn row_shows(
    row: ListRow,
    e: ListEntry,
    all: Seq<ListEntry>,
    dirs: bool,
    s: AllSettings,
) -> bool {
    &&& row.id@ == e.id@
    &&& row.with_namespace == shares_name(all, e.id@)
    &&& row.status@ == e.shown_status()
    &&& row.status_color == status_color(e)
    &&& text::opt_text(row.dir) == if dirs {
        Some(
            match e.dir {
                Some(d) => d@,
                None => Seq::empty(),
            },
        )
    } else {
        None
    }
    &&& row.extra@ == extra_text(e, s)
    &&& row.extra_color == extra_color(e, s)
}

fn has_namesake(all: &Vec<ListEntry>, id: &DaemonId) -> (r: bool)
    ensures
        r == shares_name(all@, id@),
{
    let mut i: usize = 0;
    while i < all.len()
        invariant
            i <= all@.len(),
            forall|k: int|
                0 <= k < i ==> !((#[trigger] all@[k]).id@.1 == id@.1 && all@[k].id@.0 != id@.0),
        decreases all@.len() - i,
    {
        if text_eq(all[i].id.name(), id.name()) && !text_eq(
            all[i].id.namespace(),
            id.namespace(),
        ) {
            return true;
        }
        i = i + 1;
    }
    false
}

fn make_row(e: &ListEntry, all: &Vec<ListEntry>, dirs: bool, s: &AllSettings) -> (r: ListRow)
    ensures
        row_shows(r, *e, all@, dirs, *s),
{
    let color = if e.is_available {
        CellColor::Cyan
    } else {
        match e.status {
            DaemonStatus::Failed => CellColor::Red,
            DaemonStatus::Waiting => CellColor::Yellow,
            DaemonStatus::Running => CellColor::Green,
            DaemonStatus::Stopping => CellColor::Yellow,
            DaemonStatus::Stopped => CellColor::DarkGrey,
            DaemonStatus::Errored => CellColor::Red,
        }
    };
    let mut parts: Vec<String> = Vec::new();
    if e.is_disabled {
        parts.push("disabled".to_string());
    }
    if let Some(url) = e.url_text(s) {
        parts.push(url);
    }
    let error = match &e.error {
        Some(m) => m.clone(),
        None => String::new(),
    };
    let failed = !error.as_str().is_empty();
    if failed {
        parts.push(error);
    }
    assert(text::texts(parts@) =~= extra_parts(*e, *s));
    let extra = join(&parts, "  ");
    let extra_color = if extra.as_str().is_empty() {
        None
    } else if failed {
        Some(CellColor::Red)
    } else if e.is_disabled {
        Some(CellColor::DarkGrey)
    } else {
        Some(CellColor::Cyan)
    };
    let dir = if dirs {
        match &e.dir {
            Some(d) => Some(d.clone()),
            None => Some(String::new()),
        }
    } else {
        None
    };
    ListRow {
        id: e.id.duplicate(),
        with_namespace: has_namesake(all, &e.id),
        status: e.shown_status_text(),
        status_color: color,
        dir,
        extra,
        extra_color,
    }
}

/// The entries that are shown.
pub open spec fn shown_entries(entries: Seq<ListEntry>, filters: Seq<StatusFilter>) -> Seq<
    ListEntry,
>
    decreases entries.len(),
{
    if entries.len() == 0 {
        Seq::empty()
    } else if is_shown(entries.last(), filters) {
        shown_entries(entries.drop_last(), filters).push(entries.last())
    } else {
        shown_entries(entries.drop_last(), filters)
    }
}

impl List {
    fn shows(&self, e: &ListEntry) -> (r: bool)
        ensures
            r == is_shown(*e, self.status@),
    {
        if self.status.len() == 0 {
            return true;
        }
        let mut i: usize = 0;
        while i < self.status.len()
            invariant
                i <= self.status@.len(),
                self.status@.len() > 0,
                forall|k: int| 0 <= k < i ==> !passes(*e, #[trigger] self.status@[k]),
            decreases self.status@.len() - i,
        {
            if e.passes_filter(self.status[i]) {
                return true;
            }
            i = i + 1;
        }
        false
    }

    /// The JSON entries of the daemons that are shown.
    pub fn json_entries(&self, entries: &Vec<ListEntry>, s: &AllSettings) -> (r: Vec<
        JsonListEntry,
    >)
        ensures
            r@.len() == shown_entries(entries@, self.status@).len(),
            forall|i: int|
                0 <= i < r@.len() ==> json_shows(
                    #[trigger] r@[i],
                    shown_entries(entries@, self.status@)[i],
                    *s,
                ),
    {
        let mut out: Vec<JsonListEntry> = Vec::new();
        let mut i: usize = 0;
        while i < entries.len()
            invariant
                i <= entries@.len(),
                out@.len() == shown_entries(entries@.take(i as int), self.status@).len(),
                forall|k: int|
                    0 <= k < out@.len() ==> json_shows(
                        #[trigger] out@[k],
                        shown_entries(entries@.take(i as int), self.status@)[k],
                        *s,
                    ),
            decreases entries@.len() - i,
        {
            let e = &entries[i];
            assert(entries@.take(i + 1).drop_last() =~= entries@.take(i as int));
            assert(entries@.take(i + 1).last() == *e);
            if self.shows(e) {
                out.push(
                    JsonListEntry {
                        id: e.id.qualified(),
                        namespace: e.id.namespace().to_string(),
                        name: e.id.name().to_string(),
                        pid: e.pid,
                        status: e.shown_status_text(),
                        disabled: e.is_disabled,
                        available: e.is_available,
                        proxy_url: e.url_text(s),
                        error: copy_opt(&e.error),
                        active_port: e.active_port,
                        port: copy_ports(&e.resolved_port),
                    },
                );
            }
            i = i + 1;
        }
        assert(entries@.take(i as int) =~= entries@);
        out
    }

    /// The rows of the daemons that are shown.
    pub fn rows(&self, entries: &Vec<ListEntry>, s: &AllSettings) -> (r: Vec<ListRow>)
        ensures
            r@.len() == shown_entries(entries@, self.status@).len(),
            forall|i: int|
                0 <= i < r@.len() ==> row_shows(
                    #[trigger] r@[i],
                    shown_entries(entries@, self.status@)[i],
                    entries@,
                    self.dirs,
                    *s,
                ),
    {
        let mut out: Vec<ListRow> = Vec::new();
        let mut i: usize = 0;
        while i < entries.len()
            invariant
                i <= entries@.len(),
                out@.len() == shown_entries(entries@.take(i as int), self.status@).len(),
                forall|k: int|
                    0 <= k < out@.len() ==> row_shows(
                        #[trigger] out@[k],
                        shown_entries(entries@.take(i as int), self.status@)[k],
                        entries@,
                        self.dirs,
                        *s,
                    ),
            decreases entries@.len() - i,
        {
            let e = &entries[i];
            assert(entries@.take(i + 1).drop_last() =~= entries@.take(i as int));
            assert(entries@.take(i + 1).last() == *e);
            if self.shows(e) {
                out.push(make_row(e, entries, self.dirs, s));
            }
            i = i + 1;
        }
        assert(entries@.take(i as int) =~= entries@);
        out
    }

    /// The cells of the header, where one is shown: not where it is hidden or nobody looks.
    pub fn header(&self, attended: bool) -> (r: Option<Vec<String>>)
        ensures
            match r {
                Some(cells) => !self.hide_header && attended && text::texts(cells@)
                    == if self.dirs {
                    seq!["Name"@, "Status"@, "Dir"@, ""@]
                } else {
                    seq!["Name"@, "Status"@, ""@]
                },
                None => self.hide_header || !attended,
            },
    {
        if self.hide_header || !attended {
            return None;
        }
        let mut cells: Vec<String> = Vec::new();
        cells.push("Name".to_string());
        cells.push("Status".to_string());
        if self.dirs {
            cells.push("Dir".to_string());
        }
        cells.push("".to_string());
        assert(text::texts(cells@) =~= if self.dirs {
            seq!["Name"@, "Status"@, "Dir"@, ""@]
        } else {
            seq!["Name"@, "Status"@, ""@]
        });
        Some(cells)
    }
}

/// Without filters every daemon is shown.
pub proof fn no_filter_shows_all(entries: Seq<ListEntry>)
    ensures
        shown_entries(entries, Seq::empty()) == entries,
    decreases entries.len(),
{
    if entries.len() > 0 {
        no_filter_shows_all(entries.drop_last());
    }
    assert(shown_entries(entries, Seq::empty()) =~= entries);
}

/// Filters are alternatives: a daemon is shown for several filters exactly where it is shown for
/// one of them.
pub proof fn filters_are_alternatives(
    entry: ListEntry,
    a: Seq<StatusFilter>,
    b: Seq<StatusFilter>,
)
    requires
        a.len() > 0,
        b.len() > 0,
    ensures
        is_shown(entry, a + b) <==> is_shown(entry, a) || is_shown(entry, b),
{
    let all = a + b;
    if is_shown(entry, a) {
        let i = choose|i: int| 0 <= i < a.len() && passes(entry, #[trigger] a[i]);
        assert(all[i] == a[i]);
    }
    if is_shown(entry, b) {
        let i = choose|i: int| 0 <= i < b.len() && passes(entry, #[trigger] b[i]);
        assert(all[a.len() + i] == b[i]);
    }
    if is_shown(entry, all) {
        let i = choose|i: int| 0 <= i < all.len() && passes(entry, #[trigger] all[i]);
        if i < a.len() {
            assert(a[i] == all[i]);
        } else {
            assert(b[i - a.len()] == all[i]);
        }
    }
}

/// Where the part of a path that begins at a place ends: at the next slash, or with the path.
pub open spec fn part_end(path: Seq<char>, from: int) -> int
    decreases path.len() - from,
{
    if from < 0 || from >= path.len() || path[from] == '/' {
        from
    } else {
        part_end(path, from + 1)
    }
}

/// A part ends behind its beginning, and within the path.
pub proof fn lemma_part_end(path: Seq<char>, from: int)
    requires
        0 <= from <= path.len(),
    ensures
        from <= part_end(path, from) <= path.len(),
        from < path.len() && path[from] != '/' ==> from < part_end(path, from),
    decreases path.len() - from,
{
    if from < path.len() && path[from] != '/' {
        lemma_part_end(path, from + 1);
    }
}

/// Where the components of a path begin and end, from a place on, which is not within one. The
/// slash of the root is a component. A dot counts only at the beginning of the path, and more than
/// one slash counts as one.
pub open spec fn component_spans(path: Seq<char>, from: int) -> Seq<(int, int)>
    decreases path.len() - from,
{
    if from < 0 || from >= path.len() {
        Seq::empty()
    } else if path[from] == '/' {
        (if from == 0 {
            seq![(0int, 1int)]
        } else {
            Seq::empty()
        }) + component_spans(path, from + 1)
    } else {
        let end = part_end(path, from);
        proof {
            lemma_part_end(path, from);
        }
        (if from > 0 && path.subrange(from, end) == "."@ {
            Seq::empty()
        } else {
            seq![(from, end)]
        }) + component_spans(path, end)
    }
}

/// The components of a path.
pub open spec fn components(path: Seq<char>) -> Seq<Seq<char>> {
    component_spans(path, 0).map_values(|span: (int, int)| path.subrange(span.0, span.1))
}

/// Whether a path is another one or lies below it: its components begin with those of the other.
pub open spec fn is_within(path: Seq<char>, base: Seq<char>) -> bool {
    components(base).is_prefix_of(components(path))
}

/// What stands behind the first components of a path, up to the end of its last one.
pub open spec fn behind(path: Seq<char>, count: int) -> Seq<char> {
    let spans = component_spans(path, 0);
    if count < spans.len() {
        path.subrange(spans[count].0, spans.last().1)
    } else {
        Seq::empty()
    }
}

/// A directory as it is shown: one within the home directory begins with `~/`.
pub open spec fn shown_dir(dir: Seq<char>, home: Seq<char>) -> Seq<char> {
    if is_within(dir, home) {
        "~/"@ + behind(dir, components(home).len() as int)
    } else {
        dir
    }
}

/// Spans as numbers without a sign.
pub open spec fn span_views(spans: Seq<(usize, usize)>) -> Seq<(int, int)> {
    spans.map_values(|span: (usize, usize)| (span.0 as int, span.1 as int))
}

/// Where the components of a path begin and end.
fn find_components(path: &Vec<char>) -> (r: Vec<(usize, usize)>)
    ensures
        span_views(r@) == component_spans(path@, 0),
        forall|i: int| 0 <= i < r@.len() ==> (#[trigger] r@[i]).0 <= r@[i].1 <= path@.len(),
        forall|i: int, j: int|
            #![trigger r@[i], r@[j]]
            0 <= i <= j < r@.len() ==> r@[i].0 <= r@[j].0,
{
    let mut out: Vec<(usize, usize)> = Vec::new();
    let mut from: usize = 0;
    assert(span_views(out@) + component_spans(path@, 0) =~= component_spans(path@, 0));
    while from < path.len()
        invariant
            from <= path@.len(),
            component_spans(path@, 0) == span_views(out@) + component_spans(path@, from as int),
            forall|i: int|
                0 <= i < out@.len() ==> (#[trigger] out@[i]).0 <= out@[i].1 <= path@.len()
                    && out@[i].0 <= from,
            forall|i: int, j: int|
                #![trigger out@[i], out@[j]]
                0 <= i <= j < out@.len() ==> out@[i].0 <= out@[j].0,
        decreases path@.len() - from,
    {
        let ghost before = span_views(out@);
        let ghost start = from as int;
        proof {
            lemma_part_end(path@, start);
        }
        if path[from] == '/' {
            if from == 0 {
                out.push((0, 1));
                assert(span_views(out@) =~= before.push((0int, 1int)));
            }
            from = from + 1;
        } else {
            let mut end: usize = from;
            while end < path.len() && path[end] != '/'
                invariant
                    from <= end <= path@.len(),
                    part_end(path@, from as int) == part_end(path@, end as int),
                decreases path@.len() - end,
            {
                end = end + 1;
            }
            let is_dot = end - from == 1 && path[from] == '.';
            proof {
                reveal_strlit(".");
                if is_dot {
                    assert(path@.subrange(start, end as int) =~= "."@);
                } else {
                    assert(path@.subrange(start, end as int) != "."@) by {
                        let part = path@.subrange(start, end as int);
                        if part == "."@ {
                            assert(part.len() == 1 && part[0] == '.');
                        }
                    }
                }
            }
            if from == 0 || !is_dot {
                out.push((from, end));
                assert(span_views(out@) =~= before.push((start, end as int)));
            }
            from = end;
        }
        assert(component_spans(path@, 0) =~= span_views(out@) + component_spans(
            path@,
            from as int,
        ));
    }
    assert(component_spans(path@, 0) =~= span_views(out@));
    out
}

/// Whether two pieces of texts are the same.
fn same_piece(a: &Vec<char>, x: (usize, usize), b: &Vec<char>, y: (usize, usize)) -> (r: bool)
    requires
        x.0 <= x.1 <= a@.len(),
        y.0 <= y.1 <= b@.len(),
    ensures
        r == (a@.subrange(x.0 as int, x.1 as int) == b@.subrange(y.0 as int, y.1 as int)),
{
    let first = text_of(a, x.0, x.1);
    let second = text_of(b, y.0, y.1);
    text_eq(first.as_str(), second.as_str())
}

/// Render a daemon directory for display, contracting the home directory to `~`. Only whole
/// components count: a directory whose name only begins like that of the home directory is shown
/// as it is.
pub fn display_dir(dir: &str, home: &str) -> (r: String)
    ensures
        r@ == shown_dir(dir@, home@),
{
    let path = chars_of(dir);
    let base = chars_of(home);
    let parts = find_components(&path);
    let prefix = find_components(&base);
    let ghost all = components(dir@);
    let ghost first = components(home@);
    assert(span_views(parts@).len() == parts@.len());
    assert(span_views(prefix@).len() == prefix@.len());
    if prefix.len() > parts.len() {
        return dir.to_string();
    }
    let mut i: usize = 0;
    while i < prefix.len()
        invariant
            path@ == dir@,
            base@ == home@,
            all == components(dir@),
            first == components(home@),
            span_views(parts@) == component_spans(path@, 0),
            span_views(prefix@) == component_spans(base@, 0),
            all.len() == parts@.len(),
            first.len() == prefix@.len(),
            i <= prefix@.len() <= parts@.len(),
            forall|k: int|
                0 <= k < parts@.len() ==> (#[trigger] parts@[k]).0 <= parts@[k].1 <= path@.len(),
            forall|k: int|
                0 <= k < prefix@.len() ==> (#[trigger] prefix@[k]).0 <= prefix@[k].1
                    <= base@.len(),
            forall|k: int| 0 <= k < i ==> #[trigger] first[k] == all[k],
        decreases prefix@.len() - i,
    {
        assert(span_views(parts@)[i as int] == (
            parts@[i as int].0 as int,
            parts@[i as int].1 as int,
        ));
        assert(span_views(prefix@)[i as int] == (
            prefix@[i as int].0 as int,
            prefix@[i as int].1 as int,
        ));
        if !same_piece(&path, parts[i], &base, prefix[i]) {
            assert(first[i as int] != all[i as int]);
            assert(!is_within(dir@, home@));
            return dir.to_string();
        }
        i = i + 1;
    }
    assert(first =~= all.take(first.len() as int));
    assert(is_within(dir@, home@));
    let rest = if prefix.len() < parts.len() {
        let last: usize = parts.len() - 1;
        assert(parts@[prefix@.len() as int].0 <= parts@[last as int].0);
        assert(span_views(parts@)[prefix@.len() as int].0 == parts@[prefix@.len() as int].0);
        assert(span_views(parts@).last().1 == parts@[last as int].1);
        text_of(&path, parts[prefix.len()].0, parts[last].1)
    } else {
        String::new()
    };
    "~/".to_string().concat(rest.as_str())
}

/// Whether a path neither ends with a slash nor holds a part that is a dot.
pub open spec fn is_tidy(path: Seq<char>) -> bool {
    &&& path.len() > 0
    &&& path.last() != '/'
    &&& forall|i: int| 0 <= i < path.len() ==> !is_lone_dot(path, i)
}

/// Whether the dot at a place is a whole part of a path.
pub open spec fn is_lone_dot(path: Seq<char>, at: int) -> bool {
    &&& path[at] == '.'
    &&& at == 0 || path[at - 1] == '/'
    &&& at + 1 == path.len() || path[at + 1] == '/'
}

/// Whether no part goes on over a place.
spec fn is_boundary(path: Seq<char>, at: int) -> bool {
    at == 0 || path[at - 1] == '/' || at == path.len() || path[at] == '/'
}

/// Where a part ends there is a slash, or the end of the path.
proof fn lemma_part_end_is_boundary(path: Seq<char>, from: int)
    requires
        0 <= from <= path.len(),
    ensures
        from <= part_end(path, from) <= path.len(),
        part_end(path, from) < path.len() ==> path[part_end(path, from)] == '/',
        forall|k: int| from <= k < part_end(path, from) ==> path[k] != '/',
    decreases path.len() - from,
{
    if from < path.len() && path[from] != '/' {
        lemma_part_end_is_boundary(path, from + 1);
    }
}

/// A part that ends within the first characters ends at the same place in both.
proof fn lemma_part_end_of_prefix(path: Seq<char>, base: Seq<char>, from: int)
    requires
        base.is_prefix_of(path),
        0 <= from <= base.len(),
    ensures
        part_end(path, from) == if part_end(base, from) < base.len() {
            part_end(base, from)
        } else {
            part_end(path, base.len() as int)
        },
    decreases base.len() - from,
{
    lemma_part_end_is_boundary(base, from);
    if from < base.len() {
        assert(path[from] == base[from]);
        if base[from] != '/' {
            lemma_part_end_of_prefix(path, base, from + 1);
        }
    }
}

/// Where a slash follows the first characters, their components are the first ones of the path.
proof fn lemma_spans_below(path: Seq<char>, base: Seq<char>, from: int)
    requires
        base.is_prefix_of(path),
        base.len() < path.len(),
        path[base.len() as int] == '/',
        0 <= from <= base.len(),
    ensures
        component_spans(path, from) == component_spans(base, from) + component_spans(
            path,
            base.len() as int,
        ),
    decreases base.len() - from,
{
    let rest = component_spans(path, base.len() as int);
    if from == base.len() {
        assert(component_spans(base, from) + rest =~= rest);
    } else {
        assert(path[from] == base[from]);
        if base[from] == '/' {
            lemma_spans_below(path, base, from + 1);
        } else {
            lemma_part_end(base, from);
            lemma_part_end_of_prefix(path, base, from);
            let end = part_end(base, from);
            assert(part_end(path, base.len() as int) == base.len());
            assert(path.subrange(from, end) =~= base.subrange(from, end));
            lemma_spans_below(path, base, end);
        }
        assert(component_spans(path, from) =~= component_spans(base, from) + rest);
    }
}

/// The last component of a tidy path ends with the path.
proof fn lemma_tidy_end(path: Seq<char>, from: int)
    requires
        path.len() > 0,
        path.last() != '/',
        forall|i: int| 0 < i < path.len() && i >= from ==> !is_lone_dot(path, i),
        0 <= from < path.len(),
        is_boundary(path, from),
    ensures
        component_spans(path, from).len() > 0,
        component_spans(path, from).last().1 == path.len(),
        path[from] != '/' ==> component_spans(path, from).first().0 == from,
    decreases path.len() - from,
{
    reveal_strlit(".");
    if path[from] == '/' {
        lemma_tidy_end(path, from + 1);
    } else {
        lemma_part_end(path, from);
        lemma_part_end_is_boundary(path, from);
        let end = part_end(path, from);
        if from > 0 && path.subrange(from, end) == "."@ {
            assert(path.subrange(from, end).len() == 1 && path.subrange(from, end)[0] == path[from]);
            assert(is_lone_dot(path, from));
        }
        let rest = component_spans(path, end);
        assert(component_spans(path, from) == seq![(from, end)] + rest);
        if end < path.len() {
            lemma_tidy_end(path, end);
            assert((seq![(from, end)] + rest).last() == rest.last());
        } else {
            assert(rest =~= Seq::empty());
        }
    }
}

/// Where the last part of a tidy path goes on in a longer one, the components are the same but for
/// that last one.
proof fn lemma_spans_go_on(path: Seq<char>, base: Seq<char>, from: int)
    requires
        is_tidy(base),
        base.is_prefix_of(path),
        base.len() < path.len(),
        path[base.len() as int] != '/',
        0 <= from < base.len(),
        is_boundary(base, from),
    ensures
        ({
            let short = component_spans(base, from);
            let long = component_spans(path, from);
            let last = short.len() - 1;
            &&& 0 <= last < long.len()
            &&& long[last].0 == short[last].0
            &&& long[last].1 > short[last].1
            &&& 0 <= short[last].0 <= short[last].1 <= base.len()
            &&& long[last].1 <= path.len()
        }),
    decreases base.len() - from,
{
    reveal_strlit(".");
    assert(path[from] == base[from]);
    if base[from] == '/' {
        lemma_spans_go_on(path, base, from + 1);
    } else {
        lemma_part_end(base, from);
        lemma_part_end_is_boundary(base, from);
        lemma_part_end_of_prefix(path, base, from);
        let end = part_end(base, from);
        if from > 0 && base.subrange(from, end) == "."@ {
            assert(base.subrange(from, end).len() == 1 && base.subrange(from, end)[0] == base[from]);
            assert(is_lone_dot(base, from));
        }
        if end < base.len() {
            assert(path.subrange(from, end) =~= base.subrange(from, end));
            lemma_spans_go_on(path, base, end);
        } else {
            lemma_part_end(path, base.len() as int);
            let longer = part_end(path, from);
            assert(longer > end);
            assert(path.subrange(from, longer).len() > 1);
            assert(component_spans(base, end) =~= Seq::empty());
        }
    }
}

/// What lies below the home directory is shown behind `~/`, as it is written.
pub proof fn dirs_below_home_are_contracted(home: Seq<char>, rest: Seq<char>)
    requires
        home.len() > 0,
        is_tidy(rest),
        rest[0] != '/',
    ensures
        shown_dir(home + "/"@ + rest, home) == "~/"@ + rest,
{
    reveal_strlit("/");
    let dir = home + "/"@ + rest;
    let at = home.len() as int;
    assert(home.is_prefix_of(dir));
    assert(dir[at] == '/');
    lemma_spans_below(dir, home, 0);
    let own = component_spans(home, 0);
    let below = component_spans(dir, at + 1);
    assert forall|i: int| 0 < i < dir.len() && i >= at + 1 implies !is_lone_dot(dir, i) by {
        let k = i - at - 1;
        assert(!is_lone_dot(rest, k));
        assert(dir[i] == rest[k]);
        if k > 0 {
            assert(dir[i - 1] == rest[k - 1]);
        }
        if k + 1 < rest.len() {
            assert(dir[i + 1] == rest[k + 1]);
        }
    }
    assert(dir[at + 1] == rest[0]);
    assert(dir.last() == rest.last());
    lemma_tidy_end(dir, at + 1);
    let spans = component_spans(dir, 0);
    assert(spans =~= own + below);
    lemma_spans_within(home, 0);
    assert forall|i: int| 0 <= i < own.len() implies components(home)[i] == #[trigger] components(
        dir,
    )[i] by {
        assert(spans[i] == own[i]);
        assert(dir.subrange(own[i].0, own[i].1) =~= home.subrange(own[i].0, own[i].1));
    }
    assert(is_within(dir, home));
    assert(spans[own.len() as int] == below.first());
    assert(spans.last() == below.last());
    assert(behind(dir, own.len() as int) =~= rest);
}

/// Components lie within their path.
proof fn lemma_spans_within(path: Seq<char>, from: int)
    requires
        0 <= from <= path.len(),
    ensures
        forall|i: int|
            0 <= i < component_spans(path, from).len() ==> 0 <= (#[trigger] component_spans(
                path,
                from,
            )[i]).0 <= component_spans(path, from)[i].1 <= path.len(),
    decreases path.len() - from,
{
    let all = component_spans(path, from);
    if from < path.len() {
        lemma_part_end(path, from);
        let next = if path[from] == '/' {
            from + 1
        } else {
            part_end(path, from)
        };
        lemma_spans_within(path, next);
        let rest = component_spans(path, next);
        assert forall|i: int| 0 <= i < all.len() implies 0 <= (#[trigger] all[i]).0 <= all[i].1
            <= path.len() by {
            let own = all.len() - rest.len();
            if i >= own {
                assert(all[i] == rest[i - own]);
            }
        }
    }
}

/// Only whole components are contracted: a directory whose name goes on behind that of the home
/// directory is shown as it is.
pub proof fn longer_names_are_not_contracted(home: Seq<char>, rest: Seq<char>)
    requires
        is_tidy(home),
        rest.len() > 0,
        rest[0] != '/',
    ensures
        shown_dir(home + rest, home) == home + rest,
{
    let dir = home + rest;
    assert(home.is_prefix_of(dir));
    assert(dir[home.len() as int] == rest[0]);
    lemma_spans_go_on(dir, home, 0);
    let last = component_spans(home, 0).len() - 1;
    assert(components(home)[last].len() != components(dir)[last].len());
    assert(components(home)[last] != components(dir)[last]);
}

/// What is shown of the identifier of a daemon: its name, with the namespace where that is asked for.
pub open spec fn shown_id(id: (Seq<char>, Seq<char>), with_namespace: bool) -> Seq<char> {
    if with_namespace {
        daemon_id::qualified_text(id.0, id.1)
    } else {
        id.1
    }
}

impl ListRow {
    /// The name that is shown.
    pub fn shown_name(&self) -> (r: String)
        ensures
            r@ == shown_id(self.id@, self.with_namespace),
    {
        if self.with_namespace {
            self.id.qualified()
        } else {
            self.id.name().to_string()
        }
    }
}

/// Different daemons of a list are shown with different names.
pub proof fn shown_names_differ(all: Seq<ListEntry>, i: int, j: int)
    requires
        0 <= i < all.len(),
        0 <= j < all.len(),
        all[i].id@ != all[j].id@,
        daemon_id::valid_component(all[i].id@.0),
        daemon_id::valid_component(all[i].id@.1),
        daemon_id::valid_component(all[j].id@.0),
        daemon_id::valid_component(all[j].id@.1),
    ensures
        shown_id(all[i].id@, shares_name(all, all[i].id@)) != shown_id(
            all[j].id@,
            shares_name(all, all[j].id@),
        ),
{
    let a = all[i].id@;
    let b = all[j].id@;
    daemon_id::forms_identify(a, b);
    if a.1 == b.1 {
        assert(shares_name(all, a) && shares_name(all, b));
    } else {
        lemma_qualified_has_slash(a, b);
        lemma_qualified_has_slash(b, a);
    }
}

/// A name is never the qualified form of a daemon.
proof fn lemma_qualified_has_slash(a: (Seq<char>, Seq<char>), b: (Seq<char>, Seq<char>))
    requires
        daemon_id::valid_component(b.1),
    ensures
        daemon_id::qualified_text(a.0, a.1) != b.1,
{
    let q = daemon_id::qualified_text(a.0, a.1);
    reveal_strlit("/");
    assert(q[a.0.len() as int] == '/');
    assert(q.contains('/'));
}

/// A filter lets through exactly the daemons in its state: one that is only configured is available
/// and in no other state, and being disabled does not depend on the state.
pub proof fn filters_let_their_state_through(e: ListEntry)
    ensures
        passes(e, StatusFilter::Available) <==> e.is_available,
        passes(e, StatusFilter::Disabled) <==> e.is_disabled,
        passes(e, StatusFilter::Running) <==> e.status is Running && !e.is_available,
        passes(e, StatusFilter::Stopped) <==> e.status is Stopped && !e.is_available,
        passes(e, StatusFilter::Waiting) <==> e.status is Waiting && !e.is_available,
        passes(e, StatusFilter::Stopping) <==> e.status is Stopping && !e.is_available,
        passes(e, StatusFilter::Failed) <==> e.status is Failed && !e.is_available,
        passes(e, StatusFilter::Errored) <==> e.status is Errored && !e.is_available,
{
}

/// Each daemon is shown by itself, in its order: exactly where there is no filter, or one of them lets
/// it through.
pub proof fn each_daemon_is_shown_by_itself(
    a: Seq<ListEntry>,
    b: Seq<ListEntry>,
    e: ListEntry,
    filters: Seq<StatusFilter>,
)
    ensures
        shown_entries(a + b, filters) == shown_entries(a, filters) + shown_entries(b, filters),
        shown_entries(seq![e], filters) == if filters.len() == 0 || exists|i: int|
            0 <= i < filters.len() && passes(e, #[trigger] filters[i]) {
            seq![e]
        } else {
            Seq::empty()
        },
    decreases b.len(),
{
    let one = seq![e];
    assert(one.drop_last() =~= Seq::empty());
    assert(shown_entries(one.drop_last(), filters) =~= Seq::empty());
    assert(Seq::<ListEntry>::empty().push(e) =~= one);
    if b.len() == 0 {
        assert(a + b =~= a);
        assert(shown_entries(a, filters) + shown_entries(b, filters) =~= shown_entries(a, filters));
    } else {
        assert((a + b).drop_last() =~= a + b.drop_last());
        assert((a + b).last() == b.last());
        each_daemon_is_shown_by_itself(a, b.drop_last(), e, filters);
        assert(shown_entries(a + b, filters) =~= shown_entries(a, filters) + shown_entries(
            b,
            filters,
        ));
    }
}

/// A row tells of its daemon whether it is available or else its state, its directory where that is
/// asked for, and its namespace exactly where another one has a daemon of the same name.
pub proof fn rows_tell_their_daemon(
    row: ListRow,
    e: ListEntry,
    all: Seq<ListEntry>,
    dirs: bool,
    s: AllSettings,
)
    requires
        row_shows(row, e, all, dirs, s),
    ensures
        row.id@ == e.id@,
        row.status@ == if e.is_available {
            "available"@
        } else {
            e.status_text@
        },
        row.with_namespace <==> exists|i: int|
            0 <= i < all.len() && (#[trigger] all[i]).id@.1 == e.id@.1 && all[i].id@.0 != e.id@.0,
        row.dir is Some <==> dirs,
        dirs && e.dir is Some ==> row.dir->0@ == e.dir->0@,
        dirs && e.dir is None ==> row.dir->0@.len() == 0,
        e.is_available ==> row.status_color is Cyan,
        !e.is_available && e.status is Running ==> row.status_color is Green,
        !e.is_available && (e.status is Failed || e.status is Errored) ==> row.status_color is Red,
        !e.is_available && (e.status is Waiting || e.status is Stopping) ==> row.status_color is Yellow,
        !e.is_available && e.status is Stopped ==> row.status_color is DarkGrey,
{
}

/// The last column of a row holds that the daemon is disabled, its URL and its failure, each exactly
/// where there is such, in that order.
pub proof fn rows_tell_what_else_there_is(e: ListEntry, s: AllSettings)
    ensures
        ({
            let parts = extra_parts(e, s);
            let disabled = if e.is_disabled {
                1int
            } else {
                0
            };
            let linked = if e.url(s) is Some {
                1int
            } else {
                0
            };
            let failed = if e.error is Some && e.error->0@.len() > 0 {
                1int
            } else {
                0
            };
            &&& parts.len() == disabled + linked + failed
            &&& e.is_disabled ==> parts[0] == "disabled"@
            &&& e.url(s) matches Some(url) ==> parts[disabled] == url
            &&& e.error is Some && e.error->0@.len() > 0 ==> parts[disabled + linked]
                == e.error->0@
        }),
        extra_text(e, s) == text::joined(extra_parts(e, s), "  "@),
{
}

/// A JSON entry tells all of its daemon.
pub proof fn json_entries_tell_their_daemon(j: JsonListEntry, e: ListEntry, s: AllSettings)
    requires
        json_shows(j, e, s),
    ensures
        j.id@ == e.id@.0 + "/"@ + e.id@.1,
        j.namespace@ == e.id@.0,
        j.name@ == e.id@.1,
        j.pid == e.pid,
        j.status@ == if e.is_available {
            "available"@
        } else {
            e.status_text@
        },
        j.disabled == e.is_disabled,
        j.available == e.is_available,
        j.error is Some <==> e.error is Some,
        e.error matches Some(m) ==> j.error->0@ == m@,
        j.active_port == e.active_port,
        j.port@ == e.resolved_port@,
        j.proxy_url is Some <==> e.url(s) is Some,
        e.url(s) matches Some(url) ==> j.proxy_url->0@ == url,
{
}

/// A daemon has a URL exactly where the proxy is on with a valid port and the daemon has a port and a
/// slug: the scheme, the slug below the domain of the proxy, and the port of the proxy unless it is
/// the one of the scheme.
pub proof fn proxied_daemons_have_a_url(e: ListEntry, s: AllSettings)
    ensures
        e.url(s) is Some <==> s.proxy.enable && 1 <= s.proxy.port <= 65535 && e.slug is Some && (
        e.active_port is Some || e.resolved_port@.len() > 0),
        e.url(s) matches Some(url) ==> url == (if s.proxy.https {
            "https://"@
        } else {
            "http://"@
        }) + e.slug->0@ + "."@ + s.proxy.tld@ + (if s.proxy.port == if s.proxy.https {
            443i64
        } else {
            80i64
        } {
            Seq::empty()
        } else {
            ":"@ + text::decimal(s.proxy.port as int)
        }),
{
    reveal_strlit("https");
    reveal_strlit("http");
    reveal_strlit("://");
    reveal_strlit("https://");
    reveal_strlit("http://");
    assert("https"@ + "://"@ =~= "https://"@);
    assert("http"@ + "://"@ =~= "http://"@);
    if let Some(url) = e.url(s) {
        let whole = (if s.proxy.https {
            "https://"@
        } else {
            "http://"@
        }) + e.slug->0@ + "."@ + s.proxy.tld@ + (if s.proxy.port == if s.proxy.https {
            443i64
        } else {
            80i64
        } {
            Seq::empty()
        } else {
            ":"@ + text::decimal(s.proxy.port as int)
        });
        assert(url =~= whole);
    }
}

/// Only a number from 1 to 65535 is a port.
pub proof fn ports_have_sixteen_bits(port: int)
    ensures
        valid_port(port) is Some <==> 1 <= port <= 65535,
        valid_port(port) matches Some(p) ==> p == port,
{
}

/// A URL leaves out the port exactly where it is the one of its scheme.
pub proof fn standard_ports_are_left_out(https: bool, host: Seq<char>, port: u16)
    ensures
        url_at(true, host, 443) == "https://"@ + host,
        url_at(false, host, 80) == "http://"@ + host,
        https && port != 443 ==> url_at(https, host, port) == "https://"@ + host + ":"@
            + text::decimal(port as int),
        !https && port != 80 ==> url_at(https, host, port) == "http://"@ + host + ":"@
            + text::decimal(port as int),
{
    reveal_strlit("https");
    reveal_strlit("http");
    reveal_strlit("://");
    reveal_strlit("https://");
    reveal_strlit("http://");
    assert("https"@ + "://"@ =~= "https://"@);
    assert("http"@ + "://"@ =~= "http://"@);
}

/// The last column is red where it tells a failure, else grey where the daemon is disabled, else
/// cyan; an empty one has no color.
pub proof fn failures_color_the_last_column(
    row: ListRow,
    e: ListEntry,
    all: Seq<ListEntry>,
    dirs: bool,
    s: AllSettings,
)
    requires
        row_shows(row, e, all, dirs, s),
    ensures
        row.extra@ == extra_text(e, s),
        row.extra@.len() == 0 ==> row.extra_color is None,
        row.extra@.len() > 0 && e.error is Some && e.error->0@.len() > 0 ==> row.extra_color == Some(
            CellColor::Red,
        ),
        row.extra@.len() > 0 && (e.error is None || e.error->0@.len() == 0) && e.is_disabled
            ==> row.extra_color == Some(CellColor::DarkGrey),
        row.extra@.len() > 0 && (e.error is None || e.error->0@.len() == 0) && !e.is_disabled
            ==> row.extra_color == Some(CellColor::Cyan),
{
}

/// The home directory itself is shown as the beginning of all that lies in it.
pub proof fn home_is_contracted(home: Seq<char>)
    ensures
        shown_dir(home, home) == "~/"@,
{
    assert(components(home).is_prefix_of(components(home)));
    assert(behind(home, components(home).len() as int) =~= Seq::<char>::empty());
    assert("~/"@ + Seq::<char>::empty() =~= "~/"@);
}

} // verus!
