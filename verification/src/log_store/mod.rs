//! Log entries, the queries over them and what retention means.
use crate::clock::{Moment, Stamp, TimeSpan};
use crate::daemon_id;
use crate::daemon_id::DaemonId;
use crate::text;
use crate::text::{chars_of, trim};
use vstd::prelude::*;

pub mod archive;
pub mod migration;
pub mod rotation;
pub mod sqlite;
pub mod statement;
pub mod table;

verus! {

/// A single log entry.
#[derive(Debug)]
pub struct LogEntry {
    pub id: i64,
    pub daemon_id: String,
    pub timestamp: Stamp,
    pub message: String,
}

/// A filter applied to the message text of log entries.
#[derive(Debug)]
#[allow(inconsistent_fields)]
pub enum MessageFilter {
    /// The message holds the pattern, in the same casing where that is asked for.
    Contains { pattern: String, case_sensitive: bool },
    /// The message matches a regular expression.
    Regex { pattern: String },
}

/// What a filter asks of a message.
pub enum FilterView {
    Contains(Seq<char>),
    ContainsCased(Seq<char>),
    Regex(Seq<char>),
}

impl View for MessageFilter {
    type V = FilterView;

    open spec fn view(&self) -> FilterView {
        match self {
            MessageFilter::Contains { pattern, case_sensitive } => if *case_sensitive {
                FilterView::ContainsCased(pattern@)
            } else {
                FilterView::Contains(pattern@)
            },
            MessageFilter::Regex { pattern } => FilterView::Regex(pattern@),
        }
    }
}

impl MessageFilter {
    /// A filter for messages that hold a text in any casing.
    pub fn contains(pattern: &str) -> (r: MessageFilter)
        ensures
            r@ == FilterView::Contains(pattern@),
    {
        MessageFilter::Contains { pattern: pattern.to_string(), case_sensitive: false }
    }

    /// A filter for messages that hold a text in the same casing.
    pub fn contains_case_sensitive(pattern: &str) -> (r: MessageFilter)
        ensures
            r@ == FilterView::ContainsCased(pattern@),
    {
        MessageFilter::Contains { pattern: pattern.to_string(), case_sensitive: true }
    }

    /// A filter for messages that match a regular expression.
    pub fn regex(pattern: &str) -> (r: MessageFilter)
        ensures
            r@ == FilterView::Regex(pattern@),
    {
        MessageFilter::Regex { pattern: pattern.to_string() }
    }
}

/// Options for querying logs.
#[derive(Debug)]
pub struct LogQuery {
    pub daemon_ids: Vec<String>,
    pub from: Option<Moment>,
    pub to: Option<Moment>,
    pub limit: Option<usize>,
    pub order_desc: bool,
    pub after_id: Option<i64>,
    /// Filters applied to the message text. Multiple filters are combined with OR.
    pub message_filters: Vec<MessageFilter>,
}

impl LogQuery {
    /// A query without conditions, oldest entries first.
    pub open spec fn is_plain(&self) -> bool {
        &&& self.daemon_ids@.len() == 0
        &&& self.from is None
        &&& self.to is None
        &&& self.limit is None
        &&& !self.order_desc
        &&& self.after_id is None
        &&& self.message_filters@.len() == 0
    }
}

impl Default for LogQuery {
    fn default() -> (r: LogQuery)
        ensures
            r.is_plain(),
    {
        LogQuery {
            daemon_ids: Vec::new(),
            from: None,
            to: None,
            limit: None,
            order_desc: false,
            after_id: None,
            message_filters: Vec::new(),
        }
    }
}

/// Whether a character has a meaning of its own in a `LIKE` pattern.
pub open spec fn like_special(c: char) -> bool {
    c == '\\' || c == '%' || c == '_'
}

/// How a character is written in a `LIKE` pattern that escapes with a backslash.
pub open spec fn like_literal(c: char) -> Seq<char> {
    if like_special(c) {
        seq!['\\', c]
    } else {
        seq![c]
    }
}

/// A text with every special character escaped.
pub open spec fn like_escaped(s: Seq<char>) -> Seq<char>
    decreases s.len(),
{
    if s.len() == 0 {
        Seq::empty()
    } else {
        like_literal(s.first()) + like_escaped(s.drop_first())
    }
}

/// Escape special LIKE wildcard characters so user-supplied substrings are matched literally.
pub fn escape_like_pattern(pattern: &str) -> (r: String)
    ensures
        r@ == like_escaped(pattern@),
{
    let v = chars_of(pattern);
    let mut out = String::new();
    let mut i: usize = 0;
    assert(pattern@.skip(0) =~= pattern@);
    assert(out@ + like_escaped(pattern@) =~= like_escaped(pattern@));
    while i < v.len()
        invariant
            v@ == pattern@,
            i <= v@.len(),
            out@ + like_escaped(pattern@.skip(i as int)) == like_escaped(pattern@),
        decreases v@.len() - i,
    {
        let c = v[i];
        proof {
            assert(pattern@.skip(i as int).drop_first() =~= pattern@.skip(i + 1));
            assert(out@ + (like_literal(c) + like_escaped(pattern@.skip(i + 1))) =~= (out@
                + like_literal(c)) + like_escaped(pattern@.skip(i + 1)));
        }
        let ghost before = out@;
        if c == '\\' || c == '%' || c == '_' {
            out.push('\\');
        }
        out.push(c);
        assert(out@ =~= before + like_literal(c));
        i = i + 1;
    }
    assert(like_escaped(pattern@.skip(i as int)) =~= Seq::<char>::empty());
    assert(out@ =~= out@ + like_escaped(pattern@.skip(i as int)));
    out
}

/// The lower case of an ASCII letter; any other character stays as it is.
pub open spec fn lowered_char(c: char) -> char {
    if 'A' <= c <= 'Z' {
        ((c as int) + 32) as char
    } else {
        c
    }
}

/// A text with its ASCII letters in lower case.
pub open spec fn lowered(s: Seq<char>) -> Seq<char> {
    s.map_values(|c: char| lowered_char(c))
}

/// Whether `s` matches the `LIKE` pattern `p` that escapes with a backslash.
///
/// `%` stands for any characters, `_` for any one character, and a backslash makes the
/// character behind it literal. The case of ASCII letters does not matter.
pub open spec fn like(p: Seq<char>, s: Seq<char>) -> bool
    decreases p.len() + s.len(),
{
    if p.len() == 0 {
        s.len() == 0
    } else if p[0] == '%' {
        like(p.skip(1), s) || (s.len() > 0 && like(p, s.skip(1)))
    } else if p[0] == '\\' {
        p.len() > 1 && s.len() > 0 && lowered_char(p[1]) == lowered_char(s[0]) && like(
            p.skip(2),
            s.skip(1),
        )
    } else if p[0] == '_' {
        s.len() > 0 && like(p.skip(1), s.skip(1))
    } else {
        s.len() > 0 && lowered_char(p[0]) == lowered_char(s[0]) && like(p.skip(1), s.skip(1))
    }
}

/// The `LIKE` pattern for messages that hold `pattern`.
pub open spec fn like_pattern(pattern: Seq<char>) -> Seq<char> {
    "%"@ + like_escaped(pattern) + "%"@
}

proof fn lemma_like_rest(s: Seq<char>)
    ensures
        like(seq!['%'], s),
    decreases s.len(),
{
    let p = seq!['%'];
    assert(p[0] == '%' && p.len() == 1);
    assert(p.skip(1) =~= Seq::<char>::empty());
    assert(like(p, s) == (like(p.skip(1), s) || (s.len() > 0 && like(p, s.skip(1)))));
    if s.len() > 0 {
        lemma_like_rest(s.skip(1));
    }
}

/// An escaped text followed by `%` matches what begins with that text.
proof fn lemma_like_prefix(p: Seq<char>, s: Seq<char>)
    ensures
        like(like_escaped(p) + seq!['%'], s) == (p.len() <= s.len() && lowered(p) == lowered(
            s.take(p.len() as int),
        )),
    decreases p.len(),
{
    let q = like_escaped(p) + seq!['%'];
    if p.len() == 0 {
        assert(q =~= seq!['%']);
        lemma_like_rest(s);
        assert(lowered(p) =~= lowered(s.take(0)));
    } else {
        let rest = like_escaped(p.drop_first()) + seq!['%'];
        assert(q =~= like_literal(p[0]) + rest);
        let n = like_literal(p[0]).len() as int;
        assert(q.skip(n) =~= rest);
        if s.len() > 0 {
            lemma_like_prefix(p.drop_first(), s.skip(1));
            assert(like(q, s) == (lowered_char(p[0]) == lowered_char(s[0]) && like(
                rest,
                s.skip(1),
            )));
            if p.len() <= s.len() {
                let head = s.take(p.len() as int);
                let tail = s.skip(1).take(p.len() - 1);
                assert(tail =~= head.drop_first());
                if lowered(p) == lowered(head) {
                    assert(lowered(p)[0] == lowered_char(p[0]));
                    assert(lowered(head)[0] == lowered_char(s[0]));
                    assert(lowered(p.drop_first()) =~= lowered(p).drop_first());
                    assert(lowered(tail) =~= lowered(head).drop_first());
                }
                if lowered_char(p[0]) == lowered_char(s[0]) && lowered(p.drop_first()) == lowered(
                    tail,
                ) {
                    assert forall|i: int| 0 <= i < p.len() implies lowered(p)[i] == lowered(
                        head,
                    )[i] by {
                        if i > 0 {
                            assert(lowered(p.drop_first())[i - 1] == lowered(tail)[i - 1]);
                        }
                    }
                    assert(lowered(p) =~= lowered(head));
                }
            }
        }
    }
}

/// A pattern behind `%` matches where it matches from some position on.
proof fn lemma_like_anywhere(q: Seq<char>, s: Seq<char>)
    ensures
        like(seq!['%'] + q, s) == exists|k: int| 0 <= k <= s.len() && #[trigger] like(q, s.skip(k)),
    decreases s.len(),
{
    let p = seq!['%'] + q;
    assert(p[0] == '%');
    assert(p.skip(1) =~= q);
    assert(s.skip(0) =~= s);
    assert(like(p, s) == (like(p.skip(1), s) || (s.len() > 0 && like(p, s.skip(1)))));
    if like(q, s) {
        assert(like(q, s.skip(0)));
    }
    if s.len() > 0 {
        lemma_like_anywhere(q, s.skip(1));
        if like(p, s.skip(1)) {
            let k = choose|k: int| 0 <= k <= s.skip(1).len() && like(q, s.skip(1).skip(k));
            assert(s.skip(1).skip(k) =~= s.skip(k + 1));
            assert(like(q, s.skip(k + 1)));
        }
        if exists|k: int| 0 <= k <= s.len() && #[trigger] like(q, s.skip(k)) {
            let k = choose|k: int| 0 <= k <= s.len() && #[trigger] like(q, s.skip(k));
            if k > 0 {
                assert(s.skip(1).skip(k - 1) =~= s.skip(k));
                assert(like(q, s.skip(1).skip(k - 1)));
            }
        }
    } else {
        assert forall|k: int| 0 <= k <= s.len() && #[trigger] like(q, s.skip(k)) implies like(
            q,
            s,
        ) by {}
    }
}

/// The `LIKE` pattern of a text matches exactly the messages that hold the text in any casing.
pub proof fn like_pattern_is_literal(pattern: Seq<char>, message: Seq<char>)
    ensures
        like(like_pattern(pattern), message) <==> text::occurs_in(
            lowered(pattern),
            lowered(message),
        ),
{
    reveal_strlit("%");
    let q = like_escaped(pattern) + seq!['%'];
    assert(like_pattern(pattern) =~= seq!['%'] + q);
    lemma_like_anywhere(q, message);
    let n = pattern.len() as int;
    if exists|k: int| 0 <= k <= message.len() && #[trigger] like(q, message.skip(k)) {
        let k = choose|k: int| 0 <= k <= message.len() && #[trigger] like(q, message.skip(k));
        lemma_like_prefix(pattern, message.skip(k));
        assert(lowered(message).subrange(k, k + n) =~= lowered(message.skip(k).take(n)));
        assert(text::occurs_at(lowered(pattern), lowered(message), k));
    }
    if text::occurs_in(lowered(pattern), lowered(message)) {
        let k = choose|k: int| #[trigger] text::occurs_at(lowered(pattern), lowered(message), k);
        lemma_like_prefix(pattern, message.skip(k));
        assert(lowered(message).subrange(k, k + n) =~= lowered(message.skip(k).take(n)));
        assert(like(q, message.skip(k)));
    }
}

/// Escaping and lowering the case of a text can be done in either order.
proof fn lemma_lowered_escaped(s: Seq<char>)
    ensures
        lowered(like_escaped(s)) == like_escaped(lowered(s)),
    decreases s.len(),
{
    if s.len() == 0 {
        assert(lowered(like_escaped(s)) =~= like_escaped(lowered(s)));
    } else {
        lemma_lowered_escaped(s.drop_first());
        assert(lowered(s).drop_first() =~= lowered(s.drop_first()));
        assert(lowered(like_literal(s[0])) =~= like_literal(lowered(s)[0]));
        assert(lowered(like_escaped(s)) =~= lowered(like_literal(s[0])) + lowered(
            like_escaped(s.drop_first()),
        ));
    }
}

/// Lowering the case of a text twice changes nothing more.
proof fn lemma_lowered_twice(s: Seq<char>)
    ensures
        lowered(lowered(s)) == lowered(s),
{
    assert(lowered(lowered(s)) =~= lowered(s));
}

/// Comparing both sides in lower case, as the log queries do, finds the same messages.
pub proof fn lowered_like_pattern_is_literal(pattern: Seq<char>, message: Seq<char>)
    ensures
        like(lowered(like_pattern(pattern)), lowered(message)) <==> text::occurs_in(
            lowered(pattern),
            lowered(message),
        ),
{
    reveal_strlit("%");
    lemma_lowered_escaped(pattern);
    assert(lowered(like_pattern(pattern)) =~= like_pattern(lowered(pattern)));
    like_pattern_is_literal(lowered(pattern), lowered(message));
    lemma_lowered_twice(pattern);
    lemma_lowered_twice(message);
}

/// Parsed retention policy.
#[derive(Debug, Clone, Copy)]
pub struct RetentionPolicy {
    /// Maximum age of entries to keep.
    pub age: Option<TimeSpan>,
    /// Maximum number of entries to keep.
    pub count: Option<u64>,
}

impl RetentionPolicy {
    /// Whether the policy keeps everything.
    pub fn is_none(&self) -> (r: bool)
        ensures
            r == (self.age is None && self.count is None),
    {
        self.age.is_none() && self.count.is_none()
    }
}

/// Hook invoked before log entries are pruned by retention.
#[derive(Debug)]
pub struct ArchiveHook {
    /// Shell command to run. It should read JSONL from stdin.
    pub command: String,
    /// Maximum number of log entries to pass to a single hook invocation.
    pub batch_size: usize,
}

impl ArchiveHook {
    /// Whether the command holds more than white space.
    pub open spec fn enabled(&self) -> bool {
        exists|i: int| 0 <= i < self.command@.len() && !text::whitespace(#[trigger] self.command@[i])
    }

    /// Returns true if the hook is configured with a non-empty command.
    pub fn is_enabled(&self) -> (r: bool)
        ensures
            r == self.enabled(),
    {
        proof {
            text::lemma_trimmed_empty(self.command@);
        }
        !trim(self.command.as_str()).as_str().is_empty()
    }
}

/// Why a log store could not do what it was asked for.
#[derive(Debug)]
pub struct StoreError {
    pub message: String,
}

impl LogQuery {
    /// Whether the query asks for the newest entry of a daemon and nothing else.
    pub open spec fn asks_newest(&self, daemon_id: (Seq<char>, Seq<char>)) -> bool {
        &&& text::texts(self.daemon_ids@) == seq![
            daemon_id::qualified_text(daemon_id.0, daemon_id.1),
        ]
        &&& self.from is None
        &&& self.to is None
        &&& self.limit == Some(1usize)
        &&& self.order_desc
        &&& self.after_id is None
        &&& self.message_filters@.len() == 0
    }
}

/// The query for the newest entry of a daemon.
pub(crate) fn newest_of(daemon_id: &DaemonId) -> (r: LogQuery)
    ensures
        r.asks_newest(daemon_id@),
{
    let mut daemon_ids: Vec<String> = Vec::new();
    daemon_ids.push(daemon_id.qualified());
    assert(text::texts(daemon_ids@) =~= seq![
        daemon_id::qualified_text(daemon_id@.0, daemon_id@.1),
    ]);
    LogQuery {
        daemon_ids,
        from: None,
        to: None,
        limit: Some(1),
        order_desc: true,
        after_id: None,
        message_filters: Vec::new(),
    }
}

/// The query for the entries of a daemon, or for those behind a row.
pub fn tail_query(daemon_id: &DaemonId, after_id: Option<i64>) -> (r: LogQuery)
    ensures
        text::texts(r.daemon_ids@) == seq![
            daemon_id::qualified_text(daemon_id@.0, daemon_id@.1),
        ],
        r.from is None,
        r.to is None,
        r.limit is None,
        !r.order_desc,
        r.after_id == after_id,
        r.message_filters@.len() == 0,
        r@ == sqlite::tail_view(
            daemon_id::qualified_text(daemon_id@.0, daemon_id@.1),
            match after_id {
                Some(id) => Some(id as int),
                None => None,
            },
        ),
{
    let query = LogQuery { limit: None, order_desc: false, after_id, ..newest_of(daemon_id) };
    assert(query@.filters =~= Seq::empty());
    query
}

/// The row id of the first entry.
pub open spec fn first_id(entries: Seq<LogEntry>) -> Option<i64> {
    if entries.len() > 0 {
        Some(entries[0].id)
    } else {
        None
    }
}

/// Unified interface for log storage and retrieval.
pub trait LogStore: Send + Sync {
    /// Append a single log line.
    fn append(&self, daemon_id: &DaemonId, message: &str) -> Result<(), StoreError>;

    /// Append multiple log lines.
    ///
    /// The default implementation appends the lines one by one and stops at the first that
    /// fails.
    fn append_batch(&self, daemon_id: &DaemonId, messages: &Vec<&str>) -> (r: Result<
        (),
        StoreError,
    >)
        default_ensures
            match r {
                Ok(_) => forall|i: int|
                    0 <= i < messages@.len() ==> call_ensures(
                        Self::append,
                        (self, daemon_id, #[trigger] messages@[i]),
                        Ok(()),
                    ),
                Err(e) => exists|i: int|
                    {
                        &&& 0 <= i < messages@.len()
                        &&& call_ensures(
                            Self::append,
                            (self, daemon_id, #[trigger] messages@[i]),
                            Err(e),
                        )
                        &&& forall|k: int|
                            0 <= k < i ==> call_ensures(
                                Self::append,
                                (self, daemon_id, #[trigger] messages@[k]),
                                Ok(()),
                            )
                    },
            },
    {
        let mut i: usize = 0;
        while i < messages.len()
            invariant
                i <= messages@.len(),
                forall|k: int|
                    0 <= k < i ==> call_ensures(
                        Self::append,
                        (self, daemon_id, #[trigger] messages@[k]),
                        Ok(()),
                    ),
            decreases messages@.len() - i,
        {
            let line = messages[i];
            let append = Self::append;
            let answer = append(self, daemon_id, line);
            match answer {
                Ok(done) => {
                    assert(done == ());
                    assert(answer == Ok::<(), StoreError>(()));
                },
                Err(e) => {
                    return Err(e);
                },
            }
            i = i + 1;
        }
        Ok(())
    }

    /// Query logs according to the given options.
    fn query(&self, opts: &LogQuery) -> Result<Vec<LogEntry>, StoreError>;

    /// Read new log entries for a daemon.
    /// When `after_id` is Some(id), returns only entries with row id > id.
    /// When `after_id` is None, returns all entries for the daemon.
    fn tail(&self, daemon_id: &DaemonId, after_id: Option<i64>) -> Result<
        Vec<LogEntry>,
        StoreError,
    >;

    /// Clear all logs for the given daemon(s).
    fn clear(&self, daemon_ids: &Vec<DaemonId>) -> Result<(), StoreError>;

    /// Apply a retention policy (age-based and/or count-based pruning).
    ///
    /// By default this applies to all daemons; `excluded_daemon_ids` can be
    /// used to skip daemons that have their own per-daemon overrides, so the
    /// global policy does not accidentally prune entries those daemons intend
    /// to keep.
    fn apply_retention(
        &self,
        policy: &RetentionPolicy,
        excluded_daemon_ids: &Vec<DaemonId>,
        archive_hook: Option<&ArchiveHook>,
    ) -> (r: Result<u64, StoreError>)
        default_ensures
            r == Ok::<u64, StoreError>(0),
    {
        Ok(0)
    }

    /// Apply a retention policy to a specific daemon's logs.
    fn apply_retention_for_daemon(
        &self,
        daemon_id: &DaemonId,
        policy: &RetentionPolicy,
        archive_hook: Option<&ArchiveHook>,
    ) -> (r: Result<u64, StoreError>)
        default_ensures
            r == Ok::<u64, StoreError>(0),
    {
        Ok(0)
    }

    /// Return the highest row id for the given daemon, or `None` if no
    /// entries exist. Used by tailing loops to advance the cursor past
    /// non-matching rows without re-scanning them on every poll.
    ///
    /// The default implementation asks for the newest entry of the daemon.
    fn last_id(&self, daemon_id: &DaemonId) -> (r: Result<Option<i64>, StoreError>)
        default_ensures
            match r {
                Ok(id) => exists|opts: &LogQuery, entries: Vec<LogEntry>|
                    {
                        &&& #[trigger] opts.asks_newest(daemon_id@)
                        &&& call_ensures(Self::query, (self, opts), Ok(entries))
                        &&& id == #[trigger] first_id(entries@)
                    },
                Err(e) => exists|opts: &LogQuery|
                    #[trigger] opts.asks_newest(daemon_id@) && call_ensures(
                        Self::query,
                        (self, opts),
                        Err(e),
                    ),
            },
    {
        let opts = newest_of(daemon_id);
        let query = Self::query;
        let opts_ref = &opts;
        match query(self, opts_ref) {
            Ok(entries) => {
                let id = if entries.len() > 0 {
                    Some(entries[0].id)
                } else {
                    None
                };
                assert(opts_ref.asks_newest(daemon_id@) && call_ensures(
                    Self::query,
                    (self, opts_ref),
                    Ok(entries),
                ) && id == first_id(entries@));
                Ok(id)
            },
            Err(e) => Err(e),
        }
    }

    /// List all daemon IDs that have log entries.
    fn list_daemon_ids(&self) -> Result<Vec<String>, StoreError>;

    /// Return the generation number for the daemon's last clear operation.
    /// Each call to `clear` bumps the generation, so SSE streams can detect
    /// when logs have been wiped and refresh their display.
    fn last_clear_generation(&self, daemon_id: &DaemonId) -> (r: Result<Option<u64>, StoreError>)
        default_ensures
            r == Ok::<Option<u64>, StoreError>(None),
    {
        Ok(None)
    }
}

/// Whether an answer is one that a store may give to a query.
pub open spec fn may_answer<S: LogStore>(
    store: &S,
    opts: &LogQuery,
    answer: Result<Vec<LogEntry>, StoreError>,
) -> bool {
    call_ensures(S::query, (store, opts), answer)
}

/// Asks a store.
pub fn ask<S: LogStore>(store: &S, opts: &LogQuery) -> (r: Result<Vec<LogEntry>, StoreError>)
    ensures
        may_answer(store, opts, r),
{
    let query = S::query;
    query(store, opts)
}

/// Lowering a text changes its ASCII letters only, each to the small one.
pub proof fn lowering_changes_capital_letters(s: Seq<char>, i: int)
    requires
        0 <= i < s.len(),
    ensures
        lowered(s).len() == s.len(),
        'A' <= s[i] <= 'Z' ==> lowered(s)[i] as int - 'a' as int == s[i] as int - 'A' as int,
        !('A' <= s[i] <= 'Z') ==> lowered(s)[i] == s[i],
        lowered(lowered(s)) == lowered(s),
{
    lemma_lowered_twice(s);
}

/// An escaped text has a backslash before each backslash, percent sign and underscore, and is
/// otherwise the text.
pub proof fn special_characters_are_escaped(a: Seq<char>, b: Seq<char>, c: char)
    ensures
        like_escaped(Seq::empty()).len() == 0,
        like_escaped(a + b) == like_escaped(a) + like_escaped(b),
        c == '\\' || c == '%' || c == '_' ==> like_escaped(seq![c]) == seq!['\\', c],
        c != '\\' && c != '%' && c != '_' ==> like_escaped(seq![c]) == seq![c],
    decreases a.len(),
{
    let none = Seq::<char>::empty();
    assert(seq![c].drop_first() =~= none);
    assert(like_escaped(none).len() == 0);
    assert(like_escaped(seq![c]) == like_literal(seq![c].first()) + like_escaped(none));
    assert(like_escaped(seq![c]) =~= like_literal(c));
    if a.len() == 0 {
        assert(a + b =~= b);
        assert(like_escaped(a) + like_escaped(b) =~= like_escaped(b));
    } else {
        special_characters_are_escaped(a.drop_first(), b, c);
        assert((a + b).first() == a.first());
        assert((a + b).drop_first() =~= a.drop_first() + b);
        assert(like_escaped(a + b) =~= like_escaped(a) + like_escaped(b));
    }
}

/// A hook of white space is off, one with any other character is on.
pub proof fn hooks_need_a_command(hook: ArchiveHook, i: int)
    ensures
        0 <= i < hook.command@.len() && !text::whitespace(hook.command@[i]) ==> hook.enabled(),
        (forall|k: int| 0 <= k < hook.command@.len() ==> text::whitespace(
            #[trigger] hook.command@[k],
        )) ==> !hook.enabled(),
{
}

/// The newest entry of a daemon is asked for with one daemon, the newest first, and one entry at
/// most; the answer is the row id of that entry.
pub proof fn newest_entries_are_asked_for_alone(
    opts: LogQuery,
    daemon_id: (Seq<char>, Seq<char>),
    entries: Seq<LogEntry>,
)
    requires
        opts.asks_newest(daemon_id),
    ensures
        opts.daemon_ids@.len() == 1,
        opts.daemon_ids@[0]@ == daemon_id.0 + "/"@ + daemon_id.1,
        opts.order_desc,
        opts.limit == Some(1usize),
        opts.from is None && opts.to is None && opts.after_id is None,
        opts.message_filters@.len() == 0,
        entries.len() == 0 ==> first_id(entries) is None,
        entries.len() > 0 ==> first_id(entries) == Some(entries[0].id),
{
    assert(text::texts(opts.daemon_ids@).len() == 1);
    assert(text::texts(opts.daemon_ids@)[0] == opts.daemon_ids@[0]@);
}

} // verus!
