//! How the log of a daemon is streamed to a client.
use crate::clock;
use crate::clock::DATE_TIME;
use crate::daemon_id;
use crate::daemon_id::DaemonId;
use crate::log_store::{LogEntry, LogQuery};
use crate::terminal;
use crate::terminal::strip_ansi;
use crate::text;
use vstd::prelude::*;

verus! {

/// How many lines of the log a client asks for.
#[derive(Debug, Clone, Copy)]
pub struct TailQuery {
    pub lines: Option<usize>,
}

/// The number of lines that a client gets that does not ask for a number.
pub const DEFAULT_LINES: usize = 100;

/// The number of entries that one poll asks for.
pub const BATCH_SIZE: usize = 500;

impl TailQuery {
    /// The number of lines of the log that the client gets at first.
    pub fn history_lines(&self) -> (r: usize)
        ensures
            r == match self.lines {
                Some(n) => n,
                None => DEFAULT_LINES,
            },
    {
        match self.lines {
            Some(n) => n,
            None => DEFAULT_LINES,
        }
    }
}

/// The daemon that a client asks for.
pub fn requested_daemon(id: &str) -> (r: Result<DaemonId, TailRefusal>)
    ensures
        match r {
            Ok(d) => daemon_id::qualified_fault(id@) is None && text::split_once(id@, "/"@)
                == Some(d@),
            Err(e) => daemon_id::qualified_fault(id@) is Some && e is InvalidId,
        },
{
    match DaemonId::parse(id) {
        Ok(d) => Ok(d),
        Err(_) => Err(TailRefusal::InvalidId),
    }
}

/// Why a client gets no stream.
#[derive(Debug)]
pub enum TailRefusal {
    /// The text is no id of a daemon.
    InvalidId,
    /// The store could not be read.
    QueryFailed(String),
    /// The query did not end.
    QueryAborted,
}

impl TailRefusal {
    /// The status of the response.
    pub open spec fn code(self) -> u16 {
        match self {
            TailRefusal::InvalidId => 400,
            TailRefusal::QueryFailed(_) => 404,
            TailRefusal::QueryAborted => 500,
        }
    }

    /// The text of the response.
    pub open spec fn shown(self) -> Seq<char> {
        match self {
            TailRefusal::InvalidId => "invalid daemon id"@,
            TailRefusal::QueryFailed(e) => "failed to query logs: "@ + e@,
            TailRefusal::QueryAborted => "log query failed"@,
        }
    }

    /// The status of the response.
    pub fn status(&self) -> (r: u16)
        ensures
            r == self.code(),
    {
        match self {
            TailRefusal::InvalidId => 400,
            TailRefusal::QueryFailed(_) => 404,
            TailRefusal::QueryAborted => 500,
        }
    }

    /// The text of the response.
    pub fn body(&self) -> (r: String)
        ensures
            r@ == self.shown(),
    {
        match self {
            TailRefusal::InvalidId => "invalid daemon id".to_string(),
            TailRefusal::QueryFailed(e) => "failed to query logs: ".to_string().concat(e.as_str()),
            TailRefusal::QueryAborted => "log query failed".to_string(),
        }
    }
}

fn one_id(id: &DaemonId) -> (r: Vec<String>)
    ensures
        text::texts(r@) == seq![daemon_id::qualified_text(id@.0, id@.1)],
{
    let mut ids: Vec<String> = Vec::new();
    ids.push(id.qualified());
    assert(text::texts(ids@) =~= seq![daemon_id::qualified_text(id@.0, id@.1)]);
    ids
}

/// The query for the newest entries of a daemon.
pub fn history_query(id: &DaemonId, lines: usize) -> (r: LogQuery)
    ensures
        text::texts(r.daemon_ids@) == seq![daemon_id::qualified_text(id@.0, id@.1)],
        r.from is None,
        r.to is None,
        r.limit == Some(lines),
        r.order_desc,
        r.after_id is None,
        r.message_filters@.len() == 0,
{
    LogQuery {
        daemon_ids: one_id(id),
        from: None,
        to: None,
        limit: Some(lines),
        order_desc: true,
        after_id: None,
        message_filters: Vec::new(),
    }
}

/// The query for the entries behind the cursor.
pub fn batch_query(id: &DaemonId, after: i64) -> (r: LogQuery)
    ensures
        text::texts(r.daemon_ids@) == seq![daemon_id::qualified_text(id@.0, id@.1)],
        r.from is None,
        r.to is None,
        r.limit == Some(BATCH_SIZE),
        !r.order_desc,
        r.after_id == Some(after),
        r.message_filters@.len() == 0,
{
    LogQuery {
        daemon_ids: one_id(id),
        from: None,
        to: None,
        limit: Some(BATCH_SIZE),
        order_desc: false,
        after_id: Some(after),
        message_filters: Vec::new(),
    }
}

/// How a message is sent.
#[derive(Debug, Clone, Copy, PartialEq, Eq, Structural)]
pub enum StreamKind {
    /// As it is.
    Raw,
    /// Without control sequences.
    Stripped,
}

/// The data of the event that a client is sent of an entry.
pub open spec fn sent(e: LogEntry, kind: StreamKind) -> Seq<char> {
    let time = clock::stamp_text(e.timestamp@, DATE_TIME@);
    match kind {
        StreamKind::Raw => time + " "@ + e.message@,
        StreamKind::Stripped => time + " "@ + terminal::plain_text(e.message@),
    }
}

/// The data of the events that a client is sent of entries.
pub open spec fn all_sent(entries: Seq<LogEntry>, kind: StreamKind) -> Seq<Seq<char>> {
    entries.map_values(|e: LogEntry| sent(e, kind))
}

fn send(e: &LogEntry, kind: StreamKind) -> (r: String)
    ensures
        r@ == sent(*e, kind),
{
    let time = e.timestamp.date_time();
    match kind {
        StreamKind::Raw => time.concat(" ").concat(e.message.as_str()),
        StreamKind::Stripped => time.concat(" ").concat(strip_ansi(e.message.as_str()).as_str()),
    }
}

/// What a client gets at first: the lines, the oldest one first, and the row behind which the
/// next ones come.
#[derive(Debug)]
pub struct History {
    pub lines: Vec<String>,
    pub cursor: i64,
}

/// The row of the first of some entries; the beginning where there are none.
pub open spec fn first_row(entries: Seq<LogEntry>) -> i64 {
    if entries.len() > 0 {
        entries[0].id
    } else {
        0
    }
}

/// What a client gets at first, of entries with the newest one first.
pub fn history(entries: &Vec<LogEntry>) -> (r: History)
    ensures
        text::texts(r.lines@) == all_sent(entries@.reverse(), StreamKind::Raw),
        r.cursor == first_row(entries@),
{
    let total: usize = entries.len();
    let ghost goal = all_sent(entries@.reverse(), StreamKind::Raw);
    let mut lines: Vec<String> = Vec::new();
    let mut left: usize = total;
    while left > 0
        invariant
            left <= total,
            total == entries@.len(),
            goal == all_sent(entries@.reverse(), StreamKind::Raw),
            text::texts(lines@) == goal.take(total - left),
        decreases left,
    {
        let ghost before = text::texts(lines@);
        lines.push(send(&entries[left - 1], StreamKind::Raw));
        assert(entries@.reverse()[total - left] == entries@[left - 1]);
        assert(text::texts(lines@) =~= before.push(goal[total - left]));
        left = left - 1;
    }
    assert(text::texts(lines@) =~= goal);
    let cursor: i64 = if total > 0 {
        entries[0].id
    } else {
        0
    };
    History { lines, cursor }
}

/// A stream to a client: the row behind which the next entries come, and how often the log was
/// cleared.
#[derive(Debug, Clone, Copy, PartialEq, Eq, Structural)]
pub struct Cursor {
    pub last_id: i64,
    pub generation: u64,
}

/// What a poll has to do.
#[derive(Debug, Clone, Copy, PartialEq, Eq, Structural)]
pub enum PollStep {
    /// The log was cleared: the client is told, where it can be, and the stream starts from the
    /// beginning.
    Cleared,
    /// The entries behind the row are asked for.
    Ask(i64),
}

/// The generation that an answer of the store stands for; none counts as the first one.
pub fn generation_of(answer: Option<u64>) -> (r: u64)
    ensures
        r == match answer {
            Some(g) => g,
            None => 0,
        },
{
    match answer {
        Some(g) => g,
        None => 0,
    }
}

/// The stream after the generation was looked at.
pub open spec fn after_look(c: Cursor, generation: u64) -> Cursor {
    if generation != c.generation {
        Cursor { last_id: 0, generation }
    } else {
        c
    }
}

/// The stream after entries were sent.
pub open spec fn after_batch(c: Cursor, entries: Seq<LogEntry>) -> Cursor {
    if entries.len() > 0 {
        Cursor { last_id: entries.last().id, generation: c.generation }
    } else {
        c
    }
}

impl Cursor {
    /// A stream to a client that has seen the row `last_id`.
    pub fn new(last_id: i64, generation: u64) -> (r: Cursor)
        ensures
            r == (Cursor { last_id, generation }),
    {
        Cursor { last_id, generation }
    }

    /// Looks at the generation: what the poll has to do.
    pub fn look(&mut self, generation: u64) -> (r: PollStep)
        ensures
            *final(self) == after_look(*old(self), generation),
            r == if generation != old(self).generation {
                PollStep::Cleared
            } else {
                PollStep::Ask(old(self).last_id)
            },
    {
        if generation != self.generation {
            self.generation = generation;
            self.last_id = 0;
            PollStep::Cleared
        } else {
            PollStep::Ask(self.last_id)
        }
    }

    /// Takes in the entries behind the row: what the client is sent.
    pub fn batch(&mut self, entries: &Vec<LogEntry>, kind: StreamKind) -> (r: Vec<String>)
        ensures
            *final(self) == after_batch(*old(self), entries@),
            text::texts(r@) == all_sent(entries@, kind),
    {
        let mut out: Vec<String> = Vec::new();
        let ghost start = *self;
        let ghost goal = all_sent(entries@, kind);
        let mut i: usize = 0;
        while i < entries.len()
            invariant
                i <= entries@.len(),
                goal == all_sent(entries@, kind),
                text::texts(out@) == goal.take(i as int),
                *self == after_batch(start, entries@.take(i as int)),
            decreases entries@.len() - i,
        {
            let ghost before = text::texts(out@);
            self.last_id = entries[i].id;
            out.push(send(&entries[i], kind));
            assert(text::texts(out@) =~= before.push(goal[i as int]));
            assert(entries@.take(i + 1).last() == entries@[i as int]);
            i = i + 1;
        }
        assert(text::texts(out@) =~= goal);
        assert(entries@.take(i as int) =~= entries@);
        out
    }
}

/// The first rows of a log behind a row, as many as one poll asks for.
pub open spec fn next_batch(log: Seq<LogEntry>, sent: nat) -> Seq<LogEntry> {
    if log.len() - sent > BATCH_SIZE {
        log.subrange(sent as int, sent + BATCH_SIZE)
    } else {
        log.skip(sent as int)
    }
}

/// Whether rows ascend and lie behind the beginning.
pub open spec fn is_log(log: Seq<LogEntry>) -> bool {
    &&& forall|i: int, j: int|
        #![trigger log[i], log[j]]
        0 <= i < j < log.len() ==> log[i].id < log[j].id
    &&& forall|i: int| 0 <= i < log.len() ==> (#[trigger] log[i]).id > 0
}

/// The row behind which the entries come that were not sent, where `sent` were.
pub open spec fn row_after(log: Seq<LogEntry>, sent: nat) -> i64 {
    if sent == 0 {
        0
    } else {
        log[sent - 1].id
    }
}

/// A batch moves the stream behind exactly the entries that were sent with it: none is left out
/// and none is sent twice, however many batches a log takes.
pub proof fn batches_follow_each_other(log: Seq<LogEntry>, sent: nat, c: Cursor)
    requires
        is_log(log),
        sent <= log.len(),
        c.last_id == row_after(log, sent),
    ensures
        forall|i: int|
            0 <= i < log.len() ==> ((#[trigger] log[i]).id > c.last_id <==> i >= sent),
        after_batch(c, next_batch(log, sent)).last_id == row_after(
            log,
            (sent + next_batch(log, sent).len()) as nat,
        ),
        sent < log.len() ==> next_batch(log, sent).len() > 0,
{
    let batch = next_batch(log, sent);
    assert forall|i: int| 0 <= i < log.len() implies ((#[trigger] log[i]).id > c.last_id <==> i
        >= sent) by {
        if sent > 0 {
            assert(log[sent - 1].id == c.last_id);
        }
    }
    if batch.len() > 0 {
        assert(batch.last() == log[sent + batch.len() - 1]);
    }
}

/// After the log was cleared the stream starts from the beginning: every entry of the new log
/// lies behind its row.
pub proof fn cleared_log_is_sent_anew(c: Cursor, generation: u64, log: Seq<LogEntry>)
    requires
        generation != c.generation,
        is_log(log),
    ensures
        forall|i: int|
            0 <= i < log.len() ==> (#[trigger] log[i]).id > after_look(c, generation).last_id,
        after_look(after_look(c, generation), generation) == after_look(c, generation),
{
}

/// A client is sent the date and the time of an entry, a space, and its message, as it is or without
/// control sequences.
pub proof fn clients_are_sent_time_and_message(e: LogEntry)
    ensures
        sent(e, StreamKind::Raw) == clock::stamp_text(e.timestamp@, "%Y-%m-%d %H:%M:%S"@) + " "@
            + e.message@,
        sent(e, StreamKind::Stripped) == clock::stamp_text(e.timestamp@, "%Y-%m-%d %H:%M:%S"@) + " "@
            + terminal::plain_text(e.message@),
{
}

/// Each entry is sent once, in its order.
pub proof fn each_entry_is_sent_once(a: Seq<LogEntry>, b: Seq<LogEntry>, kind: StreamKind)
    ensures
        all_sent(a + b, kind) == all_sent(a, kind) + all_sent(b, kind),
        all_sent(a, kind).len() == a.len(),
        forall|i: int| 0 <= i < a.len() ==> #[trigger] all_sent(a, kind)[i] == sent(a[i], kind),
{
    assert(all_sent(a + b, kind) =~= all_sent(a, kind) + all_sent(b, kind));
}

/// While the log is not cleared the stream stays where it is; a clear, whatever the generation was,
/// sets it back to the beginning.
pub proof fn only_a_clear_starts_anew(c: Cursor, generation: u64)
    ensures
        generation == c.generation ==> after_look(c, generation) == c,
        generation != c.generation ==> after_look(c, generation).last_id == 0 && after_look(
            c,
            generation,
        ).generation == generation,
{
}

/// Entries move the stream behind the last of them, and leave its generation.
pub proof fn batches_move_behind_their_last(c: Cursor, entries: Seq<LogEntry>)
    ensures
        after_batch(c, entries).generation == c.generation,
        entries.len() == 0 ==> after_batch(c, entries).last_id == c.last_id,
        entries.len() > 0 ==> after_batch(c, entries).last_id == entries[entries.len() - 1].id,
{
}

/// What a refused client is answered.
pub proof fn refusals_are_answered(e: String)
    ensures
        TailRefusal::InvalidId.code() == 400,
        TailRefusal::QueryFailed(e).code() == 404,
        TailRefusal::QueryAborted.code() == 500,
        TailRefusal::InvalidId.shown() == "invalid daemon id"@,
        TailRefusal::QueryFailed(e).shown() == "failed to query logs: "@ + e@,
        TailRefusal::QueryAborted.shown() == "log query failed"@,
        DEFAULT_LINES == 100,
        BATCH_SIZE == 500,
{
}

/// What follows the history of entries with the newest one first is behind all of them.
pub proof fn history_ends_at_the_newest(entries: Seq<LogEntry>, i: int)
    requires
        0 <= i < entries.len(),
        forall|j: int, k: int|
            #![trigger entries[j], entries[k]]
            0 <= j < k < entries.len() ==> entries[j].id > entries[k].id,
    ensures
        entries[i].id <= first_row(entries),
        first_row(Seq::empty()) == 0,
{
    if i > 0 {
        assert(entries[0].id > entries[i].id);
    }
}

} // verus!
