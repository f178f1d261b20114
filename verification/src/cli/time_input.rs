//! How the times of `--since` and `--until` are read.
use crate::clock;
use crate::clock::{
    local_now, parse_day_time, parse_duration, parse_wall_clock, resolve_wall_clock, Moment, Stamp,
    TimeSpan, DATE_TIME, FIRST_DAY, TIME_OF_DAY,
};
use crate::text;
use crate::text::trim;
use vstd::prelude::*;

verus! {

/// The pattern of a date and a time without seconds.
pub const DATE_MINUTE: &'static str = "%Y-%m-%d %H:%M";

/// The pattern of a time of the day without seconds.
pub const MINUTE_OF_DAY: &'static str = "%H:%M";

/// Why a text is not read as a time.
#[derive(Debug)]
pub enum TimeError {
    /// The local clock never or twice shows that time.
    Ambiguous { text: String },
    /// The duration is too long.
    TooLong,
    /// The calendar does not hold the moment.
    BeyondCalendar,
    /// The text has none of the known forms.
    Invalid { text: String },
}

/// Why a text is not read as a time.
pub enum TimeFault {
    Ambiguous(Seq<char>),
    TooLong,
    BeyondCalendar,
    Invalid(Seq<char>),
}

impl TimeError {
    /// The fault that the error reports.
    pub open spec fn fault(&self) -> TimeFault {
        match self {
            TimeError::Ambiguous { text } => TimeFault::Ambiguous(text@),
            TimeError::TooLong => TimeFault::TooLong,
            TimeError::BeyondCalendar => TimeFault::BeyondCalendar,
            TimeError::Invalid { text } => TimeFault::Invalid(text@),
        }
    }

    /// The sentence that describes the error.
    pub open spec fn shown(&self) -> Seq<char> {
        match self {
            TimeError::Ambiguous { text } => "Invalid or ambiguous datetime: '"@ + text@ + "'"@,
            TimeError::TooLong => "Source duration value is out of range for the target type"@,
            TimeError::BeyondCalendar => "The time is beyond the calendar"@,
            TimeError::Invalid { text } => "Invalid time format: '"@ + text@
                + "'. Expected formats:\n- Full datetime: \"YYYY-MM-DD HH:MM:SS\" or \"YYYY-MM-DD HH:MM\"\n- Time only: \"HH:MM:SS\" or \"HH:MM\" (uses today's date)\n- Relative time: \"5min\", \"2h\", \"1d\" (e.g., last 5 minutes)"@,
        }
    }

    /// The sentence that describes the error.
    pub fn message(&self) -> (r: String)
        ensures
            r@ == self.shown(),
    {
        match self {
            TimeError::Ambiguous { text } => "Invalid or ambiguous datetime: '".to_string().concat(
                text.as_str(),
            ).concat("'"),
            TimeError::TooLong =>
                "Source duration value is out of range for the target type".to_string(),
            TimeError::BeyondCalendar => "The time is beyond the calendar".to_string(),
            TimeError::Invalid { text } => "Invalid time format: '".to_string().concat(
                text.as_str(),
            ).concat(
                "'. Expected formats:\n- Full datetime: \"YYYY-MM-DD HH:MM:SS\" or \"YYYY-MM-DD HH:MM\"\n- Time only: \"HH:MM:SS\" or \"HH:MM\" (uses today's date)\n- Relative time: \"5min\", \"2h\", \"1d\" (e.g., last 5 minutes)",
            ),
        }
    }
}

/// A date and a time of the local clock, and the moment at which it shows them, where there is
/// exactly one.
#[derive(Debug, Clone, Copy)]
pub struct Shown {
    pub moment: Option<Moment>,
}

/// What a text may stand for, on the local clock.
#[derive(Debug, Clone, Copy)]
pub struct TimeReading {
    /// A date and a time with seconds.
    pub full: Option<Shown>,
    /// A date and a time without seconds.
    pub minute: Option<Shown>,
    /// A time of the day, as it is today and as it was yesterday.
    pub today: Option<(Shown, Shown)>,
    /// A duration, in seconds and nanoseconds.
    pub span: Option<(u64, u32)>,
    /// The present moment on the local clock.
    pub now: Stamp,
}

/// A moment or why there is none.
pub type TimeAnswer = Result<int, TimeFault>;

/// The answer where the local clock shows a time.
pub open spec fn shown_answer(shown: Shown, s: Seq<char>) -> TimeAnswer {
    match shown.moment {
        Some(m) => Ok(m@),
        None => Err(TimeFault::Ambiguous(s)),
    }
}

/// The day of a stamp on the local calendar.
pub open spec fn day_of(stamp: (int, int)) -> int {
    (clock::second_of(stamp.0) + stamp.1) / 86400
}

/// What a text is read as: a date and a time, a time of the day, or a duration before now.
///
/// A time of the day that is still to come means yesterday where the start of a range is read.
pub open spec fn answer(s: Seq<char>, is_since: bool, r: TimeReading) -> TimeAnswer {
    if r.full matches Some(shown) && shown.moment is Some {
        Ok(r.full->0.moment->0@)
    } else if let Some(shown) = r.minute {
        shown_answer(shown, s)
    } else if let Some((today, yesterday)) = r.today {
        match today.moment {
            None => Err(TimeFault::Ambiguous(s)),
            Some(m) => if is_since && m@ > r.now@.0 && day_of(r.now@) > FIRST_DAY {
                shown_answer(yesterday, s)
            } else {
                Ok(m@)
            },
        }
    } else if let Some((secs, nanos)) = r.span {
        let span = clock::nanos_at(secs as int, nanos as int);
        if span > clock::LONGEST_SPAN {
            Err(TimeFault::TooLong)
        } else if !clock::nanos_in_calendar(r.now@.0 - span) {
            Err(TimeFault::BeyondCalendar)
        } else {
            Ok(r.now@.0 - span)
        }
    } else {
        Err(TimeFault::Invalid(s))
    }
}

/// Whether a result is an answer.
pub open spec fn answers(r: Result<Moment, TimeError>, a: TimeAnswer) -> bool {
    match r {
        Ok(m) => a == Ok::<int, TimeFault>(m@),
        Err(e) => a == Err::<int, TimeFault>(e.fault()),
    }
}

fn shown_result(shown: Shown, s: &str) -> (r: Result<Moment, TimeError>)
    ensures
        answers(r, shown_answer(shown, s@)),
{
    match shown.moment {
        Some(m) => Ok(m),
        None => Err(TimeError::Ambiguous { text: s.to_string() }),
    }
}

/// What a text is read as, from what it may stand for.
pub fn decide_time(s: &str, is_since: bool, r: TimeReading) -> (out: Result<Moment, TimeError>)
    ensures
        answers(out, answer(s@, is_since, r)),
{
    if let Some(shown) = r.full {
        if let Some(m) = shown.moment {
            return Ok(m);
        }
    }
    if let Some(shown) = r.minute {
        return shown_result(shown, s);
    }
    if let Some((today, yesterday)) = r.today {
        return match today.moment {
            None => Err(TimeError::Ambiguous { text: s.to_string() }),
            Some(m) => {
                if is_since && m.is_after(&r.now.moment()) && r.now.day() > FIRST_DAY {
                    shown_result(yesterday, s)
                } else {
                    Ok(m)
                }
            },
        };
    }
    if let Some((secs, nanos)) = r.span {
        return match TimeSpan::from_std(secs, nanos) {
            None => Err(TimeError::TooLong),
            Some(span) => match r.now.moment().minus(&span) {
                None => Err(TimeError::BeyondCalendar),
                Some(m) => Ok(m),
            },
        };
    }
    Err(TimeError::Invalid { text: s.to_string() })
}

/// The time of the day that a text shows, with or without seconds.
pub open spec fn time_only(s: Seq<char>) -> Option<(u32, u32)> {
    match clock::day_time(s, TIME_OF_DAY@) {
        Some(t) => Some(t),
        None => clock::day_time(s, MINUTE_OF_DAY@),
    }
}

/// Reads a time of the day, with or without seconds.
pub fn parse_time_only(s: &str) -> (r: Option<(u32, u32)>)
    ensures
        r == time_only(s@),
        r matches Some(t) ==> t.0 < 86400 && t.1 < 2_000_000_000,
{
    match parse_day_time(s, TIME_OF_DAY) {
        Some(t) => Some(t),
        None => parse_day_time(s, MINUTE_OF_DAY),
    }
}

/// Whether a date and a time were looked up on the local clock.
pub open spec fn is_shown(shown: Option<Shown>, wall: Option<(i64, u32)>) -> bool {
    match wall {
        Some(w) => shown matches Some(s) && clock::is_answer(s.moment, w.0, w.1),
        None => shown is None,
    }
}

/// Looks up a date and a time on the local clock.
fn look_up(wall: Option<(i64, u32)>) -> (r: Option<Shown>)
    ensures
        is_shown(r, wall),
{
    match wall {
        Some((secs, nanos)) => Some(Shown { moment: resolve_wall_clock(secs, nanos) }),
        None => None,
    }
}

/// Whether a reading holds what a text may stand for now: the machine was asked for the time, and
/// for the moment of each date and time that the text may show.
pub open spec fn reads(s: Seq<char>, r: TimeReading) -> bool {
    &&& clock::clock_tells(r.now@)
    &&& is_shown(r.full, clock::wall_clock(s, DATE_TIME@))
    &&& is_shown(r.minute, clock::wall_clock(s, DATE_MINUTE@))
    &&& match time_only(s) {
        Some((secs, nanos)) => {
            let start = day_of(r.now@) * 86400;
            &&& r.today matches Some((today, yesterday))
            &&& clock::is_answer(today.moment, (start + secs) as i64, nanos)
            &&& clock::is_answer(yesterday.moment, (start - 86400 + secs) as i64, nanos)
        },
        None => r.today is None,
    }
    &&& r.span == clock::duration_of(s)
}

/// What a text may stand for now, on the local clock.
pub fn read_time(s: &str) -> (r: TimeReading)
    ensures
        reads(s@, r),
{
    let now = local_now();
    let full = look_up(parse_wall_clock(s, DATE_TIME));
    let minute = look_up(parse_wall_clock(s, DATE_MINUTE));
    let today = match parse_time_only(s) {
        Some((secs, nanos)) => {
            let start: i64 = now.day() * 86400;
            let here = Shown { moment: resolve_wall_clock(start + secs as i64, nanos) };
            let before = Shown { moment: resolve_wall_clock(start - 86400 + secs as i64, nanos) };
            Some((here, before))
        },
        None => None,
    };
    TimeReading { full, minute, today, span: parse_duration(s), now }
}

/// Parse time input string into a moment.
///
/// `is_since` indicates whether this is for --since (true) or --until (false).
/// The "yesterday fallback" only applies to --since: if the time is in the future,
/// assume the user meant yesterday. For --until, future times are kept as-is.
///
/// The clock and the time zone decide on all but the texts that have none of the known forms.
pub fn parse_time_input(s: &str, is_since: bool) -> (r: Result<Moment, TimeError>)
    ensures
        exists|reading: TimeReading|
            {
                &&& #[trigger] reads(text::trimmed(s@), reading)
                &&& answers(r, answer(text::trimmed(s@), is_since, reading))
            },
{
    let s = trim(s);
    let reading = read_time(s.as_str());
    decide_time(s.as_str(), is_since, reading)
}

/// The start of a range that is read as a time of the day has come, where yesterday's time has:
/// the time for today is taken only where it is not still to come.
pub proof fn since_has_come(s: Seq<char>, r: TimeReading)
    requires
        r.full is None,
        r.minute is None,
        r.today matches Some(t) && (t.1.moment matches Some(m) ==> m@ <= r.now@.0),
        day_of(r.now@) > FIRST_DAY,
    ensures
        answer(s, true, r) matches Ok(at) ==> at <= r.now@.0,
{
}

/// The end of a range that is read as a time of the day is that time today.
pub proof fn until_is_today(s: Seq<char>, r: TimeReading)
    requires
        r.full is None,
        r.minute is None,
        r.today is Some,
    ensures
        answer(s, false, r) == shown_answer((r.today->0).0, s),
{
}

/// A duration is read as the moment that long ago.
pub proof fn duration_is_past(s: Seq<char>, is_since: bool, r: TimeReading)
    requires
        r.full is None,
        r.minute is None,
        r.today is None,
        r.span is Some,
    ensures
        answer(s, is_since, r) matches Ok(at) ==> at == r.now@.0 - clock::nanos_at(
            (r.span->0).0 as int,
            (r.span->0).1 as int,
        ),
{
}

/// A date and a time is that moment, with seconds before without; a time of the day is today's, and
/// for the start of a range yesterday's exactly where today's is still to come.
pub proof fn times_are_read_as_shown(s: Seq<char>, is_since: bool, r: TimeReading)
    ensures
        r.full matches Some(shown) ==> shown.moment matches Some(m) ==> answer(s, is_since, r) == Ok::<
            int,
            TimeFault,
        >(m@),
        r.full is None && r.minute is Some && r.minute->0.moment is Some ==> answer(s, is_since, r)
            == Ok::<int, TimeFault>(r.minute->0.moment->0@),
        r.full is None && r.minute is Some && r.minute->0.moment is None ==> answer(s, is_since, r)
            == Err::<int, TimeFault>(TimeFault::Ambiguous(s)),
        r.full is None && r.minute is None && r.today is Some && (r.today->0).0.moment is Some ==> {
            let today = (r.today->0).0.moment->0@;
            &&& !is_since || today <= r.now@.0 ==> answer(s, is_since, r) == Ok::<int, TimeFault>(
                today,
            )
            &&& is_since && today > r.now@.0 && day_of(r.now@) > FIRST_DAY
                && (r.today->0).1.moment is Some ==> answer(s, is_since, r) == Ok::<int, TimeFault>(
                (r.today->0).1.moment->0@,
            )
        },
        r.full is None && r.minute is None && r.today is None && r.span is None ==> answer(
            s,
            is_since,
            r,
        ) == Err::<int, TimeFault>(TimeFault::Invalid(s)),
{
}

/// A duration is read as the moment that long before now, exactly where that is a moment of the
/// calendar; a duration that is too long is told.
pub proof fn durations_are_read_back_from_now(
    s: Seq<char>,
    is_since: bool,
    r: TimeReading,
    secs: u64,
    nanos: u32,
)
    requires
        r.full is None && r.minute is None && r.today is None,
        r.span == Some((secs, nanos)),
    ensures
        ({
            let span = secs * 1_000_000_000 + nanos;
            answer(s, is_since, r) == if span > clock::LONGEST_SPAN {
                Err::<int, TimeFault>(TimeFault::TooLong)
            } else if clock::nanos_in_calendar(r.now@.0 - span) {
                Ok::<int, TimeFault>(r.now@.0 - span)
            } else {
                Err::<int, TimeFault>(TimeFault::BeyondCalendar)
            }
        }),
{
}

/// A time of the day is read with its seconds or without.
pub proof fn times_of_the_day_have_two_forms(s: Seq<char>)
    ensures
        clock::day_time(s, "%H:%M:%S"@) matches Some(t) ==> time_only(s) == Some(t),
        clock::day_time(s, "%H:%M:%S"@) is None ==> time_only(s) == clock::day_time(s, "%H:%M"@),
{
}

/// A text is looked up on the clock in the forms of a date and a time, with and without seconds, and
/// as a time of today and of yesterday; it is read as a duration as it stands.
pub proof fn readings_try_every_form(s: Seq<char>, r: TimeReading)
    requires
        reads(s, r),
    ensures
        r.full is Some <==> clock::wall_clock(s, "%Y-%m-%d %H:%M:%S"@) is Some,
        r.minute is Some <==> clock::wall_clock(s, "%Y-%m-%d %H:%M"@) is Some,
        r.today is Some <==> clock::day_time(s, "%H:%M:%S"@) is Some || clock::day_time(s, "%H:%M"@)
            is Some,
        r.span == clock::duration_of(s),
        clock::wall_clock(s, "%Y-%m-%d %H:%M:%S"@) matches Some(w) ==> clock::is_answer(
            r.full->0.moment,
            w.0,
            w.1,
        ),
        clock::wall_clock(s, "%Y-%m-%d %H:%M"@) matches Some(w) ==> clock::is_answer(
            r.minute->0.moment,
            w.0,
            w.1,
        ),
{
}

} // verus!
