//! Moments, spans of time and their texts.
use crate::text;
use crate::text::{chars_of, text_eq};
use vstd::prelude::*;

verus! {

/// The first second of the calendar.
pub const CALENDAR_START: i64 = -8334601228800;

/// The last second of the calendar.
pub const CALENDAR_END: i64 = 8210266876799;

/// The first day of the calendar, counted from 1970-01-01.
pub const FIRST_DAY: i64 = -96465292;

/// The longest span, in nanoseconds.
pub const LONGEST_SPAN: i128 = 9223372036854775807000000;

/// The pattern of a date and a time.
pub const DATE_TIME: &'static str = "%Y-%m-%d %H:%M:%S";

/// The pattern of a time of the day.
pub const TIME_OF_DAY: &'static str = "%H:%M:%S";

/// The nanoseconds from 1970-01-01 to a second and some nanoseconds behind it.
pub open spec fn nanos_at(secs: int, nanos: int) -> int {
    secs * 1_000_000_000 + nanos
}

/// Whether a number of nanoseconds from 1970-01-01 lies in a second of the calendar.
pub open spec fn in_seconds(nanos: int) -> bool {
    CALENDAR_START * 1_000_000_000 <= nanos < CALENDAR_END * 1_000_000_000 + 1_000_000_000
}

/// Whether a number of nanoseconds from 1970-01-01 lies in the calendar, with the leap second that
/// may follow its last second.
pub open spec fn nanos_in_calendar(nanos: int) -> bool {
    CALENDAR_START * 1_000_000_000 <= nanos < CALENDAR_END * 1_000_000_000 + 2_000_000_000
}

/// Whether a second and some nanoseconds behind it, of a leap second too, lie in the calendar.
pub open spec fn in_calendar(secs: int, nanos: int) -> bool {
    CALENDAR_START <= secs <= CALENDAR_END && 0 <= nanos < 2_000_000_000
}

/// The second that a number of nanoseconds from 1970-01-01 lies in; a leap second behind the last
/// second counts as a part of it.
pub open spec fn second_of(nanos: int) -> int {
    if nanos >= (CALENDAR_END + 1) * 1_000_000_000 {
        CALENDAR_END as int
    } else {
        nanos / 1_000_000_000
    }
}

/// The nanoseconds behind the second that a number of nanoseconds from 1970-01-01 lies in.
pub open spec fn rest_of(nanos: int) -> int {
    nanos - second_of(nanos) * 1_000_000_000
}

/// Whether a second and some nanoseconds behind it are what a moment of the calendar is split into.
pub open spec fn is_split(secs: int, nanos: int) -> bool {
    in_calendar(secs, nanos) && (nanos >= 1_000_000_000 ==> secs == CALENDAR_END)
}

/// A moment within the calendar, counted in nanoseconds from 1970-01-01.
#[derive(Debug, Clone, Copy, PartialEq, Eq, Structural)]
pub struct Moment {
    nanos: i128,
}

impl View for Moment {
    type V = int;

    closed spec fn view(&self) -> int {
        self.nanos as int
    }
}

/// The quotient, rounded down.
fn floor_div(a: i128, b: i128) -> (r: i128)
    requires
        b > 1,
    ensures
        r == (a as int) / (b as int),
{
    if a >= 0 {
        a / b
    } else {
        // Both parts of -1 - a are non-negative.
        let k: i128 = -1 - (-1 - a) / b;
        proof {
            let q = (-1 - a) as int / b as int;
            let rem = (-1 - a) as int % b as int;
            vstd::arithmetic::div_mod::lemma_fundamental_div_mod(-1 - a, b as int);
            assert(a == b * (-1 - q) + (b - 1 - rem)) by (nonlinear_arith)
                requires
                    -1 - a == b * q + rem,
            ;
            vstd::arithmetic::div_mod::lemma_fundamental_div_mod_converse(
                a as int,
                b as int,
                -1 - q,
                b - 1 - rem,
            );
        }
        k
    }
}

/// Whether the calendar holds the moment some nanoseconds from 1970-01-01.
fn holds_nanos(nanos: i128) -> (r: bool)
    ensures
        r == nanos_in_calendar(nanos as int),
{
    CALENDAR_START as i128 * 1_000_000_000 <= nanos && nanos < CALENDAR_END as i128 * 1_000_000_000
        + 2_000_000_000
}

impl Moment {
    #[verifier::type_invariant]
    spec fn lies_in_calendar(self) -> bool {
        nanos_in_calendar(self.nanos as int)
    }

    /// The moment some nanoseconds after a second that is counted from 1970-01-01.
    pub fn new(secs: i64, nanos: u32) -> (r: Option<Moment>)
        ensures
            match r {
                Some(m) => in_calendar(secs as int, nanos as int) && m@ == nanos_at(
                    secs as int,
                    nanos as int,
                ),
                None => !in_calendar(secs as int, nanos as int),
            },
    {
        let total: i128 = secs as i128 * 1_000_000_000 + nanos as i128;
        if CALENDAR_START <= secs && secs <= CALENDAR_END && nanos < 2_000_000_000 {
            Some(Moment { nanos: total })
        } else {
            None
        }
    }

    /// The moment that is counted in milliseconds from 1970-01-01.
    pub fn from_millis(millis: i64) -> (r: Option<Moment>)
        ensures
            match r {
                Some(m) => in_seconds(millis * 1_000_000) && m@ == millis * 1_000_000,
                None => !in_seconds(millis * 1_000_000),
            },
    {
        let nanos: i128 = millis as i128 * 1_000_000;
        if CALENDAR_START as i128 * 1_000_000_000 <= nanos && nanos < (CALENDAR_END as i128 + 1)
            * 1_000_000_000 {
            Some(Moment { nanos })
        } else {
            None
        }
    }

    /// The milliseconds from 1970-01-01 to the moment, rounded down.
    pub fn millis(&self) -> (r: i64)
        ensures
            r == self@ / 1_000_000,
    {
        proof {
            use_type_invariant(self);
        }
        floor_div(self.nanos, 1_000_000) as i64
    }

    /// The second that the moment lies in, and the nanoseconds behind it.
    pub fn parts(&self) -> (r: (i64, u32))
        ensures
            r.0 == second_of(self@),
            r.1 == rest_of(self@),
            is_split(r.0 as int, r.1 as int),
    {
        proof {
            use_type_invariant(self);
        }
        let full: i128 = floor_div(self.nanos, 1_000_000_000);
        let secs: i128 = if full > CALENDAR_END as i128 {
            CALENDAR_END as i128
        } else {
            full
        };
        let rest: i128 = self.nanos - secs * 1_000_000_000;
        (secs as i64, rest as u32)
    }

    /// Whether the moment comes after another one.
    pub fn is_after(&self, other: &Moment) -> (r: bool)
        ensures
            r == (self@ > other@),
    {
        self.nanos > other.nanos
    }

    /// The moment a span earlier, where the calendar holds it.
    pub fn minus(&self, span: &TimeSpan) -> (r: Option<Moment>)
        ensures
            match r {
                Some(m) => nanos_in_calendar(self@ - span@) && m@ == self@ - span@,
                None => !nanos_in_calendar(self@ - span@),
            },
    {
        proof {
            use_type_invariant(self);
            use_type_invariant(span);
        }
        let nanos: i128 = self.nanos - span.nanos;
        if holds_nanos(nanos) {
            Some(Moment { nanos })
        } else {
            None
        }
    }
}

/// A span of time, counted in nanoseconds.
#[derive(Debug, Clone, Copy, PartialEq, Eq, Structural)]
pub struct TimeSpan {
    nanos: i128,
}

impl View for TimeSpan {
    type V = int;

    closed spec fn view(&self) -> int {
        self.nanos as int
    }
}

impl TimeSpan {
    #[verifier::type_invariant]
    spec fn is_bounded(self) -> bool {
        -LONGEST_SPAN <= self.nanos <= LONGEST_SPAN
    }

    /// The span of some seconds and nanoseconds, where it is at most the longest one.
    pub fn from_std(secs: u64, nanos: u32) -> (r: Option<TimeSpan>)
        ensures
            match r {
                Some(span) => nanos_at(secs as int, nanos as int) <= LONGEST_SPAN && span@
                    == nanos_at(secs as int, nanos as int),
                None => nanos_at(secs as int, nanos as int) > LONGEST_SPAN,
            },
    {
        let total: i128 = secs as i128 * 1_000_000_000 + nanos as i128;
        if total <= LONGEST_SPAN {
            Some(TimeSpan { nanos: total })
        } else {
            None
        }
    }

    /// The span of some seconds.
    pub fn seconds(secs: u32) -> (r: TimeSpan)
        ensures
            r@ == secs * 1_000_000_000,
    {
        TimeSpan { nanos: secs as i128 * 1_000_000_000 }
    }
}

/// Whether an offset is less than a day.
pub open spec fn valid_offset(offset: int) -> bool {
    -86400 < offset < 86400
}

/// A moment with the offset of the local clock at it, in seconds east of UTC.
#[derive(Debug, Clone, Copy)]
pub struct Stamp {
    moment: Moment,
    offset: i32,
}

impl View for Stamp {
    type V = (int, int);

    closed spec fn view(&self) -> (int, int) {
        (self.moment@, self.offset as int)
    }
}

/// The text of a stamp in a pattern.
pub open spec fn stamp_text(stamp: (int, int), pattern: Seq<char>) -> Seq<char> {
    clock_text(
        second_of(stamp.0) as i64,
        rest_of(stamp.0) as u32,
        stamp.1 as i32,
        pattern,
    )
}

impl Stamp {
    #[verifier::type_invariant]
    spec fn has_valid_offset(self) -> bool {
        valid_offset(self.offset as int)
    }

    /// The stamp of a moment, where the offset is less than a day.
    pub fn new(moment: Moment, offset: i32) -> (r: Option<Stamp>)
        ensures
            match r {
                Some(s) => valid_offset(offset as int) && s@ == (moment@, offset as int),
                None => !valid_offset(offset as int),
            },
    {
        if -86400 < offset && offset < 86400 {
            Some(Stamp { moment, offset })
        } else {
            None
        }
    }

    /// The moment of the stamp.
    pub fn moment(&self) -> (r: Moment)
        ensures
            r@ == self@.0,
    {
        self.moment
    }

    /// The day of the stamp on the local calendar, counted from 1970-01-01.
    pub fn day(&self) -> (r: i64)
        ensures
            r == (second_of(self@.0) + self@.1) / 86400,
            -100_000_000 < r < 100_000_000,
    {
        proof {
            use_type_invariant(self);
        }
        let (secs, _) = self.moment.parts();
        floor_div(secs as i128 + self.offset as i128, 86400) as i64
    }

    /// The date and the time on the local clock.
    pub fn date_time(&self) -> (r: String)
        ensures
            r@ == stamp_text(self@, DATE_TIME@),
    {
        proof {
            use_type_invariant(self);
        }
        let (secs, nanos) = self.moment.parts();
        chrono_format(secs, nanos, self.offset, DATE_TIME)
    }

    /// The time of the day on the local clock.
    pub fn time_of_day(&self) -> (r: String)
        ensures
            r@ == stamp_text(self@, TIME_OF_DAY@),
    {
        proof {
            use_type_invariant(self);
        }
        let (secs, nanos) = self.moment.parts();
        chrono_format(secs, nanos, self.offset, TIME_OF_DAY)
    }

    /// The stamp as RFC 3339 has it.
    pub fn rfc3339(&self) -> (r: String)
        ensures
            r@ == rfc3339_text(
                second_of(self@.0) as i64,
                rest_of(self@.0) as u32,
                self@.1 as i32,
            ),
    {
        proof {
            use_type_invariant(self);
        }
        let (secs, nanos) = self.moment.parts();
        chrono_rfc3339(secs, nanos, self.offset)
    }
}

/// `chrono::Local::now`: the moment as seconds and nanoseconds, and the offset of the local
/// clock at it.
///
/// The clock and the time zone of the machine decide; the moment lies in a second of the calendar,
/// and the offset is less than a day.
#[verifier::external_body]
fn chrono_now() -> (r: (i64, u32, i32))
    ensures
        in_seconds(nanos_at(r.0 as int, r.1 as int)),
        valid_offset(r.2 as int),
{
    let now = chrono::Local::now();
    (now.timestamp(), now.timestamp_subsec_nanos(), now.offset().local_minus_utc())
}

/// Whether a moment in nanoseconds, with an offset, is what the machine may answer when it is asked
/// for the time.
pub closed spec fn clock_tells(stamp: (int, int)) -> bool {
    exists|answer: (i64, u32, i32)| #[trigger]
        call_ensures(chrono_now, (), answer) && stamp == (
            nanos_at(answer.0 as int, answer.1 as int),
            answer.2 as int,
        )
}

/// The present moment on the local clock: what the machine answers when it is asked for the time.
pub fn local_now() -> (r: Stamp)
    ensures
        clock_tells(r@),
        in_seconds(r@.0),
        valid_offset(r@.1),
{
    let ask = chrono_now;
    let (secs, nanos, offset) = ask();
    assert(call_ensures(chrono_now, (), (secs, nanos, offset)));
    Stamp {
        moment: Moment { nanos: secs as i128 * 1_000_000_000 + nanos as i128 },
        offset,
    }
}

/// `chrono::Local::timestamp_millis_opt` with `single`: the offset of the local clock at a
/// number of milliseconds from 1970-01-01, where the calendar holds that moment.
///
/// The time zone of the machine decides on the offset, which is less than a day.
#[verifier::external_body]
fn chrono_offset(millis: i64) -> (r: Option<i32>)
    ensures
        match r {
            Some(offset) => valid_offset(offset as int) && in_seconds(millis * 1_000_000),
            None => !in_seconds(millis * 1_000_000),
        },
{
    let at = chrono::TimeZone::timestamp_millis_opt(&chrono::Local, millis).single();
    at.map(|t| t.offset().local_minus_utc())
}

/// The stamp of a moment that is counted in milliseconds: the moment itself with the offset of
/// the local clock at it, or the present stamp where there is none.
pub fn stamp_with(millis: i64, offset: Option<i32>, now: Stamp) -> (r: Stamp)
    ensures
        match offset {
            Some(o) => if valid_offset(o as int) && in_seconds(millis * 1_000_000) {
                r@ == (millis * 1_000_000, o as int)
            } else {
                r@ == now@
            },
            None => r@ == now@,
        },
{
    match (offset, Moment::from_millis(millis)) {
        (Some(o), Some(moment)) => match Stamp::new(moment, o) {
            Some(stamp) => stamp,
            None => now,
        },
        _ => now,
    }
}

/// Whether an offset is what the machine may answer when it is asked for the offset of the local
/// clock at a number of milliseconds.
pub closed spec fn clock_offset(millis: i64, offset: int) -> bool {
    exists|answer: i32| #[trigger]
        call_ensures(chrono_offset, (millis,), Some(answer)) && answer == offset
}

/// Whether a stamp is the one of a moment that is counted in milliseconds, with an offset that the
/// machine may answer for it; where the calendar does not hold that moment, it is a present one.
pub open spec fn is_stamp_at(stamp: (int, int), millis: i64) -> bool {
    if in_seconds(millis * 1_000_000) {
        stamp.0 == millis * 1_000_000 && clock_offset(millis, stamp.1)
    } else {
        clock_tells(stamp)
    }
}

/// The stamp of a moment that is counted in milliseconds; the present one where the calendar
/// does not hold that moment.
pub fn stamp_at(millis: i64) -> (r: Stamp)
    ensures
        is_stamp_at(r@, millis),
        valid_offset(r@.1),
        in_seconds(r@.0),
{
    let now = local_now();
    let ask = chrono_offset;
    let answer = ask(millis);
    assert(call_ensures(chrono_offset, (millis,), answer));
    stamp_with(millis, answer, now)
}

/// The text of a moment, in seconds and nanoseconds, on a clock with an offset.
pub uninterp spec fn clock_text(secs: i64, nanos: u32, offset: i32, pattern: Seq<char>) -> Seq<char>;

/// `chrono::DateTime::format` on a clock with a fixed offset.
///
/// The text depends on the moment, the offset and the pattern alone.
#[verifier::external_body]
fn chrono_format(secs: i64, nanos: u32, offset: i32, pattern: &str) -> (r: String)
    requires
        is_split(secs as int, nanos as int),
        valid_offset(offset as int),
        pattern@ == DATE_TIME@ || pattern@ == TIME_OF_DAY@,
    ensures
        r@ == clock_text(secs, nanos, offset, pattern@),
{
    let zone = chrono::FixedOffset::east_opt(offset).unwrap();
    let utc = chrono::DateTime::from_timestamp(secs, nanos).unwrap();
    utc.with_timezone(&zone).format(pattern).to_string()
}

/// The text of a moment, in seconds and nanoseconds, with its offset, as RFC 3339 has it.
pub uninterp spec fn rfc3339_text(secs: i64, nanos: u32, offset: i32) -> Seq<char>;

/// `chrono::DateTime::to_rfc3339` on a clock with a fixed offset.
///
/// The text depends on the moment and the offset alone.
#[verifier::external_body]
fn chrono_rfc3339(secs: i64, nanos: u32, offset: i32) -> (r: String)
    requires
        is_split(secs as int, nanos as int),
        valid_offset(offset as int),
    ensures
        r@ == rfc3339_text(secs, nanos, offset),
{
    let zone = chrono::FixedOffset::east_opt(offset).unwrap();
    let utc = chrono::DateTime::from_timestamp(secs, nanos).unwrap();
    utc.with_timezone(&zone).to_rfc3339()
}

/// The date and time that a text shows in a pattern, as the second from 1970-01-01 on a clock
/// without an offset and the nanoseconds behind it.
pub uninterp spec fn wall_clock(s: Seq<char>, pattern: Seq<char>) -> Option<(i64, u32)>;

/// The time of the day that a text shows in a pattern, as the second from midnight and the
/// nanoseconds behind it.
pub uninterp spec fn day_time(s: Seq<char>, pattern: Seq<char>) -> Option<(u32, u32)>;

/// `chrono::NaiveDateTime::parse_from_str`: the date and time that a text shows.
///
/// The result depends on the text and the pattern alone, and lies in the calendar.
#[verifier::external_body]
pub(crate) fn parse_wall_clock(s: &str, pattern: &str) -> (r: Option<(i64, u32)>)
    ensures
        r == wall_clock(s@, pattern@),
        r matches Some(w) ==> CALENDAR_START <= w.0 <= CALENDAR_END && w.1 < 2_000_000_000,
{
    let parsed = chrono::NaiveDateTime::parse_from_str(s, pattern).ok()?;
    let utc = parsed.and_utc();
    Some((utc.timestamp(), utc.timestamp_subsec_nanos()))
}

/// `chrono::NaiveTime::parse_from_str`: the time of the day that a text shows.
///
/// The result depends on the text and the pattern alone, and lies in a day.
#[verifier::external_body]
pub(crate) fn parse_day_time(s: &str, pattern: &str) -> (r: Option<(u32, u32)>)
    ensures
        r == day_time(s@, pattern@),
        r matches Some(w) ==> w.0 < 86400 && w.1 < 2_000_000_000,
{
    let parsed = chrono::NaiveTime::parse_from_str(s, pattern).ok()?;
    let secs = chrono::Timelike::num_seconds_from_midnight(&parsed);
    Some((secs, chrono::Timelike::nanosecond(&parsed)))
}

/// `chrono::Local::from_local_datetime` with `single`: the moment at which the local clock shows
/// a date and a time, where there is exactly one.
///
/// The time zone of the machine decides; the moment lies in the calendar, a leap second stays one,
/// and the moment is less than a day from the one at which a clock without an offset shows them.
#[verifier::external_body]
fn chrono_resolve(secs: i64, nanos: u32) -> (r: Option<(i64, u32)>)
    ensures
        r matches Some(at) ==> in_calendar(at.0 as int, at.1 as int) && valid_offset(secs - at.0)
            && at.1 == nanos,
{
    let naive = chrono::DateTime::from_timestamp(secs, nanos)?.naive_utc();
    let local = chrono::TimeZone::from_local_datetime(&chrono::Local, &naive).single()?;
    Some((local.timestamp(), local.timestamp_subsec_nanos()))
}

/// Whether there is an offset with which a clock shows a date and a time at a moment.
pub open spec fn shows(moment: int, secs: int, nanos: int) -> bool {
    exists|offset: int|
        #[trigger] valid_offset(offset) && moment == nanos_at(secs - offset, nanos)
}

/// Whether a moment, where there is one, is one at which a clock shows a date and a time.
pub open spec fn is_reading(moment: Option<Moment>, secs: int, nanos: int) -> bool {
    moment matches Some(m) ==> nanos_in_calendar(m@) && shows(m@, secs, nanos)
}

/// The moment of an answer in seconds and nanoseconds, where there is one.
pub open spec fn answered_moment(answer: Option<(i64, u32)>) -> Option<int> {
    match answer {
        Some(at) => Some(nanos_at(at.0 as int, at.1 as int)),
        None => None,
    }
}

/// Whether a moment, or none, is what the machine may answer when it is asked at which moment the
/// local clock shows a date and a time.
pub closed spec fn clock_resolves(secs: i64, nanos: u32, moment: Option<int>) -> bool {
    exists|answer: Option<(i64, u32)>| #[trigger]
        call_ensures(chrono_resolve, (secs, nanos), answer) && moment == answered_moment(answer)
}

/// Whether a moment, or none, is what the machine answers when it is asked at which moment the
/// local clock shows a date and a time; a moment is one at which a clock shows them.
pub open spec fn is_answer(moment: Option<Moment>, secs: i64, nanos: u32) -> bool {
    &&& clock_resolves(
        secs,
        nanos,
        match moment {
            Some(m) => Some(m@),
            None => None,
        },
    )
    &&& is_reading(moment, secs as int, nanos as int)
}

/// The moment at which the local clock shows a date and a time, where there is exactly one: what
/// the machine answers when it is asked for it.
pub fn resolve_wall_clock(secs: i64, nanos: u32) -> (r: Option<Moment>)
    ensures
        is_answer(r, secs, nanos),
{
    let ask = chrono_resolve;
    let answer = ask(secs, nanos);
    assert(call_ensures(chrono_resolve, (secs, nanos), answer));
    match answer {
        Some((s, n)) => {
            assert(valid_offset(secs - s) && nanos_at(s as int, n as int) == nanos_at(
                secs - (secs - s),
                n as int,
            ));
            Moment::new(s, n)
        },
        None => None,
    }
}

/// The nanoseconds of a unit; a text that is no unit has none.
pub open spec fn unit_nanos(unit: Seq<char>) -> nat {
    if unit == "nanos"@ || unit == "nsec"@ || unit == "ns"@ {
        1
    } else if unit == "usec"@ || unit == "us"@ || unit == "\u{b5}s"@ {
        1_000
    } else if unit == "millis"@ || unit == "msec"@ || unit == "ms"@ {
        1_000_000
    } else if unit == "seconds"@ || unit == "second"@ || unit == "secs"@ || unit == "sec"@ || unit == "s"@ {
        1_000_000_000
    } else if unit == "minutes"@ || unit == "minute"@ || unit == "min"@ || unit == "mins"@ || unit == "m"@ {
        60_000_000_000
    } else if unit == "hours"@ || unit == "hour"@ || unit == "hr"@ || unit == "hrs"@ || unit == "h"@ {
        3_600_000_000_000
    } else if unit == "days"@ || unit == "day"@ || unit == "d"@ {
        86_400_000_000_000
    } else if unit == "weeks"@ || unit == "week"@ || unit == "wk"@ || unit == "wks"@ || unit == "w"@ {
        604_800_000_000_000
    } else if unit == "months"@ || unit == "month"@ || unit == "M"@ {
        2_630_016_000_000_000
    } else if unit == "years"@ || unit == "year"@ || unit == "yr"@ || unit == "yrs"@ || unit == "y"@ {
        31_557_600_000_000_000
    } else {
        0
    }
}

fn nanos_of_unit(unit: &str) -> (r: u128)
    ensures
        r == unit_nanos(unit@),
        r <= YEAR_NANOS,
{
    if text_eq(unit, "nanos") || text_eq(unit, "nsec") || text_eq(unit, "ns") {
        1
    } else if text_eq(unit, "usec") || text_eq(unit, "us") || text_eq(unit, "\u{b5}s") {
        1_000
    } else if text_eq(unit, "millis") || text_eq(unit, "msec") || text_eq(unit, "ms") {
        1_000_000
    } else if text_eq(unit, "seconds") || text_eq(unit, "second") || text_eq(unit, "secs") || text_eq(unit, "sec") || text_eq(unit, "s") {
        1_000_000_000
    } else if text_eq(unit, "minutes") || text_eq(unit, "minute") || text_eq(unit, "min") || text_eq(unit, "mins") || text_eq(unit, "m") {
        60_000_000_000
    } else if text_eq(unit, "hours") || text_eq(unit, "hour") || text_eq(unit, "hr") || text_eq(unit, "hrs") || text_eq(unit, "h") {
        3_600_000_000_000
    } else if text_eq(unit, "days") || text_eq(unit, "day") || text_eq(unit, "d") {
        86_400_000_000_000
    } else if text_eq(unit, "weeks") || text_eq(unit, "week") || text_eq(unit, "wk") || text_eq(unit, "wks") || text_eq(unit, "w") {
        604_800_000_000_000
    } else if text_eq(unit, "months") || text_eq(unit, "month") || text_eq(unit, "M") {
        2_630_016_000_000_000
    } else if text_eq(unit, "years") || text_eq(unit, "year") || text_eq(unit, "yr") || text_eq(unit, "yrs") || text_eq(unit, "y") {
        31_557_600_000_000_000
    } else {
        0
    }
}

/// The nanoseconds of the longest unit.
pub const YEAR_NANOS: u128 = 31_557_600_000_000_000;

/// The nanoseconds of the first number of seconds that no duration holds.
pub const DURATION_LIMIT: u128 = 18_446_744_073_709_551_616_000_000_000;

/// The largest power of ten that the digits behind a decimal point may reach.
pub const LARGEST_SCALE: u128 = 10_000_000_000_000_000_000;

/// What a text adds up to so far: the nanoseconds of the parts that have ended, and the part under
/// way with its whole number, the digits behind its decimal point and its unit.
#[verifier::ext_equal]
pub struct SumView {
    pub total: nat,
    pub whole: nat,
    pub fraction: nat,
    pub scale: nat,
    pub pointed: bool,
    pub unit: Seq<char>,
}

/// Nothing was read.
pub open spec fn empty_sum() -> SumView {
    SumView { total: 0, whole: 0, fraction: 0, scale: 1, pointed: false, unit: Seq::empty() }
}

/// The nanoseconds of all parts, with the one under way.
pub open spec fn sum_nanos(x: SumView) -> nat {
    x.total + x.whole * unit_nanos(x.unit) + x.fraction * unit_nanos(x.unit) / x.scale
}

/// A sum whose part under way has ended and one with a first digit has begun.
pub open spec fn next_part(x: SumView, digit: nat) -> SumView {
    SumView { total: sum_nanos(x), whole: digit, ..empty_sum() }
}

/// Whether a character can stand in a unit.
pub open spec fn is_unit_char(c: char) -> bool {
    ('a' <= c && c <= 'z') || ('A' <= c && c <= 'Z') || c == '\u{b5}'
}

/// A sum with one more character of the text.
pub open spec fn with_char(x: SumView, c: char) -> SumView {
    if text::is_digit(c) {
        let d = (c as nat - '0' as nat) as nat;
        if x.unit.len() > 0 {
            next_part(x, d)
        } else if x.pointed {
            SumView { fraction: x.fraction * 10 + d, scale: x.scale * 10, ..x }
        } else {
            SumView { whole: x.whole * 10 + d, ..x }
        }
    } else if is_unit_char(c) {
        SumView { unit: x.unit.push(c), ..x }
    } else if x.unit.len() > 0 {
        next_part(x, 0)
    } else if c == '.' {
        SumView { pointed: true, ..x }
    } else {
        x
    }
}

/// Whether a sum has grown beyond what a duration can be made of.
pub open spec fn is_too_large(x: SumView) -> bool {
    x.total >= DURATION_LIMIT || x.whole > u64::MAX || x.scale > LARGEST_SCALE
}

/// What a text adds up to; nothing where a number or the sum has grown too large.
pub open spec fn text_sum(s: Seq<char>) -> Option<SumView>
    decreases s.len(),
{
    if s.len() == 0 {
        Some(empty_sum())
    } else {
        match text_sum(s.drop_last()) {
            Some(x) => {
                let next = with_char(x, s.last());
                if is_too_large(next) {
                    None
                } else {
                    Some(next)
                }
            },
            None => None,
        }
    }
}

/// Whether the parts of a text add up to less than the first number of seconds that no duration
/// holds.
pub open spec fn is_summable(s: Seq<char>) -> bool {
    match text_sum(s) {
        Some(x) => sum_nanos(x) < DURATION_LIMIT,
        None => false,
    }
}

/// What a text adds up to so far.
struct Sum {
    total: u128,
    whole: u128,
    fraction: u128,
    scale: u128,
    pointed: bool,
    unit: String,
}

impl View for Sum {
    type V = SumView;

    closed spec fn view(&self) -> SumView {
        SumView {
            total: self.total as nat,
            whole: self.whole as nat,
            fraction: self.fraction as nat,
            scale: self.scale as nat,
            pointed: self.pointed,
            unit: self.unit@,
        }
    }
}

impl Sum {
    /// Whether the numbers are small enough to go on.
    spec fn is_small(self) -> bool {
        !is_too_large(self@) && self.fraction < self.scale
    }

    fn nanos(&self) -> (r: u128)
        requires
            self.is_small(),
        ensures
            r == sum_nanos(self@),
    {
        let unit: u128 = nanos_of_unit(self.unit.as_str());
        proof {
            assert(self.whole * unit <= u64::MAX * YEAR_NANOS) by (nonlinear_arith)
                requires
                    self.whole <= u64::MAX,
                    unit <= YEAR_NANOS,
            ;
            assert(self.fraction * unit <= LARGEST_SCALE * YEAR_NANOS) by (nonlinear_arith)
                requires
                    self.fraction <= LARGEST_SCALE,
                    unit <= YEAR_NANOS,
            ;
            assert(self.fraction * unit / (self.scale as int) <= self.fraction * unit)
                by (nonlinear_arith)
                requires
                    self.scale >= 1,
                    self.fraction * unit >= 0,
            ;
        }
        self.total + self.whole * unit + self.fraction * unit / self.scale
    }

    fn add_char(self, c: char) -> (r: Sum)
        requires
            self.is_small(),
        ensures
            r@ == with_char(self@, c),
            r.fraction < r.scale,
    {
        if '0' <= c && c <= '9' {
            let d: u128 = (c as u32 - '0' as u32) as u128;
            if !self.unit.as_str().is_empty() {
                Sum {
                    total: self.nanos(),
                    whole: d,
                    fraction: 0,
                    scale: 1,
                    pointed: false,
                    unit: String::new(),
                }
            } else if self.pointed {
                Sum { fraction: self.fraction * 10 + d, scale: self.scale * 10, ..self }
            } else {
                Sum { whole: self.whole * 10 + d, ..self }
            }
        } else if ('a' <= c && c <= 'z') || ('A' <= c && c <= 'Z') || c == '\u{b5}' {
            let Sum { total, whole, fraction, scale, pointed, unit } = self;
            let mut unit = unit;
            unit.push(c);
            Sum { total, whole, fraction, scale, pointed, unit }
        } else if !self.unit.as_str().is_empty() {
            Sum {
                total: self.nanos(),
                whole: 0,
                fraction: 0,
                scale: 1,
                pointed: false,
                unit: String::new(),
            }
        } else if c == '.' {
            Sum { pointed: true, ..self }
        } else {
            self
        }
    }
}

/// What the beginning of a text is too large for, the text is too.
proof fn lemma_sum_stays_too_large(s: Seq<char>, n: int)
    requires
        0 <= n <= s.len(),
        text_sum(s.take(n)) is None,
    ensures
        text_sum(s) is None,
    decreases s.len(),
{
    if n < s.len() {
        assert(s.drop_last().take(n) =~= s.take(n));
        lemma_sum_stays_too_large(s.drop_last(), n);
    } else {
        assert(s.take(n) =~= s);
    }
}

fn can_sum(s: &str) -> (r: bool)
    ensures
        r == is_summable(s@),
{
    let v = chars_of(s);
    let mut sum = Sum {
        total: 0,
        whole: 0,
        fraction: 0,
        scale: 1,
        pointed: false,
        unit: String::new(),
    };
    assert(sum@ =~= empty_sum());
    let mut i: usize = 0;
    while i < v.len()
        invariant
            v@ == s@,
            i <= v@.len(),
            sum.is_small(),
            text_sum(s@.take(i as int)) == Some(sum@),
        decreases v@.len() - i,
    {
        assert(s@.take(i + 1).drop_last() =~= s@.take(i as int));
        assert(s@.take(i + 1).last() == s@[i as int]);
        sum = sum.add_char(v[i]);
        if sum.total >= DURATION_LIMIT || sum.whole > u64::MAX as u128 || sum.scale
            > LARGEST_SCALE {
            proof {
                lemma_sum_stays_too_large(s@, i + 1);
            }
            return false;
        }
        i = i + 1;
    }
    assert(s@.take(i as int) =~= s@);
    sum.nanos() < DURATION_LIMIT
}

/// The seconds and nanoseconds of the duration that a text shows.
pub uninterp spec fn humane_duration(s: Seq<char>) -> Option<(u64, u32)>;

/// `humantime::parse_duration`: the seconds and nanoseconds of the duration that a text shows.
///
/// The result depends on the text alone. The function panics where parts of a second complete the
/// first number of seconds that no duration holds; texts that add up to so much are left out.
#[verifier::external_body]
fn humantime_duration(s: &str) -> (r: Option<(u64, u32)>)
    requires
        is_summable(s@),
    ensures
        r == humane_duration(s@),
        r matches Some(d) ==> d.1 < 1_000_000_000,
{
    let duration = humantime::parse_duration(s).ok()?;
    Some((duration.as_secs(), duration.subsec_nanos()))
}

/// The seconds and nanoseconds of the duration that a text shows. One that adds up to more than any
/// duration holds is none.
pub open spec fn duration_of(s: Seq<char>) -> Option<(u64, u32)> {
    if is_summable(s) {
        humane_duration(s)
    } else {
        None
    }
}

/// The seconds and nanoseconds of the duration that a text shows.
pub fn parse_duration(s: &str) -> (r: Option<(u64, u32)>)
    ensures
        r == duration_of(s@),
        r matches Some(d) ==> d.1 < 1_000_000_000,
{
    if can_sum(s) {
        humantime_duration(s)
    } else {
        None
    }
}

/// A moment of the calendar is its second and the nanoseconds behind it, fewer than a second but
/// for the leap second behind the last one.
pub proof fn moments_are_seconds_and_nanoseconds(nanos: int)
    requires
        nanos_in_calendar(nanos),
    ensures
        second_of(nanos) * 1_000_000_000 + rest_of(nanos) == nanos,
        0 <= rest_of(nanos) < 2_000_000_000,
        second_of(nanos) < CALENDAR_END ==> rest_of(nanos) < 1_000_000_000,
        CALENDAR_START <= second_of(nanos) <= CALENDAR_END,
{
}

/// A stamp is written from its second, the nanoseconds behind it and its offset.
pub proof fn stamps_are_written_from_their_parts(
    secs: i64,
    nanos: u32,
    offset: i32,
    pattern: Seq<char>,
)
    requires
        is_split(secs as int, nanos as int),
    ensures
        stamp_text((secs * 1_000_000_000 + nanos, offset as int), pattern) == clock_text(
            secs,
            nanos,
            offset,
            pattern,
        ),
{
}

proof fn lemma_digits_grow(run: Seq<char>, n: int)
    requires
        0 <= n <= run.len(),
    ensures
        text::digits_value(run.take(n)) <= text::digits_value(run),
    decreases run.len(),
{
    if n == run.len() {
        assert(run.take(n) =~= run);
    } else {
        assert(run.drop_last().take(n) =~= run.take(n));
        lemma_digits_grow(run.drop_last(), n);
    }
}

proof fn lemma_digits_sum(a: Seq<char>, x: SumView, run: Seq<char>)
    requires
        text_sum(a) == Some(x),
        a.len() == 0 || x.unit.len() > 0,
        run.len() > 0,
        forall|i: int| 0 <= i < run.len() ==> '0' <= #[trigger] run[i] <= '9',
        text::digits_value(run) <= u64::MAX,
        sum_nanos(x) < DURATION_LIMIT,
    ensures
        text_sum(a + run) == Some(
            SumView {
                total: sum_nanos(x),
                whole: text::digits_value(run),
                fraction: 0,
                scale: 1,
                pointed: false,
                unit: Seq::empty(),
            },
        ),
    decreases run.len(),
{
    let s = a + run;
    let rest = run.drop_last();
    assert(s.drop_last() =~= a + rest);
    assert(s.last() == run.last());
    assert('0' <= run[run.len() - 1] <= '9');
    if run.len() == 1 {
        assert(a + rest =~= a);
        assert(text::digits_value(rest) == 0);
        if a.len() == 0 {
            assert(x == empty_sum());
            assert(sum_nanos(x) == 0) by {
                assert(0 * unit_nanos(x.unit) == 0);
            }
            assert(text_sum(s)->0.unit =~= Seq::<char>::empty());
        }
    } else {
        assert forall|i: int| 0 <= i < rest.len() implies '0' <= #[trigger] rest[i] <= '9' by {
            assert(rest[i] == run[i]);
        }
        lemma_digits_grow(run, run.len() - 1);
        assert(run.take(run.len() - 1) =~= rest);
        lemma_digits_sum(a, x, rest);
    }
}

proof fn lemma_unit_sum(a: Seq<char>, x: SumView, unit: Seq<char>)
    requires
        text_sum(a) == Some(x),
        x.unit.len() == 0,
        forall|i: int| 0 <= i < unit.len() ==> is_unit_char(#[trigger] unit[i]),
    ensures
        text_sum(a + unit) == Some(SumView { unit, ..x }),
    decreases unit.len(),
{
    let s = a + unit;
    if unit.len() == 0 {
        assert(s =~= a);
        assert(x.unit =~= unit);
    } else {
        let rest = unit.drop_last();
        assert(s.drop_last() =~= a + rest);
        assert(s.last() == unit.last());
        assert forall|i: int| 0 <= i < rest.len() implies is_unit_char(#[trigger] rest[i]) by {
            assert(rest[i] == unit[i]);
        }
        lemma_unit_sum(a, x, rest);
        assert(is_unit_char(unit[unit.len() - 1]));
        assert(rest.push(unit.last()) =~= unit);
        lemma_not_too_large(a);
        if a.len() == 0 {
            assert(x == empty_sum());
        }
    }
}

proof fn lemma_not_too_large(s: Seq<char>)
    ensures
        text_sum(s) is Some ==> !is_too_large(text_sum(s)->0),
{
}

/// A number and a unit behind what was read before add that number of the unit; what was read
/// before stays in the sum.
pub proof fn parts_add_up(a: Seq<char>, run: Seq<char>, unit: Seq<char>)
    requires
        text_sum(a) is Some,
        a.len() == 0 || (text_sum(a)->0).unit.len() > 0,
        sum_nanos(text_sum(a)->0) < DURATION_LIMIT,
        run.len() > 0,
        forall|i: int| 0 <= i < run.len() ==> '0' <= #[trigger] run[i] <= '9',
        text::digits_value(run) <= u64::MAX,
        unit.len() > 0,
        forall|i: int|
            0 <= i < unit.len() ==> ('a' <= #[trigger] unit[i] <= 'z' || 'A' <= unit[i] <= 'Z'
                || unit[i] == '\u{b5}'),
    ensures
        text_sum(a + run + unit) is Some,
        sum_nanos(text_sum(a + run + unit)->0) == sum_nanos(text_sum(a)->0) + text::digits_value(
            run,
        ) * unit_nanos(unit),
        a.len() == 0 ==> sum_nanos(text_sum(a)->0) == 0,
        is_summable(a + run + unit) <==> sum_nanos(text_sum(a)->0) + text::digits_value(run)
            * unit_nanos(unit) < 18_446_744_073_709_551_616_000_000_000,
{
    let x = text_sum(a)->0;
    assert forall|i: int| 0 <= i < unit.len() implies is_unit_char(#[trigger] unit[i]) by {}
    lemma_digits_sum(a, x, run);
    lemma_unit_sum(a + run, text_sum(a + run)->0, unit);
    let y = text_sum(a + run + unit)->0;
    assert(0 * unit_nanos(unit) == 0);
    if a.len() == 0 {
        assert(x == empty_sum());
        assert(0 * unit_nanos(x.unit) == 0);
    }
}

/// A text is a duration where it is read as one and its parts do not add up to more than any
/// duration holds.
pub proof fn durations_are_read_where_they_add_up(s: Seq<char>)
    ensures
        is_summable(s) ==> duration_of(s) == humane_duration(s),
        !is_summable(s) ==> duration_of(s) is None,
{
}

/// A second has a thousand milliseconds, a minute sixty seconds, an hour sixty minutes, a day
/// twenty-four hours and a week seven days; the short and the long names mean the same.
pub proof fn units_count_each_other()
    ensures
        unit_nanos("ns"@) == 1,
        unit_nanos("us"@) == 1_000 * unit_nanos("ns"@),
        unit_nanos("ms"@) == 1_000 * unit_nanos("us"@),
        unit_nanos("s"@) == 1_000 * unit_nanos("ms"@),
        unit_nanos("m"@) == 60 * unit_nanos("s"@),
        unit_nanos("h"@) == 60 * unit_nanos("m"@),
        unit_nanos("d"@) == 24 * unit_nanos("h"@),
        unit_nanos("w"@) == 7 * unit_nanos("d"@),
        4 * unit_nanos("y"@) == 1461 * unit_nanos("d"@),
        unit_nanos("sec"@) == unit_nanos("s"@),
        unit_nanos("min"@) == unit_nanos("m"@),
        unit_nanos("hour"@) == unit_nanos("h"@),
        unit_nanos("day"@) == unit_nanos("d"@),
        unit_nanos("week"@) == unit_nanos("w"@),
        unit_nanos("year"@) == unit_nanos("y"@),
{
    reveal_strlit("nanos");
    reveal_strlit("nsec");
    reveal_strlit("ns");
    reveal_strlit("usec");
    reveal_strlit("us");
    reveal_strlit("\u{b5}s");
    reveal_strlit("millis");
    reveal_strlit("msec");
    reveal_strlit("ms");
    reveal_strlit("seconds");
    reveal_strlit("second");
    reveal_strlit("secs");
    reveal_strlit("sec");
    reveal_strlit("s");
    reveal_strlit("minutes");
    reveal_strlit("minute");
    reveal_strlit("min");
    reveal_strlit("mins");
    reveal_strlit("m");
    reveal_strlit("hours");
    reveal_strlit("hour");
    reveal_strlit("hr");
    reveal_strlit("hrs");
    reveal_strlit("h");
    reveal_strlit("days");
    reveal_strlit("day");
    reveal_strlit("d");
    reveal_strlit("weeks");
    reveal_strlit("week");
    reveal_strlit("wk");
    reveal_strlit("wks");
    reveal_strlit("w");
    reveal_strlit("months");
    reveal_strlit("month");
    reveal_strlit("M");
    reveal_strlit("years");
    reveal_strlit("year");
    reveal_strlit("yr");
    reveal_strlit("yrs");
    reveal_strlit("y");
    assert("ns"@[0] == 'n');
    assert("nsec"@[0] == 'n');
    assert("nanos"@[0] == 'n');
    assert("us"@[0] == 'u');
    assert("\u{b5}s"@[0] == '\u{b5}');
    assert("ms"@[0] == 'm' && "ms"@[1] == 's');
    assert("msec"@[0] == 'm');
    assert("usec"@[0] == 'u');
    assert("s"@[0] == 's');
    assert("sec"@[0] == 's');
    assert("secs"@[0] == 's');
    assert("m"@[0] == 'm');
    assert("m"@.len() == 1);
    assert("m"@ != "s"@);
    assert(unit_nanos("m"@) == 60_000_000_000);
    assert("min"@[0] == 'm');
    assert("min"@.len() == 3 && "min"@ != "sec"@);
    assert(unit_nanos("min"@) == 60_000_000_000);
    assert("mins"@[0] == 'm');
    assert("h"@[0] == 'h');
    assert("hour"@[0] == 'h');
    assert("hr"@[0] == 'h');
    assert("hrs"@[0] == 'h');
    assert("d"@[0] == 'd');
    assert("day"@[0] == 'd');
    assert("days"@[0] == 'd');
    assert("w"@[0] == 'w');
    assert("wks"@[0] == 'w');
    assert("wk"@[0] == 'w');
    assert("week"@[0] == 'w');
    assert("M"@[0] == 'M');
    assert("y"@[0] == 'y');
    assert("year"@[0] == 'y');
}

/// A clock shows a date and a time only at moments that are less than a day from the one at which a
/// clock without an offset shows them, and at whole seconds from that.
pub proof fn clocks_are_less_than_a_day_apart(moment: int, secs: int, nanos: int)
    ensures
        shows(moment, secs, nanos) ==> -86400 * 1_000_000_000 < moment - (secs * 1_000_000_000
            + nanos) < 86400 * 1_000_000_000,
        shows(moment, secs, nanos) ==> (moment - (secs * 1_000_000_000 + nanos)) % 1_000_000_000
            == 0,
        shows(secs * 1_000_000_000 + nanos, secs, nanos),
{
    assert(valid_offset(0) && nanos_at(secs - 0, nanos) == secs * 1_000_000_000 + nanos);
}

/// A character that is no digit, no letter of a unit and no point is skipped before a unit, and ends
/// the part behind one; a point parts the digits of a number.
pub proof fn other_characters_part_the_parts(a: Seq<char>, c: char)
    requires
        text_sum(a) is Some,
        !('0' <= c <= '9'),
        !('a' <= c <= 'z' || 'A' <= c <= 'Z' || c == '\u{b5}'),
    ensures
        (text_sum(a)->0).unit.len() == 0 && c != '.' ==> text_sum(a.push(c)) == text_sum(a),
        (text_sum(a)->0).unit.len() > 0 && sum_nanos(text_sum(a)->0)
            < 18_446_744_073_709_551_616_000_000_000 ==> text_sum(a.push(c)) is Some && sum_nanos(
            text_sum(a.push(c))->0,
        ) == sum_nanos(text_sum(a)->0) && (text_sum(a.push(c))->0).unit.len() == 0,
        (text_sum(a)->0).unit.len() == 0 && c == '.' ==> text_sum(a.push(c)) is Some && (text_sum(
            a.push(c),
        )->0).pointed && (text_sum(a.push(c))->0).whole == (text_sum(a)->0).whole,
{
    assert(a.push(c).drop_last() =~= a);
    lemma_not_too_large(a);
    let x = text_sum(a)->0;
    if a.len() == 0 {
        assert(x == empty_sum());
    }
    assert(0 * unit_nanos(Seq::<char>::empty()) == 0);
}

/// Digits behind a point count tenths, then hundredths, and so on.
pub proof fn digits_behind_a_point_count_parts(a: Seq<char>, d: int)
    requires
        text_sum(a) is Some,
        (text_sum(a)->0).pointed,
        (text_sum(a)->0).unit.len() == 0,
        (text_sum(a)->0).scale * 10 <= LARGEST_SCALE,
        0 <= d < 10,
    ensures
        text_sum(a.push(text::digit(d))) is Some,
        (text_sum(a.push(text::digit(d)))->0).scale == 10 * (text_sum(a)->0).scale,
        (text_sum(a.push(text::digit(d)))->0).fraction == 10 * (text_sum(a)->0).fraction + d,
        (text_sum(a.push(text::digit(d)))->0).whole == (text_sum(a)->0).whole,
        (text_sum(a.push(text::digit(d)))->0).total == (text_sum(a)->0).total,
{
    assert(a.push(text::digit(d)).drop_last() =~= a);
    lemma_not_too_large(a);
    text::digits_count_tens(a, d);
}

} // verus!
