use chrono::{Local, NaiveDateTime, TimeZone};
use pitchfork::cli::time_input::{
    decide_time, parse_time_input, parse_time_only, Shown, TimeError, TimeReading,
};
use pitchfork::clock::{
    local_now, parse_duration, resolve_wall_clock, stamp_at, stamp_with, Moment, Stamp, TimeSpan,
};

const DAY: i64 = 86_400;

fn moment(secs: i64) -> Moment {
    Moment::new(secs, 0).unwrap()
}

fn utc(secs: i64) -> Stamp {
    Stamp::new(moment(secs), 0).unwrap()
}

fn secs(m: &Moment) -> i64 {
    m.parts().0
}

fn reading(now: i64) -> TimeReading {
    TimeReading {
        full: None,
        minute: None,
        today: None,
        span: None,
        now: utc(now),
    }
}

fn shown(secs: i64) -> Option<Shown> {
    Some(Shown {
        moment: Moment::new(secs, 0),
    })
}

#[test]
fn moments_have_parts() {
    let m = Moment::new(-1, 500_000_000).unwrap();
    assert_eq!(m.millis(), -500);
    assert_eq!(m.parts(), (-1, 500_000_000));
    assert_eq!(Moment::from_millis(-500).unwrap().parts(), (-1, 500_000_000));
    assert!(Moment::new(i64::MAX, 0).is_none());
    assert!(Moment::from_millis(i64::MIN).is_none());
    assert!(moment(2).is_after(&moment(1)));
    assert!(!moment(1).is_after(&moment(1)));
}

#[test]
fn spans_go_back_in_time() {
    let hour = TimeSpan::from_std(3600, 0).unwrap();
    assert_eq!(secs(&moment(4000).minus(&hour).unwrap()), 400);
    assert_eq!(secs(&moment(4000).minus(&TimeSpan::seconds(10)).unwrap()), 3990);
    assert!(TimeSpan::from_std(u64::MAX, 0).is_none());
    let long = TimeSpan::from_std(9_000_000_000_000_000, 0).unwrap();
    assert!(moment(0).minus(&long).is_none());
}

#[test]
fn stamps_are_shown() {
    let stamp = Stamp::new(moment(1_700_000_000), 3600).unwrap();
    assert_eq!(stamp.date_time(), "2023-11-14 23:13:20");
    assert_eq!(stamp.time_of_day(), "23:13:20");
    assert_eq!(stamp.rfc3339(), "2023-11-14T23:13:20+01:00");
    assert_eq!(Stamp::new(moment(0), 0).unwrap().day(), utc(DAY - 1).day());
    assert_eq!(utc(0).day() + 1, utc(DAY).day());
    assert!(Stamp::new(moment(0), 100_000).is_none());
}

#[test]
fn stored_times_are_local() {
    let stamp = stamp_at(1_700_000_000_000);
    let expected = Local.timestamp_millis_opt(1_700_000_000_000).unwrap();
    assert_eq!(
        stamp.date_time(),
        expected.format("%Y-%m-%d %H:%M:%S").to_string()
    );
    assert_eq!(stamp.rfc3339(), expected.to_rfc3339());
    let now = local_now();
    let fallback = stamp_with(i64::MAX, None, now);
    assert_eq!(fallback.moment().parts(), now.moment().parts());
    assert_eq!(stamp_with(5000, Some(3600), now).rfc3339(), "1970-01-01T01:00:05+01:00");
}

#[test]
fn wall_clock_is_local() {
    let naive = NaiveDateTime::parse_from_str("2024-06-01 12:00:00", "%Y-%m-%d %H:%M:%S").unwrap();
    let local = Local.from_local_datetime(&naive).single().unwrap();
    let found = resolve_wall_clock(naive.and_utc().timestamp(), 0).unwrap();
    assert_eq!(secs(&found), local.timestamp());
}

#[test]
fn durations_are_read() {
    assert_eq!(parse_duration("1h 30m"), Some((5400, 0)));
    assert_eq!(parse_duration("250ms"), Some((0, 250_000_000)));
    assert_eq!(parse_duration("soon"), None);
    assert_eq!(parse_duration("18446744073709551615s"), Some((u64::MAX, 0)));
    assert_eq!(parse_duration("18446744073709551616s"), None);
    assert_eq!(parse_duration("18446744073709551615s 1000ms"), None);
}

#[test]
fn durations_end_where_their_sum_does() {
    assert_eq!(parse_duration("31536000000000000ns"), Some((31_536_000, 0)));
    assert_eq!(
        parse_duration("18446744073709551615s 999ms"),
        Some((u64::MAX, 999_000_000))
    );
    assert_eq!(parse_duration("18446744073709551615s 500ms 500ms"), None);
    assert_eq!(parse_duration("584542046090y 1.5h"), Some((18_446_744_073_689_789_400, 0)));
    assert_eq!(parse_duration("584542046091y"), None);
    assert_eq!(parse_duration("0.000000000000000000000000001s"), None);
}

#[test]
fn the_calendar_ends_with_a_leap_second() {
    let last = Moment::new(8_210_266_876_799, 1_500_000_000).unwrap();
    assert_eq!(last.parts(), (8_210_266_876_799, 1_500_000_000));
    assert_eq!(
        Stamp::new(last, 0).unwrap().date_time(),
        "+262142-12-31 23:59:60"
    );
    assert_eq!(last.millis(), 8_210_266_876_800_500);
    assert!(Moment::new(8_210_266_876_800, 0).is_none());
    assert!(Moment::from_millis(8_210_266_876_800_000).is_none());
    if let Some(m) = resolve_wall_clock(8_210_266_876_799, 1_500_000_000) {
        assert_eq!(m.parts().1 % 1_000_000_000, 500_000_000);
    }
}

#[test]
fn durations_of_many_parts_are_read() {
    assert_eq!(
        parse_duration("2026d 1234h 1234min 1234s 1234ms"),
        Some((175_046_400 + 4_442_400 + 74_040 + 1_235, 234_000_000))
    );
    assert_eq!(parse_duration("600000000000ms"), Some((600_000_000, 0)));
    assert_eq!(parse_duration("1.5h 000000000000000000001s"), Some((5401, 0)));
}

#[test]
fn times_of_day_are_read() {
    assert_eq!(parse_time_only("10:30"), Some((37_800, 0)));
    assert_eq!(parse_time_only("10:30:05"), Some((37_805, 0)));
    assert_eq!(parse_time_only("25:00"), None);
    assert_eq!(parse_time_only("noon"), None);
}

#[test]
fn full_times_come_first() {
    let mut r = reading(1000);
    r.full = shown(7);
    r.minute = shown(8);
    assert_eq!(secs(&decide_time("t", true, r).unwrap()), 7);
    let mut r = reading(1000);
    r.minute = shown(8);
    assert_eq!(secs(&decide_time("t", true, r).unwrap()), 8);
}

#[test]
fn times_that_occur_twice_are_refused() {
    let mut r = reading(1000);
    r.minute = Some(Shown { moment: None });
    let e = decide_time("2024-10-27 02:30", true, r).unwrap_err();
    assert!(matches!(&e, TimeError::Ambiguous { text } if text == "2024-10-27 02:30"));
    assert_eq!(e.message(), "Invalid or ambiguous datetime: '2024-10-27 02:30'");
    let mut r = reading(1000);
    r.full = Some(Shown { moment: None });
    let e = decide_time("2024-10-27 02:30:00", true, r).unwrap_err();
    assert!(matches!(e, TimeError::Invalid { .. }));
}

#[test]
fn since_means_the_last_such_time() {
    let now = 10 * DAY + 3600;
    let mut r = reading(now);
    r.today = Some((
        Shown {
            moment: Moment::new(now + 60, 0),
        },
        Shown {
            moment: Moment::new(now + 60 - DAY, 0),
        },
    ));
    assert_eq!(secs(&decide_time("02:01", true, r).unwrap()), now + 60 - DAY);
    let mut r = reading(now);
    r.today = Some((
        Shown {
            moment: Moment::new(now + 60, 0),
        },
        Shown {
            moment: Moment::new(now + 60 - DAY, 0),
        },
    ));
    assert_eq!(secs(&decide_time("02:01", false, r).unwrap()), now + 60);
}

#[test]
fn durations_lie_in_the_past() {
    let mut r = reading(10_000);
    r.span = Some((3600, 0));
    assert_eq!(secs(&decide_time("1h", true, r).unwrap()), 6400);
    let mut r = reading(10_000);
    r.span = Some((u64::MAX, 0));
    assert!(matches!(decide_time("x", true, r), Err(TimeError::TooLong)));
    let mut r = reading(10_000);
    r.span = Some((9_000_000_000_000_000, 0));
    assert!(matches!(decide_time("x", true, r), Err(TimeError::BeyondCalendar)));
}

#[test]
fn other_texts_are_no_times() {
    let e = decide_time("soon", true, reading(0)).unwrap_err();
    assert!(matches!(&e, TimeError::Invalid { text } if text == "soon"));
    let message = e.message();
    assert!(message.contains("soon"), "{message}");
}

#[test]
fn texts_are_parsed_as_times() {
    let naive = NaiveDateTime::parse_from_str("2024-06-01 12:00:00", "%Y-%m-%d %H:%M:%S").unwrap();
    let local = Local.from_local_datetime(&naive).single().unwrap();
    let parsed = parse_time_input("2024-06-01 12:00:00", true).unwrap();
    assert_eq!(secs(&parsed), local.timestamp());
    let minute = parse_time_input("2024-06-01 12:00", false).unwrap();
    assert_eq!(secs(&minute), local.timestamp());
    let before = Local::now().timestamp();
    let hour_ago = secs(&parse_time_input("1h", true).unwrap());
    let after = Local::now().timestamp();
    assert!(before - 3601 <= hour_ago && hour_ago <= after - 3599);
    assert!(parse_time_input("whenever", true).is_err());
}
