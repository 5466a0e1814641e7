use autorize::config::Schedule;
use autorize::error::Error;
use autorize::schedule::{
    compute_deadline, is_countable, local_instant, make_local, parse_clock, parse_deadline_expr,
    parse_natural, parse_phrase, parse_time, settle, settle_deadline, try_compute_deadline,
    try_parse_deadline_expr, Deadline, LocalNow, Phrase,
};
use autorize::time::{Duration, Timestamp};
use chrono::{
    DateTime, Datelike, Duration as ChronoDuration, Local, NaiveDate, NaiveTime, TimeZone,
};

fn local_dt(y: i32, mo: u32, d: u32, h: u32, mi: u32) -> DateTime<Local> {
    let date = NaiveDate::from_ymd_opt(y, mo, d).unwrap();
    let time = NaiveTime::from_hms_opt(h, mi, 0).unwrap();
    Local
        .from_local_datetime(&date.and_time(time))
        .single()
        .expect("unambiguous local time for test fixture")
}

fn stamp<Z: TimeZone>(t: DateTime<Z>) -> Timestamp {
    Timestamp::from_unix(t.timestamp(), t.timestamp_subsec_nanos())
}

fn present(t: DateTime<Local>) -> LocalNow {
    LocalNow {
        instant: stamp(t),
        day: t.date_naive().num_days_from_ce(),
    }
}

fn deadline_at(s: &str, now: DateTime<Local>) -> Result<Timestamp, Error> {
    parse_deadline_expr(s, present(now))
}

#[test]
fn parse_duration_form() {
    let now = local_dt(2026, 5, 20, 8, 0);
    let dt = deadline_at("4h", now).unwrap();
    let expected = stamp(now + ChronoDuration::hours(4));
    assert_eq!(dt, expected);
}

#[test]
fn parse_duration_30m() {
    let now = local_dt(2026, 5, 20, 8, 0);
    let dt = deadline_at("30m", now).unwrap();
    let expected = stamp(now + ChronoDuration::minutes(30));
    assert_eq!(dt, expected);
}

#[test]
fn parse_rfc3339_form() {
    let now = local_dt(2026, 5, 20, 8, 0);
    let dt = deadline_at("2026-05-21T09:00:00-07:00", now).unwrap();
    let expected = stamp(DateTime::parse_from_rfc3339("2026-05-21T09:00:00-07:00").unwrap());
    assert_eq!(dt, expected);
}

#[test]
fn parse_natural_tomorrow_9am() {
    let now = local_dt(2026, 5, 20, 8, 0);
    let dt = deadline_at("tomorrow 9am", now).unwrap();
    let expected = stamp(local_dt(2026, 5, 21, 9, 0));
    assert_eq!(dt, expected);
}

#[test]
fn parse_natural_today_3pm() {
    let now = local_dt(2026, 5, 20, 8, 0);
    let dt = deadline_at("today 3pm", now).unwrap();
    let expected = stamp(local_dt(2026, 5, 20, 15, 0));
    assert_eq!(dt, expected);
}

#[test]
fn parse_natural_bare_9am_future() {
    let now = local_dt(2026, 5, 20, 8, 0);
    let dt = deadline_at("9am", now).unwrap();
    let expected = stamp(local_dt(2026, 5, 20, 9, 0));
    assert_eq!(dt, expected);
}

#[test]
fn parse_natural_bare_9am_past_rolls_to_tomorrow() {
    let now = local_dt(2026, 5, 20, 10, 0);
    let dt = deadline_at("9am", now).unwrap();
    let expected = stamp(local_dt(2026, 5, 21, 9, 0));
    assert_eq!(dt, expected);
}

#[test]
fn parse_natural_24h_form() {
    let now = local_dt(2026, 5, 20, 8, 0);
    let dt = deadline_at("tomorrow 14:30", now).unwrap();
    let expected = stamp(local_dt(2026, 5, 21, 14, 30));
    assert_eq!(dt, expected);
}

#[test]
fn parse_natural_noon_midnight() {
    let now = local_dt(2026, 5, 20, 1, 0);
    let noon = deadline_at("today 12pm", now).unwrap();
    assert_eq!(noon, stamp(local_dt(2026, 5, 20, 12, 0)));
    let midnight = deadline_at("today 12am", now).unwrap();
    assert_eq!(midnight, stamp(local_dt(2026, 5, 20, 0, 0)));
}

#[test]
fn parse_empty_errs() {
    let now = local_dt(2026, 5, 20, 8, 0);
    let err = deadline_at("", now).unwrap_err();
    assert!(err.message().contains("empty"));
}

#[test]
fn parse_garbage_errs() {
    let now = local_dt(2026, 5, 20, 8, 0);
    let err = deadline_at("blarble", now).unwrap_err();
    assert!(err.message().contains("unrecognized"));
}

#[test]
fn compute_deadline_total_budget() {
    let now_local = local_dt(2026, 5, 20, 8, 0);
    let now_utc = stamp(now_local);
    let sched = Schedule {
        total_budget: Some(Duration::from_secs(3600)),
        deadline: None,
    };
    let d = compute_deadline(&sched, now_utc, present(now_local)).unwrap();
    assert_eq!(d.at(), stamp(now_local + ChronoDuration::hours(1)));
}

#[test]
fn compute_deadline_deadline_string() {
    let now_local = local_dt(2026, 5, 20, 8, 0);
    let now_utc = stamp(now_local);
    let sched = Schedule {
        total_budget: None,
        deadline: Some("tomorrow 9am".to_string()),
    };
    let d = compute_deadline(&sched, now_utc, present(now_local)).unwrap();
    let expected = stamp(local_dt(2026, 5, 21, 9, 0));
    assert_eq!(d.at(), expected);
}

#[test]
fn deadline_is_expired_true_after() {
    let now = local_dt(2026, 5, 20, 8, 0);
    let d = Deadline(stamp(now - ChronoDuration::seconds(1)));
    assert!(d.is_expired(stamp(now)));
}

#[test]
fn deadline_is_expired_false_before() {
    let now = local_dt(2026, 5, 20, 8, 0);
    let d = Deadline(stamp(now + ChronoDuration::seconds(60)));
    assert!(!d.is_expired(stamp(now)));
}

#[test]
fn deadline_remaining_positive() {
    let now = local_dt(2026, 5, 20, 8, 0);
    let d = Deadline(stamp(now + ChronoDuration::seconds(90)));
    assert_eq!(d.remaining(stamp(now)), Duration::from_secs(90));
}

#[test]
fn deadline_remaining_saturates_zero() {
    let now = local_dt(2026, 5, 20, 8, 0);
    let d = Deadline(stamp(now - ChronoDuration::seconds(5)));
    assert_eq!(d.remaining(stamp(now)), Duration::from_secs(0));
}

#[test]
fn deadline_is_reached_exactly_at_its_instant() {
    let now = stamp(local_dt(2026, 5, 20, 8, 0));
    assert!(Deadline(now).is_expired(now));
    assert!(Deadline(now).remaining(now).is_zero());
}

#[test]
fn clocks_are_read() {
    assert_eq!(parse_clock("9am"), Some((9, 0)));
    assert_eq!(parse_clock("9:05pm"), Some((21, 5)));
    assert_eq!(parse_clock("12am"), Some((0, 0)));
    assert_eq!(parse_clock("12pm"), Some((12, 0)));
    assert_eq!(parse_clock("23:59"), Some((23, 59)));
    assert_eq!(parse_clock("0am"), Some((0, 0)));
    assert_eq!(parse_clock("9"), Some((9, 0)));
    for bad in ["13am", "13pm", "24:00", "9:60", "am", ":30", "9:", "9:30:00", "-1", ""] {
        assert_eq!(parse_clock(bad), None, "{bad:?}");
    }
}

#[test]
fn times_may_be_in_capitals() {
    assert_eq!(parse_time("9AM"), Some((9, 0)));
    assert_eq!(parse_time("noonish"), None);
}

#[test]
fn phrases_are_read() {
    assert_eq!(parse_phrase("tomorrow 9am"), Some(Phrase::Tomorrow(9, 0)));
    assert_eq!(parse_phrase("today 14:30"), Some(Phrase::Today(14, 30)));
    assert_eq!(parse_phrase("9am"), Some(Phrase::Next(9, 0)));
    assert_eq!(parse_phrase("yesterday 9am"), None);
    assert_eq!(parse_phrase("tomorrow"), Some(Phrase::Tomorrow(0, 0)));
    assert_eq!(parse_phrase("today"), Some(Phrase::Today(0, 0)));
    assert_eq!(parse_phrase("tomorrow 9am sharp"), None);
}

#[test]
fn natural_phrases_ignore_case_and_spacing() {
    let now = present(local_dt(2026, 5, 20, 8, 0));
    assert_eq!(
        parse_natural("  ToMorrow   9AM ", now),
        Some(stamp(local_dt(2026, 5, 21, 9, 0)))
    );
    assert_eq!(parse_natural("some day", now), None);
}

#[test]
fn bare_time_that_is_now_rolls_over() {
    let now = Timestamp::from_unix(1_000_000, 0);
    let later = Timestamp::from_unix(1_086_400, 0);
    assert_eq!(settle(Phrase::Next(9, 0), Some(now), Some(later), now), Some(later));
    assert_eq!(settle(Phrase::Today(9, 0), Some(now), Some(later), now), Some(now));
    assert_eq!(settle(Phrase::Tomorrow(9, 0), None, Some(later), now), Some(later));
    assert_eq!(settle(Phrase::Next(9, 0), None, Some(later), now), None);
}

#[test]
fn local_times_are_found() {
    let day = NaiveDate::from_ymd_opt(2026, 5, 20).unwrap().num_days_from_ce();
    assert_eq!(make_local(day, 15, 30), Some(stamp(local_dt(2026, 5, 20, 15, 30))));
}

#[test]
fn local_instants_are_full_seconds() {
    assert_eq!(local_instant(Some(7)), Some(Timestamp { nanos: 7_000_000_000 }));
    assert_eq!(local_instant(Some(-1)), Some(Timestamp { nanos: -1_000_000_000 }));
    assert_eq!(local_instant(None), None);
}

#[test]
fn spans_come_before_timestamps_and_phrases() {
    let now = Timestamp::from_unix(100, 0);
    let t = Timestamp::from_unix(5, 0);
    assert_eq!(
        settle_deadline("x", Some((7, 9)), Some((1, 2)), Some(t), now).unwrap(),
        Timestamp::from_unix(107, 9)
    );
    assert_eq!(
        settle_deadline("x", None, Some((1, 2)), Some(t), now).unwrap(),
        Timestamp::from_unix(1, 2)
    );
    assert_eq!(settle_deadline("x", None, None, Some(t), now).unwrap(), t);
    let err = settle_deadline("x", None, None, None, now).unwrap_err();
    assert!(matches!(err, Error::Schedule(_)));
    assert_eq!(
        err.message(),
        "schedule: unrecognized deadline \"x\"; expected a duration (\"4h\"), an RFC3339 timestamp, or a phrase like \"tomorrow 9am\""
    );
}

#[test]
fn endless_spans_are_out_of_range() {
    let now = Timestamp::from_unix(0, 0);
    let err = settle_deadline("x", Some((u64::MAX, 0)), None, None, now).unwrap_err();
    assert!(err.message().contains("duration out of range"), "{}", err.message());
}

#[test]
fn only_brimming_spans_are_not_counted() {
    assert!(!is_countable("18446744073709551615s 1000ms"));
    assert!(!is_countable("18446744073709551615s 999ms 1000us"));
    assert!(!is_countable("1s 18446744073709551614s1000000000ns"));
    assert!(!is_countable("18446744073709551615.5s 500ms"));
    assert!(!is_countable("307445734561825860.25m 1000ms"));
    assert!(is_countable("18446744073709551614s 2000ms"));
    assert!(is_countable("18446744073709551614.5s 500ms"));
    assert!(is_countable("4h 30m"));
    assert!(is_countable("18446744073709551614s 1000ms"));
    assert!(is_countable("18446744073709551615s"));
    assert!(is_countable("18446744073709551615s 2000ms"));
    assert!(is_countable("18446744073709551615s 1s"));
    assert!(is_countable("18446744073709551616s"));
    assert!(is_countable("600000000000000 ns"));
    assert!(is_countable("584542046091 y"));
    assert!(is_countable("99999999999999999999 years"));
    assert!(is_countable("2026-05-21T09:00:00.123456789012345678901234567890Z"));
    assert!(is_countable(""));
}

#[test]
fn countable_spans_are_read_without_fail() {
    let now = present(local_dt(2026, 5, 20, 8, 0));
    let heads = [
        "18446744073709551615s",
        "18446744073709551614s",
        "18446744073709551614.5s",
        "18446744073709551613.25s",
        "307445734561825860m 15s",
        "307445734561825860.25m",
        "584542046090y",
    ];
    let tails = [
        "", " 1ns", " 999ms", " 1000ms", " 1001ms", " 2000ms", "1000000us", "999999us 1000ns",
        " 1s", " 0.5s", " 0.5s 500ms", " 1.75s", " 250ms 500ms 250ms", " 0.75s 250ms", " 1m",
    ];
    let mut left_out = 0;
    for head in heads {
        for tail in tails {
            let text = format!("{head}{tail}");
            if is_countable(&text) {
                assert!(try_parse_deadline_expr(&text, now).unwrap().is_err(), "{text}");
            } else {
                left_out += 1;
            }
        }
    }
    assert_eq!(left_out, 18);
}

#[test]
fn spans_too_long_to_hold_are_no_deadlines() {
    let now = present(local_dt(2026, 5, 20, 8, 0));
    for text in ["99999999999999999999 years", "584542046091 y", "18446744073709551615s 1s"] {
        match try_parse_deadline_expr(text, now).unwrap() {
            Err(Error::Schedule(m)) => assert!(m.starts_with("unrecognized deadline "), "{m}"),
            other => panic!("expected an error, got {other:?}"),
        }
    }
    match try_parse_deadline_expr("18446744073709551615s", now).unwrap() {
        Err(Error::Schedule(m)) => assert!(m.starts_with("duration out of range: "), "{m}"),
        other => panic!("expected an error, got {other:?}"),
    }
    assert!(try_parse_deadline_expr("18446744073709551615s 1000ms", now).is_none());
    let nanos = try_parse_deadline_expr("600000000000000 ns", now).unwrap().unwrap();
    assert_eq!(nanos, stamp(local_dt(2026, 5, 20, 8, 0) + ChronoDuration::seconds(600_000)));
    let four = try_parse_deadline_expr("4h", now).unwrap().unwrap();
    assert_eq!(four, stamp(local_dt(2026, 5, 20, 8, 0) + ChronoDuration::hours(4)));
}

#[test]
fn schedules_without_a_bound_are_refused() {
    let now = local_dt(2026, 5, 20, 8, 0);
    let sched = Schedule {
        total_budget: None,
        deadline: None,
    };
    let err = compute_deadline(&sched, stamp(now), present(now)).unwrap_err();
    assert!(matches!(err, Error::Schedule(_)), "{err:?}");
    assert!(try_compute_deadline(&sched, stamp(now), present(now)).unwrap().is_err());
}

#[test]
fn compound_spans_are_added_up() {
    let now = local_dt(2026, 5, 20, 8, 0);
    let dt = deadline_at(" 1h 15m ", now).unwrap();
    assert_eq!(dt, stamp(now + ChronoDuration::minutes(75)));
}
