use chrono::{DateTime, Datelike, Timelike};
use clokwerk::Interval::{Monday, Wednesday, Weekday};
use clokwerk::{Instant, TimeUnits};

fn inst(s: &str) -> Instant {
    let dt = DateTime::parse_from_rfc3339(s).unwrap();
    Instant::new(
        dt.num_days_from_ce() as i64,
        dt.num_seconds_from_midnight(),
        dt.nanosecond(),
    )
    .unwrap()
}

#[test]
fn basic_units() {
    assert_eq!(clokwerk::Interval::Seconds(5), 5.seconds());
    assert_eq!(clokwerk::Interval::Minutes(5), 5.minutes());
    assert_eq!(clokwerk::Interval::Hours(5), 5.hours());
    assert_eq!(clokwerk::Interval::Days(5), 5.days());
    assert_eq!(clokwerk::Interval::Weeks(5), 5.weeks());

    assert_eq!(clokwerk::Interval::Seconds(0), 0.seconds());
    assert_eq!(clokwerk::Interval::Minutes(0), 0.minutes());
    assert_eq!(clokwerk::Interval::Hours(0), 0.hours());
    assert_eq!(clokwerk::Interval::Days(0), 0.days());
    assert_eq!(clokwerk::Interval::Weeks(0), 0.weeks());
}

#[test]
fn test_next_start() {
    // Set 999 ms to check that we remove any sub-second values
    let dt = inst("2018-09-04T14:22:13.999-00:00");

    let next_dt = 5.seconds().next(&dt);
    let expected = inst("2018-09-04T14:22:15-00:00");
    assert_eq!(next_dt, expected);
    let next_dt = 5.seconds().next(&expected);
    let expected = inst("2018-09-04T14:22:20-00:00");
    assert_eq!(next_dt, expected);

    let next_dt = 15.minutes().next(&dt);
    let expected = inst("2018-09-04T14:30:00-00:00");
    assert_eq!(next_dt, expected);
    let next_dt = 15.minutes().next(&expected);
    let expected = inst("2018-09-04T14:45:00-00:00");
    assert_eq!(next_dt, expected);

    let next_dt = 2.hours().next(&dt);
    let expected = inst("2018-09-04T16:00:00-00:00");
    assert_eq!(next_dt, expected);
    let next_dt = 2.hours().next(&expected);
    let expected = inst("2018-09-04T18:00:00-00:00");
    assert_eq!(next_dt, expected);

    let next_dt = 2.days().next(&dt);
    let expected = inst("2018-09-05T00:00:00-00:00");
    assert_eq!(next_dt, expected);
    let next_dt = 2.days().next(&expected);
    let expected = inst("2018-09-07T00:00:00-00:00");
    assert_eq!(next_dt, expected);

    let next_dt = 2.weeks().next(&dt);
    let expected = inst("2018-09-10T00:00:00-00:00");
    assert_eq!(next_dt, expected);
    let next_dt = 2.weeks().next(&expected);
    let expected = inst("2018-09-24T00:00:00-00:00");
    assert_eq!(next_dt, expected);

    let next_dt = Monday.next(&dt);
    let expected = inst("2018-09-10T00:00:00-00:00");
    assert_eq!(next_dt, expected);
    let next_dt = Monday.next(&expected);
    let expected = inst("2018-09-17T00:00:00-00:00");
    assert_eq!(next_dt, expected);

    let next_dt = Wednesday.next(&dt);
    let expected = inst("2018-09-05T00:00:00-00:00");
    assert_eq!(next_dt, expected);
    let next_dt = Wednesday.next(&expected);
    let expected = inst("2018-09-12T00:00:00-00:00");
    assert_eq!(next_dt, expected);

    let friday = clokwerk::Interval::Friday.next(&dt);
    let next_dt = Weekday.next(&friday);
    let expected = inst("2018-09-10T00:00:00-00:00");
    assert_eq!(next_dt, expected);
    let next_dt = Weekday.next(&expected);
    let expected = inst("2018-09-11T00:00:00-00:00");
    assert_eq!(next_dt, expected);
}

#[test]
fn test_prev() {
    let dt = inst("2018-09-04T14:22:13.999-00:00");

    let prev_dt = 5.seconds().prev(&dt);
    let expected = inst("2018-09-04T14:22:10-00:00");
    assert_eq!(prev_dt, expected);
    let prev_dt = 5.seconds().prev(&expected);
    let expected = inst("2018-09-04T14:22:05-00:00");
    assert_eq!(prev_dt, expected);

    let prev_dt = 1.second().prev(&dt);
    let expected = inst("2018-09-04T14:22:12-00:00");
    assert_eq!(prev_dt, expected);

    let prev_dt = 15.minutes().prev(&dt);
    let expected = inst("2018-09-04T14:15:00-00:00");
    assert_eq!(prev_dt, expected);
    let prev_dt = 15.minutes().prev(&expected);
    let expected = inst("2018-09-04T14:00:00-00:00");
    assert_eq!(prev_dt, expected);

    let prev_dt = 1.minute().prev(&dt);
    let expected = inst("2018-09-04T14:22:00-00:00");
    assert_eq!(prev_dt, expected);

    let prev_dt = 2.hours().prev(&dt);
    let expected = inst("2018-09-04T14:00:00-00:00");
    assert_eq!(prev_dt, expected);
    let prev_dt = 2.hours().prev(&expected);
    let expected = inst("2018-09-04T12:00:00-00:00");
    assert_eq!(prev_dt, expected);

    let prev_dt = 1.hour().prev(&dt);
    let expected = inst("2018-09-04T14:00:00-00:00");
    assert_eq!(prev_dt, expected);

    let prev_dt = 2.days().prev(&dt);
    let expected = inst("2018-09-03T00:00:00-00:00");
    assert_eq!(prev_dt, expected);
    let prev_dt = 2.days().prev(&expected);
    let expected = inst("2018-09-01T00:00:00-00:00");
    assert_eq!(prev_dt, expected);

    let prev_dt = 1.day().prev(&dt);
    let expected = inst("2018-09-04T00:00:00-00:00");
    assert_eq!(prev_dt, expected);

    let prev_dt = 2.weeks().prev(&dt);
    let expected = inst("2018-08-27T00:00:00-00:00");
    assert_eq!(prev_dt, expected);
    let prev_dt = 2.weeks().prev(&expected);
    let expected = inst("2018-08-13T00:00:00-00:00");
    assert_eq!(prev_dt, expected);

    let prev_dt = 1.week().prev(&dt);
    let expected = inst("2018-09-03T00:00:00-00:00");
    assert_eq!(prev_dt, expected);

    let prev_dt = Monday.prev(&dt);
    let expected = inst("2018-09-03T00:00:00-00:00");
    assert_eq!(prev_dt, expected);
    let prev_dt = Monday.prev(&expected);
    let expected = inst("2018-08-27T00:00:00-00:00");
    assert_eq!(prev_dt, expected);

    let prev_dt = Wednesday.prev(&dt);
    let expected = inst("2018-08-29T00:00:00-00:00");
    assert_eq!(prev_dt, expected);
    let prev_dt = Wednesday.prev(&expected);
    let expected = inst("2018-08-22T00:00:00-00:00");
    assert_eq!(prev_dt, expected);

    let saturday = clokwerk::Interval::Saturday.prev(&dt);
    let prev_dt = Weekday.prev(&saturday);
    let expected = inst("2018-08-31T00:00:00-00:00");
    assert_eq!(prev_dt, expected);
    let prev_dt = Weekday.prev(&expected);
    let expected = inst("2018-08-30T00:00:00-00:00");
    assert_eq!(prev_dt, expected);
}

#[test]
fn test_division_by_zero() {
    let dt = inst("2018-09-04T14:22:13-00:00");
    assert_eq!(0.seconds().next(&dt), dt, "next 0 seconds");
    assert_eq!(0.seconds().prev(&dt), dt, "previous 0 seconds");
    assert_eq!(0.minutes().next(&dt), dt, "next 0 minutes");
    assert_eq!(0.minutes().prev(&dt), dt, "prev 0 minutes");
    assert_eq!(0.hours().next(&dt), dt, "next 0 hours");
    assert_eq!(0.hours().prev(&dt), dt, "prev 0 hours");
    assert_eq!(0.days().next(&dt), dt, "next 0 days");
    assert_eq!(0.days().prev(&dt), dt, "prev 0 days");
    assert_eq!(0.weeks().next(&dt), dt, "next 0 weeks");
    assert_eq!(0.weeks().prev(&dt), dt, "prev 0 weeks");
}

#[test]
fn test_boundary_monotonicity() {
    // a positive count always lands strictly after, evenly spaced
    let dt = inst("2018-09-04T14:22:13.999-00:00");
    let one = 7.seconds().next(&dt);
    assert!(dt.lt(&one));
    let two = 7.seconds().next(&one);
    assert!(one.lt(&two));
    assert_eq!(one, inst("2018-09-04T14:22:15-00:00"));
    assert_eq!(two, inst("2018-09-04T14:22:22-00:00"));

    let one = 3.days().next(&dt);
    let two = 3.days().next(&one);
    assert!(one.lt(&two));
    assert_eq!(two.days - one.days, 3);
}

#[test]
fn test_exact_boundary_prev() {
    // an instant exactly on a boundary steps back to the previous distinct
    // boundary, never to itself
    let aligned = inst("2018-09-04T14:22:15-00:00");
    let prev = 5.seconds().prev(&aligned);
    assert!(prev.lt(&aligned));
    assert_eq!(prev, inst("2018-09-04T14:22:10-00:00"));

    let midnight = inst("2018-09-04T00:00:00-00:00");
    let prev = 1.day().prev(&midnight);
    assert!(prev.lt(&midnight));
    assert_eq!(prev, inst("2018-09-03T00:00:00-00:00"));
}

#[test]
fn test_next_from_unaligned() {
    // next_from adds exactly one period, anchored to the argument rather
    // than to the calendar grid; weekday variants still align to midnight
    let dt = inst("2018-09-04T14:22:13-00:00");
    assert_eq!(45.minutes().next_from(&dt), inst("2018-09-04T15:07:13-00:00"));
    assert_eq!(2.days().next_from(&dt), inst("2018-09-06T14:22:13-00:00"));
    assert_eq!(0.minutes().next_from(&dt), dt);

    let friday = inst("2018-09-07T14:22:13-00:00");
    assert_eq!(Weekday.next_from(&friday), inst("2018-09-10T00:00:00-00:00"));
    assert_eq!(Monday.next_from(&friday), inst("2018-09-10T00:00:00-00:00"));
}
