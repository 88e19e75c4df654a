use chrono::{DateTime, Datelike, Timelike};
use clokwerk::Interval::Tuesday;
use clokwerk::{parse_time, Instant, RunConfig, TimeOfDay, TimeUnits};

fn inst(s: &str) -> Instant {
    let dt = DateTime::parse_from_rfc3339(s).unwrap();
    Instant::new(
        dt.num_days_from_ce() as i64,
        dt.num_seconds_from_midnight(),
        dt.nanosecond(),
    )
    .unwrap()
}

#[test]
fn test_parse_time() {
    assert_eq!(
        parse_time("14:52:13"),
        Ok(TimeOfDay::from_hms(14, 52, 13).unwrap())
    );
    assert_eq!(
        parse_time("2:52:13 pm"),
        Ok(TimeOfDay::from_hms(14, 52, 13).unwrap())
    );
    assert_eq!(
        parse_time("14:52"),
        Ok(TimeOfDay::from_hms(14, 52, 0).unwrap())
    );
    assert_eq!(
        parse_time("2:52 PM"),
        Ok(TimeOfDay::from_hms(14, 52, 0).unwrap())
    );
}

#[test]
fn test_parse_time_rejects_garbage() {
    assert!(parse_time("not a time").is_err());
    assert!(parse_time("25:00").is_err());
    assert!(parse_time("").is_err());
}

#[test]
fn test_run_config() {
    let rc = RunConfig::from_interval(1.day()).with_time(TimeOfDay::from_hms(15, 0, 0).unwrap());
    let dt = inst("2018-09-04T14:22:13-00:00");
    let next_dt = rc.next(&dt);
    let expected = inst("2018-09-04T15:00:00-00:00");
    assert_eq!(next_dt, expected);

    let rc = RunConfig::from_interval(Tuesday).with_time(TimeOfDay::from_hms(15, 0, 0).unwrap());
    let dt = inst("2018-09-04T14:22:13-00:00");
    let next_dt = rc.next(&dt);
    let expected = inst("2018-09-04T15:00:00-00:00");
    assert_eq!(next_dt, expected);

    let rc = RunConfig::from_interval(Tuesday).with_time(TimeOfDay::from_hms(14, 0, 0).unwrap());
    let next_dt = rc.next(&dt);
    let expected = inst("2018-09-11T14:00:00-00:00");
    assert_eq!(next_dt, expected);

    let rc = RunConfig::from_interval(Tuesday)
        .with_subinterval(6.hours())
        .with_subinterval(5.minutes());
    let next_dt = rc.next(&dt);
    let expected = inst("2018-09-11T06:05:00-00:00");
    assert_eq!(next_dt, expected);
}

#[test]
fn test_daily_interval_plus_time_of_midnight() {
    // the day's own midnight has already passed, so the rule rolls to the
    // next base day
    let dt = inst("2018-09-04T14:22:13-00:00");
    let rc = RunConfig::from_interval(Tuesday).with_time(TimeOfDay::from_hms(0, 0, 0).unwrap());
    let next_dt = rc.next(&dt);
    let expected = inst("2018-09-11T00:00:00-00:00");
    assert_eq!(next_dt, expected);
}
