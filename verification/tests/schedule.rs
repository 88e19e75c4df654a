use chrono::{DateTime, Datelike, NaiveDate, Timelike};
use clokwerk::{ChronoTimeProvider, Instant, JobSchedule, TimeOfDay, TimeUnits};

fn inst(s: &str) -> Instant {
    let dt = DateTime::parse_from_rfc3339(s).unwrap();
    Instant::new(
        dt.num_days_from_ce() as i64,
        dt.num_seconds_from_midnight(),
        dt.nanosecond(),
    )
    .unwrap()
}

/// One scheduler tick for a single job, with a counter standing in for
/// the job's body: runs the body and advances the schedule when due.
fn run_pending(job: &mut JobSchedule, now: &Instant, times_called: &mut u32) {
    if job.is_pending(now) {
        if job.can_run_again() {
            *times_called += 1;
            job.schedule_next(now);
        }
    }
}

#[test]
fn test_repeating() {
    fn utc_hms(h: u32, m: u32, s: u32) -> Instant {
        let d = NaiveDate::from_ymd_opt(2020, 6, 16).unwrap();
        Instant::new(d.num_days_from_ce() as i64, h * 3600 + m * 60 + s, 0).unwrap()
    }
    let mut job = JobSchedule::new(1.hour());
    job.repeating_every(45.minutes()).times(2);
    job.start_schedule_at(&utc_hms(7, 58, 0));

    assert!(!job.is_pending(&utc_hms(7, 59, 0)));
    assert!(job.is_pending(&utc_hms(8, 0, 0)));
    job.schedule_next(&utc_hms(8, 0, 0));

    assert!(!job.is_pending(&utc_hms(8, 44, 0)));
    assert!(job.is_pending(&utc_hms(8, 45, 0)));
    job.schedule_next(&utc_hms(8, 45, 0));

    // Skips 9:00 because it's still repeating at 45 minutes
    assert!(!job.is_pending(&utc_hms(9, 0, 0)));

    assert!(!job.is_pending(&utc_hms(9, 29, 0)));
    assert!(job.is_pending(&utc_hms(9, 30, 0)));
    job.schedule_next(&utc_hms(9, 30, 0));

    assert!(!job.is_pending(&utc_hms(9, 59, 0)));
    assert!(job.is_pending(&utc_hms(10, 0, 0)));
}

#[test]
fn test_time_coercion() {
    let mut job = JobSchedule::new(1.day());
    // &str
    job.try_at("12:32").unwrap();
    // &String
    job.try_at(&format!("{}:{}", 12, 32)).unwrap();
    // TimeOfDay
    job.at_time(TimeOfDay::from_hms(12, 32, 0).unwrap());
}

#[test]
fn test_every_plus() {
    let mut job = JobSchedule::new(10.minutes());
    job.plus(5.seconds());
    let mut times_called: u32 = 0;
    job.start_schedule_at(&inst("2019-10-22T12:40:00Z"));

    run_pending(&mut job, &inst("2019-10-22T12:40:00Z"), &mut times_called);
    assert_eq!(0, times_called);
    run_pending(&mut job, &inst("2019-10-22T12:50:20Z"), &mut times_called);
    assert_eq!(1, times_called);
    run_pending(&mut job, &inst("2019-10-22T12:50:30Z"), &mut times_called);
    assert_eq!(1, times_called);
}

#[test]
fn test_every_at() {
    let mut job = JobSchedule::new(3.days());
    job.try_at("15:23").unwrap();
    let mut times_called: u32 = 0;
    job.start_schedule_at(&inst("2019-10-22T12:40:00Z"));

    run_pending(&mut job, &inst("2019-10-22T12:40:10Z"), &mut times_called);
    assert_eq!(0, times_called);
    run_pending(&mut job, &inst("2019-10-25T12:50:20Z"), &mut times_called);
    assert_eq!(1, times_called);
    run_pending(&mut job, &inst("2019-10-25T15:23:30Z"), &mut times_called);
    assert_eq!(1, times_called);
}

#[test]
fn test_every_and_every() {
    let mut job = JobSchedule::new(5.seconds());
    job.and_every(2.seconds());
    let mut times_called: u32 = 0;
    job.start_schedule_at(&inst("2019-10-22T12:40:01Z"));

    run_pending(&mut job, &inst("2019-10-22T12:40:01Z"), &mut times_called);
    assert_eq!(0, times_called);
    run_pending(&mut job, &inst("2019-10-22T12:40:02Z"), &mut times_called);
    assert_eq!(1, times_called);
    run_pending(&mut job, &inst("2019-10-22T12:40:03Z"), &mut times_called);
    assert_eq!(1, times_called);
    run_pending(&mut job, &inst("2019-10-22T12:40:04Z"), &mut times_called);
    assert_eq!(2, times_called);
    run_pending(&mut job, &inst("2019-10-22T12:40:05Z"), &mut times_called);
    assert_eq!(3, times_called);
    run_pending(&mut job, &inst("2019-10-22T12:40:06Z"), &mut times_called);
    assert_eq!(4, times_called);
}

#[test]
fn test_once() {
    let mut job = JobSchedule::new(1.seconds());
    job.once();
    let mut times_called: u32 = 0;
    job.start_schedule_at(&inst("2019-10-22T12:40:01Z"));

    run_pending(&mut job, &inst("2019-10-22T12:40:01Z"), &mut times_called);
    assert_eq!(0, times_called);
    run_pending(&mut job, &inst("2019-10-22T12:40:02Z"), &mut times_called);
    assert_eq!(1, times_called);
    run_pending(&mut job, &inst("2019-10-22T12:40:03Z"), &mut times_called);
    assert_eq!(1, times_called);
}

#[test]
fn test_run_count_exhaustion() {
    // count(1) fires exactly once; afterwards the job is never pending
    // again, no matter how much time passes
    let mut job = JobSchedule::new(1.hour());
    job.count(1);
    job.start_schedule_at(&inst("2020-06-16T07:58:00Z"));
    assert!(job.can_run_again());
    assert!(job.is_pending(&inst("2020-06-16T08:00:00Z")));
    job.schedule_next(&inst("2020-06-16T08:00:00Z"));
    assert!(!job.can_run_again());
    assert!(!job.is_pending(&inst("2020-06-16T09:00:00Z")));
    assert!(!job.is_pending(&inst("2021-06-16T09:00:00Z")));
    // advancing an exhausted schedule is a no-op
    job.schedule_next(&inst("2021-06-16T09:00:00Z"));
    assert!(!job.is_pending(&inst("2022-06-16T09:00:00Z")));
}

#[test]
fn test_union_earliest_wins() {
    // with two recurrences the job fires at the earlier of the two
    // computed next occurrences
    let mut job = JobSchedule::new(10.minutes());
    job.and_every(3.minutes());
    job.start_schedule_at(&inst("2019-10-22T12:40:00Z"));
    // next 3-minute boundary (12:42) comes before the next 10-minute one
    assert!(!job.is_pending(&inst("2019-10-22T12:41:59Z")));
    assert!(job.is_pending(&inst("2019-10-22T12:42:00Z")));
}

#[test]
fn test_system_clock_provider() {
    let now = ChronoTimeProvider::now();
    assert!(now.days > 719163, "the system clock reads after 1970");
    assert!(now.secs < 86400);
    assert!(now.nanos < 1_000_000_000);
}

#[test]
fn test_start_schedule_with_clock() {
    let mut job = JobSchedule::new(1.hour());
    job.start_schedule();
    let now = ChronoTimeProvider::now();
    // armed: some next run is scheduled, and it is not in the distant past
    assert!(job.can_run_again());
    assert!(job.is_pending(&Instant::new(now.days + 1, 0, 0).unwrap()));
}
