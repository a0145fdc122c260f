use chrono::{DateTime, SecondsFormat, Utc};
use recur::{days_in_month, end_of, start_of, ClockTime, Instant, Interval, Of};

fn at(s: &str) -> Instant {
    let t = DateTime::parse_from_rfc3339(s).unwrap();
    Instant::from_timestamp(t.timestamp(), t.timestamp_subsec_nanos()).unwrap()
}

fn show(t: &Instant) -> String {
    DateTime::<Utc>::from_timestamp(t.timestamp(), t.subsec_nanos())
        .unwrap()
        .to_rfc3339_opts(SecondsFormat::AutoSi, true)
}

#[test]
fn month_lengths() {
    assert_eq!(days_in_month(2019, 2), 28);
    assert_eq!(days_in_month(2020, 2), 29);
    assert_eq!(days_in_month(1900, 2), 28);
    assert_eq!(days_in_month(2000, 2), 29);
    assert_eq!(days_in_month(-4, 2), 29);
    assert_eq!(days_in_month(2019, 4), 30);
    assert_eq!(days_in_month(2019, 12), 31);
}

#[test]
fn start_and_end_of_units() {
    let t = at("2019-10-31T12:34:56Z");
    assert_eq!(show(&start_of(Of::Day, &t).unwrap()), "2019-10-31T00:00:00Z");
    assert_eq!(show(&end_of(Of::Day, &t).unwrap()), "2019-10-31T23:59:59.999999999Z");
    assert_eq!(show(&start_of(Of::Month, &t).unwrap()), "2019-10-01T00:00:00Z");
    assert_eq!(show(&end_of(Of::Month, &t).unwrap()), "2019-10-31T23:59:59.999999999Z");
    assert_eq!(show(&start_of(Of::Year, &t).unwrap()), "2019-01-01T00:00:00Z");
    assert_eq!(show(&end_of(Of::Year, &t).unwrap()), "2019-12-31T23:59:59.999999999Z");
    let leap = at("2020-02-10T08:00:00Z");
    assert_eq!(show(&end_of(Of::Month, &leap).unwrap()), "2020-02-29T23:59:59.999999999Z");
    assert_eq!(show(&start_of(Of::Year, &leap).unwrap()), "2020-01-01T00:00:00Z");
    assert_eq!(show(&end_of(Of::Year, &leap).unwrap()), "2020-12-31T23:59:59.999999999Z");
    let last = at("9999-06-01T00:00:00Z");
    assert_eq!(show(&end_of(Of::Year, &last).unwrap()), "9999-12-31T23:59:59.999999999Z");
}

#[test]
fn instants_out_of_range_are_refused() {
    assert!(Instant::from_timestamp(253_402_300_800, 0).is_none());
    assert!(Instant::from_timestamp(-62_135_596_801, 0).is_none());
    assert!(Instant::from_timestamp(0, 1_000_000_000).is_none());
    assert!(Instant::new(2_932_897, 0).is_none());
    assert!(Instant::new(0, 86_400_000_000_000).is_none());
    let epoch = Instant::new(0, 0).unwrap();
    assert_eq!(show(&epoch), "1970-01-01T00:00:00Z");
    let last = Instant::new(2_932_896, 86_399_999_999_999).unwrap();
    assert!(last.add_secs(1).is_none());
    assert_eq!(show(&epoch.add_secs(90_061).unwrap()), "1970-01-02T01:01:01Z");
}

#[test]
fn instant_order_and_distance() {
    let a = at("2019-01-01T23:00:00Z");
    let b = at("2019-01-02T01:00:00.5Z");
    assert!(a.lt(&b));
    assert!(!b.le(&a));
    assert_eq!(a.nanos_until(&b), 7_200_500_000_000);
    assert_eq!(b.nanos_until(&a), -7_200_500_000_000);
    assert_eq!(a.weekday_index(), 1);
}

#[test]
fn invalid_clock_times_and_intervals() {
    assert!(ClockTime::from_hms(24, 0, 0).is_none());
    assert!(ClockTime::from_hms(23, 60, 0).is_none());
    assert!(ClockTime::from_hms(23, 59, 60).is_none());
    assert_eq!(ClockTime::from_hms(7, 30, 15).unwrap().nanos_of_day(), 27_015_000_000_000);
    assert!(Interval::between(at("2019-01-02T00:00:00Z"), at("2019-01-01T00:00:00Z")).is_none());
    let open = Interval::from(at("2019-01-01T00:00:00Z"));
    assert!(open.to.is_none());
}
