use chrono::{DateTime, SecondsFormat, Utc};
use recur::{Combine, Instant, Interval, Merge, Period, PeriodIter, TimeFrame, Weekday, ClockTime};

fn at(s: &str) -> Instant {
    let t = DateTime::parse_from_rfc3339(s).unwrap();
    Instant::from_timestamp(t.timestamp(), t.timestamp_subsec_nanos()).unwrap()
}

fn show_instant(t: &Instant) -> String {
    DateTime::<Utc>::from_timestamp(t.timestamp(), t.subsec_nanos())
        .unwrap()
        .to_rfc3339_opts(SecondsFormat::AutoSi, true)
}

fn show(iv: &Interval) -> String {
    match iv.to {
        Some(to) => format!("{}/{}", show_instant(&iv.from), show_instant(&to)),
        None => format!("{}/", show_instant(&iv.from)),
    }
}

fn take(mut s: PeriodIter, n: usize) -> Vec<String> {
    let mut out = vec![];
    while out.len() < n {
        match s.next() {
            Some(iv) => out.push(show(&iv)),
            None => break,
        }
    }
    out
}

fn whole_day(d: &str) -> String {
    format!("{}T00:00:00Z/{}T23:59:59.999999999Z", d, d)
}

#[test]
fn every_sunday() {
    let s = Period::DayOfWeek(Weekday::Sun).iter_within(Interval::from(at("2019-01-01T00:00:00Z")));
    let days = [
        "2019-01-06", "2019-01-13", "2019-01-20", "2019-01-27", "2019-02-03", "2019-02-10",
        "2019-02-17", "2019-02-24", "2019-03-03", "2019-03-10",
    ];
    let expected: Vec<String> = days.iter().map(|d| whole_day(d)).collect();
    assert_eq!(take(s, 10), expected);
}

#[test]
fn combine_weekend() {
    let b = Interval::from(at("2019-01-01T00:00:00Z"));
    let mut c = Combine::new(vec![
        Period::DayOfWeek(Weekday::Sat).iter_within(b),
        Period::DayOfWeek(Weekday::Sun).iter_within(b),
    ]);
    let mut got = vec![];
    while got.len() < 10 {
        match c.next() {
            Some(iv) => got.push(show(&iv)),
            None => break,
        }
    }
    let days = [
        "2019-01-05", "2019-01-06", "2019-01-12", "2019-01-13", "2019-01-19", "2019-01-20",
        "2019-01-26", "2019-01-27", "2019-02-02", "2019-02-03",
    ];
    let expected: Vec<String> = days.iter().map(|d| whole_day(d)).collect();
    assert_eq!(got, expected);
}

#[test]
fn merge_weekend() {
    let b = Interval::from(at("2019-01-01T00:00:00Z"));
    let c = Combine::new(vec![
        Period::DayOfWeek(Weekday::Sat).iter_within(b),
        Period::DayOfWeek(Weekday::Sun).iter_within(b),
    ]);
    let mut m = Merge::new(c, 1, 100);
    let mut got = vec![];
    while got.len() < 10 {
        match m.next() {
            Some(iv) => got.push(show(&iv)),
            None => break,
        }
    }
    let weekends = [
        ("2019-01-05", "2019-01-06"),
        ("2019-01-12", "2019-01-13"),
        ("2019-01-19", "2019-01-20"),
        ("2019-01-26", "2019-01-27"),
        ("2019-02-02", "2019-02-03"),
        ("2019-02-09", "2019-02-10"),
        ("2019-02-16", "2019-02-17"),
        ("2019-02-23", "2019-02-24"),
        ("2019-03-02", "2019-03-03"),
        ("2019-03-09", "2019-03-10"),
    ];
    let expected: Vec<String> = weekends
        .iter()
        .map(|(sat, sun)| format!("{}T00:00:00Z/{}T23:59:59.999999999Z", sat, sun))
        .collect();
    assert_eq!(got, expected);
}

#[test]
fn every_month() {
    let s = Period::Month(1).iter_within(Interval::from(at("2019-10-31T12:00:00Z")));
    let ends = [
        "2019-10-31", "2019-11-30", "2019-12-31", "2020-01-31", "2020-02-29", "2020-03-31",
        "2020-04-30", "2020-05-31", "2020-06-30", "2020-07-31", "2020-08-31",
    ];
    let expected: Vec<String> = ends
        .windows(2)
        .map(|w| format!("{}T12:00:00Z/{}T12:00:00Z", w[0], w[1]))
        .collect();
    assert_eq!(take(s, 10), expected);
}

#[test]
fn every_10_am() {
    let ten = ClockTime::from_hms(10, 0, 0).unwrap();
    let s = Period::At(ten).iter_within(Interval::from(at("2019-10-31T12:00:00Z")));
    let expected: Vec<String> = (1..=10)
        .map(|d| format!("2019-11-{:02}T10:00:00Z/2019-11-{:02}T10:00:00Z", d, d))
        .collect();
    assert_eq!(take(s, 10), expected);
}

#[test]
fn from_23_00_to_1_00() {
    let frame = TimeFrame::new(
        ClockTime::from_hms(23, 0, 0).unwrap(),
        ClockTime::from_hms(1, 0, 0).unwrap(),
    );
    let s = Period::Frame(frame).iter_within(Interval::from(at("2019-10-31T00:00:00Z")));
    let starts = [
        "2019-10-31", "2019-11-01", "2019-11-02", "2019-11-03", "2019-11-04", "2019-11-05",
        "2019-11-06", "2019-11-07", "2019-11-08", "2019-11-09", "2019-11-10",
    ];
    let expected: Vec<String> = starts
        .windows(2)
        .map(|w| format!("{}T23:00:00Z/{}T01:00:00Z", w[0], w[1]))
        .collect();
    assert_eq!(take(s, 10), expected);
}
