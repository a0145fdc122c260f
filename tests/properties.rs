use chrono::{DateTime, Datelike, SecondsFormat, Utc};
use recur::{
    ClockTime, Combine, Every, Instant, Interval, Merge, Period, PeriodIter, Schedule, Weekday,
};

fn at(s: &str) -> Instant {
    let t = DateTime::parse_from_rfc3339(s).unwrap();
    Instant::from_timestamp(t.timestamp(), t.timestamp_subsec_nanos()).unwrap()
}

fn to_chrono(t: &Instant) -> DateTime<Utc> {
    DateTime::<Utc>::from_timestamp(t.timestamp(), t.subsec_nanos()).unwrap()
}

fn show_instant(t: &Instant) -> String {
    to_chrono(t).to_rfc3339_opts(SecondsFormat::AutoSi, true)
}

fn show(iv: &Interval) -> String {
    match iv.to {
        Some(to) => format!("{}/{}", show_instant(&iv.from), show_instant(&to)),
        None => format!("{}/", show_instant(&iv.from)),
    }
}

fn bounded(from: &str, to: &str) -> Interval {
    Interval::between(at(from), at(to)).unwrap()
}

fn drain(mut s: PeriodIter, n: usize) -> Vec<Interval> {
    let mut out = vec![];
    while out.len() < n {
        match s.next() {
            Some(iv) => out.push(iv),
            None => break,
        }
    }
    out
}

fn ns(t: &Instant) -> i128 {
    t.timestamp() as i128 * 1_000_000_000 + t.subsec_nanos() as i128
}

#[test]
fn weekend_days_merge_into_one_span() {
    let b = bounded("2019-01-01T00:00:00Z", "2019-01-31T00:00:00Z");
    let c = Combine::new(vec![
        Period::DayOfWeek(Weekday::Sat).iter_within(b),
        Period::DayOfWeek(Weekday::Sun).iter_within(b),
    ]);
    let mut m = Merge::new(c, 1, 100);
    let first = m.next().unwrap();
    assert_eq!(show(&first), "2019-01-05T00:00:00Z/2019-01-06T23:59:59.999999999Z");
    let mut count = 1;
    while let Some(_) = m.next() {
        count += 1;
    }
    assert_eq!(count, 4);
}

#[test]
fn gap_above_threshold_is_not_bridged() {
    // Saturday and Monday are a whole day apart: a one-hour gap threshold keeps them apart
    let b = bounded("2019-01-01T00:00:00Z", "2019-01-08T00:00:00Z");
    let c = Combine::new(vec![
        Period::DayOfWeek(Weekday::Sat).iter_within(b),
        Period::DayOfWeek(Weekday::Mon).iter_within(b),
    ]);
    let mut m = Merge::new(c, 3600, 100);
    let first = m.next().unwrap();
    assert_eq!(show(&first), "2019-01-05T00:00:00Z/2019-01-05T23:59:59.999999999Z");
    let second = m.next().unwrap();
    assert_eq!(show(&second), "2019-01-07T00:00:00Z/2019-01-07T23:59:59.999999999Z");
    assert!(m.next().is_none());
}

#[test]
fn quarters_clamp_month_ends() {
    let s = Period::Quarter(1).iter_within(Interval::from(at("2019-10-31T12:00:00Z")));
    let got: Vec<String> = drain(s, 5).iter().map(show).collect();
    assert_eq!(
        got,
        vec![
            "2019-10-31T12:00:00Z/2020-01-31T12:00:00Z",
            "2020-01-31T12:00:00Z/2020-04-30T12:00:00Z",
            "2020-04-30T12:00:00Z/2020-07-31T12:00:00Z",
            "2020-07-31T12:00:00Z/2020-10-31T12:00:00Z",
            "2020-10-31T12:00:00Z/2021-01-31T12:00:00Z",
        ]
    );
    // the same spans through a month rule counted in threes
    let s = Period::Month(3).iter_within(Interval::from(at("2019-10-31T12:00:00Z")));
    let again: Vec<String> = drain(s, 5).iter().map(show).collect();
    assert_eq!(got, again);
}

#[test]
fn month_steps_into_february() {
    let s = Period::Month(1).iter_within(Interval::from(at("2021-01-31T00:00:00Z")));
    let got: Vec<String> = drain(s, 2).iter().map(show).collect();
    assert_eq!(
        got,
        vec!["2021-01-31T00:00:00Z/2021-02-28T00:00:00Z", "2021-02-28T00:00:00Z/2021-03-31T00:00:00Z"]
    );
}

#[test]
fn every_second_friday_of_a_year() {
    let rule = Period::Ordinal(2, Box::new(Period::DayOfWeek(Weekday::Fri)));
    let s = rule.iter_within(bounded("2019-01-01T00:00:00Z", "2020-01-01T00:00:00Z"));
    let got = drain(s, 100);
    assert_eq!(got.len(), 26);
    assert_eq!(show(&got[0]), "2019-01-04T00:00:00Z/2019-01-04T23:59:59.999999999Z");
    assert_eq!(show(&got[25]), "2019-12-20T00:00:00Z/2019-12-20T23:59:59.999999999Z");
    for w in got.windows(2) {
        assert_eq!(ns(&w[1].from) - ns(&w[0].from), 14 * 86_400 * 1_000_000_000);
    }
}

#[test]
fn ten_am_after_ten_am_is_tomorrow() {
    let ten = ClockTime::from_hms(10, 0, 0).unwrap();
    let s = Period::At(ten).iter_within(Interval::from(at("2019-10-31T12:00:00Z")));
    let got = drain(s, 1);
    assert_eq!(show(&got[0]), "2019-11-01T10:00:00Z/2019-11-01T10:00:00Z");
    // before the clock time, the same day counts
    let s = Period::At(ten).iter_within(Interval::from(at("2019-10-31T09:00:00Z")));
    assert_eq!(show(&drain(s, 1)[0]), "2019-10-31T10:00:00Z/2019-10-31T10:00:00Z");
}

#[test]
fn schedule_month_monday_ten() {
    let ten = ClockTime::from_hms(10, 0, 0).unwrap();
    // the month is given last: the schedule puts the coarsest rule first, and keeps
    // the order of the two daily rules
    let schedule = Schedule::new(
        vec![
            Every::new(vec![Period::DayOfWeek(Weekday::Mon)]),
            Every::new(vec![Period::At(ten)]),
            Every::new(vec![Period::Month(1)]),
        ],
        None,
    );
    assert_eq!(schedule.items[0].duration_hint(), 2_419_200);
    let mut it = schedule.iter_within(bounded("2019-08-01T00:00:00Z", "2020-02-01T00:00:00Z"));
    let mut got = vec![];
    while let Some(iv) = it.next() {
        got.push(iv);
    }
    assert_eq!(got.len(), 26);
    let mut months_seen = vec![];
    for (i, iv) in got.iter().enumerate() {
        let t = to_chrono(&iv.from);
        assert_eq!(t.weekday(), chrono::Weekday::Mon);
        assert_eq!(show_instant(&iv.from)[10..], *"T10:00:00Z");
        if i > 0 {
            assert!(ns(&got[i - 1].from) < ns(&iv.from));
        }
        if !months_seen.contains(&t.month()) {
            // the first occurrence within a month is its first Monday
            assert!(t.day() <= 7);
            months_seen.push(t.month());
        }
    }
    assert_eq!(months_seen, vec![8, 9, 10, 11, 12, 1]);
}

#[test]
fn unbounded_and_far_bound_agree() {
    let rules = vec![
        Period::Fixed(3600),
        Period::Step(60, 3),
        Period::Month(2),
        Period::Weekend,
        Period::At(ClockTime::from_hms(7, 30, 0).unwrap()),
        Period::Ordinal(3, Box::new(Period::Weekday)),
    ];
    for rule in rules {
        let start = at("2019-03-15T08:00:00Z");
        let open = drain(rule.iter_within(Interval::from(start)), 12);
        let far = drain(rule.iter_within(Interval::between(start, at("2030-01-01T00:00:00Z")).unwrap()), 12);
        assert_eq!(open, far);
        assert_eq!(open.len(), 12);
    }
}

#[test]
fn occurrences_are_ordered_and_closed() {
    let rules = vec![
        Period::Fixed(90),
        Period::Step(3600, 2),
        Period::Year(1),
        Period::Weekday,
        Period::DayOfWeek(Weekday::Wed),
    ];
    for rule in rules {
        let got = drain(rule.iter_within(bounded("2019-01-01T00:00:00Z", "2025-01-01T00:00:00Z")), 50);
        for w in got.windows(2) {
            assert!(ns(&w[0].from) <= ns(&w[1].from));
        }
        for iv in &got {
            assert!(ns(&iv.from) <= ns(&iv.to.unwrap()));
        }
    }
}

#[test]
fn combine_trims_overlaps() {
    // hourly ticks under a daily tick: the day comes first, the hours it covers are dropped
    let b = bounded("2019-01-01T00:00:00Z", "2019-01-02T03:00:00Z");
    let mut c = Combine::new(vec![Period::Fixed(86_400).iter_within(b), Period::Fixed(3600).iter_within(b)]);
    let mut got = vec![];
    while let Some(iv) = c.next() {
        got.push(show(&iv));
    }
    assert_eq!(
        got,
        vec![
            "2019-01-01T00:00:00Z/2019-01-01T01:00:00Z",
            "2019-01-01T01:00:00Z/2019-01-02T00:00:00Z",
            // the last hour of the day is cut down to the instant the day ends
            "2019-01-02T00:00:00Z/2019-01-02T00:00:00Z",
            "2019-01-02T00:00:00Z/2019-01-02T01:00:00Z",
            "2019-01-02T01:00:00Z/2019-01-02T02:00:00Z",
            "2019-01-02T02:00:00Z/2019-01-02T03:00:00Z",
        ]
    );
}

#[test]
fn unions_and_schedules_agree_under_a_far_bound() {
    let start = at("2019-03-15T08:00:00Z");
    let far = at("2030-01-01T00:00:00Z");
    let union = || Every::new(vec![Period::Weekend, Period::At(ClockTime::from_hms(7, 30, 0).unwrap())]);
    let mut open = union().iter_within(Interval::from(start));
    let mut closed = union().iter_within(Interval::between(start, far).unwrap());
    for _ in 0..12 {
        assert_eq!(open.next(), closed.next());
    }
    let schedule = Schedule::new(
        vec![Every::new(vec![Period::Month(1)]), Every::new(vec![Period::DayOfWeek(Weekday::Tue)])],
        None,
    );
    let mut open = schedule.iter_within(Interval::from(start));
    let mut closed = schedule.iter_within(Interval::between(start, far).unwrap());
    for _ in 0..12 {
        let a = open.next();
        assert!(a.is_some());
        assert_eq!(a, closed.next());
    }
}

#[test]
fn schedule_ends_where_a_level_cannot_open() {
    // 2019-04-01 is a Monday on the boundary of two months: the March span ends at its
    // first instant, no 10:00 fits in what is left of it, and the session ends there
    let ten = ClockTime::from_hms(10, 0, 0).unwrap();
    let schedule = Schedule::new(
        vec![
            Every::new(vec![Period::Month(1)]),
            Every::new(vec![Period::DayOfWeek(Weekday::Mon)]),
            Every::new(vec![Period::At(ten)]),
        ],
        None,
    );
    let mut it = schedule.iter_within(bounded("2019-01-01T00:00:00Z", "2019-07-01T00:00:00Z"));
    let mut got = vec![];
    while let Some(iv) = it.next() {
        got.push(show(&iv));
    }
    assert_eq!(got.len(), 12);
    assert_eq!(got[0], "2019-01-07T10:00:00Z/2019-01-07T10:00:00Z");
    assert_eq!(got[11], "2019-03-25T10:00:00Z/2019-03-25T10:00:00Z");
    assert!(it.next().is_none());
}
