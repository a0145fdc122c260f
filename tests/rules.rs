use chrono::{DateTime, SecondsFormat, Utc};
use recur::{
    ClockTime, Dimension, Every, EveryN, Instant, Interval, Period, PeriodIter, Schedule,
    TimeFrame, Weekday,
};

fn at(s: &str) -> Instant {
    let t = DateTime::parse_from_rfc3339(s).unwrap();
    Instant::from_timestamp(t.timestamp(), t.timestamp_subsec_nanos()).unwrap()
}

fn show_instant(t: &Instant) -> String {
    DateTime::<Utc>::from_timestamp(t.timestamp(), t.subsec_nanos())
        .unwrap()
        .to_rfc3339_opts(SecondsFormat::AutoSi, true)
}

fn show(iv: &Interval) -> String {
    match iv.to {
        Some(to) => format!("{}/{}", show_instant(&iv.from), show_instant(&to)),
        None => format!("{}/", show_instant(&iv.from)),
    }
}

fn bounded(from: &str, to: &str) -> Interval {
    Interval::between(at(from), at(to)).unwrap()
}

fn all(mut s: PeriodIter, n: usize) -> Vec<String> {
    let mut out = vec![];
    while out.len() < n {
        match s.next() {
            Some(iv) => out.push(show(&iv)),
            None => break,
        }
    }
    out
}

#[test]
fn fixed_stops_at_the_bound() {
    let s = Period::Fixed(3600).iter_within(bounded("2019-01-01T00:00:00Z", "2019-01-01T02:30:00Z"));
    assert_eq!(
        all(s, 10),
        vec![
            "2019-01-01T00:00:00Z/2019-01-01T01:00:00Z",
            "2019-01-01T01:00:00Z/2019-01-01T02:00:00Z",
        ]
    );
    // an interval that ends right on the bound is still yielded
    let s = Period::Fixed(3600).iter_within(bounded("2019-01-01T00:00:00Z", "2019-01-01T02:00:00Z"));
    assert_eq!(all(s, 10).len(), 2);
}

#[test]
fn step_n_skips_and_stops_strictly() {
    let rule = EveryN::new(3600, 2);
    assert_eq!(rule.duration(), 3600);
    let s = Period::Step(3600, 2).iter_within(bounded("2019-01-01T00:00:00Z", "2019-01-01T05:00:00Z"));
    assert_eq!(
        all(s, 10),
        vec![
            "2019-01-01T00:00:00Z/2019-01-01T01:00:00Z",
            "2019-01-01T02:00:00Z/2019-01-01T03:00:00Z",
        ]
    );
    // an interval that would end right on the bound is not yielded
    let s = Period::Step(3600, 1).iter_within(bounded("2019-01-01T00:00:00Z", "2019-01-01T02:00:00Z"));
    assert_eq!(all(s, 10), vec!["2019-01-01T00:00:00Z/2019-01-01T01:00:00Z"]);
    let mut it = rule.iter_within(bounded("2019-01-01T00:00:00Z", "2019-01-01T05:00:00Z"));
    assert_eq!(show(&it.next().unwrap()), "2019-01-01T00:00:00Z/2019-01-01T01:00:00Z");
}

#[test]
fn weekday_starts_and_clips() {
    // on the matching day itself the occurrence starts where the bound does
    let s = Period::DayOfWeek(Weekday::Tue).iter_within(Interval::from(at("2019-01-01T08:00:00Z")));
    assert_eq!(
        all(s, 2),
        vec![
            "2019-01-01T08:00:00Z/2019-01-01T23:59:59.999999999Z",
            "2019-01-08T00:00:00Z/2019-01-08T23:59:59.999999999Z",
        ]
    );
    // on a later day it is the whole day
    let s = Period::DayOfWeek(Weekday::Wed).iter_within(Interval::from(at("2019-01-01T08:00:00Z")));
    assert_eq!(all(s, 1), vec!["2019-01-02T00:00:00Z/2019-01-02T23:59:59.999999999Z"]);
    // a bound that ends inside the day cuts it short and ends the session
    let s = Period::DayOfWeek(Weekday::Tue).iter_within(bounded("2019-01-01T00:00:00Z", "2019-01-01T12:00:00Z"));
    assert_eq!(all(s, 5), vec!["2019-01-01T00:00:00Z/2019-01-01T12:00:00Z"]);
    // a bound that ends before the day yields nothing
    let s = Period::DayOfWeek(Weekday::Fri).iter_within(bounded("2019-01-01T00:00:00Z", "2019-01-02T12:00:00Z"));
    assert_eq!(all(s, 5).len(), 0);
}

#[test]
fn weekend_and_weekdays() {
    let s = Period::Weekend.iter_within(bounded("2019-01-01T00:00:00Z", "2019-01-14T00:00:00Z"));
    let got = all(s, 10);
    assert_eq!(got.len(), 4);
    assert_eq!(got[0], "2019-01-05T00:00:00Z/2019-01-05T23:59:59.999999999Z");
    assert_eq!(got[3], "2019-01-13T00:00:00Z/2019-01-13T23:59:59.999999999Z");
    let s = Period::Weekday.iter_within(bounded("2019-01-05T00:00:00Z", "2019-01-12T00:00:00Z"));
    let got = all(s, 10);
    assert_eq!(got.len(), 5);
    assert_eq!(got[0], "2019-01-07T00:00:00Z/2019-01-07T23:59:59.999999999Z");
}

#[test]
fn time_frame_windows() {
    let nine = ClockTime::from_hms(9, 0, 0).unwrap();
    let five = ClockTime::from_hms(17, 0, 0).unwrap();
    let s = Period::Frame(TimeFrame::new(nine, five)).iter_within(Interval::from(at("2019-01-01T10:00:00Z")));
    assert_eq!(all(s, 1), vec!["2019-01-02T09:00:00Z/2019-01-02T17:00:00Z"]);
    // a window whose end equals its start lasts a whole day
    let s = Period::Frame(TimeFrame::new(nine, nine)).iter_within(Interval::from(at("2019-01-01T00:00:00Z")));
    assert_eq!(
        all(s, 2),
        vec!["2019-01-01T09:00:00Z/2019-01-02T09:00:00Z", "2019-01-03T09:00:00Z/2019-01-04T09:00:00Z"]
    );
    assert_eq!(TimeFrame::new(nine, five).duration_hint(), 28_800);
    assert_eq!(TimeFrame::new(five, nine).duration_hint(), 57_600);
    assert_eq!(TimeFrame::new(nine, nine).duration_hint(), 86_400);
}

#[test]
fn every_third_minute() {
    let rule = Period::Ordinal(3, Box::new(Period::Fixed(60)));
    let s = rule.iter_within(Interval::from(at("2019-01-01T00:00:00Z")));
    assert_eq!(
        all(s, 3),
        vec![
            "2019-01-01T00:00:00Z/2019-01-01T00:01:00Z",
            "2019-01-01T00:03:00Z/2019-01-01T00:04:00Z",
            "2019-01-01T00:06:00Z/2019-01-01T00:07:00Z",
        ]
    );
}

#[test]
fn duration_hints() {
    assert_eq!(Period::Fixed(90).duration_hint(), 90);
    assert_eq!(Period::Step(60, 5).duration_hint(), 60);
    assert_eq!(Period::Month(2).duration_hint(), 4_838_400);
    assert_eq!(Period::Quarter(1).duration_hint(), 7_257_600);
    assert_eq!(Period::Year(1).duration_hint(), 29_030_400);
    assert_eq!(Period::Weekend.duration_hint(), 86_400);
    assert_eq!(Period::DayOfWeek(Weekday::Sun).duration_hint(), 86_400);
    assert_eq!(Period::At(ClockTime::from_hms(1, 2, 3).unwrap()).duration_hint(), 86_400);
    assert_eq!(Period::Ordinal(2, Box::new(Period::Year(2))).duration_hint(), 58_060_800);
    assert_eq!(EveryN::new(120, 3).duration_hint(), 120);
    assert_eq!(ClockTime::from_hms(5, 0, 0).unwrap().duration_hint(), 86_400);
}

#[test]
fn malformed_rules_are_reported() {
    assert!(!Period::Fixed(0).is_valid());
    assert!(!Period::Step(60, 0).is_valid());
    assert!(!Period::Month(0).is_valid());
    assert!(!Period::Quarter(0).is_valid());
    assert!(!Period::Year(0).is_valid());
    assert!(!Period::Ordinal(0, Box::new(Period::Weekend)).is_valid());
    assert!(!Period::Ordinal(2, Box::new(Period::Fixed(0))).is_valid());
    assert!(Period::Ordinal(2, Box::new(Period::Weekday)).is_valid());
    assert!(!Every::new(vec![]).is_valid());
    assert!(!Every::new(vec![Period::Weekend, Period::Fixed(0)]).is_valid());
    assert!(Every::new(vec![Period::Weekend, Period::Fixed(1)]).is_valid());
    let d = Dimension::Quarter;
    assert_eq!(d, Dimension::Quarter);
}

#[test]
fn empty_schedule_yields_nothing() {
    let schedule = Schedule::new(vec![], None);
    let mut it = schedule.iter_within(Interval::from(at("2019-01-01T00:00:00Z")));
    assert!(it.next().is_none());
    assert!(it.next().is_none());
}

#[test]
fn schedule_orders_rules_by_coarseness() {
    let schedule = Schedule::new(
        vec![
            Every::new(vec![Period::Fixed(60)]),
            Every::new(vec![Period::Year(1)]),
            Every::new(vec![Period::Weekend]),
            Every::new(vec![Period::Month(1)]),
            Every::new(vec![Period::Fixed(3600)]),
        ],
        None,
    );
    let hints: Vec<u64> = schedule.items.iter().map(|e| e.duration_hint()).collect();
    assert_eq!(hints, vec![29_030_400, 2_419_200, 86_400, 3600, 60]);
}

#[test]
fn schedule_of_hours_within_days() {
    let schedule = Schedule::new(
        vec![Every::new(vec![Period::Fixed(3600)]), Every::new(vec![Period::DayOfWeek(Weekday::Sat)])],
        None,
    );
    let mut it = schedule.iter_within(Interval::from(at("2019-01-01T00:00:00Z")));
    let mut got = vec![];
    while got.len() < 25 {
        match it.next() {
            Some(iv) => got.push(show(&iv)),
            None => break,
        }
    }
    assert_eq!(got[0], "2019-01-05T00:00:00Z/2019-01-05T01:00:00Z");
    assert_eq!(got[22], "2019-01-05T22:00:00Z/2019-01-05T23:00:00Z");
    // the last hour of the day does not fit before its last nanosecond
    assert_eq!(got[23], "2019-01-12T00:00:00Z/2019-01-12T01:00:00Z");
}

#[test]
fn merge_budget_ends_runaway_coalescing() {
    let c = recur::Combine::new(vec![Period::Fixed(60).iter_within(Interval::from(at("2019-01-01T00:00:00Z")))]);
    let mut m = recur::Merge::new(c, 1, 5);
    assert!(m.next().is_none());
    assert!(m.next().is_none());
    let b = bounded("2019-01-01T00:00:00Z", "2019-01-01T00:03:00Z");
    let c = recur::Combine::new(vec![Period::Fixed(60).iter_within(b)]);
    let mut m = recur::Merge::new(c, 1, 5);
    assert_eq!(show(&m.next().unwrap()), "2019-01-01T00:00:00Z/2019-01-01T00:03:00Z");
    assert!(m.next().is_none());
}

#[test]
fn combined_outputs_never_overlap() {
    let b = bounded("2019-01-01T00:00:00Z", "2019-01-03T00:00:00Z");
    let mut c = recur::Combine::new(vec![
        Period::Fixed(5400).iter_within(b),
        Period::Fixed(3600).iter_within(b),
        Period::At(ClockTime::from_hms(12, 30, 0).unwrap()).iter_within(b),
        Period::Weekday.iter_within(b),
    ]);
    let mut got: Vec<Interval> = vec![];
    while let Some(iv) = c.next() {
        got.push(iv);
    }
    assert!(got.len() > 10);
    for w in got.windows(2) {
        let prev_end = w[0].to.unwrap();
        assert!(prev_end.le(&w[1].from));
        assert!(w[0].from.le(&w[1].from));
    }
}

#[test]
fn at_several_times() {
    let times = vec![
        ClockTime::from_hms(19, 0, 0).unwrap(),
        ClockTime::from_hms(20, 30, 0).unwrap(),
    ];
    let at_times = recur::At::new(times);
    let every = at_times.to_every();
    assert!(every.is_valid());
    let mut c = every.iter_within(bounded("2019-01-01T00:00:00Z", "2019-01-02T23:00:00Z"));
    let mut got = vec![];
    while let Some(iv) = c.next() {
        got.push(show(&iv));
    }
    assert_eq!(
        got,
        vec![
            "2019-01-01T19:00:00Z/2019-01-01T19:00:00Z",
            "2019-01-01T20:30:00Z/2019-01-01T20:30:00Z",
            "2019-01-02T19:00:00Z/2019-01-02T19:00:00Z",
            "2019-01-02T20:30:00Z/2019-01-02T20:30:00Z",
        ]
    );
    assert!(!recur::At::new(vec![]).to_every().is_valid());
}

#[test]
fn weekend_rule_matches_union_of_its_days() {
    let b = bounded("2019-01-01T00:00:00Z", "2019-03-01T00:00:00Z");
    let mut single = Period::Weekend.iter_within(b);
    let mut union = Every::new(vec![Period::DayOfWeek(Weekday::Sat), Period::DayOfWeek(Weekday::Sun)]).iter_within(b);
    let mut count = 0;
    loop {
        let a = single.next();
        let u = union.next();
        assert_eq!(a, u);
        if a.is_none() {
            break;
        }
        count += 1;
    }
    assert_eq!(count, 16);
    let mut single = Period::Weekday.iter_within(b);
    let mut union = Every::new(vec![
        Period::DayOfWeek(Weekday::Mon),
        Period::DayOfWeek(Weekday::Tue),
        Period::DayOfWeek(Weekday::Wed),
        Period::DayOfWeek(Weekday::Thu),
        Period::DayOfWeek(Weekday::Fri),
    ])
    .iter_within(b);
    loop {
        let a = single.next();
        assert_eq!(a, union.next());
        if a.is_none() {
            break;
        }
    }
}

#[test]
fn merge_spans_run_from_seed_to_last_absorbed() {
    // two hourly ticks back to back, then a gap of a day before the next pair
    let b = bounded("2019-01-01T00:00:00Z", "2019-01-03T00:00:00Z");
    let c = recur::Combine::new(vec![
        Period::At(ClockTime::from_hms(10, 0, 0).unwrap()).iter_within(b),
        Period::At(ClockTime::from_hms(10, 0, 1).unwrap()).iter_within(b),
    ]);
    let mut m = recur::Merge::new(c, 1, 10);
    assert_eq!(show(&m.next().unwrap()), "2019-01-01T10:00:00Z/2019-01-01T10:00:01Z");
    assert_eq!(show(&m.next().unwrap()), "2019-01-02T10:00:00Z/2019-01-02T10:00:01Z");
    assert!(m.next().is_none());
}
