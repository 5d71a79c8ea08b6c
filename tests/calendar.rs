use giveaway_time::{instant_plus, CalendarDate, ClockTime, Duration, Zone, MAX_INSTANT, MIN_INSTANT};

#[test]
fn dates_are_checked() {
    assert!(CalendarDate::from_ymd(2024, 2, 29).is_some());
    assert!(CalendarDate::from_ymd(2023, 2, 29).is_none());
    assert!(CalendarDate::from_ymd(2025, 4, 31).is_none());
    assert!(CalendarDate::from_ymd(2025, 13, 1).is_none());
    assert!(CalendarDate::from_ymd(262143, 1, 1).is_none());
}

#[test]
fn day_after() {
    let d = CalendarDate::from_ymd(2024, 12, 31).unwrap();
    assert_eq!(d.succ(), Some(CalendarDate { year: 2025, month: 1, day: 1 }));
    let d = CalendarDate::from_ymd(2024, 2, 28).unwrap();
    assert_eq!(d.succ(), Some(CalendarDate { year: 2024, month: 2, day: 29 }));
    let last = CalendarDate::from_ymd(262142, 12, 31).unwrap();
    assert_eq!(last.succ(), None);
}

#[test]
fn clock_times_are_checked() {
    assert!(ClockTime::from_hms(23, 59, 59).is_some());
    assert!(ClockTime::from_hms(24, 0, 0).is_none());
    assert!(ClockTime::from_hms(12, 60, 0).is_none());
    assert!(ClockTime::from_hms(12, 0, 60).is_none());
}

#[test]
fn durations_are_bounded() {
    assert_eq!(Duration::try_from_units(3, 3600), Some(Duration { secs: 10800 }));
    assert_eq!(Duration::try_from_units(9223372036854775, 1), Some(Duration { secs: 9223372036854775 }));
    assert_eq!(Duration::try_from_units(9223372036854776, 1), None);
    assert_eq!(Duration::try_from_units(i64::MAX, 60), None);
    let a = Duration { secs: 9223372036854775 };
    assert_eq!(a.checked_add(Duration { secs: 1 }), None);
    assert_eq!(Duration { secs: 5 }.checked_add(Duration { secs: 7 }), Some(Duration { secs: 12 }));
}

#[test]
fn instants_are_bounded() {
    assert_eq!(instant_plus(100, 20), Some(120));
    assert_eq!(instant_plus(8210266876799, 0), Some(8210266876799));
    assert_eq!(instant_plus(8210266876799, 1), None);
    assert_eq!(MIN_INSTANT, -8334601228800);
    assert_eq!(MAX_INSTANT, 8210266876799);
    assert_eq!(instant_plus(MIN_INSTANT, 0), Some(MIN_INSTANT));
    assert_eq!(instant_plus(MIN_INSTANT, 86400), Some(MIN_INSTANT + 86400));
    assert_eq!(instant_plus(MIN_INSTANT, -1), None);
}

#[test]
fn local_dates_and_instants() {
    let berlin = Zone::named("Europe/Berlin").unwrap();
    // 2025-06-01 23:30 UTC is already 2 June in Berlin
    assert_eq!(berlin.local_date(1748820600), CalendarDate { year: 2025, month: 6, day: 2 });
    let date = CalendarDate::from_ymd(2025, 6, 2).unwrap();
    let time = ClockTime::from_hms(1, 30, 0).unwrap();
    assert_eq!(berlin.resolve(date, time), Some(1748820600));
}

#[test]
fn local_date_near_the_earliest_instant() {
    // New York is west of UTC: its local date a day after the earliest
    // instant is still in range
    let ny = Zone::named("America/New_York").unwrap();
    assert_eq!(ny.local_date(MIN_INSTANT + 86400), CalendarDate { year: -262143, month: 1, day: 1 });
    let tokyo = Zone::named("Asia/Tokyo").unwrap();
    assert_eq!(tokyo.local_date(MAX_INSTANT - 86400), CalendarDate { year: 262142, month: 12, day: 31 });
}
