use chrono::TimeZone;
use chrono_tz::Europe::Berlin;
use giveaway_time::{parse_time, Zone, MIN_INSTANT};

/// 2025-06-01 12:00:00 UTC.
const NOW: i64 = 1748779200;

fn berlin() -> Zone {
    Zone::named("Europe/Berlin").unwrap()
}

fn berlin_at(y: i32, m: u32, d: u32, h: u32, mi: u32, s: u32) -> i64 {
    Berlin.with_ymd_and_hms(y, m, d, h, mi, s).unwrap().timestamp()
}

#[test]
fn minutes_short_form() {
    assert_eq!(parse_time("5m", &berlin(), NOW), Ok(NOW + 300));
}

#[test]
fn units_in_either_order() {
    assert_eq!(parse_time("1h30m", &berlin(), NOW), Ok(NOW + 5400));
    assert_eq!(parse_time("30m1h", &berlin(), NOW), Ok(NOW + 5400));
}

#[test]
fn all_units_in_any_order() {
    let want = NOW + 7 * 604800 + 2 * 86400 + 3 * 3600 + 4 * 60 + 5;
    assert_eq!(parse_time("5s4m3h2d7w", &berlin(), NOW), Ok(want));
    assert_eq!(parse_time("7w3h5sec2d4min", &berlin(), NOW), Ok(want));
}

#[test]
fn long_forms_and_separators() {
    assert_eq!(parse_time("1 Tag und 2 Stunden", &berlin(), NOW), Ok(NOW + 93600));
    assert_eq!(parse_time("in 2 Tagen, 3 Minuten", &berlin(), NOW), Ok(NOW + 172980));
    assert_eq!(parse_time("In 1 Woche 1 Sekunde", &berlin(), NOW), Ok(NOW + 604801));
    assert_eq!(parse_time("5 Sekunden", &berlin(), NOW), Ok(NOW + 5));
    assert_eq!(parse_time("3 Wochen", &berlin(), NOW), Ok(NOW + 3 * 604800));
    assert_eq!(parse_time("3 tage", &berlin(), NOW), Ok(NOW + 3 * 86400));
    // short forms come first: " s" (seconds, tried first) and " w" are read
    assert_eq!(parse_time("3 stunden", &berlin(), NOW), Err("tunden"));
    assert_eq!(parse_time("3 wochen", &berlin(), NOW), Err("ochen"));
    assert_eq!(parse_time("2 h", &berlin(), NOW), Ok(NOW + 7200));
}

#[test]
fn zero_duration_rejected() {
    assert_eq!(parse_time("0s", &berlin(), NOW), Err("0s"));
    assert_eq!(parse_time("0h0m", &berlin(), NOW), Err("0h0m"));
    assert_eq!(parse_time("in 0 Tagen", &berlin(), NOW), Err("0 Tagen"));
}

#[test]
fn overflowing_duration_rejected() {
    assert!(parse_time("99999999999999999w", &berlin(), NOW).is_err());
    assert!(parse_time("99999999999999999999s", &berlin(), NOW).is_err());
    // each part fits, the sum does not
    assert!(parse_time("9000000000000000s 9000000000000000s", &berlin(), NOW).is_err());
    // the duration fits, the instant does not
    assert!(parse_time("9000000000000000s", &berlin(), NOW).is_err());
}

#[test]
fn absolute_date_then_time() {
    let want = berlin_at(2025, 11, 10, 14, 0, 0);
    assert_eq!(want, 1762779600);
    assert_eq!(parse_time("10.11.2025 14:00", &berlin(), NOW), Ok(want));
    assert_eq!(parse_time("14:00 10.11.2025", &berlin(), NOW), Ok(want));
    assert_eq!(parse_time("am 10.11.2025 um 14:00 Uhr", &berlin(), NOW), Ok(want));
    assert_eq!(parse_time("Um 14:00:30 Am 10.11.2025", &berlin(), NOW), Ok(want + 30));
}

#[test]
fn summer_offset_applies() {
    assert_eq!(parse_time("10.07.2025 14:00", &berlin(), NOW), Ok(berlin_at(2025, 7, 10, 12, 0, 0) + 7200));
}

#[test]
fn past_absolute_rejected() {
    assert!(parse_time("10.11.2020 14:00", &berlin(), NOW).is_err());
    assert!(parse_time("Heute 13:00", &berlin(), NOW).is_err());
}

#[test]
fn invalid_date_or_time_rejected() {
    assert!(parse_time("31.11.2025 14:00", &berlin(), NOW).is_err());
    assert!(parse_time("29.02.2027 14:00", &berlin(), NOW).is_err());
    assert!(parse_time("10.11.2025 24:00", &berlin(), NOW).is_err());
    assert_eq!(parse_time("29.02.2028 14:00", &berlin(), NOW), Ok(berlin_at(2028, 2, 29, 14, 0, 0)));
}

#[test]
fn special_words() {
    assert_eq!(parse_time("Morgen um 10:00 Uhr", &berlin(), NOW), Ok(berlin_at(2025, 6, 2, 10, 0, 0)));
    assert_eq!(parse_time("heute 23:00", &berlin(), NOW), Ok(berlin_at(2025, 6, 1, 23, 0, 0)));
    assert_eq!(parse_time("Übermorgen 8:15", &berlin(), NOW), Ok(berlin_at(2025, 6, 3, 8, 15, 0)));
    assert_eq!(parse_time("10:00 morgen", &berlin(), NOW), Ok(berlin_at(2025, 6, 2, 10, 0, 0)));
}

#[test]
fn hour_without_minutes_is_no_time() {
    assert!(parse_time("Morgen um 10 Uhr", &berlin(), NOW).is_err());
}

#[test]
fn mixed_offset_and_time() {
    let want = berlin_at(2025, 6, 3, 9, 30, 0);
    assert_eq!(parse_time("in 2 Tagen um 9:30", &berlin(), NOW), Ok(want));
    assert_eq!(parse_time("um 9:30 in 2 Tagen", &berlin(), NOW), Ok(want));
    assert_eq!(parse_time("1w 9:30", &berlin(), NOW), Ok(berlin_at(2025, 6, 8, 9, 30, 0)));
}

#[test]
fn trailing_text_is_the_failure() {
    assert_eq!(parse_time("5mx", &berlin(), NOW), Err("x"));
    assert_eq!(parse_time("5m ", &berlin(), NOW), Err(" "));
    assert_eq!(parse_time("Morgen um 10:00 Uhr!", &berlin(), NOW), Err("!"));
}

#[test]
fn failure_position() {
    let text = "in abc";
    let err = parse_time(text, &berlin(), NOW).unwrap_err();
    assert_eq!(err, "abc");
    assert_eq!(text.len() - err.len(), 3);
    assert_eq!(parse_time("xyz", &berlin(), NOW), Err("xyz"));
    assert_eq!(parse_time("", &berlin(), NOW), Err(""));
}

#[test]
fn gap_rejected() {
    // 2026-03-29: Berlin skips from 02:00 to 03:00
    let now = berlin_at(2026, 3, 1, 12, 0, 0);
    assert!(parse_time("29.03.2026 02:30", &berlin(), now).is_err());
    assert_eq!(parse_time("29.03.2026 03:30", &berlin(), now), Ok(berlin_at(2026, 3, 29, 3, 30, 0)));
}

#[test]
fn fold_takes_later_instant() {
    // 2026-10-25: Berlin shows 02:00 to 03:00 twice
    let now = berlin_at(2026, 10, 1, 12, 0, 0);
    let later = Berlin
        .from_local_datetime(
            &chrono::NaiveDate::from_ymd_opt(2026, 10, 25).unwrap().and_hms_opt(2, 30, 0).unwrap(),
        )
        .latest()
        .unwrap()
        .timestamp();
    assert_eq!(later, 1792891800);
    assert_eq!(parse_time("25.10.2026 02:30", &berlin(), now), Ok(later));
}

#[test]
fn unknown_zone() {
    assert!(Zone::named("Mars/Olympus").is_none());
    assert!(Zone::named("CET").is_some());
}

#[test]
fn relative_from_the_earliest_instant() {
    let ny = Zone::named("America/New_York").unwrap();
    assert_eq!(parse_time("1d", &ny, MIN_INSTANT), Ok(MIN_INSTANT + 86400));
    assert_eq!(parse_time("5m", &ny, MIN_INSTANT + 86400), Ok(MIN_INSTANT + 86700));
}

#[test]
fn units_in_either_order_before_other_text() {
    assert_eq!(parse_time("30m1h x", &berlin(), NOW), Err(" x"));
    assert_eq!(parse_time("1h30m x", &berlin(), NOW), Err(" x"));
    assert_eq!(parse_time("30m1h und 2d", &berlin(), NOW), Ok(NOW + 5400 + 172800));
}

#[test]
fn day_word_and_time_in_either_order() {
    let want = berlin_at(2025, 6, 3, 7, 5, 0);
    assert_eq!(parse_time("Übermorgen 7:05", &berlin(), NOW), Ok(want));
    assert_eq!(parse_time("7:05 Übermorgen", &berlin(), NOW), Ok(want));
    assert_eq!(parse_time("heute 18:30", &berlin(), NOW), parse_time("18:30 heute", &berlin(), NOW));
}
