use chrono::{DateTime, Local, NaiveDate, TimeZone};
use zhist::tui::render::{format_full_time, format_short_time};
use zhist::tui::date_text::check_date_text;
use zhist::tui::time::{
    bound_time, format_time_column, local_time, parse_time_input, write_short_time, LocalTime,
    ReadDate, WallTime, MAX_TIME, MIN_TIME,
};

fn local(y: i32, m: u32, d: u32, h: u32, min: u32, s: u32) -> i64 {
    let naive = NaiveDate::from_ymd_opt(y, m, d).unwrap().and_hms_opt(h, min, s).unwrap();
    Local.from_local_datetime(&naive).unwrap().timestamp()
}

#[test]
fn days_are_read_as_local_days() {
    let midnight = local(2024, 1, 15, 0, 0, 0);
    assert_eq!(parse_time_input("2024-01-15", false), Some(midnight));
    assert_eq!(parse_time_input("  2024-01-15 ", false), Some(midnight));
    assert_eq!(parse_time_input("2024-01-15", true), Some(midnight + 86_399));
    assert_eq!(parse_time_input("2024-01-15 00:00", true), Some(midnight + 86_399));
}

#[test]
fn times_of_day_are_kept() {
    let t = local(2024, 1, 15, 13, 45, 0);
    assert_eq!(parse_time_input("2024-01-15 13:45", false), Some(t));
    assert_eq!(parse_time_input("2024-01-15 13:45", true), Some(t));
}

#[test]
fn american_dates_are_read() {
    assert_eq!(parse_time_input("03/09/2021", false), Some(local(2021, 3, 9, 0, 0, 0)));
}

#[test]
fn relative_dates_are_read() {
    let now = Local::now().timestamp();
    let t = parse_time_input("2 days ago", false).unwrap();
    assert!((now - 2 * 86_400 - t).abs() < 100_000);
    assert!(parse_time_input("yesterday", false).is_some());
}

#[test]
fn other_texts_give_no_time() {
    for text in ["", "   ", "nonsense", "2024-13-01", "2024-02-30", "été", "99999999999 days", "178000000 years ago"] {
        assert_eq!(parse_time_input(text, false), None, "{text}");
        assert_eq!(parse_time_input(text, true), None, "{text}");
    }
}

#[test]
fn the_name_in_a_date_text_begins_in_ascii() {
    let e = "\u{e9}\u{e9}\u{e9}";
    for text in [
        "".to_string(),
        "2\u{a0}days ago".to_string(),
        "\u{2026}".to_string(),
        format!("2 days ago {e}"),
        format!("2 days \u{2026} {e}"),
        format!("-2 days {e}"),
        format!("5 h\u{2026}"),
        format!("today {e}"),
        format!("next friday {e}"),
        format!("10:30 pm friday {e}"),
        format!("10a{e} friday"),
        format!("10 apr {e}"),
        format!("2024-01-15 10:30 {e}"),
        format!("10:30 2024-01-15 {e}"),
        format!("3/4/2021 {e}"),
        "frida\u{e9}".to_string(),
        "fr\u{130}day".to_string(),
    ] {
        assert!(check_date_text(&text), "{text}");
        parse_time_input(&text, false);
    }
    for text in [
        e.to_string(),
        format!("-10ab{e}"),
        format!("10:30 {e}"),
        format!("10:30 pm {e}"),
        format!("10pm {e}"),
        format!("10apr {e}"),
        format!("next {e}"),
        format!("10:30 pm next {e}"),
        format!("5 {e}"),
        format!("10:30:15.e5 {e}"),
        format!("10:30:15.e5-0530 {e}"),
        format!("10:30 -0530 -5 {e}"),
        "m\u{130}n".to_string(),
    ] {
        assert!(!check_date_text(&text), "{text}");
        assert_eq!(parse_time_input(&text, false), None);
    }
}

#[test]
fn numbers_in_date_texts_can_be_counted() {
    for text in [
        "200000000 seconds ago",
        "178956969 years ago",
        "178956970 days",
        "2147483635 months",
        "2147483636 minutes",
        "2147483648 seconds",
        "2147483648",
        "4294967290am",
        "10:30:00.999999999999 yesterday",
        "10:200000000 yesterday",
        "2000000 days 10:30",
        "2 days ago 4294967290pm",
        "5 hours 4294967290:30 p",
        "2 days ago, 200000000 years",
        "today 4294967290pm",
        "10:30 +0530",
        "10:30 +1193046:28 friday",
    ] {
        assert!(check_date_text(text), "{text}");
        parse_time_input(text, true);
    }
    for text in [
        "178956970 years ago",
        "178956970  Y",
        "2147483636 months",
        "2147483648 seconds ago",
        "-2147483648 seconds",
        "4294967290pm friday",
        "friday 4294967290:30 pm",
        "5 july ago 4294967290pm",
        "next 4294967295:p",
        "10:30 +1193046:29",
        "10:30 -4000000000",
    ] {
        assert!(!check_date_text(text), "{text}");
        assert_eq!(parse_time_input(text, true), None);
    }
}

#[test]
fn large_and_strange_texts_are_read() {
    let now = Local::now().timestamp();
    let t = parse_time_input("200000000 seconds ago", false).unwrap();
    assert!((now - 200_000_000 - t).abs() < 100);
    let t = parse_time_input("now \u{e9}\u{e9}\u{e9}", false).unwrap();
    assert!((now - t).abs() < 100);
    assert!(parse_time_input("2000000 days 10:30", false).is_some());
    let t = parse_time_input("2 days ago \u{e9}", false).unwrap();
    assert!((now - 2 * 86_400 - t).abs() < 100_000);
    assert_eq!(
        parse_time_input("2024-01-15 10:30 \u{e9}t\u{e9}", false),
        Some(local(2024, 1, 15, 10, 30, 0))
    );
}

#[test]
fn times_outside_the_calendar_are_not_shown() {
    for ts in [i64::MIN, MIN_TIME - 1, MAX_TIME + 1, i64::MAX] {
        assert_eq!(format_short_time(ts), None);
        assert_eq!(format_full_time(ts), None);
        assert_eq!(format_time_column(ts), None);
    }
    for ts in [MIN_TIME + 86_400, MAX_TIME - 86_400] {
        assert!(format_short_time(ts).is_some());
    }
    for ts in [MIN_TIME, MAX_TIME] {
        assert!(format_full_time(ts).is_some());
    }
}

#[test]
fn midnight_at_the_end_means_the_whole_day() {
    let midnight = ReadDate { timestamp: 1000, clock: "00:00:00".to_string() };
    let later = ReadDate { timestamp: 1000, clock: "00:00:01".to_string() };
    assert_eq!(bound_time(&midnight, true), 87_399);
    assert_eq!(bound_time(&midnight, false), 1000);
    assert_eq!(bound_time(&later, true), 1000);
}

#[test]
fn full_times_show_date_and_time() {
    let ts = local(2021, 3, 9, 16, 5, 7);
    assert_eq!(format_full_time(ts).as_deref(), Some("2021/03/09  4:05:07 PM"));
    let ts = local(1999, 12, 31, 0, 0, 0);
    assert_eq!(format_full_time(ts).as_deref(), Some("1999/12/31 12:00:00 AM"));
}

#[test]
fn short_times_show_the_date_of_other_days() {
    let ts = local(2021, 3, 9, 16, 5, 7);
    assert_eq!(format_short_time(ts).as_deref(), Some("2021/03/09"));
    assert_eq!(format_time_column(ts).as_deref(), Some(" 2021/03/09"));
}

#[test]
fn short_times_show_the_time_of_today() {
    let now = Local::now().timestamp();
    let shown = format_short_time(now).unwrap();
    let expected: DateTime<Local> = Local.timestamp_opt(now, 0).unwrap();
    assert_eq!(shown, expected.format("%l:%M %p").to_string());
    assert_eq!(format_time_column(now).unwrap().chars().count(), 11);
}

fn utc(timestamp: i64, offset: i32, y: i32, m: u32, d: u32, h: u32, min: u32, s: u32) -> LocalTime {
    let wall = WallTime { year: y, month: m, day: d, hour: h, minute: min, second: s };
    LocalTime { timestamp, offset, wall }
}

#[test]
fn short_times_depend_on_the_day() {
    let t = utc(1_582_934_829, 0, 2020, 2, 29, 0, 7, 9);
    let same = WallTime { hour: 23, ..t.wall };
    let other = WallTime { day: 28, ..t.wall };
    assert_eq!(write_short_time(&t, &same).as_deref(), Some("12:07 AM"));
    assert_eq!(write_short_time(&t, &other).as_deref(), Some("2020/02/29"));
    let t = utc(1_582_934_829, 46_800, 2020, 2, 29, 13, 7, 9);
    assert_eq!(write_short_time(&t, &same).as_deref(), Some(" 1:07 PM"));
}

#[test]
fn years_out_of_four_digits_have_a_sign() {
    let now = WallTime { year: 2020, month: 2, day: 29, hour: 0, minute: 0, second: 0 };
    let t = utc(253_402_300_800, 0, 10_000, 1, 1, 0, 0, 0);
    assert_eq!(write_short_time(&t, &now).as_deref(), Some("+10000/01/01"));
    let t = utc(-62_198_755_200, 0, -1, 1, 1, 0, 0, 0);
    assert_eq!(write_short_time(&t, &now).as_deref(), Some("-0001/01/01"));
    let t = utc(MAX_TIME, 3600, 262_143, 1, 1, 0, 59, 59);
    assert_eq!(write_short_time(&t, &now), None);
}

#[test]
fn the_local_time_is_what_a_clock_shows() {
    let t = local_time(0).unwrap();
    assert_eq!(t.timestamp, 0);
    let w = t.wall;
    let shown = NaiveDate::from_ymd_opt(w.year, w.month, w.day)
        .unwrap()
        .and_hms_opt(w.hour, w.minute, w.second)
        .unwrap();
    assert_eq!(shown.and_utc().timestamp(), t.offset as i64);
    assert_eq!(local_time(MAX_TIME + 1), None);
}
