use kyss::clock_text::{
    format_hhmm, format_time, hhmm_to_iso, is_delayed, keep_active_period, millis_from_attempts, parse_iso_ms,
    period_range_label, read_hhmm, stop_has_passed, time_in_period, trim_text, LocalClock,
};
use kyss::model::TimePeriod;

fn clock(hours: u32, minutes: u32, offset: i32) -> LocalClock {
    LocalClock {
        year: 2024,
        month: 3,
        day: 31,
        hours,
        minutes,
        timezone_offset_minutes: offset,
        tomorrow_year: 2024,
        tomorrow_month: 4,
        tomorrow_day: 1,
    }
}

#[test]
fn format_time_takes_clock_after_t() {
    assert_eq!(format_time("2024-06-01T08:15:00+02:00"), "08:15");
    assert_eq!(format_time("2024-06-01T23:59"), "23:59");
}

#[test]
fn format_time_without_clock_returns_input() {
    assert_eq!(format_time("08:15"), "08:15");
    assert_eq!(format_time("2024-06-01T8:1"), "2024-06-01T8:1");
    assert_eq!(format_time(""), "");
    assert_eq!(format_time("T"), "T");
}

#[test]
fn format_time_counts_bytes_of_wide_characters() {
    // "é" is two bytes: the five bytes after `T` are "é", "1", "2", "3".
    assert_eq!(format_time("xTé123"), "é123");
}

#[test]
fn is_delayed_cases() {
    assert!(!is_delayed(&None, "2024-06-01T08:15:00+02:00"));
    assert!(!is_delayed(&Some("2024-06-01T08:15:00+02:00".to_string()), "2024-06-01T08:15:00+02:00"));
    assert!(is_delayed(&Some("2024-06-01T08:14:00+02:00".to_string()), "2024-06-01T08:15:00+02:00"));
}

#[test]
fn format_hhmm_pads() {
    assert_eq!(format_hhmm(7, 5), "07:05");
    assert_eq!(format_hhmm(23, 59), "23:59");
    assert_eq!(format_hhmm(0, 0), "00:00");
    assert_eq!(format_hhmm(123, 4), "123:04");
}

#[test]
fn read_hhmm_cases() {
    assert_eq!(read_hhmm("08:30"), (8, 30));
    assert_eq!(read_hhmm("8:3"), (8, 3));
    assert_eq!(read_hhmm("0830"), (0, 0));
    assert_eq!(read_hhmm("ab:30"), (0, 30));
    assert_eq!(read_hhmm("+7:+05"), (7, 5));
    assert_eq!(read_hhmm("-7:05"), (0, 5));
    assert_eq!(read_hhmm("12:34:56"), (12, 34));
    assert_eq!(read_hhmm("99999999999:1"), (0, 1));
    assert_eq!(read_hhmm(":"), (0, 0));
}

#[test]
fn read_hhmm_reads_back_format_hhmm() {
    for (h, m) in [(0, 0), (7, 5), (23, 59), (12, 30), (100, 7)] {
        assert_eq!(read_hhmm(&format_hhmm(h, m)), (h, m));
    }
}

#[test]
fn hhmm_to_iso_later_today() {
    assert_eq!(hhmm_to_iso("18:05", &clock(9, 0, -120)), "2024-03-31T18:05:00+02:00");
    assert_eq!(hhmm_to_iso("09:00", &clock(9, 0, -120)), "2024-03-31T09:00:00+02:00");
}

#[test]
fn hhmm_to_iso_passed_means_tomorrow() {
    assert_eq!(hhmm_to_iso("08:59", &clock(9, 0, -60)), "2024-04-01T08:59:00+01:00");
}

#[test]
fn hhmm_to_iso_offset_signs() {
    assert_eq!(hhmm_to_iso("12:00", &clock(0, 0, 0)), "2024-03-31T12:00:00+00:00");
    assert_eq!(hhmm_to_iso("12:00", &clock(0, 0, 300)), "2024-03-31T12:00:00-05:00");
    assert_eq!(hhmm_to_iso("12:00", &clock(0, 0, -330)), "2024-03-31T12:00:00+05:30");
    assert_eq!(hhmm_to_iso("garbage", &clock(0, 0, 0)), "2024-03-31T00:00:00+00:00");
}

fn period(id: &str, start: &str, end: &str) -> TimePeriod {
    TimePeriod { id: id.to_string(), name: id.to_string(), icon: "x".to_string(), start: start.to_string(), end: end.to_string() }
}

#[test]
fn time_in_period_is_inclusive() {
    let p = period("m", "06:30", "09:00");
    assert!(time_in_period("06:30", &p));
    assert!(time_in_period("07:45", &p));
    assert!(time_in_period("09:00", &p));
    assert!(!time_in_period("09:01", &p));
    assert!(!time_in_period("06:29", &p));
    assert!(!time_in_period("6:45", &p));
}

#[test]
fn keep_active_period_cases() {
    let periods = vec![period("m", "06:30", "09:00"), period("l", "11:30", "13:00")];
    assert_eq!(keep_active_period(Some("m".to_string()), &periods, "07:00"), Some("m".to_string()));
    assert_eq!(keep_active_period(Some("m".to_string()), &periods, "10:00"), None);
    assert_eq!(keep_active_period(Some("x".to_string()), &periods, "10:00"), Some("x".to_string()));
    assert_eq!(keep_active_period(None, &periods, "07:00"), None);
}

#[test]
fn period_label() {
    assert_eq!(period_range_label(&period("m", "06:30", "09:00")), "06:30 – 09:00");
}

#[test]
fn trim_text_cases() {
    assert_eq!(trim_text("  a b \t\n"), "a b");
    assert_eq!(trim_text("\u{3000}x\u{a0}"), "x");
    assert_eq!(trim_text("   "), "");
    assert_eq!(trim_text(""), "");
    for s in [" x ", "\u{85}y\u{2028}", "\u{200b}z"] {
        assert_eq!(trim_text(s), s.trim());
    }
}

#[test]
fn parse_iso_ms_reads_rfc3339() {
    assert_eq!(parse_iso_ms("2024-01-01T10:00:00+01:00"), 1704099600000);
    assert_eq!(parse_iso_ms("1970-01-01T00:00:01.5Z"), 1500);
}

#[test]
fn parse_iso_ms_falls_back_to_layouts() {
    // Not RFC 3339 (leading space), but the trimmed text matches the plain layout.
    assert_eq!(parse_iso_ms(" 2024-01-01T10:00:00+01:00"), 1704099600000);
    assert_eq!(parse_iso_ms(" 1970-01-01T00:00:02.250+00:00 "), 2250);
}

#[test]
fn parse_iso_ms_unreadable_is_zero() {
    assert_eq!(parse_iso_ms("not a time"), 0);
    assert_eq!(parse_iso_ms("2024-01-01 10:00"), 0);
    assert_eq!(parse_iso_ms(""), 0);
}

#[test]
fn millis_from_attempts_order() {
    assert_eq!(millis_from_attempts(Some(5), false, Some(6), Some(7)), 5);
    assert_eq!(millis_from_attempts(None, true, Some(6), Some(7)), 6);
    assert_eq!(millis_from_attempts(None, true, None, Some(7)), 7);
    assert_eq!(millis_from_attempts(None, true, None, None), 0);
    assert_eq!(millis_from_attempts(None, false, Some(6), Some(7)), 0);
}

#[test]
fn stop_has_passed_cases() {
    assert!(stop_has_passed(1000, 1001));
    assert!(!stop_has_passed(1000, 1000));
    assert!(!stop_has_passed(0, 5000));
    assert!(!stop_has_passed(-5, 5000));
}
