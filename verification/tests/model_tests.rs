use kyss::model::{default_min_transfer, parse_mode, AppData, TimePeriod, TransportMode, DEFAULT_MIN_TRANSFER_MINUTES};

#[test]
fn default_periods_have_expected_fields() {
    let v = TimePeriod::defaults();
    assert_eq!(v.len(), 6);
    let ids: Vec<&str> = v.iter().map(|p| p.id.as_str()).collect();
    assert_eq!(ids, vec!["morning", "mid-morning", "lunch", "afternoon", "end-of-work", "evening"]);
    assert_eq!(v[0].name, "Morgen");
    assert_eq!(v[0].icon, "🌅");
    assert_eq!(v[0].start, "06:30");
    assert_eq!(v[0].end, "09:00");
    assert_eq!(v[4].name, "Fra jobb");
    assert_eq!(v[4].start, "15:00");
    assert_eq!(v[4].end, "17:30");
    assert_eq!(v[5].icon, "🌙");
    assert_eq!(v[5].end, "22:00");
}

#[test]
fn default_periods_start_before_they_end() {
    for p in TimePeriod::defaults() {
        assert!(p.start <= p.end, "{} starts after it ends", p.id);
    }
}

#[test]
fn app_data_default_values() {
    let d = AppData::default();
    assert_eq!(d.version, 1);
    assert!(d.trip_types.is_empty());
    assert!(d.recent_stops.is_empty());
    assert_eq!(d.min_transfer_minutes, 5);
    assert_eq!(d.time_periods.len(), 6);
    assert_eq!(default_min_transfer(), DEFAULT_MIN_TRANSFER_MINUTES);
    assert_eq!(default_min_transfer(), 5);
}

#[test]
fn mode_symbols() {
    assert_eq!(TransportMode::Bus.to_string(), "🚌");
    assert_eq!(TransportMode::Tram.to_string(), "🚊");
    assert_eq!(TransportMode::Rail.to_string(), "🚆");
    assert_eq!(TransportMode::Metro.to_string(), "🚇");
    assert_eq!(TransportMode::Water.to_string(), "⛴️");
    assert_eq!(TransportMode::Air.to_string(), "✈️");
    assert_eq!(TransportMode::Coach.to_string(), "🚍");
    assert_eq!(TransportMode::Foot.to_string(), "🚶");
    assert_eq!(TransportMode::Unknown.to_string(), "🚏");
}

#[test]
fn parse_mode_ignores_case() {
    assert_eq!(parse_mode("bus"), TransportMode::Bus);
    assert_eq!(parse_mode("BUS"), TransportMode::Bus);
    assert_eq!(parse_mode("Tram"), TransportMode::Tram);
    assert_eq!(parse_mode("rail"), TransportMode::Rail);
    assert_eq!(parse_mode("METRO"), TransportMode::Metro);
    assert_eq!(parse_mode("water"), TransportMode::Water);
    assert_eq!(parse_mode("air"), TransportMode::Air);
    assert_eq!(parse_mode("coach"), TransportMode::Coach);
    assert_eq!(parse_mode("foot"), TransportMode::Foot);
}

#[test]
fn parse_mode_unknown_names() {
    assert_eq!(parse_mode(""), TransportMode::Unknown);
    assert_eq!(parse_mode("cableway"), TransportMode::Unknown);
    assert_eq!(parse_mode(" bus"), TransportMode::Unknown);
    assert_eq!(parse_mode("buss"), TransportMode::Unknown);
}

#[test]
fn parse_mode_agrees_with_unicode_lowercase() {
    for s in ["BuS", "TRAM", "Ra\u{130}l", "\u{212A}oach", "FOOT", "wAtEr", "AİR"] {
        let by_lowercase = match s.to_lowercase().as_str() {
            "bus" => TransportMode::Bus,
            "tram" => TransportMode::Tram,
            "rail" => TransportMode::Rail,
            "metro" => TransportMode::Metro,
            "water" => TransportMode::Water,
            "air" => TransportMode::Air,
            "coach" => TransportMode::Coach,
            "foot" => TransportMode::Foot,
            _ => TransportMode::Unknown,
        };
        assert_eq!(parse_mode(s), by_lowercase, "{}", s);
    }
}
