use kyss::model::{IntermediateStop, Leg, LineSummary, Stop, TransportMode, TripPattern, TripType};
use kyss::views::{
    duration_minutes, initial_stop, leg_summary, leg_timeline, timeline_stop_class, timeline_stop_view, trip_header,
    trip_summary, trip_type_route, LegTimelineView,
};

fn leg(mode: TransportMode) -> Leg {
    Leg {
        mode,
        from_name: "Storo".to_string(),
        to_name: "Oslo S".to_string(),
        from_lat_bits: 0,
        from_lon_bits: 0,
        to_lat_bits: 0,
        to_lon_bits: 0,
        expected_start: "2024-06-01T08:02:00+02:00".to_string(),
        expected_end: "2024-06-01T08:20:00+02:00".to_string(),
        aimed_start: Some("2024-06-01T08:00:00+02:00".to_string()),
        aimed_end: Some("2024-06-01T08:20:00+02:00".to_string()),
        line: Some(LineSummary { id: "L".to_string(), public_code: "31".to_string(), name: "Tonsenhagen".to_string() }),
        destination: Some("Snarøya".to_string()),
        intermediate_stops: vec![
            IntermediateStop {
                name: "Tøyen".to_string(),
                aimed_arrival: Some("2024-06-01T08:10:00+02:00".to_string()),
                expected_arrival: None,
                aimed_departure: None,
                expected_departure: None,
            },
            IntermediateStop {
                name: "Grønland".to_string(),
                aimed_arrival: None,
                expected_arrival: None,
                aimed_departure: None,
                expected_departure: None,
            },
        ],
        service_journey_id: None,
    }
}

#[test]
fn leg_summary_texts() {
    let s = leg_summary(&leg(TransportMode::Bus));
    assert_eq!(s.mode_icon, "🚌");
    assert_eq!(s.time_start, "08:02");
    assert_eq!(s.time_end, "08:20");
    assert!(s.delayed_start);
    assert!(!s.delayed_end);
    assert_eq!(s.aimed_start.as_deref(), Some("(08:00)"));
    assert_eq!(s.aimed_end, None);
    assert_eq!(s.line_info, "31 Snarøya");
    assert_eq!(s.from_name, "Storo");
}

#[test]
fn leg_summary_line_name_and_no_line() {
    let mut l = leg(TransportMode::Tram);
    l.destination = None;
    assert_eq!(leg_summary(&l).line_info, "31 Tonsenhagen");
    l.line = None;
    assert_eq!(leg_summary(&l).line_info, "");
}

#[test]
fn duration_minutes_truncates() {
    assert_eq!(duration_minutes(1200), 20);
    assert_eq!(duration_minutes(1259), 20);
    assert_eq!(duration_minutes(59), 0);
    assert_eq!(duration_minutes(-61), -1);
    assert_eq!(duration_minutes(i64::MIN), i64::MIN / 60);
}

fn pattern() -> TripPattern {
    TripPattern {
        start_time: "2024-06-01T08:02:00+02:00".to_string(),
        end_time: "2024-06-01T08:47:00+02:00".to_string(),
        duration: 2700,
        legs: vec![],
    }
}

#[test]
fn trip_header_and_summary() {
    let h = trip_header(&pattern());
    assert_eq!(h.start, "08:02");
    assert_eq!(h.end, "08:47");
    assert_eq!(h.duration_mins, 45);
    assert_eq!(trip_summary(&pattern()), "08:02 → 08:47  ·  45 min");
    let mut p = pattern();
    p.duration = -120;
    assert_eq!(trip_summary(&p), "08:02 → 08:47  ·  -2 min");
}

#[test]
fn walk_timeline() {
    match leg_timeline(&leg(TransportMode::Foot)) {
        LegTimelineView::Walk { to_name, start_time, end_time } => {
            assert_eq!(to_name, "Oslo S");
            assert_eq!(start_time, "08:02");
            assert_eq!(end_time, "08:20");
        }
        _ => panic!("expected a walk"),
    }
}

#[test]
fn ride_timeline() {
    match leg_timeline(&leg(TransportMode::Bus)) {
        LegTimelineView::Ride { mode_icon, line_label, stop_count, stops } => {
            assert_eq!(mode_icon, "🚌");
            assert_eq!(line_label, "31 Snarøya");
            assert_eq!(stop_count, 4);
            assert_eq!(stops.len(), 4);
            assert!(stops[0].is_origin && !stops[0].is_destination);
            assert_eq!(stops[0].name, "Storo");
            assert_eq!(stops[1].time, "2024-06-01T08:10:00+02:00");
            assert_eq!(stops[2].time, "");
            assert_eq!(stops[3].name, "Oslo S");
            assert!(stops[3].is_destination);
        }
        _ => panic!("expected a ride"),
    }
    let mut l = leg(TransportMode::Rail);
    l.line = None;
    match leg_timeline(&l) {
        LegTimelineView::Ride { line_label, .. } => assert_eq!(line_label, "🚆"),
        _ => panic!("expected a ride"),
    }
}

#[test]
fn timeline_stop_view_delays() {
    let v = timeline_stop_view("2024-01-01T10:00:00+01:00", &Some("2024-01-01T09:58:00+01:00".to_string()));
    assert_eq!(v.time_ms, 1704099600000);
    assert_eq!(v.time_display, "10:00");
    assert!(v.delayed);
    assert_eq!(v.aimed_display.as_deref(), Some("09:58"));
    let w = timeline_stop_view("", &None);
    assert_eq!(w.time_ms, 0);
    assert_eq!(w.time_display, "");
    assert!(!w.delayed);
    assert_eq!(w.aimed_display, None);
}

#[test]
fn timeline_stop_classes() {
    assert_eq!(timeline_stop_class(false, false, false), "timeline-stop");
    assert_eq!(
        timeline_stop_class(true, false, true),
        "timeline-stop timeline-stop--origin timeline-stop--passed"
    );
    assert_eq!(timeline_stop_class(false, true, false), "timeline-stop timeline-stop--destination");
}

fn stop(id: &str, name: &str) -> Stop {
    Stop { id: id.to_string(), name: name.to_string(), lat_bits: 0, lon_bits: 0, quay_id: None, category: None }
}

#[test]
fn trip_type_route_label() {
    let t = TripType {
        id: "t".to_string(),
        name: "n".to_string(),
        icon: "i".to_string(),
        from_stop: stop("1", "Storo"),
        to_stop: stop("2", "Oslo S"),
        line_preferences: vec![],
    };
    assert_eq!(trip_type_route(&t), "Storo → Oslo S");
}

#[test]
fn initial_stop_from_address() {
    assert_eq!(initial_stop(String::new(), "x".to_string()), None);
    let s = initial_stop("NSR:StopPlace:1".to_string(), "Storo".to_string()).unwrap();
    assert_eq!(s, stop("NSR:StopPlace:1", "Storo"));
    assert_eq!(f64::from_bits(s.lat_bits), 0.0);
}
