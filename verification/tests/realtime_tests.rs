use kyss::model::{IntermediateStop, Leg, ServiceJourneyRealtime, TransportMode};
use kyss::realtime::{apply_realtime, service_journey_ids, update_leg_from_realtime};

fn istop(name: &str, ea: Option<&str>, ed: Option<&str>) -> IntermediateStop {
    IntermediateStop {
        name: name.to_string(),
        aimed_arrival: Some("aimed-arr".to_string()),
        expected_arrival: ea.map(|s| s.to_string()),
        aimed_departure: Some("aimed-dep".to_string()),
        expected_departure: ed.map(|s| s.to_string()),
    }
}

fn rt(estimated_calls: Vec<IntermediateStop>) -> ServiceJourneyRealtime {
    ServiceJourneyRealtime { estimated_calls }
}

fn leg() -> Leg {
    Leg {
        mode: TransportMode::Bus,
        from_name: "Storo".to_string(),
        to_name: "Oslo S".to_string(),
        from_lat_bits: 1,
        from_lon_bits: 2,
        to_lat_bits: 3,
        to_lon_bits: 4,
        expected_start: "start".to_string(),
        expected_end: "end".to_string(),
        aimed_start: None,
        aimed_end: None,
        line: None,
        destination: None,
        intermediate_stops: vec![istop("Tøyen", Some("old-a"), Some("old-d")), istop("Grønland", None, None)],
        service_journey_id: Some("RUT:ServiceJourney:1".to_string()),
    }
}

#[test]
fn realtime_updates_departure_arrival_and_stops() {
    let mut l = leg();
    let calls = vec![
        istop("Storo", Some("x"), Some("new-start")),
        istop("Tøyen", Some("new-a"), None),
        istop("Tøyen", Some("later-a"), Some("later-d")),
        istop("Oslo S", Some("new-end"), None),
    ];
    update_leg_from_realtime(&mut l, &rt(calls.clone()));
    assert_eq!(l.expected_start, "new-start");
    assert_eq!(l.expected_end, "new-end");
    assert_eq!(l.intermediate_stops[0].expected_arrival.as_deref(), Some("new-a"));
    assert_eq!(l.intermediate_stops[0].expected_departure, None);
    assert_eq!(l.intermediate_stops[0].aimed_arrival.as_deref(), Some("aimed-arr"));
    assert_eq!(l.intermediate_stops[1].expected_arrival, None);
    assert_eq!(l.from_lat_bits, 1);
    assert_eq!(l.service_journey_id.as_deref(), Some("RUT:ServiceJourney:1"));
}

#[test]
fn realtime_missing_times_keep_leg_times() {
    let mut l = leg();
    let calls = vec![istop("Storo", Some("a"), None), istop("Oslo S", None, Some("d"))];
    update_leg_from_realtime(&mut l, &rt(calls.clone()));
    assert_eq!(l.expected_start, "start");
    assert_eq!(l.expected_end, "end");
}

#[test]
fn realtime_last_matching_call_wins_for_ends() {
    let mut l = leg();
    let calls = vec![istop("Storo", None, Some("first")), istop("Storo", None, Some("second"))];
    update_leg_from_realtime(&mut l, &rt(calls.clone()));
    assert_eq!(l.expected_start, "second");
}

#[test]
fn realtime_twice_is_same_as_once() {
    let calls = vec![
        istop("Storo", Some("x"), Some("new-start")),
        istop("Tøyen", Some("new-a"), Some("new-d")),
        istop("Oslo S", Some("new-end"), None),
    ];
    let mut once = leg();
    update_leg_from_realtime(&mut once, &rt(calls.clone()));
    let mut twice = once.clone();
    update_leg_from_realtime(&mut twice, &rt(calls.clone()));
    assert_eq!(twice.expected_start, once.expected_start);
    assert_eq!(twice.expected_end, once.expected_end);
    assert_eq!(twice.intermediate_stops, once.intermediate_stops);
}

#[test]
fn realtime_unrelated_calls_change_nothing() {
    let mut l = leg();
    update_leg_from_realtime(&mut l, &rt(vec![istop("Majorstuen", Some("a"), Some("b"))]));
    let fresh = leg();
    assert_eq!(l.expected_start, fresh.expected_start);
    assert_eq!(l.expected_end, fresh.expected_end);
    assert_eq!(l.intermediate_stops, fresh.intermediate_stops);
}

#[test]
fn service_journey_ids_by_index() {
    let mut walk = leg();
    walk.service_journey_id = None;
    let mut other = leg();
    other.service_journey_id = Some("B".to_string());
    let ids = service_journey_ids(&vec![leg(), walk, other]);
    assert_eq!(ids, vec![(0, "RUT:ServiceJourney:1".to_string()), (2, "B".to_string())]);
    assert!(service_journey_ids(&vec![]).is_empty());
}

#[test]
fn apply_realtime_touches_only_the_given_leg() {
    let calls = vec![istop("Storo", None, Some("new-start")), istop("Oslo S", Some("new-end"), None)];
    let mut legs = vec![leg(), leg(), leg()];
    apply_realtime(&mut legs, 1, &rt(calls.clone()));
    assert_eq!(legs.len(), 3);
    assert_eq!(legs[0].expected_start, "start");
    assert_eq!(legs[1].expected_start, "new-start");
    assert_eq!(legs[1].expected_end, "new-end");
    assert_eq!(legs[2].expected_end, "end");
}

#[test]
fn apply_realtime_past_the_end_changes_nothing() {
    let mut legs = vec![leg()];
    apply_realtime(&mut legs, 5, &rt(vec![istop("Storo", None, Some("x"))]));
    assert_eq!(legs.len(), 1);
    assert_eq!(legs[0].expected_start, "start");
}
