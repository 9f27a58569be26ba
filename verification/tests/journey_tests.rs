use kyss::journey::{
    graphql_error, journey_from_response, journey_request, realtime_from_response, stops_from_features, trip_variables,
    GeocoderFeature, RawCall, RawEstimatedCall, RawLeg, RawPlace, RawTripPattern, ServiceJourneyData,
    ServiceJourneyResponse, TripResponse,
};
use kyss::model::{LineSummary, TransportMode};

fn feature(id: &str, layer: Option<&str>, label: Option<&str>, coords: Vec<f64>) -> GeocoderFeature {
    GeocoderFeature {
        id: id.to_string(),
        name: format!("name {}", id),
        label: label.map(|s| s.to_string()),
        layer: layer.map(|s| s.to_string()),
        category: Some(vec!["onstreetBus".to_string(), "busStation".to_string()]),
        coordinates_bits: coords.into_iter().map(f64::to_bits).collect(),
    }
}

#[test]
fn stops_from_features_keeps_venues() {
    let fs = vec![
        feature("1", Some("venue"), Some("Storo, Oslo"), vec![10.77, 59.94]),
        feature("2", Some("address"), None, vec![1.0, 2.0]),
        feature("3", Some("venue"), None, vec![5.0]),
        feature("4", None, None, vec![]),
    ];
    let stops = stops_from_features(fs);
    assert_eq!(stops.len(), 2);
    assert_eq!(stops[0].id, "1");
    assert_eq!(stops[0].name, "Storo, Oslo");
    assert_eq!(f64::from_bits(stops[0].lat_bits), 59.94);
    assert_eq!(f64::from_bits(stops[0].lon_bits), 10.77);
    assert_eq!(stops[0].category.as_deref(), Some("onstreetBus"));
    assert_eq!(stops[0].quay_id, None);
    assert_eq!(stops[1].name, "name 3");
    assert_eq!(f64::from_bits(stops[1].lat_bits), 0.0);
    assert_eq!(stops[1].lon_bits, 0);
}

#[test]
fn stops_from_features_empty_category() {
    let mut f = feature("1", Some("venue"), None, vec![1.0, 2.0]);
    f.category = Some(vec![]);
    assert_eq!(stops_from_features(vec![f])[0].category, None);
    let mut g = feature("1", Some("venue"), None, vec![1.0, 2.0]);
    g.category = None;
    assert_eq!(stops_from_features(vec![g])[0].category, None);
}

fn place(name: &str) -> RawPlace {
    RawPlace { name: name.to_string(), latitude_bits: 59.9f64.to_bits(), longitude_bits: 10.7f64.to_bits() }
}

fn call(name: &str) -> RawCall {
    RawCall {
        stop_place_name: name.to_string(),
        aimed_arrival_time: Some("2024-06-01T08:10:00+02:00".to_string()),
        expected_arrival_time: Some("2024-06-01T08:11:00+02:00".to_string()),
        aimed_departure_time: None,
        expected_departure_time: Some("2024-06-01T08:12:00+02:00".to_string()),
    }
}

fn raw_leg(mode: &str) -> RawLeg {
    RawLeg {
        mode: mode.to_string(),
        from_place: place("Storo"),
        to_place: place("Oslo S"),
        expected_start_time: "2024-06-01T08:00:00+02:00".to_string(),
        expected_end_time: "2024-06-01T08:20:00+02:00".to_string(),
        aimed_start_time: Some("2024-06-01T07:59:00+02:00".to_string()),
        aimed_end_time: None,
        line: Some(LineSummary { id: "RUT:Line:31".to_string(), public_code: "31".to_string(), name: "Tonsenhagen".to_string() }),
        from_estimated_call: Some(RawEstimatedCall { destination_front_text: Some("Snarøya".to_string()) }),
        intermediate_estimated_calls: Some(vec![call("Carl Berners plass"), call("Tøyen")]),
    }
}

#[test]
fn journey_from_response_maps_legs() {
    let resp = TripResponse {
        trip_patterns: Some(vec![RawTripPattern {
            start_time: "2024-06-01T08:00:00+02:00".to_string(),
            end_time: "2024-06-01T08:20:00+02:00".to_string(),
            duration: 1200,
            legs: vec![raw_leg("BUS"), RawLeg { from_estimated_call: None, intermediate_estimated_calls: None, line: None, ..raw_leg("foot") }],
        }]),
        errors: None,
    };
    let j = journey_from_response(resp).unwrap();
    assert_eq!(j.trip_patterns.len(), 1);
    let p = &j.trip_patterns[0];
    assert_eq!(p.duration, 1200);
    assert_eq!(p.legs.len(), 2);
    let l = &p.legs[0];
    assert_eq!(l.mode, TransportMode::Bus);
    assert_eq!(l.from_name, "Storo");
    assert_eq!(l.to_name, "Oslo S");
    assert_eq!(f64::from_bits(l.from_lat_bits), 59.9);
    assert_eq!(l.destination.as_deref(), Some("Snarøya"));
    assert_eq!(l.line.as_ref().unwrap().public_code, "31");
    assert_eq!(l.intermediate_stops.len(), 2);
    assert_eq!(l.intermediate_stops[1].name, "Tøyen");
    assert_eq!(l.intermediate_stops[1].expected_departure.as_deref(), Some("2024-06-01T08:12:00+02:00"));
    assert_eq!(l.aimed_start.as_deref(), Some("2024-06-01T07:59:00+02:00"));
    assert_eq!(l.service_journey_id, None);
    let w = &p.legs[1];
    assert_eq!(w.mode, TransportMode::Foot);
    assert!(w.intermediate_stops.is_empty());
    assert_eq!(w.destination, None);
}

#[test]
fn journey_from_response_destination_without_display() {
    let resp = TripResponse {
        trip_patterns: Some(vec![RawTripPattern {
            start_time: "s".to_string(),
            end_time: "e".to_string(),
            duration: 0,
            legs: vec![RawLeg { from_estimated_call: Some(RawEstimatedCall { destination_front_text: None }), ..raw_leg("tram") }],
        }]),
        errors: None,
    };
    let j = journey_from_response(resp).unwrap();
    assert_eq!(j.trip_patterns[0].legs[0].destination, None);
    assert_eq!(j.trip_patterns[0].legs[0].mode, TransportMode::Tram);
}

#[test]
fn journey_from_response_errors_win() {
    let resp = TripResponse {
        trip_patterns: Some(vec![]),
        errors: Some(vec!["bad from".to_string(), "bad to".to_string()]),
    };
    assert_eq!(journey_from_response(resp).unwrap_err(), "GraphQL errors: bad from, bad to");
}

#[test]
fn journey_from_response_without_data() {
    let resp = TripResponse { trip_patterns: None, errors: None };
    assert_eq!(journey_from_response(resp).unwrap_err(), "No data in journey planner response");
    let empty = TripResponse { trip_patterns: Some(vec![]), errors: None };
    assert!(journey_from_response(empty).unwrap().trip_patterns.is_empty());
}

#[test]
fn graphql_error_joins_messages() {
    assert_eq!(graphql_error(&vec![]), "GraphQL errors: ");
    assert_eq!(graphql_error(&vec!["one".to_string()]), "GraphQL errors: one");
    assert_eq!(graphql_error(&vec!["a".to_string(), "b".to_string(), "c".to_string()]), "GraphQL errors: a, b, c");
}

#[test]
fn realtime_from_response_cases() {
    let ok = ServiceJourneyResponse {
        data: Some(ServiceJourneyData { estimated_calls: Some(vec![call("Storo"), call("Oslo S")]) }),
        errors: None,
    };
    let rt = realtime_from_response(ok).unwrap();
    assert_eq!(rt.estimated_calls.len(), 2);
    assert_eq!(rt.estimated_calls[0].name, "Storo");
    assert_eq!(rt.estimated_calls[0].aimed_arrival.as_deref(), Some("2024-06-01T08:10:00+02:00"));
    let missing = ServiceJourneyResponse { data: Some(ServiceJourneyData { estimated_calls: None }), errors: None };
    assert_eq!(realtime_from_response(missing).unwrap_err(), "Service journey not found");
    let none = ServiceJourneyResponse { data: None, errors: None };
    assert_eq!(realtime_from_response(none).unwrap_err(), "No data in service journey response");
    let err = ServiceJourneyResponse { data: None, errors: Some(vec!["x".to_string()]) };
    assert_eq!(realtime_from_response(err).unwrap_err(), "GraphQL errors: x");
}

#[test]
fn trip_variables_defaults() {
    let v = trip_variables("A", "B", None, None, None);
    assert_eq!(v.from, "A");
    assert_eq!(v.to, "B");
    assert_eq!(v.num_trip_patterns, Some(5));
    assert_eq!(v.transfer_slack, None);
    let w = trip_variables("A", "B", Some("2024-06-01T08:00:00+02:00".to_string()), Some(3), Some(5));
    assert_eq!(w.num_trip_patterns, Some(3));
    assert_eq!(w.transfer_slack, Some(300));
    assert_eq!(w.date_time.as_deref(), Some("2024-06-01T08:00:00+02:00"));
}

#[test]
fn journey_request_asks_for_five() {
    let r = journey_request("A", "B", Some("t"), 5);
    assert_eq!(r.from, "A");
    assert_eq!(r.to, "B");
    assert_eq!(r.date_time.as_deref(), Some("t"));
    assert_eq!(r.num_results, Some(5));
    assert_eq!(r.min_transfer_minutes, Some(5));
    assert_eq!(journey_request("A", "B", None, 5).date_time, None);
    assert_eq!(journey_request("A", "B", None, 12).min_transfer_minutes, Some(12));
}
