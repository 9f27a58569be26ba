use kyss::app_data::{filter_recents, new_trip_type, MAX_RECENT_STOPS};
use kyss::model::{AppData, Stop, TripType};

fn stop(id: &str, name: &str) -> Stop {
    Stop {
        id: id.to_string(),
        name: name.to_string(),
        lat_bits: 59.91f64.to_bits(),
        lon_bits: 10.75f64.to_bits(),
        quay_id: None,
        category: Some("onstreetBus".to_string()),
    }
}

fn ids(v: &[Stop]) -> Vec<String> {
    v.iter().map(|s| s.id.clone()).collect()
}

fn trip(id: &str) -> TripType {
    TripType {
        id: id.to_string(),
        name: format!("trip {}", id),
        icon: "🚌".to_string(),
        from_stop: stop("A", "Alfa"),
        to_stop: stop("B", "Beta"),
        line_preferences: vec![],
    }
}

#[test]
fn push_recent_stop_puts_new_stop_first() {
    let mut d = AppData::default();
    d.push_recent_stop(&stop("1", "One"));
    d.push_recent_stop(&stop("2", "Two"));
    assert_eq!(ids(&d.recent_stops), vec!["2", "1"]);
    assert_eq!(d.recent_stops[0], stop("2", "Two"));
}

#[test]
fn push_recent_stop_moves_existing_to_top() {
    let mut d = AppData::default();
    for i in ["1", "2", "3"] {
        d.push_recent_stop(&stop(i, i));
    }
    d.push_recent_stop(&stop("1", "One again"));
    assert_eq!(ids(&d.recent_stops), vec!["1", "3", "2"]);
    assert_eq!(d.recent_stops[0].name, "One again");
}

#[test]
fn push_recent_stop_caps_at_ten() {
    let mut d = AppData::default();
    for i in 0..15 {
        d.push_recent_stop(&stop(&i.to_string(), "x"));
    }
    assert_eq!(d.recent_stops.len(), MAX_RECENT_STOPS);
    assert_eq!(ids(&d.recent_stops), vec!["14", "13", "12", "11", "10", "9", "8", "7", "6", "5"]);
}

#[test]
fn push_recent_stop_twice_is_same_as_once() {
    let mut d = AppData::default();
    for i in 0..12 {
        d.push_recent_stop(&stop(&i.to_string(), "x"));
    }
    d.push_recent_stop(&stop("4", "four"));
    let once = d.recent_stops.clone();
    d.push_recent_stop(&stop("4", "four"));
    assert_eq!(d.recent_stops, once);
}

#[test]
fn push_recent_stop_keeps_ids_apart() {
    let mut d = AppData::default();
    for i in [1, 2, 1, 3, 2, 2, 4, 1] {
        d.push_recent_stop(&stop(&i.to_string(), "x"));
        let mut seen = ids(&d.recent_stops);
        seen.sort();
        seen.dedup();
        assert_eq!(seen.len(), d.recent_stops.len());
    }
    assert_eq!(ids(&d.recent_stops), vec!["1", "4", "2", "3"]);
}

#[test]
fn push_recent_stop_leaves_other_fields() {
    let mut d = AppData::default();
    d.trip_types.push(trip("t1"));
    d.min_transfer_minutes = 7;
    d.push_recent_stop(&stop("1", "One"));
    assert_eq!(d.trip_types.len(), 1);
    assert_eq!(d.min_transfer_minutes, 7);
    assert_eq!(d.version, 1);
}

#[test]
fn remove_trip_type_drops_only_that_id() {
    let mut d = AppData::default();
    d.add_trip_type(trip("a"));
    d.add_trip_type(trip("b"));
    d.add_trip_type(trip("a"));
    d.add_trip_type(trip("c"));
    d.remove_trip_type("a");
    let left: Vec<&str> = d.trip_types.iter().map(|t| t.id.as_str()).collect();
    assert_eq!(left, vec!["b", "c"]);
    d.remove_trip_type("zzz");
    assert_eq!(d.trip_types.len(), 2);
}

#[test]
fn add_trip_type_appends() {
    let mut d = AppData::default();
    d.add_trip_type(trip("a"));
    d.add_trip_type(trip("b"));
    assert_eq!(d.trip_types[1].id, "b");
}

#[test]
fn new_trip_type_needs_both_stops_and_a_name() {
    let t = new_trip_type("Til jobb".to_string(), "🏢".to_string(), Some(stop("A", "Alfa")), Some(stop("B", "Beta")), 1718000000123)
        .unwrap();
    assert_eq!(t.id, "tt-1718000000123");
    assert_eq!(t.name, "Til jobb");
    assert_eq!(t.icon, "🏢");
    assert_eq!(t.from_stop.id, "A");
    assert_eq!(t.to_stop.id, "B");
    assert!(t.line_preferences.is_empty());
    assert!(new_trip_type(String::new(), "🏢".to_string(), Some(stop("A", "Alfa")), Some(stop("B", "Beta")), 1).is_none());
    assert!(new_trip_type("x".to_string(), "🏢".to_string(), None, Some(stop("B", "Beta")), 1).is_none());
    assert!(new_trip_type("x".to_string(), "🏢".to_string(), Some(stop("A", "Alfa")), None, 1).is_none());
    assert_eq!(new_trip_type("x".to_string(), "i".to_string(), Some(stop("A", "a")), Some(stop("B", "b")), 0).unwrap().id, "tt-0");
}

#[test]
fn filter_recents_hides_opposite_stop() {
    let recents = vec![stop("1", "a"), stop("2", "b"), stop("3", "c")];
    assert_eq!(ids(&filter_recents(&recents, &Some(stop("2", "b")))), vec!["1", "3"]);
    assert_eq!(ids(&filter_recents(&recents, &None)), vec!["1", "2", "3"]);
    assert_eq!(ids(&filter_recents(&recents, &Some(stop("9", "z")))), vec!["1", "2", "3"]);
}
