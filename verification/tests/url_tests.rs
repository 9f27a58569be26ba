use kyss::model::{Stop, TripType};
use kyss::urls::{geocoder_search_url, service_journey_path, stop_search_path, trip_type_search_path};

fn stop(id: &str, name: &str) -> Stop {
    Stop { id: id.to_string(), name: name.to_string(), lat_bits: 0, lon_bits: 0, quay_id: None, category: None }
}

fn encoded(q: &str) -> String {
    stop_search_path(q)["/api/stops/search?q=".len()..].to_string()
}

#[test]
fn url_encode_escapes_reserved_bytes() {
    assert_eq!(encoded("Oslo S"), "Oslo%20S");
    assert_eq!(encoded("a&b=c/d?"), "a%26b%3Dc%2Fd%3F");
    assert_eq!(encoded("Jernbanetorget"), "Jernbanetorget");
    assert_eq!(encoded("A-z_0.9~"), "A-z_0.9~");
    assert_eq!(encoded(""), "");
}

#[test]
fn url_encode_escapes_utf8_bytes_in_upper_case_hex() {
    assert_eq!(encoded("Bjørvika"), "Bj%C3%B8rvika");
    assert_eq!(encoded("NSR:StopPlace:59872"), "NSR%3AStopPlace%3A59872");
}

#[test]
fn encoded_values_hold_no_separators() {
    for s in ["a b&c=d?e/f#g", "æøå ÆØÅ", "100% sure", "tab\there"] {
        let e = encoded(s);
        assert!(e.chars().all(|c| c.is_ascii_alphanumeric() || "-._~%".contains(c)), "{}", e);
    }
}

#[test]
fn geocoder_url_for_query() {
    assert_eq!(
        geocoder_search_url("Oslo S"),
        "https://api.entur.io/geocoder/v1/autocomplete?text=Oslo%20S&lang=no&size=10&layers=venue"
    );
}

#[test]
fn app_paths() {
    assert_eq!(stop_search_path("Storo"), "/api/stops/search?q=Storo");
    assert_eq!(stop_search_path("st olavs"), "/api/stops/search?q=st%20olavs");
    assert_eq!(service_journey_path("RUT:ServiceJourney:31-1"), "/api/service-journey/RUT%3AServiceJourney%3A31-1");
}

#[test]
fn trip_type_path() {
    let t = TripType {
        id: "tt-1".to_string(),
        name: "Til jobb".to_string(),
        icon: "🏢".to_string(),
        from_stop: stop("NSR:StopPlace:1", "Storo"),
        to_stop: stop("NSR:StopPlace:2", "Oslo S"),
        line_preferences: vec![],
    };
    assert_eq!(
        trip_type_search_path(&t),
        "/search?from=NSR%3AStopPlace%3A1&to=NSR%3AStopPlace%3A2&from_name=Storo&to_name=Oslo%20S"
    );
}

#[test]
fn encoded_values_decode_back() {
    for s in ["NSR:StopPlace:59872", "Oslo S", "Bjørvika & Sørenga", "100% sure?", ""] {
        assert_eq!(urlencoding::decode(&encoded(s)).unwrap(), s);
    }
}
