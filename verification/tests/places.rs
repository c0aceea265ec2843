use veldera::places::{
    elevation_outcome, elevation_url, is_success, reverse_outcome, reverse_url, search_outcome,
    search_url, FoundPlace, GeocodingResult, GeocodingState, Reply, GEOCODING_THROTTLE_NS,
};

fn place(name: &str, lat: Option<f64>, lon: Option<f64>) -> FoundPlace<f64> {
    FoundPlace { display_name: name.to_string(), lat, lon }
}

#[test]
fn queries_are_percent_encoded() {
    assert_eq!(
        search_url("New York & Co/ü~a-b_c.d"),
        "https://nominatim.openstreetmap.org/search?q=New%20York%20%26%20Co%2F%C3%BC~a-b_c.d\
         &format=json&limit=5"
    );
    assert_eq!(
        search_url("Z%0+"),
        "https://nominatim.openstreetmap.org/search?q=Z%250%2B&format=json&limit=5"
    );
}

#[test]
fn positions_become_addresses() {
    assert_eq!(
        reverse_url("40.7", "-74"),
        "https://nominatim.openstreetmap.org/reverse?lat=40.7&lon=-74&format=json&zoom=18"
    );
    assert_eq!(
        elevation_url("40.7", "-74"),
        "https://api.open-elevation.com/api/v1/lookup?locations=40.7,-74"
    );
}

#[test]
fn searches_are_throttled() {
    let mut state: GeocodingState<f64> = GeocodingState::new();
    assert_eq!(state.start_request(0), None);
    state.search_text = " \t\u{3000}".to_string();
    assert_eq!(state.start_request(0), None);
    state.search_text = "Oslo".to_string();
    assert_eq!(state.start_request(1), Some(search_url("Oslo")));
    assert!(state.is_loading);
    assert_eq!(state.start_request(GEOCODING_THROTTLE_NS * 2), None);
    state.finish_request(Err("no".to_string()));
    assert_eq!(state.error, Some("no".to_string()));
    assert_eq!(state.start_request(GEOCODING_THROTTLE_NS), None);
    assert!(state.start_request(GEOCODING_THROTTLE_NS + 1).is_some());
    assert_eq!(state.error, None);
}

#[test]
fn the_name_of_a_position_becomes_the_search_text() {
    let mut state: GeocodingState<f64> = GeocodingState::new();
    assert_eq!(state.start_reverse_request("1", "2", 7), Some(reverse_url("1", "2")));
    assert!(state.pending_reverse);
    let found = GeocodingResult { display_name: "Here".to_string(), lat: 1.0, lon: 2.0 };
    state.finish_request(Ok(vec![found]));
    assert_eq!(state.search_text, "Here");
    assert_eq!(state.results.len(), 1);
    assert!(!state.pending_reverse && !state.is_loading);
}

#[test]
fn a_search_keeps_its_text() {
    let mut state: GeocodingState<f64> = GeocodingState::new();
    state.search_text = "Rome".to_string();
    state.start_request(0);
    let found = GeocodingResult { display_name: "Roma".to_string(), lat: 1.0, lon: 2.0 };
    state.finish_request(Ok(vec![found]));
    assert_eq!(state.search_text, "Rome");
}

#[test]
fn places_without_coordinates_are_left_out() {
    let reply = Reply::Answer(vec![
        place("a", Some(1.0), Some(2.0)),
        place("b", None, Some(2.0)),
        place("c", Some(3.0), Some(4.0)),
    ]);
    let results = search_outcome(reply).unwrap_or_else(|e| panic!("{e}"));
    let names: Vec<&str> = results.iter().map(|r| r.display_name.as_str()).collect();
    assert_eq!(names, ["a", "c"]);
    assert_eq!((results[1].lat, results[1].lon), (3.0, 4.0));
}

fn message<T>(outcome: Result<T, String>) -> String {
    match outcome {
        Ok(_) => panic!("expected an error"),
        Err(e) => e,
    }
}

#[test]
fn failed_searches_say_why() {
    let unsent: Reply<Vec<FoundPlace<f64>>> = Reply::Unsent("down".to_string());
    assert_eq!(message(search_outcome(unsent)), "Request failed: down");
    let refused: Reply<Vec<FoundPlace<f64>>> = Reply::Refused("404 Not Found".to_string());
    assert_eq!(message(search_outcome(refused)), "HTTP 404 Not Found");
    let garbled: Reply<Vec<FoundPlace<f64>>> = Reply::Garbled("eof".to_string());
    assert_eq!(message(search_outcome(garbled)), "Failed to parse response: eof");
}

#[test]
fn failed_look_ups_say_why() {
    assert_eq!(
        message(reverse_outcome(Reply::Answer(place("a", None, None)))),
        "invalid latitude in response"
    );
    assert_eq!(
        message(reverse_outcome(Reply::Answer(place("a", Some(1.0), None)))),
        "invalid longitude in response"
    );
    let unsent: Reply<FoundPlace<f64>> = Reply::Unsent("down".to_string());
    assert_eq!(message(reverse_outcome(unsent)), "Request failed: down");
    let refused: Reply<FoundPlace<f64>> = Reply::Refused("500".to_string());
    assert_eq!(message(reverse_outcome(refused)), "HTTP 500");
    let garbled: Reply<FoundPlace<f64>> = Reply::Garbled("eof".to_string());
    assert_eq!(message(reverse_outcome(garbled)), "Failed to parse response: eof");
    let found = reverse_outcome(Reply::Answer(place("a", Some(1.0), Some(2.0)))).ok().unwrap();
    assert_eq!(found[0].display_name, "a");
}

#[test]
fn the_first_elevation_counts() {
    assert_eq!(elevation_outcome(Reply::Answer(vec![12, 13])), Ok(12));
    assert_eq!(
        message(elevation_outcome::<i32>(Reply::Answer(vec![]))),
        "No elevation data returned"
    );
    assert_eq!(
        message(elevation_outcome::<i32>(Reply::Unsent("x".to_string()))),
        "Elevation request failed: x"
    );
    assert_eq!(
        message(elevation_outcome::<i32>(Reply::Refused("503".to_string()))),
        "Elevation HTTP 503"
    );
    assert_eq!(
        message(elevation_outcome::<i32>(Reply::Garbled("x".to_string()))),
        "Failed to parse elevation response: x"
    );
}

#[test]
fn only_two_hundreds_are_successes() {
    assert!(!is_success(199));
    assert!(is_success(200));
    assert!(is_success(299));
    assert!(!is_success(300));
}
