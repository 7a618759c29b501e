use ifo::api::{parse_states, skipped, OpenSkyClient};
use ifo::http::{is_success, Body, Reply};
use ifo::json::JsonValue;
use ifo::models::{BoundingBox, Coordinate, OpenSkyResponse};
use ifo::number::Double;
use ifo::IfoError;

fn double(x: f64) -> Double {
    Double::from_bits(x.to_bits())
}

fn state_vector(icao24: &str, length: usize) -> Vec<JsonValue> {
    let mut state = vec![JsonValue::String(icao24.to_string())];
    while state.len() < length {
        state.push(JsonValue::Null);
    }
    state
}

fn decoded(states: Option<Vec<Vec<JsonValue>>>) -> Reply<OpenSkyResponse> {
    Reply { status: 200, body: Body::Decoded(OpenSkyResponse { time: Some(1700000000), states }) }
}

#[test]
fn absent_states_are_no_aircraft_and_no_failure() {
    let client = OpenSkyClient::new(10);
    let aircraft = client.get_aircraft_in_area(decoded(None)).unwrap();
    assert!(aircraft.is_empty());
    let data = OpenSkyResponse { time: None, states: None };
    assert!(skipped(&data).is_empty());
    assert!(parse_states(data).is_empty());
}

#[test]
fn empty_states_are_no_aircraft() {
    let client = OpenSkyClient::new(10);
    let aircraft = client.get_aircraft_in_area(decoded(Some(Vec::new()))).unwrap();
    assert!(aircraft.is_empty());
}

#[test]
fn unreadable_state_vector_hides_no_other() {
    let client = OpenSkyClient::new(10);
    let states = vec![
        state_vector("first", 17),
        state_vector("short", 16),
        state_vector("second", 18),
        Vec::new(),
        state_vector("third", 17),
    ];
    let aircraft = client.get_aircraft_in_area(decoded(Some(states))).unwrap();
    let names: Vec<&str> = aircraft.iter().map(|a| a.icao24.as_str()).collect();
    assert_eq!(names, vec!["first", "second", "third"]);
}

#[test]
fn skipped_state_vectors_are_reported_in_order() {
    let data = OpenSkyResponse {
        time: None,
        states: Some(vec![
            state_vector("first", 17),
            state_vector("short", 16),
            Vec::new(),
            state_vector("third", 40),
            state_vector("one", 1),
        ]),
    };
    let faults = skipped(&data);
    let counts: Vec<(usize, usize)> = faults
        .iter()
        .map(|fault| match fault {
            IfoError::InvalidStateVector { expected, got } => (*expected, *got),
            other => panic!("{:?}", other),
        })
        .collect();
    assert_eq!(counts, vec![(17, 16), (17, 0), (17, 1)]);
    assert_eq!(parse_states(data).len(), 2);
}

#[test]
fn refused_query_is_an_api_error() {
    let client = OpenSkyClient::new(10);
    let reply: Reply<OpenSkyResponse> =
        Reply { status: 429, body: Body::Text("Too many requests".to_string()) };
    match client.get_aircraft_in_area(reply) {
        Err(IfoError::ApiError { status, message }) => {
            assert_eq!(status, 429);
            assert_eq!(message, "Too many requests");
        }
        other => panic!("{:?}", other),
    }
    let reply = Reply { status: 500, body: Body::Decoded(OpenSkyResponse { time: None, states: None }) };
    match client.get_aircraft_in_area(reply) {
        Err(IfoError::ApiError { status, message }) => {
            assert_eq!(status, 500);
            assert_eq!(message, "");
        }
        other => panic!("{:?}", other),
    }
}

#[test]
fn successful_query_without_a_decoded_body_is_unexpected() {
    let client = OpenSkyClient::new(10);
    let reply: Reply<OpenSkyResponse> = Reply { status: 204, body: Body::Text(String::new()) };
    match client.get_aircraft_in_area(reply) {
        Err(IfoError::UnexpectedResponse { service }) => assert_eq!(service, "OpenSky"),
        other => panic!("{:?}", other),
    }
}

#[test]
fn success_is_the_class_from_200_to_299() {
    for status in [200u16, 201, 204, 250, 299] {
        assert!(is_success(status), "{}", status);
    }
    for status in [0u16, 1, 99, 100, 199, 300, 301, 404, 500, 999, 1000, 2000, u16::MAX] {
        assert!(!is_success(status), "{}", status);
    }
}

#[test]
fn client_is_configured_for_the_public_service() {
    let client = OpenSkyClient::new(25);
    assert_eq!(client.base_url, "https://opensky-network.org/api");
    assert_eq!(client.user_agent, "IFO-CLI/2.0 (Rust)");
    assert_eq!(client.timeout_secs, 25);
    assert_eq!(client.url(), "https://opensky-network.org/api/states/all");
}

#[test]
fn query_names_the_four_edges() {
    let client = OpenSkyClient::new(10);
    let center = Coordinate::new(double(37.7), double(-122.4)).unwrap();
    let bbox = BoundingBox::from_center(center, double(0.5));
    let query: Vec<(String, f64)> = client
        .query(bbox)
        .into_iter()
        .map(|(name, value)| (name, f64::from_bits(value.to_bits())))
        .collect();
    assert_eq!(
        query,
        vec![
            ("lamin".to_string(), 37.2),
            ("lomin".to_string(), -122.9),
            ("lamax".to_string(), 38.2),
            ("lomax".to_string(), -121.9),
        ]
    );
}
