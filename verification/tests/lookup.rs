use ifo::lookup::{
    exit_code, parse_coordinates, resolve_coordinates, resolve_place, split_coordinates,
    LocationName,
};
use ifo::models::{Coordinate, Location};
use ifo::number::Double;
use ifo::IfoError;

fn double(x: f64) -> Double {
    Double::from_bits(x.to_bits())
}

fn float(d: Double) -> f64 {
    f64::from_bits(d.to_bits())
}

/// The whole of reading a coordinate text, with the numbers read as the
/// program reads them.
fn read(coord_str: &str) -> Result<Coordinate, IfoError> {
    let text = split_coordinates(coord_str)?;
    let latitude = text.latitude_text().parse::<f64>().ok().map(double);
    let longitude = text.longitude_text().parse::<f64>().ok().map(double);
    parse_coordinates(&text, latitude, longitude)
}

fn place(lat: f64, lon: f64, name: &str) -> Location {
    Location { lat: double(lat), lon: double(lon), display_name: name.to_string() }
}

#[test]
fn coordinate_text_is_split_at_its_comma() {
    let text = split_coordinates("37.7,-122.4").unwrap();
    assert_eq!(text.latitude, "37.7");
    assert_eq!(text.longitude, "-122.4");
    let text = split_coordinates(" 37.7 ,\t-122.4 ").unwrap();
    assert_eq!(text.latitude, " 37.7 ");
    assert_eq!(text.longitude, "\t-122.4 ");
    assert_eq!(text.latitude_text(), "37.7");
    assert_eq!(text.longitude_text(), "-122.4");
    let text = split_coordinates(",").unwrap();
    assert_eq!(text.latitude, "");
    assert_eq!(text.longitude, "");
    let text = split_coordinates("é,ü").unwrap();
    assert_eq!(text.latitude, "é");
    assert_eq!(text.longitude, "ü");
}

#[test]
fn coordinate_text_without_two_fields_is_refused() {
    for coord_str in ["", "37.7", "37.7 -122.4", "1,2,3", ",,", "37.7,-122.4,"] {
        match split_coordinates(coord_str) {
            Err(IfoError::InvalidCoordinates(m)) => {
                assert_eq!(m, "Coordinates must be in format 'latitude,longitude'")
            }
            other => panic!("{:?}", other),
        }
    }
}

#[test]
fn coordinate_text_gives_its_point() {
    let point = read("37.7,-122.4").unwrap();
    assert_eq!(float(point.latitude), 37.7);
    assert_eq!(float(point.longitude), -122.4);
    let point = read("  -90 , 180  ").unwrap();
    assert_eq!(float(point.latitude), -90.0);
    assert_eq!(float(point.longitude), 180.0);
}

#[test]
fn field_that_is_no_number_is_refused_as_written() {
    match read(" north ,12") {
        Err(IfoError::InvalidCoordinates(m)) => assert_eq!(m, "Invalid latitude:  north "),
        other => panic!("{:?}", other),
    }
    match read("12, east") {
        Err(IfoError::InvalidCoordinates(m)) => assert_eq!(m, "Invalid longitude:  east"),
        other => panic!("{:?}", other),
    }
    match read("x,y") {
        Err(IfoError::InvalidCoordinates(m)) => assert_eq!(m, "Invalid latitude: x"),
        other => panic!("{:?}", other),
    }
    match read(",") {
        Err(IfoError::InvalidCoordinates(m)) => assert_eq!(m, "Invalid latitude: "),
        other => panic!("{:?}", other),
    }
}

#[test]
fn numbers_out_of_range_are_refused_as_coordinates_are() {
    match read("91,0") {
        Err(IfoError::InvalidLatitude(l)) => assert_eq!(float(l), 91.0),
        other => panic!("{:?}", other),
    }
    match read("0,-180.5") {
        Err(IfoError::InvalidLongitude(l)) => assert_eq!(float(l), -180.5),
        other => panic!("{:?}", other),
    }
    assert!(matches!(read("NaN,0"), Err(IfoError::InvalidLatitude(_))));
    assert!(matches!(read("0,inf"), Err(IfoError::InvalidLongitude(_))));
}

#[test]
fn lookup_by_coordinates_is_called_by_its_point() {
    let center = Coordinate::new(double(37.7), double(-122.4)).unwrap();
    let resolved = resolve_coordinates(center);
    assert_eq!(float(resolved.center.latitude), 37.7);
    match resolved.name {
        LocationName::Coordinates(point) => {
            assert_eq!(float(point.latitude), 37.7);
            assert_eq!(float(point.longitude), -122.4);
        }
        other => panic!("{:?}", other),
    }
}

#[test]
fn place_that_is_not_found_fails_with_its_name() {
    match resolve_place("Atlantis", None) {
        Err(IfoError::LocationNotFound(p)) => assert_eq!(p, "Atlantis"),
        other => panic!("{:?}", other),
    }
}

#[test]
fn place_that_is_found_is_called_by_its_display_name() {
    let resolved = resolve_place("london", Some(place(51.5, -0.12, "London, England"))).unwrap();
    assert_eq!(float(resolved.center.latitude), 51.5);
    assert_eq!(float(resolved.center.longitude), -0.12);
    match &resolved.name {
        LocationName::Place(name) => assert_eq!(name, "London, England"),
        other => panic!("{:?}", other),
    }
    let area = resolved.area(double(0.5));
    assert_eq!(float(area.bbox.lat_min), 51.0);
    assert_eq!(float(area.bbox.lat_max), 52.0);
    assert_eq!(float(area.bbox.lon_min), -0.12 - 0.5);
    assert_eq!(float(area.bbox.lon_max), -0.12 + 0.5);
    assert!(matches!(area.name, LocationName::Place(_)));
}

#[test]
fn place_off_the_globe_is_refused() {
    match resolve_place("x", Some(place(95.0, 0.0, "X"))) {
        Err(IfoError::InvalidLatitude(l)) => assert_eq!(float(l), 95.0),
        other => panic!("{:?}", other),
    }
    match resolve_place("x", Some(place(5.0, 200.0, "X"))) {
        Err(IfoError::InvalidLongitude(l)) => assert_eq!(float(l), 200.0),
        other => panic!("{:?}", other),
    }
}

#[test]
fn exit_code_is_zero_after_success_alone() {
    assert_eq!(exit_code::<(), IfoError>(&Ok(())), 0);
    assert_eq!(exit_code::<(), IfoError>(&Err(IfoError::EmptyPlaceName)), 1);
    assert_eq!(exit_code::<u8, &str>(&Err("x")), 1);
}
