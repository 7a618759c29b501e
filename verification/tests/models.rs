use ifo::models::{BoundingBox, Coordinate};
use ifo::number::Double;
use ifo::IfoError;

fn double(x: f64) -> Double {
    Double::from_bits(x.to_bits())
}

fn float(d: Double) -> f64 {
    f64::from_bits(d.to_bits())
}

fn bounding_box(lat_min: f64, lon_min: f64, lat_max: f64, lon_max: f64) -> Result<BoundingBox, IfoError> {
    BoundingBox::new(double(lat_min), double(lon_min), double(lat_max), double(lon_max))
}

fn coordinate(latitude: f64, longitude: f64) -> Result<Coordinate, IfoError> {
    Coordinate::new(double(latitude), double(longitude))
}

#[test]
fn test_bounding_box_validation() {
    // Test invalid latitude
    let result = bounding_box(91.0, 0.0, 45.0, 10.0);
    assert!(result.is_err());

    // Test invalid longitude
    let result = bounding_box(0.0, 181.0, 45.0, 10.0);
    assert!(result.is_err());

    // Test invalid ordering
    let result = bounding_box(45.0, 0.0, 40.0, 10.0);
    assert!(result.is_err());

    // Test valid bounding box
    let result = bounding_box(40.0, 0.0, 45.0, 10.0);
    assert!(result.is_ok());
}

#[test]
fn test_bounding_box_from_center() {
    let center = coordinate(37.7, -122.4).unwrap();
    let bbox = BoundingBox::from_center(center, double(0.5));

    assert_eq!(float(bbox.lat_min), 37.2);
    assert_eq!(float(bbox.lat_max), 38.2);
    assert_eq!(float(bbox.lon_min), -122.9);
    assert_eq!(float(bbox.lon_max), -121.9);
}

#[test]
fn test_bounding_box_clamping() {
    // Test clamping at north pole
    let center = coordinate(89.7, 0.0).unwrap();
    let bbox = BoundingBox::from_center(center, double(0.5));
    assert_eq!(float(bbox.lat_max), 90.0);

    // Test clamping at south pole
    let center = coordinate(-89.7, 0.0).unwrap();
    let bbox = BoundingBox::from_center(center, double(0.5));
    assert_eq!(float(bbox.lat_min), -90.0);
}

#[test]
fn latitude_is_valid_from_pole_to_pole() {
    for latitude in [-90.0, -89.999, -0.0, 0.0, 45.5, 90.0] {
        let point = coordinate(latitude, 10.0).unwrap();
        assert_eq!(float(point.latitude), latitude);
        assert_eq!(float(point.longitude), 10.0);
    }
    for latitude in [-90.00000000000001, 90.00000000000001, 91.0, -1e300, f64::INFINITY, f64::NEG_INFINITY, f64::NAN] {
        match coordinate(latitude, 10.0) {
            Err(IfoError::InvalidLatitude(l)) => assert_eq!(l.to_bits(), latitude.to_bits()),
            other => panic!("{:?}", other),
        }
    }
}

#[test]
fn longitude_is_valid_from_antimeridian_to_antimeridian() {
    for longitude in [-180.0, -179.5, 0.0, 122.4, 180.0] {
        let point = coordinate(10.0, longitude).unwrap();
        assert_eq!(float(point.longitude), longitude);
    }
    for longitude in [-180.00000000000003, 180.00000000000003, 181.0, f64::INFINITY, f64::NAN] {
        match coordinate(10.0, longitude) {
            Err(IfoError::InvalidLongitude(l)) => assert_eq!(l.to_bits(), longitude.to_bits()),
            other => panic!("{:?}", other),
        }
    }
}

#[test]
fn latitude_is_judged_before_longitude() {
    assert!(matches!(coordinate(91.0, 181.0), Err(IfoError::InvalidLatitude(_))));
}

#[test]
fn bounding_box_reports_its_first_fault() {
    match bounding_box(91.0, 181.0, 92.0, 182.0) {
        Err(IfoError::InvalidLatitude(l)) => assert_eq!(float(l), 91.0),
        other => panic!("{:?}", other),
    }
    match bounding_box(45.0, 181.0, 92.0, 182.0) {
        Err(IfoError::InvalidLatitude(l)) => assert_eq!(float(l), 92.0),
        other => panic!("{:?}", other),
    }
    match bounding_box(45.0, 181.0, 40.0, 182.0) {
        Err(IfoError::InvalidLongitude(l)) => assert_eq!(float(l), 181.0),
        other => panic!("{:?}", other),
    }
    match bounding_box(45.0, 10.0, 40.0, 182.0) {
        Err(IfoError::InvalidLongitude(l)) => assert_eq!(float(l), 182.0),
        other => panic!("{:?}", other),
    }
    match bounding_box(45.0, 10.0, 40.0, 0.0) {
        Err(IfoError::InvalidBoundingBox(m)) => assert_eq!(m, "lat_min must be less than lat_max"),
        other => panic!("{:?}", other),
    }
    match bounding_box(40.0, 10.0, 45.0, 0.0) {
        Err(IfoError::InvalidBoundingBox(m)) => assert_eq!(m, "lon_min must be less than lon_max"),
        other => panic!("{:?}", other),
    }
}

#[test]
fn bounding_box_order_is_strict() {
    match bounding_box(40.0, 0.0, 40.0, 10.0) {
        Err(IfoError::InvalidBoundingBox(m)) => assert_eq!(m, "lat_min must be less than lat_max"),
        other => panic!("{:?}", other),
    }
    match bounding_box(40.0, 10.0, 45.0, 10.0) {
        Err(IfoError::InvalidBoundingBox(m)) => assert_eq!(m, "lon_min must be less than lon_max"),
        other => panic!("{:?}", other),
    }
    assert!(matches!(bounding_box(-0.0, 0.0, 0.0, 10.0), Err(IfoError::InvalidBoundingBox(_))));
    let full = bounding_box(-90.0, -180.0, 90.0, 180.0).unwrap();
    assert_eq!(float(full.lat_min), -90.0);
    assert_eq!(float(full.lon_min), -180.0);
    assert_eq!(float(full.lat_max), 90.0);
    assert_eq!(float(full.lon_max), 180.0);
}

#[test]
fn from_center_is_the_machines_arithmetic() {
    let centers = [(37.7, -122.4), (89.7, 0.0), (-89.7, 0.0), (0.0, 179.9), (0.0, -179.9), (90.0, 180.0), (-90.0, -180.0), (51.4778, -0.0015)];
    let radii = [0.5, 1.0, 0.1, 0.3, 1e-9, 1e-300, 0.0, -0.5, 25.0, 400.0, 1e300, f64::INFINITY, f64::NEG_INFINITY, f64::NAN];
    for (latitude, longitude) in centers {
        let center = coordinate(latitude, longitude).unwrap();
        for radius in radii {
            let bbox = BoundingBox::from_center(center, double(radius));
            assert_eq!(bbox.lat_min.to_bits(), (latitude - radius).max(-90.0).to_bits());
            assert_eq!(bbox.lat_max.to_bits(), (latitude + radius).min(90.0).to_bits());
            assert_eq!(bbox.lon_min.to_bits(), (longitude - radius).max(-180.0).to_bits());
            assert_eq!(bbox.lon_max.to_bits(), (longitude + radius).min(180.0).to_bits());
        }
    }
}

#[test]
fn from_center_with_no_radius_is_degenerate() {
    let center = coordinate(10.0, 20.0).unwrap();
    let bbox = BoundingBox::from_center(center, double(0.0));
    assert_eq!(float(bbox.lat_min), 10.0);
    assert_eq!(float(bbox.lat_max), 10.0);
    assert_eq!(float(bbox.lon_min), 20.0);
    assert_eq!(float(bbox.lon_max), 20.0);
}

#[test]
fn valid_bounding_box_is_strictly_ordered() {
    let edges = [-90.0, -45.5, -0.0, 0.0, 1e-300, 12.25, 89.999, 90.0];
    for lat_min in edges {
        for lat_max in edges {
            for (lon_min, lon_max) in [(-180.0, 180.0), (2.0 * lat_min, 2.0 * lat_max), (10.0, 10.0)] {
                let made = bounding_box(lat_min, lon_min, lat_max, lon_max);
                assert_eq!(made.is_ok(), lat_min < lat_max && lon_min < lon_max);
                if let Ok(bbox) = made {
                    assert!(bbox.lat_min.lt(bbox.lat_max));
                    assert!(bbox.lon_min.lt(bbox.lon_max));
                    assert_eq!(float(bbox.lat_min), lat_min);
                    assert_eq!(float(bbox.lon_min), lon_min);
                    assert_eq!(float(bbox.lat_max), lat_max);
                    assert_eq!(float(bbox.lon_max), lon_max);
                }
            }
        }
    }
}

#[test]
fn from_center_holds_its_centre_within_the_globe() {
    let centers = [(37.7, -122.4), (90.0, 180.0), (-90.0, -180.0), (0.0, 0.0), (89.7, 179.9)];
    let radii = [0.0, -0.0, 1e-300, 0.5, 1.0, 90.0, 360.0, 1e300, f64::INFINITY];
    for (latitude, longitude) in centers {
        let center = coordinate(latitude, longitude).unwrap();
        for radius in radii {
            let bbox = BoundingBox::from_center(center, double(radius));
            assert!(double(-90.0).le(bbox.lat_min) && bbox.lat_min.le(center.latitude));
            assert!(center.latitude.le(bbox.lat_max) && bbox.lat_max.le(double(90.0)));
            assert!(double(-180.0).le(bbox.lon_min) && bbox.lon_min.le(center.longitude));
            assert!(center.longitude.le(bbox.lon_max) && bbox.lon_max.le(double(180.0)));
        }
    }
}

#[test]
fn from_center_with_a_negative_radius_is_not_valid() {
    let center = coordinate(89.0, 0.0).unwrap();
    let bbox = BoundingBox::from_center(center, double(-5.0));
    assert_eq!(float(bbox.lat_min), 94.0);
    assert_eq!(float(bbox.lat_max), 84.0);
    assert!(BoundingBox::new(bbox.lat_min, bbox.lon_min, bbox.lat_max, bbox.lon_max).is_err());
}

#[test]
fn from_center_without_a_radius_is_the_whole_globe() {
    let center = coordinate(10.0, 20.0).unwrap();
    let bbox = BoundingBox::from_center(center, double(f64::NAN));
    assert_eq!(float(bbox.lat_min), -90.0);
    assert_eq!(float(bbox.lat_max), 90.0);
    assert_eq!(float(bbox.lon_min), -180.0);
    assert_eq!(float(bbox.lon_max), 180.0);
}

#[test]
fn from_center_with_a_sure_radius_is_valid() {
    let sure = 2f64.powi(-45);
    let centers = [
        (90.0, 180.0),
        (-90.0, -180.0),
        (0.0, 0.0),
        (-0.0, 0.0),
        (5e-324, -5e-324),
        (89.99999999999999, 179.99999999999997),
        (37.7, -122.4),
    ];
    for (latitude, longitude) in centers {
        let center = coordinate(latitude, longitude).unwrap();
        for radius in [sure, 2.0 * sure, 0.5, 400.0, f64::MAX, f64::INFINITY] {
            let bbox = BoundingBox::from_center(center, double(radius));
            assert!(
                BoundingBox::new(bbox.lat_min, bbox.lon_min, bbox.lat_max, bbox.lon_max).is_ok(),
                "{} around {},{}",
                radius,
                latitude,
                longitude
            );
        }
    }
}

#[test]
fn from_center_with_a_radius_lost_in_rounding_is_flat() {
    let center = coordinate(64.0, 128.0).unwrap();
    let bbox = BoundingBox::from_center(center, double(2f64.powi(-48)));
    assert_eq!(float(bbox.lat_max), 64.0);
    assert_eq!(float(bbox.lon_min), 128.0);
    assert_eq!(float(bbox.lon_max), 128.0);
    assert!(BoundingBox::new(bbox.lat_min, bbox.lon_min, bbox.lat_max, bbox.lon_max).is_err());
}
