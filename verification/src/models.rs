//! The values of a lookup: coordinates, bounding boxes, places.

use vstd::prelude::*;
use vstd::string::{StrSliceExecFns, StringExecFns};
use vstd::arithmetic::power2::{
    pow2,
    lemma2_to64,
    lemma2_to64_rest,
    lemma_pow2_adds,
    lemma_pow2_pos,
    lemma_pow2_strictly_increases,
};
use crate::error::IfoError;
use crate::json::JsonValue;
use crate::number::{lemma_abs_units_order, whole, Double};
use crate::sum::{lemma_sum_direction, lemma_sum_moves};
use crate::text::{trim, trimmed};

verus! {

/// The encoding of 90, the latitude of the north pole.
pub const NORTH_POLE_BITS: u64 = 0x4056_8000_0000_0000;

/// The encoding of -90, the latitude of the south pole.
pub const SOUTH_POLE_BITS: u64 = 0xc056_8000_0000_0000;

/// The encoding of 180, the longitude of the antimeridian from the west.
pub const EAST_LIMIT_BITS: u64 = 0x4066_8000_0000_0000;

/// The encoding of -180, the longitude of the antimeridian from the east.
pub const WEST_LIMIT_BITS: u64 = 0xc066_8000_0000_0000;

/// A radius of two to the power of -45 degrees, in units of two to the power
/// of -1074: the widest step between neighbouring doubles up to 180. A sum or
/// difference of a coordinate and a radius of at least this size is not the
/// coordinate itself.
pub open spec fn sure_radius() -> int {
    pow2(1029) as int
}

/// A latitude is a number from -90 to 90, both included.
pub open spec fn valid_latitude(x: Double) -> bool {
    !x.nan() && whole(-90) <= x.units() <= whole(90)
}

/// A longitude is a number from -180 to 180, both included.
pub open spec fn valid_longitude(x: Double) -> bool {
    !x.nan() && whole(-180) <= x.units() <= whole(180)
}

/// The four limit encodings are the numbers 90, -90, 180 and -180.
pub proof fn lemma_limit_values()
    ensures
        (Double { bits: NORTH_POLE_BITS }).units() == whole(90),
        (Double { bits: SOUTH_POLE_BITS }).units() == whole(-90),
        (Double { bits: EAST_LIMIT_BITS }).units() == whole(180),
        (Double { bits: WEST_LIMIT_BITS }).units() == whole(-180),
        !(Double { bits: NORTH_POLE_BITS }).nan(),
        !(Double { bits: SOUTH_POLE_BITS }).nan(),
        !(Double { bits: EAST_LIMIT_BITS }).nan(),
        !(Double { bits: WEST_LIMIT_BITS }).nan(),
{
    lemma2_to64_rest();
    lemma_pow2_adds(46, 1028);
    lemma_pow2_adds(1, 1028);
    lemma2_to64();
    let low = pow2(1028) as int;
    let mid = pow2(1029) as int;
    let unit = pow2(1074) as int;
    assert(unit == 0x4000_0000_0000 * low);
    assert(mid == 2 * low);
    let north = Double { bits: NORTH_POLE_BITS };
    assert(north.exponent() == 1029);
    assert(north.significand() == 0x16_8000_0000_0000);
    let south = Double { bits: SOUTH_POLE_BITS };
    assert(south.magnitude() == north.magnitude());
    let east = Double { bits: EAST_LIMIT_BITS };
    assert(east.exponent() == 1030);
    assert(east.significand() == 0x16_8000_0000_0000);
    let west = Double { bits: WEST_LIMIT_BITS };
    assert(west.magnitude() == east.magnitude());
}

/// A number between -180 and 180 is finite, and its neighbours are no
/// further from it than two to the power of -45.
pub proof fn lemma_within_limits_finite(x: Double)
    requires
        valid_latitude(x) || valid_longitude(x),
    ensures
        x.finite(),
        x.scale() <= 1029,
        pow2(x.scale()) <= sure_radius(),
{
    lemma_limit_values();
    let east = Double { bits: EAST_LIMIT_BITS };
    lemma_pow2_pos(1074);
    lemma_abs_units_order(east, x);
    assert(east.exponent() == 1030);
    if x.scale() < 1029 {
        lemma_pow2_strictly_increases(x.scale(), 1029);
    }
}

/// Whether `x` is a latitude.
pub fn is_latitude(x: Double) -> (r: bool)
    ensures
        r == valid_latitude(x),
{
    proof {
        lemma_limit_values();
    }
    Double::from_bits(SOUTH_POLE_BITS).le(x) && x.le(Double::from_bits(NORTH_POLE_BITS))
}

/// Whether `x` is a longitude.
pub fn is_longitude(x: Double) -> (r: bool)
    ensures
        r == valid_longitude(x),
{
    proof {
        lemma_limit_values();
    }
    Double::from_bits(WEST_LIMIT_BITS).le(x) && x.le(Double::from_bits(EAST_LIMIT_BITS))
}

/// A point on the globe, in degrees.
#[derive(Clone, Copy, Debug)]
pub struct Coordinate {
    pub latitude: Double,
    pub longitude: Double,
}

impl Coordinate {
    /// Both parts are in range.
    pub open spec fn valid(self) -> bool {
        valid_latitude(self.latitude) && valid_longitude(self.longitude)
    }

    /// What `new` makes of a latitude and a longitude.
    pub open spec fn checked(latitude: Double, longitude: Double) -> Result<Coordinate, IfoError> {
        if !valid_latitude(latitude) {
            Err(IfoError::InvalidLatitude(latitude))
        } else if !valid_longitude(longitude) {
            Err(IfoError::InvalidLongitude(longitude))
        } else {
            Ok(Coordinate { latitude, longitude })
        }
    }

    /// The point with the given latitude and longitude, where both are in
    /// range. The latitude is judged first.
    pub fn new(latitude: Double, longitude: Double) -> (r: Result<Coordinate, IfoError>)
        ensures
            r == Coordinate::checked(latitude, longitude),
            r is Ok <==> valid_latitude(latitude) && valid_longitude(longitude),
            r matches Ok(c) ==> c == (Coordinate { latitude, longitude }) && c.valid(),
            r matches Err(e) ==> if !valid_latitude(latitude) {
                e == IfoError::InvalidLatitude(latitude)
            } else {
                e == IfoError::InvalidLongitude(longitude)
            },
    {
        if !is_latitude(latitude) {
            return Err(IfoError::InvalidLatitude(latitude));
        }
        if !is_longitude(longitude) {
            return Err(IfoError::InvalidLongitude(longitude));
        }
        Ok(Coordinate { latitude, longitude })
    }
}

/// What the error says of latitude bounds in the wrong order.
pub open spec fn latitude_order_message() -> Seq<char> {
    "lat_min must be less than lat_max"@
}

/// What the error says of longitude bounds in the wrong order.
pub open spec fn longitude_order_message() -> Seq<char> {
    "lon_min must be less than lon_max"@
}

/// A rectangle on the globe, by its least and greatest latitude and longitude.
#[derive(Clone, Copy, Debug)]
pub struct BoundingBox {
    pub lat_min: Double,
    pub lon_min: Double,
    pub lat_max: Double,
    pub lon_max: Double,
}

impl BoundingBox {
    /// Each bound is in range.
    pub open spec fn in_range(self) -> bool {
        &&& valid_latitude(self.lat_min)
        &&& valid_latitude(self.lat_max)
        &&& valid_longitude(self.lon_min)
        &&& valid_longitude(self.lon_max)
    }

    /// Each bound is in range, and the least of each pair is strictly below
    /// the greatest.
    pub open spec fn valid(self) -> bool {
        &&& self.in_range()
        &&& self.lat_min.units() < self.lat_max.units()
        &&& self.lon_min.units() < self.lon_max.units()
    }

    /// The box with the given bounds, where it is valid. The first fault in
    /// this order is the one reported: the range of `lat_min`, of `lat_max`,
    /// of `lon_min`, of `lon_max`, the order of the latitudes, the order of
    /// the longitudes.
    pub fn new(lat_min: Double, lon_min: Double, lat_max: Double, lon_max: Double) -> (r: Result<
        BoundingBox,
        IfoError,
    >)
        ensures
            r is Ok <==> (BoundingBox { lat_min, lon_min, lat_max, lon_max }).valid(),
            r matches Ok(b) ==> b == (BoundingBox { lat_min, lon_min, lat_max, lon_max }),
            r matches Ok(b) ==> b.lat_min.below(b.lat_max) && b.lon_min.below(b.lon_max),
            r matches Err(e) ==> if !valid_latitude(lat_min) {
                e == IfoError::InvalidLatitude(lat_min)
            } else if !valid_latitude(lat_max) {
                e == IfoError::InvalidLatitude(lat_max)
            } else if !valid_longitude(lon_min) {
                e == IfoError::InvalidLongitude(lon_min)
            } else if !valid_longitude(lon_max) {
                e == IfoError::InvalidLongitude(lon_max)
            } else if lat_min.units() >= lat_max.units() {
                e matches IfoError::InvalidBoundingBox(m) && m@ == latitude_order_message()
            } else {
                e matches IfoError::InvalidBoundingBox(m) && m@ == longitude_order_message()
            },
    {
        if !is_latitude(lat_min) {
            return Err(IfoError::InvalidLatitude(lat_min));
        }
        if !is_latitude(lat_max) {
            return Err(IfoError::InvalidLatitude(lat_max));
        }
        if !is_longitude(lon_min) {
            return Err(IfoError::InvalidLongitude(lon_min));
        }
        if !is_longitude(lon_max) {
            return Err(IfoError::InvalidLongitude(lon_max));
        }
        if !lat_min.lt(lat_max) {
            return Err(
                IfoError::InvalidBoundingBox(String::from_str("lat_min must be less than lat_max")),
            );
        }
        if !lon_min.lt(lon_max) {
            return Err(
                IfoError::InvalidBoundingBox(String::from_str("lon_min must be less than lon_max")),
            );
        }
        Ok(BoundingBox { lat_min, lon_min, lat_max, lon_max })
    }

    /// The box around a centre, as `from_center` computes it.
    pub open spec fn around(center: Coordinate, radius_deg: Double) -> BoundingBox {
        BoundingBox {
            lat_min: center.latitude.minus(radius_deg).greater(Double { bits: SOUTH_POLE_BITS }),
            lon_min: center.longitude.minus(radius_deg).greater(Double { bits: WEST_LIMIT_BITS }),
            lat_max: center.latitude.plus(radius_deg).lesser(Double { bits: NORTH_POLE_BITS }),
            lon_max: center.longitude.plus(radius_deg).lesser(Double { bits: EAST_LIMIT_BITS }),
        }
    }

    /// The box that reaches `radius_deg` degrees from a centre to each side,
    /// as far as the globe goes: the least latitude is not below -90, the
    /// greatest not above 90, the least longitude not below -180, the greatest
    /// not above 180. The sums and differences are rounded as doubles are.
    /// The order of the bounds is not judged: a radius that is not positive
    /// gives a box that is not valid.
    ///
    /// Around a valid centre, a radius that is not negative gives bounds that
    /// are each in range and that hold the centre between them, and a radius
    /// of at least two to the power of -45 gives a valid box. A smaller
    /// radius may be lost in rounding, and the box be as flat as with none.
    pub fn from_center(center: Coordinate, radius_deg: Double) -> (b: BoundingBox)
        ensures
            b == BoundingBox::around(center, radius_deg),
            center.valid() && !radius_deg.nan() && radius_deg.units() >= 0 ==> {
                &&& b.in_range()
                &&& b.lat_min.units() <= center.latitude.units() <= b.lat_max.units()
                &&& b.lon_min.units() <= center.longitude.units() <= b.lon_max.units()
            },
            center.valid() && !radius_deg.nan() && radius_deg.units() >= sure_radius()
                ==> b.valid(),
    {
        let south = center.latitude.sub(radius_deg);
        let north = center.latitude.add(radius_deg);
        let west = center.longitude.sub(radius_deg);
        let east = center.longitude.add(radius_deg);
        proof {
            lemma_limit_values();
            if center.valid() && !radius_deg.nan() && radius_deg.units() >= 0 {
                lemma_within_limits_finite(center.latitude);
                lemma_within_limits_finite(center.longitude);
                lemma_sum_direction(center.latitude, radius_deg.negated(), south);
                lemma_sum_direction(center.latitude, radius_deg, north);
                lemma_sum_direction(center.longitude, radius_deg.negated(), west);
                lemma_sum_direction(center.longitude, radius_deg, east);
                if radius_deg.units() >= sure_radius() {
                    lemma_pow2_pos(1029);
                    lemma_pow2_pos(1074);
                    lemma_sum_moves(center.latitude, radius_deg.negated(), south);
                    lemma_sum_moves(center.latitude, radius_deg, north);
                    lemma_sum_moves(center.longitude, radius_deg.negated(), west);
                    lemma_sum_moves(center.longitude, radius_deg, east);
                }
            }
        }
        let lat_min = south.max(Double::from_bits(SOUTH_POLE_BITS));
        let lat_max = north.min(Double::from_bits(NORTH_POLE_BITS));
        let lon_min = west.max(Double::from_bits(WEST_LIMIT_BITS));
        let lon_max = east.min(Double::from_bits(EAST_LIMIT_BITS));
        BoundingBox { lat_min, lon_min, lat_max, lon_max }
    }
}

/// The number of elements that a state vector has at least.
pub const STATE_VECTOR_LENGTH: usize = 17;

/// The state of one aircraft.
#[derive(Clone, Debug)]
pub struct Aircraft {
    pub icao24: String,
    pub callsign: Option<String>,
    pub origin_country: String,
    pub longitude: Option<Double>,
    pub latitude: Option<Double>,
    pub baro_altitude: Option<Double>,
    pub on_ground: bool,
    pub velocity: Option<Double>,
    pub true_track: Option<Double>,
    pub vertical_rate: Option<Double>,
    pub geo_altitude: Option<Double>,
    pub squawk: Option<String>,
}

/// An aircraft's state with its texts as sequences of characters.
pub struct AircraftView {
    pub icao24: Seq<char>,
    pub callsign: Option<Seq<char>>,
    pub origin_country: Seq<char>,
    pub longitude: Option<Double>,
    pub latitude: Option<Double>,
    pub baro_altitude: Option<Double>,
    pub on_ground: bool,
    pub velocity: Option<Double>,
    pub true_track: Option<Double>,
    pub vertical_rate: Option<Double>,
    pub geo_altitude: Option<Double>,
    pub squawk: Option<Seq<char>>,
}

/// The characters of a text that may be absent.
pub open spec fn text_view(text: Option<String>) -> Option<Seq<char>> {
    match text {
        Some(s) => Some(s@),
        None => None,
    }
}

impl View for Aircraft {
    type V = AircraftView;

    open spec fn view(&self) -> AircraftView {
        AircraftView {
            icao24: self.icao24@,
            callsign: text_view(self.callsign),
            origin_country: self.origin_country@,
            longitude: self.longitude,
            latitude: self.latitude,
            baro_altitude: self.baro_altitude,
            on_ground: self.on_ground,
            velocity: self.velocity,
            true_track: self.true_track,
            vertical_rate: self.vertical_rate,
            geo_altitude: self.geo_altitude,
            squawk: text_view(self.squawk),
        }
    }
}

/// The text of a required field: empty where the element is no string.
pub open spec fn required_text(v: JsonValue) -> Seq<char> {
    match v.text() {
        Some(t) => t,
        None => Seq::empty(),
    }
}

/// The callsign in an element: its text trimmed, absent where the element is
/// no string or nothing is left of it.
pub open spec fn callsign_text(v: JsonValue) -> Option<Seq<char>> {
    match v.text() {
        Some(t) => if trimmed(t).len() == 0 {
            None
        } else {
            Some(trimmed(t))
        },
        None => None,
    }
}

/// What a state vector of at least seventeen elements says of its aircraft.
/// Each field is read at its own position, and a field that is missing or of
/// another kind spoils no other.
pub open spec fn state_vector_view(state: Seq<JsonValue>) -> AircraftView {
    AircraftView {
        icao24: required_text(state[0]),
        callsign: callsign_text(state[1]),
        origin_country: required_text(state[2]),
        longitude: state[5].number(),
        latitude: state[6].number(),
        baro_altitude: state[7].number(),
        on_ground: state[8].truth() == Some(true),
        velocity: state[9].number(),
        true_track: state[10].number(),
        vertical_rate: state[11].number(),
        geo_altitude: state[13].number(),
        squawk: state[14].text(),
    }
}

/// The text of a required field.
fn text_or_empty(v: &JsonValue) -> (s: String)
    ensures
        s@ == required_text(*v),
{
    match v.as_str() {
        Some(t) => String::from_str(t),
        None => String::new(),
    }
}

/// The text of a field that may be absent.
fn text_if_any(v: &JsonValue) -> (s: Option<String>)
    ensures
        text_view(s) == v.text(),
{
    match v.as_str() {
        Some(t) => Some(String::from_str(t)),
        None => None,
    }
}

/// The callsign in an element.
fn callsign_of(v: &JsonValue) -> (s: Option<String>)
    ensures
        text_view(s) == callsign_text(*v),
{
    match v.as_str() {
        Some(t) => {
            let kept = trim(t);
            if kept.unicode_len() == 0 {
                None
            } else {
                Some(String::from_str(kept))
            }
        },
        None => None,
    }
}

impl Aircraft {
    /// The aircraft that a state vector describes. A vector of fewer than
    /// seventeen elements is refused, with its length; any other is read.
    pub fn from_state_vector(state: Vec<JsonValue>) -> (r: Result<Aircraft, IfoError>)
        ensures
            r is Ok <==> state.len() >= STATE_VECTOR_LENGTH,
            r matches Ok(a) ==> a@ == state_vector_view(state@),
            r matches Err(e) ==> e == (IfoError::InvalidStateVector {
                expected: STATE_VECTOR_LENGTH,
                got: state.len(),
            }),
    {
        if state.len() < STATE_VECTOR_LENGTH {
            return Err(
                IfoError::InvalidStateVector { expected: STATE_VECTOR_LENGTH, got: state.len() },
            );
        }
        let on_ground = match state[8].as_bool() {
            Some(b) => b,
            None => false,
        };
        Ok(
            Aircraft {
                icao24: text_or_empty(&state[0]),
                callsign: callsign_of(&state[1]),
                origin_country: text_or_empty(&state[2]),
                longitude: state[5].as_double(),
                latitude: state[6].as_double(),
                baro_altitude: state[7].as_double(),
                on_ground,
                velocity: state[9].as_double(),
                true_track: state[10].as_double(),
                vertical_rate: state[11].as_double(),
                geo_altitude: state[13].as_double(),
                squawk: text_if_any(&state[14]),
            },
        )
    }
}

/// A place that the geocoding service found.
#[derive(Clone, Debug)]
pub struct Location {
    pub lat: Double,
    pub lon: Double,
    pub display_name: String,
}

/// The body of an answer to the area query.
#[derive(Debug)]
pub struct OpenSkyResponse {
    pub time: Option<i64>,
    pub states: Option<Vec<Vec<JsonValue>>>,
}

/// One match of the geocoding service, as it is sent: the two numbers are text.
#[derive(Clone, Debug)]
pub struct NominatimResult {
    pub lat: String,
    pub lon: String,
    pub display_name: String,
}

} // verus!
