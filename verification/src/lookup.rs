//! The course of one lookup: from what the user gave to the area that is
//! queried. Each step takes what the step before it made and what came back
//! from outside; a step that fails ends the lookup, and none is tried again.

use vstd::prelude::*;
use vstd::string::{StrSliceExecFns, StringExecFns};
use crate::error::IfoError;
use crate::models::{BoundingBox, Coordinate, Location};
use crate::number::Double;
use crate::text::{trim, trimmed};

verus! {

/// The two fields of a coordinate text, as they stand before and after its comma.
#[derive(Debug)]
pub struct CoordinateText {
    pub latitude: String,
    pub longitude: String,
}

/// How many commas a text holds.
pub open spec fn commas(s: Seq<char>) -> nat
    decreases s.len(),
{
    if s.len() == 0 {
        0
    } else {
        commas(s.drop_last()) + if s.last() == ',' {
            1nat
        } else {
            0nat
        }
    }
}

/// What the error says of a text that is not two fields.
pub open spec fn format_message() -> Seq<char> {
    "Coordinates must be in format 'latitude,longitude'"@
}

/// The two fields of a coordinate text: a text with one comma is split at
/// it, and any other text is refused.
pub fn split_coordinates(coord_str: &str) -> (r: Result<CoordinateText, IfoError>)
    ensures
        r is Ok <==> commas(coord_str@) == 1,
        r matches Ok(text) ==> {
            &&& coord_str@ == text.latitude@ + seq![','] + text.longitude@
            &&& !text.latitude@.contains(',')
            &&& !text.longitude@.contains(',')
        },
        r matches Err(e) ==> (e matches IfoError::InvalidCoordinates(m) && m@ == format_message()),
{
    let ghost s = coord_str@;
    let n: usize = coord_str.unicode_len();
    let mut i: usize = 0;
    let mut count: usize = 0;
    let mut at: usize = 0;
    assert(s.take(0) =~= Seq::empty());
    while i < n
        invariant
            s == coord_str@,
            i <= n == s.len(),
            count == commas(s.take(i as int)),
            count <= i,
            count == 0 ==> forall|j: int| 0 <= j < i ==> s[j] != ',',
            count >= 1 ==> at < i && s[at as int] == ',' && forall|j: int| 0 <= j < at ==> s[j] != ',',
            count == 1 ==> forall|j: int| at < j < i ==> s[j] != ',',
        decreases n - i,
    {
        let c = coord_str.get_char(i);
        proof {
            assert(s.take(i + 1).drop_last() =~= s.take(i as int));
            assert(s.take(i + 1).last() == s[i as int]);
        }
        if c == ',' {
            if count == 0 {
                at = i;
            }
            count = count + 1;
        }
        i = i + 1;
    }
    assert(s.take(n as int) =~= s);
    if count != 1 {
        return Err(
            IfoError::InvalidCoordinates(
                String::from_str("Coordinates must be in format 'latitude,longitude'"),
            ),
        );
    }
    let latitude = coord_str.substring_char(0, at);
    let longitude = coord_str.substring_char(at + 1, n);
    proof {
        assert(s =~= latitude@ + seq![','] + longitude@);
        assert forall|j: int| 0 <= j < latitude@.len() implies latitude@[j] != ',' by {
            assert(latitude@[j] == s[j]);
        }
        assert forall|j: int| 0 <= j < longitude@.len() implies longitude@[j] != ',' by {
            assert(longitude@[j] == s[at + 1 + j]);
        }
    }
    Ok(
        CoordinateText {
            latitude: String::from_str(latitude),
            longitude: String::from_str(longitude),
        },
    )
}

impl CoordinateText {
    /// The text that is read as the latitude: the first field, trimmed.
    pub fn latitude_text(&self) -> (t: &str)
        ensures
            t@ == trimmed(self.latitude@),
    {
        trim(self.latitude.as_str())
    }

    /// The text that is read as the longitude: the second field, trimmed.
    pub fn longitude_text(&self) -> (t: &str)
        ensures
            t@ == trimmed(self.longitude@),
    {
        trim(self.longitude.as_str())
    }
}

/// The point that a coordinate text names, given the numbers that its two
/// fields read as. A field that is no number is refused with the field as it
/// was written, the latitude first; two numbers make the point that
/// `Coordinate::new` makes of them.
pub fn parse_coordinates(
    text: &CoordinateText,
    latitude: Option<Double>,
    longitude: Option<Double>,
) -> (r: Result<Coordinate, IfoError>)
    ensures
        latitude is None ==> (r matches Err(IfoError::InvalidCoordinates(m)) && m@
            == "Invalid latitude: "@ + text.latitude@),
        latitude is Some && longitude is None ==> (r matches Err(IfoError::InvalidCoordinates(m))
            && m@ == "Invalid longitude: "@ + text.longitude@),
        latitude matches Some(y) ==> (longitude matches Some(x) ==> r == Coordinate::checked(y, x)),
{
    let y = match latitude {
        Some(y) => y,
        None => {
            let message = String::from_str("Invalid latitude: ").concat(text.latitude.as_str());
            return Err(IfoError::InvalidCoordinates(message));
        },
    };
    let x = match longitude {
        Some(x) => x,
        None => {
            let message = String::from_str("Invalid longitude: ").concat(text.longitude.as_str());
            return Err(IfoError::InvalidCoordinates(message));
        },
    };
    Coordinate::new(y, x)
}

/// What a lookup calls the place it looks at.
#[derive(Debug)]
pub enum LocationName {
    /// The point itself, for a lookup by coordinates.
    Coordinates(Coordinate),
    /// The name that the geocoding service gave, for a lookup by place.
    Place(String),
}

/// A resolved location: the centre of the area, and what to call it.
#[derive(Debug)]
pub struct Resolved {
    pub center: Coordinate,
    pub name: LocationName,
}

/// An area to query, and what to call it.
#[derive(Debug)]
pub struct QueryArea {
    pub bbox: BoundingBox,
    pub name: LocationName,
}

/// The location of a lookup by coordinates.
pub fn resolve_coordinates(center: Coordinate) -> (r: Resolved)
    ensures
        r.center == center,
        r.name == LocationName::Coordinates(center),
{
    Resolved { center, name: LocationName::Coordinates(center) }
}

/// The location of a lookup by place, given what the geocoding service
/// found. No match fails with the place as it was asked for; a match whose
/// numbers are no point on the globe fails as `Coordinate::new` does.
pub fn resolve_place(place: &str, found: Option<Location>) -> (r: Result<Resolved, IfoError>)
    ensures
        found is None ==> (r matches Err(IfoError::LocationNotFound(p)) && p@ == place@),
        found matches Some(location) ==> match Coordinate::checked(location.lat, location.lon) {
            Ok(center) => r matches Ok(resolved) && resolved.center == center && resolved.name
                == LocationName::Place(location.display_name),
            Err(e) => r matches Err(f) && f == e,
        },
{
    match found {
        None => Err(IfoError::LocationNotFound(String::from_str(place))),
        Some(location) => match Coordinate::new(location.lat, location.lon) {
            Ok(center) => Ok(Resolved { center, name: LocationName::Place(location.display_name) }),
            Err(e) => Err(e),
        },
    }
}

impl Resolved {
    /// The area to query: the box around the centre.
    pub fn area(self, radius_deg: Double) -> (q: QueryArea)
        ensures
            q.name == self.name,
            q.bbox == BoundingBox::around(self.center, radius_deg),
    {
        QueryArea { bbox: BoundingBox::from_center(self.center, radius_deg), name: self.name }
    }
}

/// The exit code of a run: 0 after a lookup that went through, however few
/// aircraft it found, and 1 after one that failed.
pub fn exit_code<T, E>(outcome: &Result<T, E>) -> (code: i32)
    ensures
        code == if outcome is Ok {
            0i32
        } else {
            1i32
        },
{
    match outcome {
        Ok(_) => 0,
        Err(_) => 1,
    }
}

} // verus!
