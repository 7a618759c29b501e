//! The rules of geocoding: what is asked of Nominatim, the geocoding service
//! of OpenStreetMap, and what its answer means.

use vstd::prelude::*;
use vstd::string::{StrSliceExecFns, StringExecFns};
use crate::error::IfoError;
use crate::http::{is_success, success, Body, Reply};
use crate::models::{Location, NominatimResult};
use crate::number::Double;
use crate::text::{trim, trimmed};

verus! {

/// The greatest number of characters of a place name.
pub const MAX_PLACE_LENGTH: usize = 200;

/// The client's side of geocoding, apart from the transport and its rate limit.
#[derive(Debug)]
pub struct Geocoder {
    pub base_url: String,
    pub user_agent: String,
    pub timeout_secs: u64,
}

/// A request to the geocoding service.
#[derive(Debug)]
pub struct GeocodeRequest {
    pub url: String,
    pub query: Vec<(String, String)>,
}

/// One parameter of a request's query.
pub open spec fn is_parameter(pair: (String, String), name: Seq<char>, value: Seq<char>) -> bool {
    pair.0@ == name && pair.1@ == value
}

/// The place name as it is sent: trimmed, where something is left of it and
/// that is no longer than allowed.
pub fn validate_place<'a>(place: &'a str) -> (r: Result<&'a str, IfoError>)
    ensures
        trimmed(place@).len() == 0 ==> r == Err::<&str, IfoError>(IfoError::EmptyPlaceName),
        trimmed(place@).len() > MAX_PLACE_LENGTH ==> r == Err::<&str, IfoError>(
            IfoError::PlaceNameTooLong { max: MAX_PLACE_LENGTH },
        ),
        0 < trimmed(place@).len() <= MAX_PLACE_LENGTH ==> (r matches Ok(name) && name@ == trimmed(
            place@,
        )),
{
    let name = trim(place);
    let length = name.unicode_len();
    if length == 0 {
        return Err(IfoError::EmptyPlaceName);
    }
    if length > MAX_PLACE_LENGTH {
        return Err(IfoError::PlaceNameTooLong { max: MAX_PLACE_LENGTH });
    }
    Ok(name)
}

impl Geocoder {
    /// The client of the public service, which gives up on a request after
    /// `timeout_secs` seconds.
    pub fn new(timeout_secs: u64) -> (geocoder: Geocoder)
        ensures
            geocoder.base_url@ == "https://nominatim.openstreetmap.org"@,
            geocoder.user_agent@ == "IFO-CLI/2.0 (Aircraft tracking tool)"@,
            geocoder.timeout_secs == timeout_secs,
    {
        Geocoder {
            base_url: String::from_str("https://nominatim.openstreetmap.org"),
            user_agent: String::from_str("IFO-CLI/2.0 (Aircraft tracking tool)"),
            timeout_secs,
        }
    }

    /// The request that looks a place up: a search for the trimmed name that
    /// asks for one match at most, as JSON. A name that `validate_place`
    /// refuses is refused here, and no request is made of it.
    pub fn geocode(&self, place: &str) -> (r: Result<GeocodeRequest, IfoError>)
        ensures
            trimmed(place@).len() == 0 ==> r matches Err(IfoError::EmptyPlaceName),
            trimmed(place@).len() > MAX_PLACE_LENGTH ==> (r matches Err(
                IfoError::PlaceNameTooLong { max },
            ) && max == MAX_PLACE_LENGTH),
            0 < trimmed(place@).len() <= MAX_PLACE_LENGTH ==> (r matches Ok(request) && {
                &&& request.url@ == self.base_url@ + "/search"@
                &&& request.query.len() == 3
                &&& is_parameter(request.query[0], "q"@, trimmed(place@))
                &&& is_parameter(request.query[1], "format"@, "json"@)
                &&& is_parameter(request.query[2], "limit"@, "1"@)
            }),
    {
        let name = match validate_place(place) {
            Ok(name) => name,
            Err(e) => {
                return Err(e);
            },
        };
        let mut query: Vec<(String, String)> = Vec::with_capacity(3);
        query.push((String::from_str("q"), String::from_str(name)));
        query.push((String::from_str("format"), String::from_str("json")));
        query.push((String::from_str("limit"), String::from_str("1")));
        Ok(GeocodeRequest { url: self.base_url.clone().concat("/search"), query })
    }

    /// The best match in an answer of the geocoding service.
    ///
    /// An answer that is no success fails with its status and text. A
    /// success whose body was not decoded cannot be used. A decoded body
    /// gives its first match, or none where the service found nothing: that
    /// is an answer, not a failure.
    pub fn first_match(&self, reply: Reply<Vec<NominatimResult>>) -> (r: Result<
        Option<NominatimResult>,
        IfoError,
    >)
        ensures
            !success(reply.status) ==> (r matches Err(IfoError::ApiError { status, message })
                && status == reply.status && message@ == "Geocoding failed: "@
                + reply.body.text()),
            success(reply.status) && reply.body is Text ==> (r matches Err(
                IfoError::UnexpectedResponse { service },
            ) && service@ == "Nominatim"@),
            success(reply.status) ==> (reply.body matches Body::Decoded(results) ==> (r matches Ok(
                found,
            ) && found == if results.len() == 0 {
                None
            } else {
                Some(results[0])
            })),
    {
        if !is_success(reply.status) {
            let status = reply.status;
            let text = reply.into_text();
            let message = String::from_str("Geocoding failed: ").concat(text.as_str());
            return Err(IfoError::ApiError { status, message });
        }
        match reply.body {
            Body::Text(_) => Err(
                IfoError::UnexpectedResponse { service: String::from_str("Nominatim") },
            ),
            Body::Decoded(results) => {
                let mut results = results;
                if results.len() == 0 {
                    Ok(None)
                } else {
                    Ok(Some(results.swap_remove(0)))
                }
            },
        }
    }

    /// The place of a match, given the numbers that its latitude and its
    /// longitude read as. Where either text is no number the answer cannot
    /// be used.
    pub fn location(result: NominatimResult, lat: Option<Double>, lon: Option<Double>) -> (r:
        Result<Location, IfoError>)
        ensures
            lat is None || lon is None ==> (r matches Err(
                IfoError::UnexpectedResponse { service },
            ) && service@ == "Nominatim"@),
            lat matches Some(y) ==> (lon matches Some(x) ==> (r matches Ok(place) && place.lat == y
                && place.lon == x && place.display_name == result.display_name)),
    {
        match (lat, lon) {
            (Some(y), Some(x)) => Ok(Location { lat: y, lon: x, display_name: result.display_name }),
            _ => Err(IfoError::UnexpectedResponse { service: String::from_str("Nominatim") }),
        }
    }
}

} // verus!
