//! What can go wrong in a lookup.

use vstd::prelude::*;
use crate::number::Double;

verus! {

/// The transport's error: carried, never inspected.
#[verifier::external_type_specification]
#[verifier::external_body]
pub struct ExNetworkFailure(reqwest::Error);

/// The JSON decoder's error: carried, never inspected.
#[verifier::external_type_specification]
#[verifier::external_body]
pub struct ExJsonFailure(serde_json::Error);

/// The operating system's error: carried, never inspected.
#[verifier::external_type_specification]
#[verifier::external_body]
pub struct ExIoFailure(std::io::Error);

/// Every failure of a lookup. The first seven are faults of the input, the
/// rest are faults of a service or of the machine.
#[derive(Debug)]
pub enum IfoError {
    /// The coordinate text is not two numbers separated by a comma.
    InvalidCoordinates(String),
    /// A latitude outside -90 to 90, or not a number.
    InvalidLatitude(Double),
    /// A longitude outside -180 to 180, or not a number.
    InvalidLongitude(Double),
    /// Bounds that are each in range but in the wrong order.
    InvalidBoundingBox(String),
    /// A place name that is empty once trimmed.
    EmptyPlaceName,
    /// A place name of more than `max` characters.
    PlaceNameTooLong { max: usize },
    /// The geocoding service knows no such place.
    LocationNotFound(String),
    /// The request could not be sent or its answer could not be read.
    NetworkError(reqwest::Error),
    /// A service answered with a status outside the success class.
    ApiError { status: u16, message: String },
    /// A body that is not the JSON expected.
    JsonError(serde_json::Error),
    /// A well-formed answer whose content cannot be used.
    UnexpectedResponse { service: String },
    /// A state vector with fewer elements than the layout has.
    InvalidStateVector { expected: usize, got: usize },
    /// The rate limit was exceeded.
    RateLimitExceeded,
    /// No answer within the time allowed.
    Timeout { seconds: u64 },
    /// A failure of local input or output.
    IoError(std::io::Error),
}

} // verus!
