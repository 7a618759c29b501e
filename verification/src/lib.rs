//! Aircraft over a place: the rules of the lookup, without its input and output.

pub mod api;
pub mod error;
pub mod geocoding;
pub mod http;
pub mod json;
pub mod lookup;
pub mod models;
pub mod number;
pub mod rounding;
pub mod sum;
pub mod text;

pub use error::IfoError;
pub use json::JsonValue;
pub use models::{Aircraft, BoundingBox, Coordinate, Location};
