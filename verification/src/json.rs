//! Loosely typed values, as a service sends them.

use vstd::prelude::*;
use crate::number::Double;

verus! {

/// One element of a JSON array, as far as a state vector is read: a scalar
/// keeps its content, an array or an object only its kind.
#[derive(Clone, Debug)]
pub enum JsonValue {
    Null,
    Bool(bool),
    /// A number, as the double it is read as.
    Number(Double),
    String(String),
    /// An array or an object: no field is read from one.
    Composite,
}

impl JsonValue {
    /// The text of a string, and nothing of any other value.
    pub open spec fn text(self) -> Option<Seq<char>> {
        match self {
            JsonValue::String(s) => Some(s@),
            _ => None,
        }
    }

    /// The double of a number, and nothing of any other value.
    pub open spec fn number(self) -> Option<Double> {
        match self {
            JsonValue::Number(n) => Some(n),
            _ => None,
        }
    }

    /// The truth value of a boolean, and nothing of any other value.
    pub open spec fn truth(self) -> Option<bool> {
        match self {
            JsonValue::Bool(b) => Some(b),
            _ => None,
        }
    }

    /// The text, if the value is a string.
    pub fn as_str(&self) -> (r: Option<&str>)
        ensures
            r is Some <==> self.text() is Some,
            r matches Some(t) ==> self.text() == Some(t@),
    {
        match self {
            JsonValue::String(s) => Some(s.as_str()),
            _ => None,
        }
    }

    /// The double, if the value is a number.
    pub fn as_double(&self) -> (r: Option<Double>)
        ensures
            r == self.number(),
    {
        match self {
            JsonValue::Number(n) => Some(*n),
            _ => None,
        }
    }

    /// The truth value, if the value is a boolean.
    pub fn as_bool(&self) -> (r: Option<bool>)
        ensures
            r == self.truth(),
    {
        match self {
            JsonValue::Bool(b) => Some(*b),
            _ => None,
        }
    }
}

} // verus!
