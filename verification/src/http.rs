//! What a service's answer is to the rules: a status and a body.

use vstd::prelude::*;

verus! {

/// The success class of HTTP status codes.
pub open spec fn success(status: u16) -> bool {
    200 <= status <= 299
}

/// `reqwest::StatusCode::is_success`, on the code that
/// `reqwest::StatusCode::from_u16` makes of the number. Not proved: that the
/// first holds of the codes 200 to 299 alone, and that the second refuses no
/// number in that range.
#[verifier::external_body]
fn status_is_success(status: u16) -> (r: bool)
    ensures
        r == success(status),
{
    match reqwest::StatusCode::from_u16(status) {
        Ok(code) => code.is_success(),
        Err(_) => false,
    }
}

/// Whether a status code is in the success class. The transport asks this to
/// know how to read the body: decoded after a success, as text otherwise.
pub fn is_success(status: u16) -> (r: bool)
    ensures
        r == success(status),
{
    status_is_success(status)
}

/// The body of an answer, as the transport read it.
#[derive(Debug)]
pub enum Body<T> {
    /// The body as text; empty where it could not be read.
    Text(String),
    /// The body decoded from JSON.
    Decoded(T),
}

/// One answer of a service.
#[derive(Debug)]
pub struct Reply<T> {
    pub status: u16,
    pub body: Body<T>,
}

impl<T> Body<T> {
    /// The text of a body read as text, and the empty text of any other.
    pub open spec fn text(self) -> Seq<char> {
        match self {
            Body::Text(t) => t@,
            Body::Decoded(_) => Seq::empty(),
        }
    }
}

impl<T> Reply<T> {
    /// The text to report of an answer that is no success.
    pub fn into_text(self) -> (t: String)
        ensures
            t@ == self.body.text(),
    {
        match self.body {
            Body::Text(t) => t,
            Body::Decoded(_) => String::new(),
        }
    }
}

} // verus!
