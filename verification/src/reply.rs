//! What an endpoint answers with: a status and a text body, or the kind of
//! failure that stopped the request before its handler ran.

use vstd::prelude::*;

verus! {

/// Why a request was turned away before any handler ran.
#[derive(Clone, Copy, Debug, PartialEq, Eq, Structural)]
pub enum Failure {
    /// A required query parameter is absent.
    MalformedQuery,
    /// The body does not decode into the record the route needs.
    MalformedBody,
    /// A POST whose content type is not JSON.
    UnsupportedMediaType,
}

impl Failure {
    /// The HTTP status that reports this failure.
    pub open spec fn spec_status(self) -> u16 {
        match self {
            Failure::MalformedQuery => 400,
            Failure::MalformedBody => 422,
            Failure::UnsupportedMediaType => 415,
        }
    }

    /// The HTTP status that reports this failure.
    #[verifier::when_used_as_spec(spec_status)]
    pub fn status(self) -> (code: u16)
        ensures
            code == self.spec_status(),
    {
        match self {
            Failure::MalformedQuery => 400,
            Failure::MalformedBody => 422,
            Failure::UnsupportedMediaType => 415,
        }
    }
}

/// A response with a status of its own and a text body.
#[derive(Debug, PartialEq, Eq)]
pub struct Reply {
    pub status: u16,
    pub body: String,
}

} // verus!
