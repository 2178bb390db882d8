//! The error taxonomy of the crate.
//!
//! A failure to understand an address is a `ParseError`; a failure of
//! the transport that fetches a page or a resource is a
//! `TransportError`; an unexpected failure while rewriting a document
//! is a `RenderError`. A resource that answered with a non-success
//! status is no error at all: it is simply absent from the store.

use vstd::prelude::*;

verus! {

/// Why an archive operation failed.
#[derive(Debug)]
pub enum Error {
    /// An address, of the page or of a resource, could not be parsed.
    ParseError(String),
    /// The transport could not complete a request.
    TransportError(String),
    /// The rewritten document could not be produced.
    RenderError(String),
}

impl Error {
    /// A short text for the failure, for callers that report it.
    pub fn message(&self) -> (r: &str)
        ensures
            match self {
                Error::ParseError(m) => r@ == m@,
                Error::TransportError(m) => r@ == m@,
                Error::RenderError(m) => r@ == m@,
            },
    {
        match self {
            Error::ParseError(m) => m.as_str(),
            Error::TransportError(m) => m.as_str(),
            Error::RenderError(m) => m.as_str(),
        }
    }
}

} // verus!
