//! Absolute resource addresses.
//!
//! A [`Locator`] holds the serialized form of an absolute URL, as the
//! `url` crate produced it. Resolution — joining a base address with a
//! possibly relative reference found in an attribute — is the work of
//! `url::Url::join`; its result is named by the uninterpreted function
//! [`url_join_of`], and every part of the crate that resolves the same
//! reference against the same base is thereby known to reach the same
//! address.

use crate::error::Error;
use crate::text::str_eq;
use url::Url;
use vstd::prelude::*;

verus! {

/// What `url::Url::parse` makes of an address: the serialized parsed
/// address, or nothing when the text is not a well formed absolute URL.
pub uninterp spec fn url_parse_of(s: Seq<char>) -> Option<Seq<char>>;

/// What joining a reference against a base address yields: the
/// serialized absolute address, or nothing when the base does not
/// parse or the reference cannot be joined to it.
pub uninterp spec fn url_join_of(base: Seq<char>, rel: Seq<char>) -> Option<Seq<char>>;

/// Relies on url::Url::parse and the url crate's serialization of a
/// parsed URL: the outcome depends on the address text alone.
#[verifier::external_body]
fn parse_absolute(s: &str) -> (r: Result<String, String>)
    ensures
        match r {
            Ok(t) => url_parse_of(s@) == Some(t@),
            Err(_) => url_parse_of(s@) is None,
        },
{
    match Url::parse(s) {
        Ok(u) => Ok(String::from(u)),
        Err(e) => Err(format!("{}", e)),
    }
}

/// Relies on url::Url::parse and url::Url::join: standard base plus
/// relative joining, where an absolute reference overrides the base
/// entirely. The outcome depends on the two texts alone.
#[verifier::external_body]
pub(crate) fn join_absolute(base: &str, rel: &str) -> (r: Option<String>)
    ensures
        match r {
            Some(t) => url_join_of(base@, rel@) == Some(t@),
            None => url_join_of(base@, rel@) is None,
        },
{
    match Url::parse(base) {
        Ok(b) => match b.join(rel) {
            Ok(u) => Some(String::from(u)),
            Err(_) => None,
        },
        Err(_) => None,
    }
}

/// An absolute resource address.
#[derive(Debug)]
pub struct Locator {
    url: String,
}

impl View for Locator {
    type V = Seq<char>;

    closed spec fn view(&self) -> Seq<char> {
        self.url@
    }
}

impl PartialEq for Locator {
    fn eq(&self, other: &Locator) -> (r: bool) {
        self.url == other.url
    }
}

impl vstd::std_specs::cmp::PartialEqSpecImpl for Locator {
    open spec fn obeys_eq_spec() -> bool {
        true
    }

    open spec fn eq_spec(&self, other: &Locator) -> bool {
        self@ == other@
    }
}

impl Locator {
    /// Parses an address; a text that is not a well formed absolute
    /// URL is rejected with a `ParseError` and nothing else happens.
    pub fn parse(s: &str) -> (r: Result<Locator, Error>)
        ensures
            r is Ok <==> url_parse_of(s@) is Some,
            r matches Ok(l) ==> url_parse_of(s@) == Some(l@),
            r matches Err(e) ==> e is ParseError,
    {
        match parse_absolute(s) {
            Ok(t) => Ok(Locator { url: t }),
            Err(m) => Err(Error::ParseError(m)),
        }
    }

    /// Resolves a possibly relative reference against this address;
    /// a reference that cannot be joined is rejected with a
    /// `ParseError`.
    pub fn join(&self, rel: &str) -> (r: Result<Locator, Error>)
        ensures
            r is Ok <==> url_join_of(self@, rel@) is Some,
            r matches Ok(l) ==> url_join_of(self@, rel@) == Some(l@),
            r matches Err(e) ==> e is ParseError,
    {
        match join_absolute(self.url.as_str(), rel) {
            Some(t) => Ok(Locator { url: t }),
            None => Err(Error::ParseError("the reference cannot be joined to the base address".to_string())),
        }
    }

    /// Joins and keeps only the outcome, for callers that skip
    /// unresolvable references rather than fail.
    pub(crate) fn join_opt(&self, rel: &str) -> (r: Option<Locator>)
        ensures
            r is Some <==> url_join_of(self@, rel@) is Some,
            r matches Some(l) ==> url_join_of(self@, rel@) == Some(l@),
    {
        match join_absolute(self.url.as_str(), rel) {
            Some(t) => Some(Locator { url: t }),
            None => None,
        }
    }

    /// The serialized address.
    pub fn as_str(&self) -> (r: &str)
        ensures
            r@ == self@,
    {
        self.url.as_str()
    }

    /// A copy of this address.
    pub fn duplicate(&self) -> (r: Locator)
        ensures
            r@ == self@,
    {
        Locator { url: self.url.clone() }
    }

    /// Whether this address equals another, character for character.
    pub fn same_as(&self, other: &Locator) -> (r: bool)
        ensures
            r == (self@ == other@),
    {
        str_eq(self.url.as_str(), other.url.as_str())
    }
}

} // verus!
