//! Why a lookup fails.

use vstd::prelude::*;

verus! {

#[verifier::external_type_specification]
#[verifier::external_body]
pub struct ExIoError(std::io::Error);

#[verifier::external_type_specification]
#[verifier::external_body]
pub struct ExResolveError(trust_dns_resolver::error::ResolveError);

/// Why a lookup failed.
#[derive(Debug)]
pub enum Error {
    /// The query found no usable records.
    NoResultsFound,
    /// The resolver could not be set up or reached.
    Io(std::io::Error),
    /// The DNS resolution failed.
    Resolver(trust_dns_resolver::error::ResolveError),
}

impl From<std::io::Error> for Error {
    fn from(err: std::io::Error) -> (r: Error)
        ensures
            r == Error::Io(err),
    {
        Error::Io(err)
    }
}

impl vstd::std_specs::convert::FromSpecImpl<std::io::Error> for Error {
    open spec fn obeys_from_spec() -> bool {
        true
    }

    open spec fn from_spec(v: std::io::Error) -> Error {
        Error::Io(v)
    }
}

impl From<trust_dns_resolver::error::ResolveError> for Error {
    fn from(err: trust_dns_resolver::error::ResolveError) -> (r: Error)
        ensures
            r == Error::Resolver(err),
    {
        Error::Resolver(err)
    }
}

impl vstd::std_specs::convert::FromSpecImpl<trust_dns_resolver::error::ResolveError> for Error {
    open spec fn obeys_from_spec() -> bool {
        true
    }

    open spec fn from_spec(v: trust_dns_resolver::error::ResolveError) -> Error {
        Error::Resolver(v)
    }
}

} // verus!
