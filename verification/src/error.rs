//! The aggregate over the errors of the domains, for the boundaries of the
//! gateway.
//!
//! A call site that can recover from a failure matches the error of the
//! domain; what is left at a boundary is to log, report or terminate. The
//! text of a domain error is passed on as it is.

use vstd::prelude::*;
use vstd::string::*;

use crate::extensions;
use crate::extensions::ExtensionsError;

verus! {

/// An error of any domain.
#[derive(Debug, Clone, PartialEq, Eq)]
#[non_exhaustive]
pub enum Error {
    /// The configuration could not be compiled.
    Compile(String),
    /// TLS material could not be loaded, built or reloaded.
    Tls(String),
    /// The durable state store failed.
    Store(String),
    /// An upstream request failed.
    Upstream(String),
    /// The body of an upstream response failed.
    UpstreamBody(String),
    /// The body of an inbound request failed.
    InboundBody(String),
    /// Authentication failed.
    Auth(String),
    /// An extension failed.
    Extensions(ExtensionsError),
    /// The AI domain failed.
    Ai(String),
}

/// The text of an error: that of the domain error.
pub open spec fn error_text(e: Error) -> Seq<char> {
    match e {
        Error::Compile(m) => m@,
        Error::Tls(m) => m@,
        Error::Store(m) => m@,
        Error::Upstream(m) => m@,
        Error::UpstreamBody(m) => m@,
        Error::InboundBody(m) => m@,
        Error::Auth(m) => m@,
        Error::Extensions(x) => extensions::error_text(x),
        Error::Ai(m) => m@,
    }
}

impl Error {
    /// The text of the error: that of the domain error, as it is.
    pub fn message(&self) -> (s: String)
        ensures
            s@ == error_text(*self),
    {
        match self {
            Error::Compile(m) => m.clone(),
            Error::Tls(m) => m.clone(),
            Error::Store(m) => m.clone(),
            Error::Upstream(m) => m.clone(),
            Error::UpstreamBody(m) => m.clone(),
            Error::InboundBody(m) => m.clone(),
            Error::Auth(m) => m.clone(),
            Error::Extensions(e) => e.message(),
            Error::Ai(m) => m.clone(),
        }
    }

    /// The error of an extension, unchanged.
    pub fn from_extensions(e: ExtensionsError) -> (r: Self)
        ensures
            r == Error::Extensions(e),
    {
        Error::Extensions(e)
    }
}

} // verus!
