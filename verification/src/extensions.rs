//! Extension points of the gateway and their built-in backends.
//!
//! All backends share one error type. Its variants map to failure classes
//! rather than to the taxonomy of a single backend.

use vstd::prelude::*;
use vstd::string::*;

use crate::text::cat2;

pub mod analytics;
pub mod cache;
pub mod config_convergence;
pub mod config_source;
pub mod licensing;
pub mod nonce;
pub mod rate_limiter;
pub mod redis_cache;
pub mod redis_quotas;
pub mod redis_rate_limiter;
pub mod secrets;
pub mod vault_secrets;

verus! {

/// Shared error type for all extension backends.
#[derive(Debug, Clone, PartialEq, Eq)]
#[non_exhaustive]
pub enum ExtensionsError {
    /// The backing store or file could not be read or written.
    Io(String),
    /// Input or stored data was malformed.
    Invalid(String),
    /// The backend itself failed.
    Backend(String),
    /// The operation is not supported by this implementation.
    Unsupported(String),
}

/// The text of an error.
pub open spec fn error_text(e: ExtensionsError) -> Seq<char> {
    match e {
        ExtensionsError::Io(m) => "extension io error: "@ + m@,
        ExtensionsError::Invalid(m) => "extension invalid-data error: "@ + m@,
        ExtensionsError::Backend(m) => "extension backend error: "@ + m@,
        ExtensionsError::Unsupported(m) => "extension unsupported operation: "@ + m@,
    }
}

impl ExtensionsError {
    /// The text of the error.
    pub fn message(&self) -> (s: String)
        ensures
            s@ == error_text(*self),
    {
        match self {
            ExtensionsError::Io(m) => cat2("extension io error: ", m.as_str()),
            ExtensionsError::Invalid(m) => cat2("extension invalid-data error: ", m.as_str()),
            ExtensionsError::Backend(m) => cat2("extension backend error: ", m.as_str()),
            ExtensionsError::Unsupported(m) => cat2(
                "extension unsupported operation: ",
                m.as_str(),
            ),
        }
    }
}

} // verus!
