//! The parts of a URL.

use vstd::prelude::*;
use vstd::string::*;

use crate::text;

verus! {

/// The parts of a URL.
#[derive(Debug, Clone, PartialEq, Eq)]
pub struct UrlParts {
    pub scheme: Option<String>,
    pub host: Option<String>,
    pub port: Option<u16>,
    pub path_and_query: Option<String>,
}

/// What the parts of a URL are.
#[verifier::ext_equal]
pub struct UrlView {
    pub scheme: Option<Seq<char>>,
    pub host: Option<Seq<char>>,
    pub port: Option<u16>,
    pub path_and_query: Option<Seq<char>>,
}

impl View for UrlParts {
    type V = UrlView;

    open spec fn view(&self) -> UrlView {
        UrlView {
            scheme: text::opt_text(self.scheme),
            host: text::opt_text(self.host),
            port: self.port,
            path_and_query: text::opt_text(self.path_and_query),
        }
    }
}

/// What parsing a URL gives: its parts, or the text of the error.
pub open spec fn parse_view(r: Result<UrlParts, String>) -> Result<UrlView, Seq<char>> {
    match r {
        Ok(p) => Ok(p@),
        Err(e) => Err(e@),
    }
}

/// What `http::Uri` makes of a text.
pub uninterp spec fn parsed_uri(url: Seq<char>) -> Result<UrlView, Seq<char>>;

/// `http::Uri` from a text: its scheme, host, port, and path with query, or
/// the text of the error. The parts depend on the text alone.
#[verifier::external_body]
pub(crate) fn parse_uri(url: &str) -> (r: Result<UrlParts, String>)
    ensures
        parse_view(r) == parsed_uri(url@),
{
    match url.parse::<http::Uri>() {
        Ok(uri) => Ok(UrlParts {
            scheme: uri.scheme_str().map(|s| s.to_string()),
            host: uri.host().map(|s| s.to_string()),
            port: uri.port_u16(),
            path_and_query: uri.path_and_query().map(|p| p.as_str().to_string()),
        }),
        Err(e) => Err(e.to_string()),
    }
}

} // verus!
