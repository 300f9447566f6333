//! The parts of a URL that an endpoint is built from, as the `url` crate
//! reads them.

use vstd::prelude::*;

verus! {

/// The scheme, host and port of a parsed URL.
#[derive(Debug, Clone, PartialEq, Eq)]
pub struct UrlParts {
    /// The scheme, without the `:` that follows it.
    pub scheme: String,
    /// The host as it is serialized, if the URL has one.
    pub host: Option<String>,
    /// The port as the URL parser reports it. It reports none where the
    /// text writes none, and also where the text writes the port that
    /// the parser takes as the default of the scheme.
    pub port: Option<u16>,
}

/// Mathematical value of [`UrlParts`].
pub struct UrlPartsView {
    pub scheme: Seq<char>,
    pub host: Option<Seq<char>>,
    pub port: Option<u16>,
}

impl View for UrlParts {
    type V = UrlPartsView;

    open spec fn view(&self) -> UrlPartsView {
        UrlPartsView {
            scheme: self.scheme@,
            host: match self.host {
                Some(host) => Some(host@),
                None => None,
            },
            port: self.port,
        }
    }
}

/// The parts of `input` read as an absolute URL, or `None` if it is not
/// one. This is what `url::Url::parse` makes of `input`; the URL grammar
/// is not restated here.
pub uninterp spec fn url_parts(input: Seq<char>) -> Option<UrlPartsView>;

/// Parses `input` with `url::Url::parse` and copies out what
/// `Url::scheme`, `Url::host_str` and `Url::port` return. Not verified:
/// the contract only gives the outcome its name, [`url_parts`], which
/// claims that the same input always parses to the same parts.
#[verifier::external_body]
pub(crate) fn split_url(input: &str) -> (parts: Option<UrlParts>)
    ensures
        match parts {
            Some(p) => url_parts(input@) == Some(p@),
            None => url_parts(input@) is None,
        },
{
    match ::url::Url::parse(input) {
        Ok(parsed) => Some(
            UrlParts {
                scheme: String::from(parsed.scheme()),
                host: parsed.host_str().map(String::from),
                port: parsed.port(),
            },
        ),
        Err(_) => None,
    }
}

} // verus!
