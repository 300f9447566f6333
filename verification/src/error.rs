//! The error reported when an endpoint cannot be parsed or resolved.

use vstd::prelude::*;

verus! {

/// Why a connection string was rejected, or why an endpoint has no
/// socket address.
#[derive(Debug, Clone, PartialEq, Eq)]
pub enum ParseEndpointError {
    /// The text is a well-formed URL whose scheme is not a supported one.
    InvalidScheme,
    /// The text is malformed, lacks a host or a required port, or names
    /// a host that could not be resolved. Carries the offending text.
    InvalidAddress(String),
}

/// Mathematical value of a [`ParseEndpointError`].
pub enum ErrorView {
    InvalidScheme,
    InvalidAddress(Seq<char>),
}

impl View for ParseEndpointError {
    type V = ErrorView;

    open spec fn view(&self) -> ErrorView {
        match self {
            ParseEndpointError::InvalidScheme => ErrorView::InvalidScheme,
            ParseEndpointError::InvalidAddress(detail) => ErrorView::InvalidAddress(detail@),
        }
    }
}

impl ErrorView {
    /// The human-readable message of the error.
    pub open spec fn message(self) -> Seq<char> {
        match self {
            ErrorView::InvalidScheme => "unsupported scheme"@,
            ErrorView::InvalidAddress(detail) => "invalid address: "@ + detail,
        }
    }
}

impl ParseEndpointError {
    /// Renders the error as a human-readable message.
    pub fn to_string(&self) -> (text: String)
        ensures
            text@ == self@.message(),
    {
        match self {
            ParseEndpointError::InvalidScheme => String::from_str("unsupported scheme"),
            ParseEndpointError::InvalidAddress(detail) => {
                let mut text = String::from_str("invalid address: ");
                text.append(detail.as_str());
                text
            },
        }
    }
}

} // verus!
