//! Endpoints: parsing a connection string, rendering an endpoint as its
//! canonical string, and finding its socket addresses.

use crate::authority::{find_written_port, written_port};
use crate::error::{ErrorView, ParseEndpointError};
use crate::host::{host_of_text, HostAddr, HostView};
use crate::scheme::Scheme;
use crate::text::{append_decimal, chars_of, decimal_text, starts_with};
use crate::url_parts::{split_url, url_parts, UrlParts, UrlPartsView};
use vstd::prelude::*;

verus! {

/// A network or file endpoint.
#[derive(Debug, Clone, PartialEq, Eq)]
pub enum Endpoint {
    Http { host: HostAddr, port: u16 },
    Https { host: HostAddr, port: u16 },
    Tcp { host: HostAddr, port: u16 },
    Udp { host: HostAddr, port: u16 },
    Mqtt { host: HostAddr, port: u16 },
    Mqtts { host: HostAddr, port: u16 },
    Ws { host: HostAddr, port: u16 },
    Wss { host: HostAddr, port: u16 },
    Coap { host: HostAddr, port: u16 },
    Coaps { host: HostAddr, port: u16 },
    Redis { host: HostAddr, port: u16 },
    Amqp { host: HostAddr, port: u16 },
    Ftp { host: HostAddr, port: u16 },
    /// The path of a local socket.
    Unix(String),
    /// The path of a file.
    File(String),
}

/// Mathematical value of an [`Endpoint`]: a scheme with host and port,
/// or a path.
pub enum EndpointView {
    Network { scheme: Scheme, host: HostView, port: u16 },
    Unix(Seq<char>),
    File(Seq<char>),
}

impl View for Endpoint {
    type V = EndpointView;

    open spec fn view(&self) -> EndpointView {
        match self {
            Endpoint::Http { host, port } => EndpointView::Network {
                scheme: Scheme::Http,
                host: host@,
                port: *port,
            },
            Endpoint::Https { host, port } => EndpointView::Network {
                scheme: Scheme::Https,
                host: host@,
                port: *port,
            },
            Endpoint::Tcp { host, port } => EndpointView::Network {
                scheme: Scheme::Tcp,
                host: host@,
                port: *port,
            },
            Endpoint::Udp { host, port } => EndpointView::Network {
                scheme: Scheme::Udp,
                host: host@,
                port: *port,
            },
            Endpoint::Mqtt { host, port } => EndpointView::Network {
                scheme: Scheme::Mqtt,
                host: host@,
                port: *port,
            },
            Endpoint::Mqtts { host, port } => EndpointView::Network {
                scheme: Scheme::Mqtts,
                host: host@,
                port: *port,
            },
            Endpoint::Ws { host, port } => EndpointView::Network {
                scheme: Scheme::Ws,
                host: host@,
                port: *port,
            },
            Endpoint::Wss { host, port } => EndpointView::Network {
                scheme: Scheme::Wss,
                host: host@,
                port: *port,
            },
            Endpoint::Coap { host, port } => EndpointView::Network {
                scheme: Scheme::Coap,
                host: host@,
                port: *port,
            },
            Endpoint::Coaps { host, port } => EndpointView::Network {
                scheme: Scheme::Coaps,
                host: host@,
                port: *port,
            },
            Endpoint::Redis { host, port } => EndpointView::Network {
                scheme: Scheme::Redis,
                host: host@,
                port: *port,
            },
            Endpoint::Amqp { host, port } => EndpointView::Network {
                scheme: Scheme::Amqp,
                host: host@,
                port: *port,
            },
            Endpoint::Ftp { host, port } => EndpointView::Network {
                scheme: Scheme::Ftp,
                host: host@,
                port: *port,
            },
            Endpoint::Unix(path) => EndpointView::Unix(path@),
            Endpoint::File(path) => EndpointView::File(path@),
        }
    }
}

impl EndpointView {
    /// The host of a network endpoint is well formed.
    pub open spec fn wf(self) -> bool {
        match self {
            EndpointView::Network { host, .. } => host.wf(),
            _ => true,
        }
    }

    /// The canonical string of the endpoint: `<scheme>://<host>:<port>`
    /// for a network endpoint, `unix://<path>` or `file://<path>` for a
    /// path.
    pub open spec fn text(self) -> Seq<char> {
        match self {
            EndpointView::Network { scheme, host, port } => scheme.text() + "://"@ + host.text()
                + ":"@ + decimal_text(port as nat),
            EndpointView::Unix(path) => "unix://"@ + path,
            EndpointView::File(path) => "file://"@ + path,
        }
    }
}

/// Whether a scheme, if it is a known one, is one of the web.
pub open spec fn is_web(scheme: Option<Scheme>) -> bool {
    match scheme {
        Some(scheme) => scheme.is_web(),
        None => false,
    }
}

/// The port of an endpoint. It is the port that the URL parser reports.
/// Where it reports none and the scheme is one of the web, it is the
/// port that the text writes: only there does the parser keep silent
/// about a written port, the one that it knows the scheme by. Else it
/// is the default of the scheme, if the scheme is known and has one.
pub open spec fn port_of(scheme: Option<Scheme>, reported: Option<u16>, written: Option<u16>) -> Option<
    u16,
> {
    match reported {
        Some(port) => Some(port),
        None => if is_web(scheme) && written is Some {
            written
        } else {
            match scheme {
                Some(scheme) => scheme.default_port_value(),
                None => None,
            }
        },
    }
}

/// The network endpoint that the parts of a URL describe, where `input`
/// is the text that was parsed. The port is the one that the parser
/// reports, or, in a scheme of the web where it reports none, the one
/// that `input` writes. A text that is no URL, has no host or an empty
/// one, or has neither a port nor a default for its scheme is an invalid
/// address; with host and port settled, an unknown scheme is an invalid
/// scheme.
pub open spec fn endpoint_of_parts(input: Seq<char>, parts: Option<UrlPartsView>) -> Result<
    EndpointView,
    ErrorView,
> {
    match parts {
        None => Err(ErrorView::InvalidAddress(input)),
        Some(parts) => match parts.host {
            None => Err(ErrorView::InvalidAddress(input)),
            Some(host) => if host.len() == 0 {
                Err(ErrorView::InvalidAddress(input))
            } else {
                match port_of(Scheme::of_name(parts.scheme), parts.port, written_port(input)) {
                    None => Err(ErrorView::InvalidAddress(input)),
                    Some(port) => match Scheme::of_name(parts.scheme) {
                        None => Err(ErrorView::InvalidScheme),
                        Some(scheme) => Ok(
                            EndpointView::Network { scheme, host: host_of_text(host), port },
                        ),
                    },
                }
            },
        },
    }
}

/// The endpoint that the connection string `s` describes. After
/// `unix://` or `file://` the rest is a path, taken as it is; any other
/// text is read as a URL.
pub open spec fn endpoint_of_text(s: Seq<char>) -> Result<EndpointView, ErrorView> {
    if "unix://"@.is_prefix_of(s) {
        Ok(EndpointView::Unix(s.skip(7)))
    } else if "file://"@.is_prefix_of(s) {
        Ok(EndpointView::File(s.skip(7)))
    } else {
        endpoint_of_parts(s, url_parts(s))
    }
}

/// The value of the outcome of parsing.
pub open spec fn outcome_view(outcome: Result<Endpoint, ParseEndpointError>) -> Result<
    EndpointView,
    ErrorView,
> {
    match outcome {
        Ok(endpoint) => Ok(endpoint@),
        Err(error) => Err(error@),
    }
}

/// The value of the parts of a URL, if there are any.
pub open spec fn parts_view(parts: Option<UrlParts>) -> Option<UrlPartsView> {
    match parts {
        Some(parts) => Some(parts@),
        None => None,
    }
}

impl Endpoint {
    /// The network endpoint of the given scheme, host and port.
    pub fn network(scheme: Scheme, host: HostAddr, port: u16) -> (endpoint: Endpoint)
        ensures
            endpoint@ == (EndpointView::Network { scheme, host: host@, port }),
    {
        match scheme {
            Scheme::Http => Endpoint::Http { host, port },
            Scheme::Https => Endpoint::Https { host, port },
            Scheme::Tcp => Endpoint::Tcp { host, port },
            Scheme::Udp => Endpoint::Udp { host, port },
            Scheme::Mqtt => Endpoint::Mqtt { host, port },
            Scheme::Mqtts => Endpoint::Mqtts { host, port },
            Scheme::Ws => Endpoint::Ws { host, port },
            Scheme::Wss => Endpoint::Wss { host, port },
            Scheme::Coap => Endpoint::Coap { host, port },
            Scheme::Coaps => Endpoint::Coaps { host, port },
            Scheme::Redis => Endpoint::Redis { host, port },
            Scheme::Amqp => Endpoint::Amqp { host, port },
            Scheme::Ftp => Endpoint::Ftp { host, port },
        }
    }

    /// The scheme, host and port of a network endpoint; `None` for a path.
    pub fn network_parts(&self) -> (parts: Option<(Scheme, &HostAddr, u16)>)
        ensures
            match parts {
                Some((scheme, host, port)) => self@ == (EndpointView::Network {
                    scheme,
                    host: host@,
                    port,
                }),
                None => !(self@ is Network),
            },
    {
        match self {
            Endpoint::Http { host, port } => Some((Scheme::Http, host, *port)),
            Endpoint::Https { host, port } => Some((Scheme::Https, host, *port)),
            Endpoint::Tcp { host, port } => Some((Scheme::Tcp, host, *port)),
            Endpoint::Udp { host, port } => Some((Scheme::Udp, host, *port)),
            Endpoint::Mqtt { host, port } => Some((Scheme::Mqtt, host, *port)),
            Endpoint::Mqtts { host, port } => Some((Scheme::Mqtts, host, *port)),
            Endpoint::Ws { host, port } => Some((Scheme::Ws, host, *port)),
            Endpoint::Wss { host, port } => Some((Scheme::Wss, host, *port)),
            Endpoint::Coap { host, port } => Some((Scheme::Coap, host, *port)),
            Endpoint::Coaps { host, port } => Some((Scheme::Coaps, host, *port)),
            Endpoint::Redis { host, port } => Some((Scheme::Redis, host, *port)),
            Endpoint::Amqp { host, port } => Some((Scheme::Amqp, host, *port)),
            Endpoint::Ftp { host, port } => Some((Scheme::Ftp, host, *port)),
            Endpoint::Unix(_) | Endpoint::File(_) => None,
        }
    }

    /// Builds the network endpoint that the parts of a URL describe,
    /// where `input` is the text they were parsed from and `parts` is
    /// `None` if that text is no URL. Where the parts hold no port and
    /// the scheme is one of the web, the port is read from `input`. The
    /// default of the scheme is taken only where no port is found.
    pub fn from_parts(input: &str, parts: Option<UrlParts>) -> (outcome: Result<
        Endpoint,
        ParseEndpointError,
    >)
        ensures
            outcome_view(outcome) == endpoint_of_parts(input@, parts_view(parts)),
            outcome matches Ok(endpoint) ==> endpoint@.wf(),
    {
        let parts = match parts {
            Some(parts) => parts,
            None => {
                return Err(ParseEndpointError::InvalidAddress(String::from_str(input)));
            },
        };
        let host = match &parts.host {
            Some(text) => match HostAddr::parse(text.as_str()) {
                Some(host) => host,
                None => {
                    return Err(ParseEndpointError::InvalidAddress(String::from_str(input)));
                },
            },
            None => {
                return Err(ParseEndpointError::InvalidAddress(String::from_str(input)));
            },
        };
        let scheme = Scheme::from_name(parts.scheme.as_str());
        let web = match scheme {
            Some(scheme) => scheme.web(),
            None => false,
        };
        let written = if parts.port.is_none() && web {
            find_written_port(input)
        } else {
            None
        };
        let port: u16 = match (parts.port, written) {
            (Some(port), _) => port,
            (None, Some(port)) => port,
            (None, None) => {
                let default = match scheme {
                    Some(scheme) => scheme.default_port(),
                    None => None,
                };
                match default {
                    Some(port) => port,
                    None => {
                        return Err(
                            ParseEndpointError::InvalidAddress(String::from_str(input)),
                        );
                    },
                }
            },
        };
        match scheme {
            Some(scheme) => Ok(Endpoint::network(scheme, host, port)),
            None => Err(ParseEndpointError::InvalidScheme),
        }
    }

    /// Parses a connection string.
    pub fn from_str(s: &str) -> (outcome: Result<Endpoint, ParseEndpointError>)
        ensures
            outcome_view(outcome) == endpoint_of_text(s@),
            outcome matches Ok(endpoint) ==> endpoint@.wf(),
    {
        let chars = chars_of(s);
        proof {
            reveal_strlit("unix://");
            reveal_strlit("file://");
        }
        if starts_with(&chars, "unix://") {
            let path = s.substring_char(7, chars.len());
            assert(path@ == s@.skip(7));
            return Ok(Endpoint::Unix(String::from_str(path)));
        }
        if starts_with(&chars, "file://") {
            let path = s.substring_char(7, chars.len());
            assert(path@ == s@.skip(7));
            return Ok(Endpoint::File(String::from_str(path)));
        }
        Endpoint::from_parts(s, split_url(s))
    }

    /// Appends the canonical string of the endpoint to `text`.
    pub fn append_to(&self, text: &mut String)
        ensures
            final(text)@ == old(text)@ + self@.text(),
    {
        match self {
            Endpoint::Unix(path) => {
                text.append("unix://");
                text.append(path.as_str());
                assert(text@ =~= old(text)@ + self@.text());
            },
            Endpoint::File(path) => {
                text.append("file://");
                text.append(path.as_str());
                assert(text@ =~= old(text)@ + self@.text());
            },
            _ => match self.network_parts() {
                Some((scheme, host, port)) => append_network(text, scheme, host, port),
                None => {},
            },
        }
    }

    /// The canonical string of the endpoint.
    pub fn to_string(&self) -> (text: String)
        ensures
            text@ == self@.text(),
    {
        let mut text = String::new();
        self.append_to(&mut text);
        assert(text@ =~= self@.text());
        text
    }
}

impl core::str::FromStr for Endpoint {
    type Err = ParseEndpointError;

    /// Parses a connection string, as [`Endpoint::from_str`] does.
    fn from_str(s: &str) -> (outcome: Result<Endpoint, ParseEndpointError>)
        ensures
            outcome_view(outcome) == endpoint_of_text(s@),
            outcome matches Ok(endpoint) ==> endpoint@.wf(),
    {
        Endpoint::from_str(s)
    }
}

/// Appends `<scheme>://<host>:<port>` to `text`.
fn append_network(text: &mut String, scheme: Scheme, host: &HostAddr, port: u16)
    ensures
        final(text)@ == old(text)@ + (EndpointView::Network { scheme, host: host@, port }).text(),
{
    text.append(scheme.name());
    text.append("://");
    host.append_to(text);
    text.append(":");
    append_decimal(text, port);
    assert(text@ =~= old(text)@ + (EndpointView::Network { scheme, host: host@, port }).text());
}

} // verus!
