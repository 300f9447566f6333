//! From an endpoint to socket addresses. A literal address needs no
//! lookup; a domain name is looked up by the caller, who hands the
//! outcome in.

use crate::endpoint::{Endpoint, EndpointView};
use crate::error::{ErrorView, ParseEndpointError};
use crate::host::{HostAddr, HostView};
use crate::ip::{IpAddr, IpView};
use crate::text::{append_decimal, decimal_text};
use vstd::prelude::*;

verus! {

/// An IP address together with a port.
#[derive(Debug, Clone, Copy, PartialEq, Eq, Hash)]
pub struct SocketAddr {
    pub ip: IpAddr,
    pub port: u16,
}

/// Mathematical value of a [`SocketAddr`].
pub struct SocketAddrView {
    pub ip: IpView,
    pub port: u16,
}

impl View for SocketAddr {
    type V = SocketAddrView;

    open spec fn view(&self) -> SocketAddrView {
        SocketAddrView { ip: self.ip@, port: self.port }
    }
}

/// The values of a list of socket addresses, in the same order.
pub open spec fn addrs_view(addrs: Seq<SocketAddr>) -> Seq<SocketAddrView> {
    Seq::new(addrs.len(), |i: int| addrs[i]@)
}

/// The values of the outcome of a lookup, if it succeeded.
pub open spec fn lookup_view(looked_up: Option<Vec<SocketAddr>>) -> Option<Seq<SocketAddrView>> {
    match looked_up {
        Some(addrs) => Some(addrs_view(addrs@)),
        None => None,
    }
}

/// The value of the outcome of a resolution.
pub open spec fn resolution_view(outcome: Result<Vec<SocketAddr>, ParseEndpointError>) -> Result<
    Seq<SocketAddrView>,
    ErrorView,
> {
    match outcome {
        Ok(addrs) => Ok(addrs_view(addrs@)),
        Err(error) => Err(error@),
    }
}

impl EndpointView {
    /// The name to look up, `<domain>:<port>`, if the endpoint is a
    /// network endpoint whose host is a domain name.
    pub open spec fn lookup_name(self) -> Option<Seq<char>> {
        match self {
            EndpointView::Network { host: HostView::Domain(name), port, .. } => Some(
                name + ":"@ + decimal_text(port as nat),
            ),
            _ => None,
        }
    }

    /// The socket addresses of the endpoint, where `looked_up` holds
    /// what the lookup of [`lookup_name`](Self::lookup_name) gave, or
    /// `None` if it failed. A literal address is paired with the port.
    /// A domain name has the addresses found, in the order found, and
    /// without them is an invalid address, named by the domain. A path
    /// has no socket address.
    pub open spec fn socket_addrs(self, looked_up: Option<Seq<SocketAddrView>>) -> Result<
        Seq<SocketAddrView>,
        ErrorView,
    > {
        match self {
            EndpointView::Network { host: HostView::Ip(ip), port, .. } => Ok(
                seq![SocketAddrView { ip, port }],
            ),
            EndpointView::Network { host: HostView::Domain(name), .. } => match looked_up {
                Some(addrs) => Ok(addrs),
                None => Err(ErrorView::InvalidAddress(name)),
            },
            _ => Err(ErrorView::InvalidAddress("No SocketAddr available"@)),
        }
    }
}

impl Endpoint {
    /// The name whose addresses the caller has to look up before it
    /// calls [`to_socket_addrs`](Self::to_socket_addrs): `<domain>:<port>`
    /// for a domain name, `None` where no lookup is needed.
    pub fn lookup_query(&self) -> (query: Option<String>)
        ensures
            match query {
                Some(name) => self@.lookup_name() == Some(name@),
                None => self@.lookup_name() is None,
            },
    {
        match self.network_parts() {
            Some((_, HostAddr::Domain(name), port)) => {
                let mut query = String::from_str(name.as_str());
                query.append(":");
                append_decimal(&mut query, port);
                assert(query@ =~= name@ + ":"@ + decimal_text(port as nat));
                Some(query)
            },
            _ => None,
        }
    }

    /// The socket addresses of the endpoint. `looked_up` is the outcome
    /// of resolving [`lookup_query`](Self::lookup_query): the addresses
    /// found, or `None` if the lookup failed. It is not looked at unless
    /// the host is a domain name.
    pub fn to_socket_addrs(&self, looked_up: Option<Vec<SocketAddr>>) -> (outcome: Result<
        Vec<SocketAddr>,
        ParseEndpointError,
    >)
        ensures
            resolution_view(outcome) == self@.socket_addrs(lookup_view(looked_up)),
            self@.lookup_name() is Some && looked_up is Some ==> outcome == Ok::<
                Vec<SocketAddr>,
                ParseEndpointError,
            >(looked_up->0),
    {
        match self.network_parts() {
            Some((_, HostAddr::Ip(ip), port)) => {
                let mut addrs: Vec<SocketAddr> = Vec::new();
                addrs.push(SocketAddr { ip: *ip, port });
                assert(addrs_view(addrs@) =~= seq![SocketAddrView { ip: ip@, port }]);
                Ok(addrs)
            },
            Some((_, HostAddr::Domain(name), _)) => match looked_up {
                Some(addrs) => Ok(addrs),
                None => Err(ParseEndpointError::InvalidAddress(name.clone())),
            },
            None => Err(
                ParseEndpointError::InvalidAddress(String::from_str("No SocketAddr available")),
            ),
        }
    }
}

} // verus!
