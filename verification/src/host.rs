//! The host of a network endpoint: a literal IP address or a domain name.

use crate::ip::{ip_of_text, IpAddr, IpView};
use vstd::prelude::*;

verus! {

/// A host, either an IP address or a domain name.
#[derive(Debug, Clone, PartialEq, Eq)]
pub enum HostAddr {
    /// A literal IP address.
    Ip(IpAddr),
    /// A domain name, kept as written and never empty.
    Domain(String),
}

/// Mathematical value of a [`HostAddr`].
pub enum HostView {
    Ip(IpView),
    Domain(Seq<char>),
}

impl HostView {
    /// An address has the right number of parts; a domain name is not empty.
    pub open spec fn wf(self) -> bool {
        match self {
            HostView::Ip(ip) => ip.wf(),
            HostView::Domain(name) => name.len() > 0,
        }
    }

    /// The text of the host: the standard form of the address, or the
    /// domain name as it is.
    pub open spec fn text(self) -> Seq<char> {
        match self {
            HostView::Ip(ip) => ip.text(),
            HostView::Domain(name) => name,
        }
    }
}

impl View for HostAddr {
    type V = HostView;

    open spec fn view(&self) -> HostView {
        match self {
            HostAddr::Ip(ip) => HostView::Ip(ip@),
            HostAddr::Domain(name) => HostView::Domain(name@),
        }
    }
}

/// The host that `s` names: the address that `s` writes if it writes
/// one, else the domain name `s`.
pub open spec fn host_of_text(s: Seq<char>) -> HostView {
    match ip_of_text(s) {
        Some(ip) => HostView::Ip(ip),
        None => HostView::Domain(s),
    }
}

impl HostAddr {
    /// Classifies a host text. An empty text names no host; any other
    /// text is an IP address if it writes one and a domain name if not.
    pub fn parse(text: &str) -> (host: Option<HostAddr>)
        ensures
            host is None <==> text@.len() == 0,
            host matches Some(h) ==> h@ == host_of_text(text@) && h@.wf(),
    {
        if text.unicode_len() == 0 {
            return None;
        }
        match IpAddr::parse(text) {
            Some(ip) => Some(HostAddr::Ip(ip)),
            None => Some(HostAddr::Domain(String::from_str(text))),
        }
    }

    /// Appends the text of the host to `text`.
    pub fn append_to(&self, text: &mut String)
        ensures
            final(text)@ == old(text)@ + self@.text(),
    {
        match self {
            HostAddr::Ip(ip) => ip.append_to(text),
            HostAddr::Domain(name) => text.append(name.as_str()),
        }
    }

    /// The text of the host.
    pub fn to_string(&self) -> (text: String)
        ensures
            text@ == self@.text(),
    {
        let mut text = String::new();
        self.append_to(&mut text);
        assert(text@ =~= self@.text());
        text
    }
}

} // verus!
