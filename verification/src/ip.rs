//! IP addresses and their textual forms.

use crate::authority::all_host_chars;
use crate::ipv4::{
    append_ipv4, ipv4_of_text, ipv4_text, lemma_colon_not_ipv4, lemma_ipv4_round_trip,
    lemma_ipv4_text_host_chars, parse_ipv4,
};
use crate::ipv6::{append_ipv6, ipv6_of_text, ipv6_text, is_first_double_colon, parse_ipv6};
use crate::ipv6_laws::{
    lemma_ipv6_round_trip, lemma_ipv6_text_has_colon, lemma_ipv6_text_host_chars,
};
use crate::text::{chars_of, fields};
use vstd::prelude::*;

verus! {

/// An IPv4 or IPv6 address.
#[derive(Debug, Clone, Copy, PartialEq, Eq, Hash)]
pub enum IpAddr {
    /// The four octets of an IPv4 address, first octet first.
    V4([u8; 4]),
    /// The eight 16-bit groups of an IPv6 address, first group first.
    V6([u16; 8]),
}

/// Mathematical value of an [`IpAddr`].
pub enum IpView {
    V4(Seq<u8>),
    V6(Seq<u16>),
}

impl IpView {
    /// An IPv4 address has four octets, an IPv6 address eight groups.
    pub open spec fn wf(self) -> bool {
        match self {
            IpView::V4(octets) => octets.len() == 4,
            IpView::V6(groups) => groups.len() == 8,
        }
    }

    /// The standard textual form of the address.
    pub open spec fn text(self) -> Seq<char> {
        match self {
            IpView::V4(octets) => ipv4_text(octets),
            IpView::V6(groups) => ipv6_text(groups),
        }
    }
}

impl View for IpAddr {
    type V = IpView;

    open spec fn view(&self) -> IpView {
        match self {
            IpAddr::V4(octets) => IpView::V4(octets@),
            IpAddr::V6(groups) => IpView::V6(groups@),
        }
    }
}

/// The address that `s` writes, IPv4 if `s` is in dotted form and IPv6
/// otherwise.
pub open spec fn ip_of_text(s: Seq<char>) -> Option<IpView> {
    match ipv4_of_text(s) {
        Some(octets) => Some(IpView::V4(octets)),
        None => match ipv6_of_text(s) {
            Some(groups) => Some(IpView::V6(groups)),
            None => None,
        },
    }
}

impl IpAddr {
    /// Reads an address from its text: IPv4 in dotted form, else IPv6.
    /// Returns `None` exactly when `text` writes neither.
    pub fn parse(text: &str) -> (ip: Option<IpAddr>)
        ensures
            match ip {
                Some(ip) => ip_of_text(text@) == Some(ip@),
                None => ip_of_text(text@) is None,
            },
    {
        let chars = chars_of(text);
        match parse_ipv4(&chars) {
            Some(octets) => Some(IpAddr::V4(octets)),
            None => match parse_ipv6(&chars) {
                Some(groups) => Some(IpAddr::V6(groups)),
                None => None,
            },
        }
    }

    /// Appends the standard text of the address to `text`.
    pub fn append_to(&self, text: &mut String)
        ensures
            final(text)@ == old(text)@ + self@.text(),
    {
        match self {
            IpAddr::V4(octets) => append_ipv4(text, octets),
            IpAddr::V6(groups) => append_ipv6(text, groups),
        }
    }

    /// The standard text of the address.
    pub fn to_string(&self) -> (text: String)
        ensures
            text@ == self@.text(),
    {
        let mut text = String::new();
        self.append_to(&mut text);
        assert(text@ =~= self@.text());
        text
    }
}

/// An address that a text writes has four octets or eight groups.
pub proof fn lemma_ip_of_text_wf(s: Seq<char>)
    ensures
        ip_of_text(s) matches Some(ip) ==> ip.wf(),
{
}

/// The empty text writes no address.
pub proof fn lemma_empty_is_no_ip()
    ensures
        ip_of_text(Seq::<char>::empty()) is None,
{
    let s = Seq::<char>::empty();
    assert(fields(s, '.').len() == 1);
    assert(forall|k: int| !is_first_double_colon(s, k));
}

/// The standard text of an address is read back as that address.
pub proof fn lemma_ip_round_trip(ip: IpView)
    requires
        ip.wf(),
    ensures
        ip_of_text(ip.text()) == Some(ip),
{
    match ip {
        IpView::V4(octets) => {
            lemma_ipv4_round_trip(octets);
        },
        IpView::V6(groups) => {
            lemma_ipv6_text_has_colon(groups);
            lemma_colon_not_ipv4(ip.text());
            lemma_ipv6_round_trip(groups);
        },
    }
}

/// The standard text of an address can stand as a host.
pub proof fn lemma_ip_text_host_chars(ip: IpView)
    requires
        ip.wf(),
    ensures
        all_host_chars(ip.text()),
{
    match ip {
        IpView::V4(octets) => {
            lemma_ipv4_text_host_chars(octets);
        },
        IpView::V6(groups) => {
            lemma_ipv6_text_host_chars(groups);
        },
    }
}

} // verus!
