//! What holds of parsing, rendering and resolving together.

use crate::authority::{
    all_host_chars, is_host_char, lemma_no_written_port_in_text, lemma_written_port_of_text,
    written_port,
};
use crate::endpoint::{endpoint_of_parts, endpoint_of_text, is_web, port_of, EndpointView};
use crate::error::ErrorView;
use crate::host::{host_of_text, HostView};
use crate::ip::{
    ip_of_text, lemma_empty_is_no_ip, lemma_ip_of_text_wf, lemma_ip_round_trip,
    lemma_ip_text_host_chars, IpView,
};
use crate::resolve::SocketAddrView;
use crate::scheme::{
    lemma_name_chars, lemma_name_letters, lemma_names_differ, lemma_of_name_text, Scheme,
};
use crate::text::{
    decimal_text, lemma_cut_at_first, lemma_cut_at_last, lemma_decimal_text,
    lemma_decimal_text_plain,
};
use crate::url_parts::{url_parts, UrlPartsView};
use vstd::prelude::*;

verus! {

/// A non-empty text names a well-formed host, and a domain name only if
/// it writes no address.
pub proof fn lemma_host_of_text_wf(s: Seq<char>)
    requires
        s.len() > 0,
    ensures
        host_of_text(s).wf(),
        host_of_text(s) matches HostView::Domain(name) ==> name == s && ip_of_text(name) is None,
{
    lemma_ip_of_text_wf(s);
}

/// The text of a host is not empty and names that host again, for
/// every address and for every domain name that writes no address.
pub proof fn lemma_host_round_trip(host: HostView)
    requires
        host.wf(),
        host matches HostView::Domain(name) ==> ip_of_text(name) is None,
    ensures
        host.text().len() > 0,
        host_of_text(host.text()) == host,
{
    match host {
        HostView::Ip(ip) => {
            lemma_ip_round_trip(ip);
            if ip.text().len() == 0 {
                assert(ip_of_text(ip.text()) is None) by {
                    lemma_empty_is_no_ip();
                    assert(ip.text() =~= Seq::<char>::empty());
                }
            }
        },
        HostView::Domain(_) => {},
    }
}

/// The text of the host that a non-empty text names, names that host
/// again.
pub proof fn lemma_host_text_reads_back(s: Seq<char>)
    requires
        s.len() > 0,
    ensures
        host_of_text(host_of_text(s).text()) == host_of_text(s),
{
    lemma_host_of_text_wf(s);
    lemma_host_round_trip(host_of_text(s));
}

/// An endpoint that parsing yields has a well-formed host: a domain
/// name is never empty.
pub proof fn lemma_parsed_is_wf(s: Seq<char>, e: EndpointView)
    requires
        endpoint_of_text(s) == Ok::<EndpointView, ErrorView>(e),
    ensures
        e.wf(),
{
    if let EndpointView::Network { .. } = e {
        let host = url_parts(s)->0.host->0;
        lemma_host_of_text_wf(host);
    }
}

/// The canonical string of a path endpoint parses to that endpoint.
pub proof fn lemma_path_round_trip(e: EndpointView)
    requires
        !(e is Network),
    ensures
        endpoint_of_text(e.text()) == Ok::<EndpointView, ErrorView>(e),
{
    reveal_strlit("unix://");
    reveal_strlit("file://");
    match e {
        EndpointView::Unix(path) => {
            assert(e.text().subrange(0, 7) =~= "unix://"@);
            assert(e.text().skip(7) =~= path);
        },
        EndpointView::File(path) => {
            assert(e.text().subrange(0, 7) =~= "file://"@);
            assert(e.text().skip(7) =~= path);
            assert(e.text()[0] == 'f');
            assert(!"unix://"@.is_prefix_of(e.text())) by {
                if "unix://"@.is_prefix_of(e.text()) {
                    assert(e.text().subrange(0, 7)[0] == 'u');
                }
            }
        },
        _ => {},
    }
}

/// The canonical string of a network endpoint is not taken for a path.
pub proof fn lemma_network_text_is_no_path(e: EndpointView)
    requires
        e is Network,
    ensures
        !"unix://"@.is_prefix_of(e.text()),
        !"file://"@.is_prefix_of(e.text()),
{
    reveal_strlit("unix://");
    reveal_strlit("file://");
    let scheme = e->scheme;
    lemma_name_chars(scheme);
    assert(e.text()[0] == scheme.text()[0]);
    assert(e.text()[1] == scheme.text()[1]);
    if "unix://"@.is_prefix_of(e.text()) {
        assert(e.text().subrange(0, 7)[0] == 'u');
        assert(e.text().subrange(0, 7)[1] == 'n');
    }
    if "file://"@.is_prefix_of(e.text()) {
        assert(e.text().subrange(0, 7)[0] == 'f');
        assert(e.text().subrange(0, 7)[1] == 'i');
    }
}

/// The parts of a URL, read from `input`, give the scheme, the host and
/// the port of the endpoint `e`.
pub open spec fn parts_match(input: Seq<char>, parts: UrlPartsView, e: EndpointView) -> bool {
    &&& e is Network
    &&& parts.scheme == e->scheme.text()
    &&& parts.host == Some(e->host.text())
    &&& port_of(Some(e->scheme), parts.port, written_port(input)) == Some(e->port)
}

/// The URL parser reads the canonical string of `e` back as the scheme
/// and the host written in it. It reports the port written in it, or,
/// in a scheme of the web, none.
pub open spec fn url_reads_back(e: EndpointView) -> bool {
    match url_parts(e.text()) {
        Some(parts) => {
            &&& e is Network
            &&& parts.scheme == e->scheme.text()
            &&& parts.host == Some(e->host.text())
            &&& (parts.port == Some(e->port) || (parts.port is None && e->scheme.is_web()))
        },
        None => false,
    }
}

/// The name of a scheme can stand as a host, and holds no colon.
pub proof fn lemma_name_can_stand_as_host(scheme: Scheme)
    ensures
        all_host_chars(scheme.text()),
        !scheme.text().contains(':'),
{
    let name = scheme.text();
    lemma_name_letters(scheme);
    assert forall|i: int| 0 <= i < name.len() implies is_host_char(#[trigger] name[i]) by {
        assert('a' <= name[i] && name[i] <= 'z');
    }
    if name.contains(':') {
        let i = choose|i: int| 0 <= i < name.len() && name[i] == ':';
        assert('a' <= name[i]);
    }
}

/// The port of a network endpoint is read from its canonical string as
/// written, if the text of its host can stand as a host.
pub proof fn lemma_written_port_of_canonical_string(e: EndpointView)
    requires
        e is Network,
        e->host.text().len() > 0,
        all_host_chars(e->host.text()),
    ensures
        written_port(e.text()) == Some(e->port),
{
    lemma_network_text_cuts(e);
    lemma_name_can_stand_as_host(e->scheme);
    lemma_written_port_of_text(e->scheme.text(), e->host.text(), e->port);
}

/// A network endpoint is built again from parts that match it, if its
/// host is well formed and its domain name writes no address.
pub proof fn lemma_matching_parts_rebuild(input: Seq<char>, parts: UrlPartsView, e: EndpointView)
    requires
        e.wf(),
        e matches EndpointView::Network { host: HostView::Domain(name), .. } ==> ip_of_text(name)
            is None,
        parts_match(input, parts, e),
    ensures
        endpoint_of_parts(input, Some(parts)) == Ok::<EndpointView, ErrorView>(e),
{
    lemma_host_round_trip(e->host);
    lemma_of_name_text(e->scheme);
}

/// Round trip. Let parsing `s` yield the endpoint `e`. If `e` is a path,
/// its canonical string parses to `e` again. If `e` is a network
/// endpoint, its canonical string parses to `e` again provided that the
/// URL parser reads that string back as the scheme and the host written
/// in it and reports the port written in it, or none in a scheme of the
/// web, and that a domain name holds no blank and none of `/`, `\`, `?`,
/// `#` and `@`.
pub proof fn lemma_round_trip(s: Seq<char>, e: EndpointView)
    requires
        endpoint_of_text(s) == Ok::<EndpointView, ErrorView>(e),
    ensures
        !(e is Network) ==> endpoint_of_text(e.text()) == Ok::<EndpointView, ErrorView>(e),
        e is Network && url_reads_back(e) && (e->host matches HostView::Domain(name)
            ==> all_host_chars(name)) ==> endpoint_of_text(e.text()) == Ok::<
            EndpointView,
            ErrorView,
        >(e),
{
    if e is Network {
        if url_reads_back(e) && (e->host matches HostView::Domain(name) ==> all_host_chars(name)) {
            lemma_parsed_is_wf(s, e);
            lemma_host_of_text_wf(url_parts(s)->0.host->0);
            lemma_host_round_trip(e->host);
            if let HostView::Ip(ip) = e->host {
                lemma_ip_text_host_chars(ip);
            }
            lemma_written_port_of_canonical_string(e);
            lemma_network_text_is_no_path(e);
            lemma_matching_parts_rebuild(e.text(), url_parts(e.text())->0, e);
        }
    } else {
        lemma_path_round_trip(e);
    }
}

/// The canonical string of a network endpoint, cut at its colons: the
/// name of the scheme, `:`, two slashes with the text of the host, `:`,
/// and the numeral of the port. The name holds no colon, and neither
/// does the numeral.
pub proof fn lemma_network_text_cuts(e: EndpointView)
    requires
        e is Network,
    ensures
        e.text() == e->scheme.text() + seq![':'] + (seq!['/', '/'] + e->host.text() + seq![':']
            + decimal_text(e->port as nat)),
        !e->scheme.text().contains(':'),
        !decimal_text(e->port as nat).contains(':'),
{
    reveal_strlit("://");
    reveal_strlit(":");
    let name = e->scheme.text();
    lemma_name_can_stand_as_host(e->scheme);
    lemma_decimal_text_plain(e->port as nat);
    assert(e.text() =~= name + seq![':'] + (seq!['/', '/'] + e->host.text() + seq![':']
        + decimal_text(e->port as nat)));
}

/// Unique string form. Two endpoints that parsing yields and that have
/// the same canonical string are the same endpoint.
pub proof fn lemma_canonical_string_is_unique(
    s1: Seq<char>,
    e1: EndpointView,
    s2: Seq<char>,
    e2: EndpointView,
)
    requires
        endpoint_of_text(s1) == Ok::<EndpointView, ErrorView>(e1),
        endpoint_of_text(s2) == Ok::<EndpointView, ErrorView>(e2),
        e1.text() == e2.text(),
    ensures
        e1 == e2,
{
    if e1 is Network && e2 is Network {
        lemma_network_text_cuts(e1);
        lemma_network_text_cuts(e2);
        let rest1 = seq!['/', '/'] + e1->host.text() + seq![':'] + decimal_text(e1->port as nat);
        let rest2 = seq!['/', '/'] + e2->host.text() + seq![':'] + decimal_text(e2->port as nat);
        lemma_cut_at_first(e1->scheme.text(), rest1, e2->scheme.text(), rest2, ':');
        lemma_names_differ(e1->scheme, e2->scheme);
        lemma_cut_at_last(
            seq!['/', '/'] + e1->host.text(),
            decimal_text(e1->port as nat),
            seq!['/', '/'] + e2->host.text(),
            decimal_text(e2->port as nat),
            ':',
        );
        lemma_decimal_text(e1->port as nat);
        lemma_decimal_text(e2->port as nat);
        assert(e1->host.text() =~= (seq!['/', '/'] + e1->host.text()).skip(2));
        assert(e2->host.text() =~= (seq!['/', '/'] + e2->host.text()).skip(2));
        lemma_host_text_reads_back(url_parts(s1)->0.host->0);
        lemma_host_text_reads_back(url_parts(s2)->0.host->0);
    } else {
        if e1 is Network {
            lemma_network_text_is_no_path(e1);
        } else {
            lemma_path_round_trip(e1);
        }
        if e2 is Network {
            lemma_network_text_is_no_path(e2);
        } else {
            lemma_path_round_trip(e2);
        }
    }
}

/// Default ports. For a text `<scheme>://<host>` that ends with its
/// host, which the URL parser reads as that scheme and host without a
/// port: `http`, `ws`, `mqtt`, `coap`, `redis`, `amqp` and `ftp` get
/// port 80, `https`, `wss`, `mqtts` and `coaps` get port 443, and `tcp`
/// and `udp` are an invalid address.
pub proof fn lemma_default_ports(scheme: Scheme, host: Seq<char>)
    requires
        host.len() > 0,
        all_host_chars(host),
        !host.contains(':'),
    ensures
        ({
            let input = scheme.text() + "://"@ + host;
            let parts = UrlPartsView { scheme: scheme.text(), host: Some(host), port: None };
            match scheme.default_port_value() {
                Some(port) => endpoint_of_parts(input, Some(parts)) == Ok::<
                    EndpointView,
                    ErrorView,
                >(EndpointView::Network { scheme, host: host_of_text(host), port }),
                None => endpoint_of_parts(input, Some(parts)) == Err::<EndpointView, ErrorView>(
                    ErrorView::InvalidAddress(input),
                ),
            }
        }),
        scheme.default_port_value() == match scheme {
            Scheme::Tcp | Scheme::Udp => None,
            Scheme::Https | Scheme::Wss | Scheme::Mqtts | Scheme::Coaps => Some(443u16),
            _ => Some(80u16),
        },
{
    reveal_strlit("://");
    let name = scheme.text();
    lemma_of_name_text(scheme);
    lemma_name_can_stand_as_host(scheme);
    lemma_no_written_port_in_text(name, host);
    assert(name + "://"@ + host =~= name + seq![':'] + (seq!['/', '/'] + host));
}

/// Written ports. In a scheme of the web, where the text writes a
/// port and the URL parser reports none, or reports the same, the
/// endpoint has the port that the text writes, whatever the default of
/// the scheme.
pub proof fn lemma_written_port_is_kept(
    input: Seq<char>,
    scheme: Scheme,
    host: Seq<char>,
    reported: Option<u16>,
)
    requires
        scheme.is_web(),
        host.len() > 0,
        written_port(input) is Some,
        reported is None || reported == written_port(input),
    ensures
        endpoint_of_parts(
            input,
            Some(UrlPartsView { scheme: scheme.text(), host: Some(host), port: reported }),
        ) == Ok::<EndpointView, ErrorView>(
            EndpointView::Network { scheme, host: host_of_text(host), port: written_port(input)->0 },
        ),
{
    lemma_of_name_text(scheme);
}

/// Outside the schemes of the web no port is read from the text. Where
/// the URL parser reports none, a known scheme has its default, or is an
/// invalid address if it has none, and an unknown scheme is an invalid
/// address, whatever the text holds.
pub proof fn lemma_unreported_port_outside_the_web(
    input: Seq<char>,
    name: Seq<char>,
    host: Seq<char>,
)
    requires
        host.len() > 0,
        !is_web(Scheme::of_name(name)),
    ensures
        ({
            let parts = UrlPartsView { scheme: name, host: Some(host), port: None };
            match Scheme::of_name(name) {
                Some(scheme) => match scheme.default_port_value() {
                    Some(port) => endpoint_of_parts(input, Some(parts)) == Ok::<
                        EndpointView,
                        ErrorView,
                    >(EndpointView::Network { scheme, host: host_of_text(host), port }),
                    None => endpoint_of_parts(input, Some(parts)) == Err::<
                        EndpointView,
                        ErrorView,
                    >(ErrorView::InvalidAddress(input)),
                },
                None => endpoint_of_parts(input, Some(parts)) == Err::<EndpointView, ErrorView>(
                    ErrorView::InvalidAddress(input),
                ),
            }
        }),
{
}

/// A path endpoint has no socket address, whatever a lookup gave.
pub proof fn lemma_path_has_no_socket_addrs(
    e: EndpointView,
    looked_up: Option<Seq<SocketAddrView>>,
)
    requires
        !(e is Network),
    ensures
        e.socket_addrs(looked_up) == Err::<Seq<SocketAddrView>, ErrorView>(
            ErrorView::InvalidAddress("No SocketAddr available"@),
        ),
{
}

/// A literal address resolves to itself with the endpoint's port, and
/// to nothing else, whatever a lookup gave.
pub proof fn lemma_ip_resolves_to_itself(
    scheme: Scheme,
    ip: IpView,
    port: u16,
    looked_up: Option<Seq<SocketAddrView>>,
)
    ensures
        (EndpointView::Network { scheme, host: HostView::Ip(ip), port }).socket_addrs(looked_up)
            == Ok::<Seq<SocketAddrView>, ErrorView>(seq![SocketAddrView { ip, port }]),
{
}

} // verus!
