use endpoint::{Endpoint, HostAddr, IpAddr, ParseEndpointError, Scheme, SocketAddr};

#[test]
fn test_to_socket_addrs_ip() {
    let ep: Endpoint = "tcp://127.0.0.1:9000".parse().unwrap();
    let addrs = ep.to_socket_addrs(None).unwrap();
    assert_eq!(addrs[0], SocketAddr { ip: IpAddr::V4([127, 0, 0, 1]), port: 9000 });
}

#[test]
fn ip_endpoint_resolves_to_exactly_itself() {
    let ep = Endpoint::from_str("tcp://127.0.0.1:9000").unwrap();
    let expected = vec![SocketAddr { ip: IpAddr::V4([127, 0, 0, 1]), port: 9000 }];
    assert_eq!(ep.lookup_query(), None);
    assert_eq!(ep.to_socket_addrs(None), Ok(expected.clone()));
    let other = vec![SocketAddr { ip: IpAddr::V4([1, 1, 1, 1]), port: 1 }];
    assert_eq!(ep.to_socket_addrs(Some(other)), Ok(expected));
}

#[test]
fn ip_endpoint_of_every_scheme_resolves() {
    let ip = IpAddr::V6([0x2001, 0xdb8, 0, 0, 0, 0, 0, 1]);
    for scheme in Scheme::all() {
        let ep = Endpoint::network(scheme, HostAddr::Ip(ip), 4000);
        assert_eq!(ep.to_socket_addrs(None), Ok(vec![SocketAddr { ip, port: 4000 }]));
    }
}

#[test]
fn domain_endpoint_asks_for_a_lookup() {
    let ep = Endpoint::from_str("mqtt://broker.local:1883").unwrap();
    assert_eq!(ep.lookup_query(), Some("broker.local:1883".to_string()));
    let ep = Endpoint::from_str("https://example.com").unwrap();
    assert_eq!(ep.lookup_query(), Some("example.com:443".to_string()));
}

#[test]
fn domain_endpoint_keeps_the_order_of_the_lookup() {
    let ep = Endpoint::from_str("tcp://example.com:8080").unwrap();
    let found = vec![
        SocketAddr { ip: IpAddr::V6([0x2606, 0x2800, 0x220, 1, 0x248, 0x1893, 0x25c8, 0x1946]), port: 8080 },
        SocketAddr { ip: IpAddr::V4([93, 184, 216, 34]), port: 8080 },
        SocketAddr { ip: IpAddr::V4([93, 184, 216, 34]), port: 8080 },
    ];
    assert_eq!(ep.to_socket_addrs(Some(found.clone())), Ok(found));
    assert_eq!(ep.to_socket_addrs(Some(Vec::new())), Ok(Vec::new()));
}

#[test]
fn failed_lookup_is_an_invalid_address() {
    let ep = Endpoint::from_str("tcp://no-such-host.invalid:8080").unwrap();
    assert_eq!(
        ep.to_socket_addrs(None),
        Err(ParseEndpointError::InvalidAddress("no-such-host.invalid".to_string()))
    );
}

#[test]
fn path_endpoint_has_no_socket_addr() {
    let expected = Err(ParseEndpointError::InvalidAddress("No SocketAddr available".to_string()));
    let unix = Endpoint::from_str("unix:///tmp/socket.sock").unwrap();
    let file = Endpoint::from_str("file:///home/user/data.txt").unwrap();
    assert_eq!(unix.lookup_query(), None);
    assert_eq!(file.lookup_query(), None);
    assert_eq!(unix.to_socket_addrs(None), expected);
    assert_eq!(file.to_socket_addrs(None), expected);
    let found = vec![SocketAddr { ip: IpAddr::V4([127, 0, 0, 1]), port: 1 }];
    assert_eq!(unix.to_socket_addrs(Some(found.clone())), expected);
    assert_eq!(file.to_socket_addrs(Some(found)), expected);
}
