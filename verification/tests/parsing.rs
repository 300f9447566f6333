use endpoint::{Endpoint, HostAddr, IpAddr, ParseEndpointError, Scheme, UrlParts};
use std::path::PathBuf;

#[test]
fn test_parse_ip_endpoints() {
    let ep: Endpoint = "tcp://127.0.0.1:9000".parse().unwrap();
    assert_eq!(
        ep,
        Endpoint::Tcp {
            host: HostAddr::Ip(IpAddr::V4([127, 0, 0, 1])),
            port: 9000
        }
    );
    assert_eq!(ep.to_string(), "tcp://127.0.0.1:9000");
}

#[test]
fn test_parse_domain_endpoints() {
    let ep: Endpoint = "tcp://example.com:8080".parse().unwrap();
    match ep {
        Endpoint::Tcp { host, port } => {
            assert_eq!(port, 8080);
            match host {
                HostAddr::Domain(d) => assert_eq!(d, "example.com"),
                _ => panic!("expected domain"),
            }
        }
        _ => panic!("expected TCP endpoint"),
    }
}

#[test]
fn test_parse_unix_and_file() {
    let ep: Endpoint = "unix:///tmp/socket.sock".parse().unwrap();
    match ep {
        Endpoint::Unix(path) => assert_eq!(PathBuf::from(path), PathBuf::from("/tmp/socket.sock")),
        _ => panic!("expected Unix endpoint"),
    }

    let ep: Endpoint = "file:///home/user/data.txt".parse().unwrap();
    match ep {
        Endpoint::File(path) => {
            assert_eq!(PathBuf::from(path), PathBuf::from("/home/user/data.txt"))
        }
        _ => panic!("expected File endpoint"),
    }
}

#[test]
fn test_parse_mqtt_ws_endpoints() {
    let ep: Endpoint = "mqtt://broker.local:1883".parse().unwrap();
    match ep {
        Endpoint::Mqtt { host, port } => {
            assert_eq!(port, 1883);
            match host {
                HostAddr::Domain(d) => assert_eq!(d, "broker.local"),
                _ => panic!("expected domain"),
            }
        }
        _ => panic!("expected MQTT endpoint"),
    }

    let ep: Endpoint = "wss://example.com:443".parse().unwrap();
    match ep {
        Endpoint::Wss { host, port } => {
            assert_eq!(port, 443);
            match host {
                HostAddr::Domain(d) => assert_eq!(d, "example.com"),
                _ => panic!("expected domain"),
            }
        }
        _ => panic!("expected WSS endpoint"),
    }
}

fn domain(name: &str) -> HostAddr {
    HostAddr::Domain(name.to_string())
}

fn invalid(text: &str) -> Result<Endpoint, ParseEndpointError> {
    Err(ParseEndpointError::InvalidAddress(text.to_string()))
}

#[test]
fn default_ports_of_each_scheme() {
    let with_80 = [
        ("http://h", Scheme::Http),
        ("ws://h", Scheme::Ws),
        ("mqtt://h", Scheme::Mqtt),
        ("coap://h", Scheme::Coap),
        ("redis://h", Scheme::Redis),
        ("amqp://h", Scheme::Amqp),
        ("ftp://h", Scheme::Ftp),
    ];
    for (text, scheme) in with_80 {
        assert_eq!(
            Endpoint::from_str(text),
            Ok(Endpoint::network(scheme, domain("h"), 80)),
            "{}",
            text
        );
    }
    let with_443 = [
        ("https://h", Scheme::Https),
        ("wss://h", Scheme::Wss),
        ("mqtts://h", Scheme::Mqtts),
        ("coaps://h", Scheme::Coaps),
    ];
    for (text, scheme) in with_443 {
        assert_eq!(
            Endpoint::from_str(text),
            Ok(Endpoint::network(scheme, domain("h"), 443)),
            "{}",
            text
        );
    }
}

#[test]
fn raw_transports_need_a_port() {
    assert_eq!(Endpoint::from_str("tcp://h"), invalid("tcp://h"));
    assert_eq!(Endpoint::from_str("udp://h"), invalid("udp://h"));
    assert_eq!(
        Endpoint::from_str("udp://h:53"),
        Ok(Endpoint::Udp { host: domain("h"), port: 53 })
    );
}

#[test]
fn explicit_port_wins_over_default() {
    assert_eq!(
        Endpoint::from_str("http://h:8080"),
        Ok(Endpoint::Http { host: domain("h"), port: 8080 })
    );
    assert_eq!(
        Endpoint::from_str("https://h:80"),
        Ok(Endpoint::Https { host: domain("h"), port: 80 })
    );
    assert_eq!(
        Endpoint::from_str("mqtt://h:0"),
        Ok(Endpoint::Mqtt { host: domain("h"), port: 0 })
    );
    assert_eq!(
        Endpoint::from_str("redis://h:65535"),
        Ok(Endpoint::Redis { host: domain("h"), port: 65535 })
    );
}

#[test]
fn written_port_is_used_also_where_it_is_the_well_known_one() {
    assert_eq!(
        Endpoint::from_str("ftp://h:21"),
        Ok(Endpoint::Ftp { host: domain("h"), port: 21 })
    );
    assert_eq!(
        Endpoint::from_str("ftp://h:2121"),
        Ok(Endpoint::Ftp { host: domain("h"), port: 2121 })
    );
    assert_eq!(
        Endpoint::from_str("ftp://h"),
        Ok(Endpoint::Ftp { host: domain("h"), port: 80 })
    );
    assert_eq!(
        Endpoint::from_str("ftp://h:"),
        Ok(Endpoint::Ftp { host: domain("h"), port: 80 })
    );
    assert_eq!(
        Endpoint::from_str("http://h:80"),
        Ok(Endpoint::Http { host: domain("h"), port: 80 })
    );
    assert_eq!(
        Endpoint::from_str("https://h:443"),
        Ok(Endpoint::Https { host: domain("h"), port: 443 })
    );
    assert_eq!(
        Endpoint::from_str("ws://h:80"),
        Ok(Endpoint::Ws { host: domain("h"), port: 80 })
    );
    assert_eq!(
        Endpoint::from_str("wss://h:443"),
        Ok(Endpoint::Wss { host: domain("h"), port: 443 })
    );
}

#[test]
fn written_port_is_found_in_the_authority() {
    let expected = Ok(Endpoint::Ftp { host: domain("h"), port: 21 });
    for text in [
        "ftp://h:21/",
        "ftp://h:21/dir/file:99",
        "ftp://h:21?q=1:2",
        "ftp://h:21#frag",
        "ftp://user@h:21",
        "ftp://user:secret@h:21",
        "ftp://u:p@x@h:21/p@q:5",
        "ftp://h:021",
        "ftp://h:21 ",
        " ftp://h:21",
        "ftp://h:2\t1\n",
        "FTP://h:21",
        "ftp:/h:21",
        "ftp:h:21",
        "ftp:////h:21",
        "ftp:\\\\h:21\\dir",
    ] {
        assert_eq!(Endpoint::from_str(text), expected, "{:?}", text);
    }
    assert_eq!(
        Endpoint::from_str("ftp://[2001:db8::21]:21"),
        Ok(Endpoint::Ftp { host: domain("[2001:db8::21]"), port: 21 })
    );
    assert_eq!(
        Endpoint::from_str("ftp://[2001:db8::21]"),
        Ok(Endpoint::Ftp { host: domain("[2001:db8::21]"), port: 80 })
    );
    assert_eq!(
        Endpoint::from_str("ftp://user:21@h"),
        Ok(Endpoint::Ftp { host: domain("h"), port: 80 })
    );
    assert_eq!(
        Endpoint::from_str("ftp://h/dir:21"),
        Ok(Endpoint::Ftp { host: domain("h"), port: 80 })
    );
}

#[test]
fn backslash_in_user_information_hides_no_port() {
    assert_eq!(Endpoint::from_str("tcp://a:5\\b@h"), invalid("tcp://a:5\\b@h"));
    assert_eq!(
        Endpoint::from_str("tcp://a:5\\b@h:7"),
        Ok(Endpoint::Tcp { host: domain("h"), port: 7 })
    );
    assert_eq!(
        Endpoint::from_str("http://h\\x:81"),
        Ok(Endpoint::Http { host: domain("h"), port: 80 })
    );
}

#[test]
fn no_port_is_read_from_the_text_outside_the_web() {
    assert_eq!(Endpoint::from_str("tcp://h:\\:9000"), invalid("tcp://h:\\:9000"));
    assert_eq!(
        Endpoint::from_str("mqtt://h:\\x:1883"),
        Ok(Endpoint::Mqtt { host: domain("h"), port: 80 })
    );
    assert_eq!(Endpoint::from_str("FILE://h\\x:21"), invalid("FILE://h\\x:21"));
    assert_eq!(Endpoint::from_str("FILE://h\\x@y:21"), invalid("FILE://h\\x@y:21"));
    assert_eq!(Endpoint::from_str("ssh://h:\\:22"), invalid("ssh://h:\\:22"));
    assert_eq!(
        Endpoint::from_parts("tcp://h:\\:9000", parts("tcp", Some("h"), None)),
        invalid("tcp://h:\\:9000")
    );
    assert_eq!(
        Endpoint::from_parts("mqtt://h:1883", parts("mqtt", Some("h"), None)),
        Ok(Endpoint::Mqtt { host: domain("h"), port: 80 })
    );
    assert_eq!(
        Endpoint::from_parts("ssh://h:22", parts("ssh", Some("h"), None)),
        invalid("ssh://h:22")
    );
    assert_eq!(
        Endpoint::from_parts("http://h:\\:81", parts("http", Some("h"), None)),
        Ok(Endpoint::Http { host: domain("h"), port: 80 })
    );
}

#[test]
fn every_scheme_selects_its_variant() {
    let host = || HostAddr::Ip(IpAddr::V4([10, 0, 0, 1]));
    let cases = [
        ("http://10.0.0.1:1", Endpoint::Http { host: host(), port: 1 }),
        ("https://10.0.0.1:2", Endpoint::Https { host: host(), port: 2 }),
        ("tcp://10.0.0.1:3", Endpoint::Tcp { host: host(), port: 3 }),
        ("udp://10.0.0.1:4", Endpoint::Udp { host: host(), port: 4 }),
        ("mqtt://10.0.0.1:5", Endpoint::Mqtt { host: host(), port: 5 }),
        ("mqtts://10.0.0.1:6", Endpoint::Mqtts { host: host(), port: 6 }),
        ("ws://10.0.0.1:7", Endpoint::Ws { host: host(), port: 7 }),
        ("wss://10.0.0.1:8", Endpoint::Wss { host: host(), port: 8 }),
        ("coap://10.0.0.1:9", Endpoint::Coap { host: host(), port: 9 }),
        ("coaps://10.0.0.1:10", Endpoint::Coaps { host: host(), port: 10 }),
        ("redis://10.0.0.1:11", Endpoint::Redis { host: host(), port: 11 }),
        ("amqp://10.0.0.1:12", Endpoint::Amqp { host: host(), port: 12 }),
        ("ftp://10.0.0.1:13", Endpoint::Ftp { host: host(), port: 13 }),
    ];
    for (text, expected) in cases {
        assert_eq!(Endpoint::from_str(text), Ok(expected), "{}", text);
    }
}

#[test]
fn unsupported_scheme() {
    assert_eq!(Endpoint::from_str("ftps://h:21"), Err(ParseEndpointError::InvalidScheme));
    assert_eq!(Endpoint::from_str("ssh://example.com:22"), Err(ParseEndpointError::InvalidScheme));
}

#[test]
fn unsupported_scheme_without_port_is_an_invalid_address() {
    assert_eq!(Endpoint::from_str("ftps://h"), invalid("ftps://h"));
}

#[test]
fn scheme_is_matched_by_the_parsed_name() {
    assert_eq!(Scheme::from_name("tcp"), Some(Scheme::Tcp));
    assert_eq!(Scheme::from_name("TCP"), None);
    assert_eq!(Scheme::from_name("tcps"), None);
    assert_eq!(Scheme::from_name(""), None);
    for scheme in Scheme::all() {
        assert_eq!(Scheme::from_name(scheme.name()), Some(scheme));
    }
}

#[test]
fn malformed_text_is_an_invalid_address() {
    for text in ["", "not a url", "tcp://", "http://", "://h:1", "tcp://h:99999", "tcp://h:port"] {
        assert_eq!(Endpoint::from_str(text), invalid(text), "{:?}", text);
    }
}

#[test]
fn url_without_host_is_an_invalid_address() {
    assert_eq!(Endpoint::from_str("mailto:someone@example.com"), invalid("mailto:someone@example.com"));
    assert_eq!(Endpoint::from_str("tcp:127.0.0.1:9000"), invalid("tcp:127.0.0.1:9000"));
}

#[test]
fn path_is_taken_as_it_is() {
    assert_eq!(Endpoint::from_str("unix://"), Ok(Endpoint::Unix(String::new())));
    assert_eq!(
        Endpoint::from_str("unix://relative/path"),
        Ok(Endpoint::Unix("relative/path".to_string()))
    );
    assert_eq!(
        Endpoint::from_str("file:///a%20b/c d?x#y"),
        Ok(Endpoint::File("/a%20b/c d?x#y".to_string()))
    );
    assert_eq!(
        Endpoint::from_str("unix:///tmp/sø.sock"),
        Ok(Endpoint::Unix("/tmp/sø.sock".to_string()))
    );
}

#[test]
fn path_prefix_is_exact() {
    assert_eq!(Endpoint::from_str("UNIX:///tmp/s"), invalid("UNIX:///tmp/s"));
    assert_eq!(Endpoint::from_str("unix:/tmp/s"), invalid("unix:/tmp/s"));
}

#[test]
fn host_classification() {
    assert_eq!(
        Endpoint::from_str("tcp://127.0.0.1:9000"),
        Ok(Endpoint::Tcp { host: HostAddr::Ip(IpAddr::V4([127, 0, 0, 1])), port: 9000 })
    );
    assert_eq!(
        Endpoint::from_str("tcp://example.com:8080"),
        Ok(Endpoint::Tcp { host: domain("example.com"), port: 8080 })
    );
    assert_eq!(
        Endpoint::from_str("tcp://256.0.0.1:1"),
        Ok(Endpoint::Tcp { host: domain("256.0.0.1"), port: 1 })
    );
    assert_eq!(
        Endpoint::from_str("tcp://[::1]:9000"),
        Ok(Endpoint::Tcp { host: domain("[::1]"), port: 9000 })
    );
}

#[test]
fn host_text_is_classified() {
    assert_eq!(HostAddr::parse(""), None);
    assert_eq!(HostAddr::parse("::1"), Some(HostAddr::Ip(IpAddr::V6([0, 0, 0, 0, 0, 0, 0, 1]))));
    assert_eq!(HostAddr::parse("10.1.2.3"), Some(HostAddr::Ip(IpAddr::V4([10, 1, 2, 3]))));
    assert_eq!(HostAddr::parse("10.1.2"), Some(domain("10.1.2")));
    assert_eq!(HostAddr::parse("broker.local"), Some(domain("broker.local")));
}

fn parts(scheme: &str, host: Option<&str>, port: Option<u16>) -> Option<UrlParts> {
    Some(UrlParts { scheme: scheme.to_string(), host: host.map(String::from), port })
}

#[test]
fn endpoint_from_url_parts() {
    assert_eq!(
        Endpoint::from_parts("x", parts("coap", Some("h"), None)),
        Ok(Endpoint::Coap { host: domain("h"), port: 80 })
    );
    assert_eq!(
        Endpoint::from_parts("x", parts("coaps", Some("1.2.3.4"), Some(5684))),
        Ok(Endpoint::Coaps { host: HostAddr::Ip(IpAddr::V4([1, 2, 3, 4])), port: 5684 })
    );
    assert_eq!(
        Endpoint::from_parts("ftp://h:21", parts("ftp", Some("h"), None)),
        Ok(Endpoint::Ftp { host: domain("h"), port: 21 })
    );
    assert_eq!(
        Endpoint::from_parts("ftp://h:21", parts("ftp", Some("h"), Some(2121))),
        Ok(Endpoint::Ftp { host: domain("h"), port: 2121 })
    );
    assert_eq!(
        Endpoint::from_parts("ftp://h", parts("ftp", Some("h"), None)),
        Ok(Endpoint::Ftp { host: domain("h"), port: 80 })
    );
    assert_eq!(Endpoint::from_parts("x", None), invalid("x"));
    assert_eq!(Endpoint::from_parts("x", parts("tcp", None, Some(1))), invalid("x"));
    assert_eq!(Endpoint::from_parts("x", parts("tcp", Some(""), Some(1))), invalid("x"));
    assert_eq!(Endpoint::from_parts("x", parts("tcp", Some("h"), None)), invalid("x"));
    assert_eq!(Endpoint::from_parts("x", parts("nope", Some("h"), None)), invalid("x"));
    assert_eq!(
        Endpoint::from_parts("x", parts("nope", Some("h"), Some(1))),
        Err(ParseEndpointError::InvalidScheme)
    );
}

#[test]
fn error_messages() {
    assert_eq!(ParseEndpointError::InvalidScheme.to_string(), "unsupported scheme");
    assert_eq!(
        ParseEndpointError::InvalidAddress("tcp://h".to_string()).to_string(),
        "invalid address: tcp://h"
    );
}
