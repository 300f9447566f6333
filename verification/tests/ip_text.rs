use endpoint::IpAddr;

fn v4(a: u8, b: u8, c: u8, d: u8) -> Option<IpAddr> {
    Some(IpAddr::V4([a, b, c, d]))
}

fn v6(groups: [u16; 8]) -> Option<IpAddr> {
    Some(IpAddr::V6(groups))
}

#[test]
fn ipv4_is_four_decimal_octets() {
    assert_eq!(IpAddr::parse("127.0.0.1"), v4(127, 0, 0, 1));
    assert_eq!(IpAddr::parse("0.0.0.0"), v4(0, 0, 0, 0));
    assert_eq!(IpAddr::parse("255.255.255.255"), v4(255, 255, 255, 255));
    assert_eq!(IpAddr::parse("192.168.10.99"), v4(192, 168, 10, 99));
}

#[test]
fn ipv4_rejects_what_is_not_four_octets() {
    for text in [
        "", "1", "1.2.3", "1.2.3.4.5", "1..3.4", ".1.2.3", "1.2.3.", "1.2.3.4.", "1.2.3.4 ",
        " 1.2.3.4", "a.b.c.d", "1.2.3.-4", "1.2.3.+4", "١.2.3.4",
    ] {
        assert_eq!(IpAddr::parse(text), None, "{:?}", text);
    }
}

#[test]
fn ipv4_rejects_octets_out_of_range_or_with_leading_zero() {
    for text in ["256.0.0.1", "1.2.3.256", "1.2.3.1000", "01.2.3.4", "1.2.3.04", "0.00.0.0", "1.2.3.0255"] {
        assert_eq!(IpAddr::parse(text), None, "{:?}", text);
    }
}

#[test]
fn ipv6_full_form() {
    assert_eq!(IpAddr::parse("1:2:3:4:5:6:7:8"), v6([1, 2, 3, 4, 5, 6, 7, 8]));
    assert_eq!(IpAddr::parse("0:0:0:0:0:0:0:0"), v6([0; 8]));
    assert_eq!(
        IpAddr::parse("ABCD:ef01:0023:4:ffff:0:00:000a"),
        v6([0xabcd, 0xef01, 0x23, 4, 0xffff, 0, 0, 10])
    );
    assert_eq!(IpAddr::parse("1:2:3:4:5:6:7"), None);
    assert_eq!(IpAddr::parse("1:2:3:4:5:6:7:8:9"), None);
    assert_eq!(IpAddr::parse("1:2:3:4:5:6:7:"), None);
    assert_eq!(IpAddr::parse(":1:2:3:4:5:6:7"), None);
}

#[test]
fn ipv6_with_double_colon() {
    assert_eq!(IpAddr::parse("::"), v6([0; 8]));
    assert_eq!(IpAddr::parse("::1"), v6([0, 0, 0, 0, 0, 0, 0, 1]));
    assert_eq!(IpAddr::parse("1::"), v6([1, 0, 0, 0, 0, 0, 0, 0]));
    assert_eq!(IpAddr::parse("1::2"), v6([1, 0, 0, 0, 0, 0, 0, 2]));
    assert_eq!(IpAddr::parse("fe80::1:2"), v6([0xfe80, 0, 0, 0, 0, 0, 1, 2]));
    assert_eq!(IpAddr::parse("1:2:3:4:5:6:7::"), v6([1, 2, 3, 4, 5, 6, 7, 0]));
    assert_eq!(IpAddr::parse("::2:3:4:5:6:7:8"), v6([0, 2, 3, 4, 5, 6, 7, 8]));
    assert_eq!(IpAddr::parse("1:2:3::5:6:7:8"), v6([1, 2, 3, 0, 5, 6, 7, 8]));
    assert_eq!(IpAddr::parse("0::0"), v6([0; 8]));
}

#[test]
fn ipv6_rejects_bad_double_colons() {
    for text in [":::", "1:::2", "::1::", "1::2::3", "1:2:3:4::5:6:7:8", "::1:2:3:4:5:6:7:8", ":", ":1", "1:"] {
        assert_eq!(IpAddr::parse(text), None, "{:?}", text);
    }
}

#[test]
fn ipv6_rejects_bad_groups() {
    for text in ["12345::", "::00000", "g::", "::-1", "1:2", "[::1]", "::1%eth0", "::1 ", "1.2.3.4:80"] {
        assert_eq!(IpAddr::parse(text), None, "{:?}", text);
    }
    assert_eq!(IpAddr::parse("::0000"), v6([0; 8]));
}

#[test]
fn ipv6_with_embedded_ipv4() {
    assert_eq!(IpAddr::parse("::ffff:1.2.3.4"), v6([0, 0, 0, 0, 0, 0xffff, 0x0102, 0x0304]));
    assert_eq!(IpAddr::parse("::1.2.3.4"), v6([0, 0, 0, 0, 0, 0, 0x0102, 0x0304]));
    assert_eq!(
        IpAddr::parse("::ffff:255.255.255.255"),
        v6([0, 0, 0, 0, 0, 0xffff, 0xffff, 0xffff])
    );
    assert_eq!(
        IpAddr::parse("1:2:3:4:5:6:1.2.3.4"),
        v6([1, 2, 3, 4, 5, 6, 0x0102, 0x0304])
    );
    assert_eq!(
        IpAddr::parse("1:2:3:4:5::1.2.3.4"),
        v6([1, 2, 3, 4, 5, 0, 0x0102, 0x0304])
    );
    for text in [
        "1:2:3:4:5:6:7:1.2.3.4", "1:2:3:4:5:1.2.3.4", "1.2.3.4::", "::1.2.3.4:5",
        "1:2:3:4:5:6::1.2.3.4", "::1.2.3", "::1.2.3.256", "::01.2.3.4", "::1.2.3.4.5",
        "1.2.3.4:5:6:7:8:9:a",
    ] {
        assert_eq!(IpAddr::parse(text), None, "{:?}", text);
    }
}

#[test]
fn ipv4_text() {
    assert_eq!(IpAddr::V4([127, 0, 0, 1]).to_string(), "127.0.0.1");
    assert_eq!(IpAddr::V4([0, 0, 0, 0]).to_string(), "0.0.0.0");
    assert_eq!(IpAddr::V4([255, 255, 255, 255]).to_string(), "255.255.255.255");
    assert_eq!(IpAddr::V4([10, 100, 9, 90]).to_string(), "10.100.9.90");
}

#[test]
fn ipv6_text() {
    assert_eq!(IpAddr::V6([0; 8]).to_string(), "::");
    assert_eq!(IpAddr::V6([0, 0, 0, 0, 0, 0, 0, 1]).to_string(), "::1");
    assert_eq!(IpAddr::V6([1, 0, 0, 0, 0, 0, 0, 0]).to_string(), "1::");
    assert_eq!(IpAddr::V6([1, 2, 3, 4, 5, 6, 7, 8]).to_string(), "1:2:3:4:5:6:7:8");
    assert_eq!(
        IpAddr::V6([0x2001, 0xdb8, 0, 0, 0, 0, 0, 0xabcd]).to_string(),
        "2001:db8::abcd"
    );
    assert_eq!(
        IpAddr::V6([0xffff; 8]).to_string(),
        "ffff:ffff:ffff:ffff:ffff:ffff:ffff:ffff"
    );
    assert_eq!(IpAddr::V6([0xfe80, 0, 0, 0, 0x0a0b, 0x00c0, 0x1, 0x10]).to_string(), "fe80::a0b:c0:1:10");
}

#[test]
fn ipv6_text_shortens_the_leftmost_longest_run() {
    assert_eq!(IpAddr::V6([0x2001, 0xdb8, 0, 0, 1, 0, 0, 1]).to_string(), "2001:db8::1:0:0:1");
    assert_eq!(IpAddr::V6([0, 1, 0, 0, 2, 0, 0, 0]).to_string(), "0:1:0:0:2::");
    assert_eq!(IpAddr::V6([0, 0, 1, 0, 0, 0, 1, 0]).to_string(), "0:0:1::1:0");
    assert_eq!(IpAddr::V6([1, 0, 0, 2, 0, 0, 0, 3]).to_string(), "1:0:0:2::3");
}

#[test]
fn ipv6_text_keeps_a_single_zero_group() {
    assert_eq!(IpAddr::V6([1, 0, 2, 0, 3, 0, 4, 0]).to_string(), "1:0:2:0:3:0:4:0");
    assert_eq!(IpAddr::V6([0, 1, 1, 1, 1, 1, 1, 1]).to_string(), "0:1:1:1:1:1:1:1");
}

#[test]
fn ipv6_text_of_mapped_ipv4() {
    assert_eq!(
        IpAddr::V6([0, 0, 0, 0, 0, 0xffff, 0xc000, 0x0280]).to_string(),
        "::ffff:192.0.2.128"
    );
    assert_eq!(IpAddr::V6([0, 0, 0, 0, 0, 0xffff, 0, 0]).to_string(), "::ffff:0.0.0.0");
    assert_eq!(IpAddr::V6([0, 0, 0, 0, 0, 0, 0xc000, 0x0280]).to_string(), "::c000:280");
    assert_eq!(IpAddr::V6([0, 0, 0, 0, 1, 0xffff, 0xc000, 0x0280]).to_string(), "::1:ffff:c000:280");
}

#[test]
fn ip_text_reads_back() {
    let samples = [
        IpAddr::V4([0, 0, 0, 0]),
        IpAddr::V4([1, 20, 255, 100]),
        IpAddr::V6([0; 8]),
        IpAddr::V6([0, 0, 0, 0, 0, 0, 0, 1]),
        IpAddr::V6([0, 0, 0, 0, 0, 0xffff, 0xc000, 0x0280]),
        IpAddr::V6([0, 0, 0, 0, 0, 0, 0xc000, 0x0280]),
        IpAddr::V6([0x2001, 0xdb8, 0, 0, 1, 0, 0, 1]),
        IpAddr::V6([1, 0, 2, 0, 3, 0, 4, 0]),
        IpAddr::V6([0, 1, 0, 0, 2, 0, 0, 0]),
        IpAddr::V6([0xffff; 8]),
        IpAddr::V6([1, 2, 3, 4, 5, 6, 0, 0]),
        IpAddr::V6([0, 0, 3, 4, 5, 6, 7, 8]),
    ];
    for ip in samples {
        assert_eq!(IpAddr::parse(&ip.to_string()), Some(ip), "{}", ip.to_string());
    }
}
