use endpoint::authority::find_written_port;

#[test]
fn port_after_the_host() {
    assert_eq!(find_written_port("ftp://h:21"), Some(21));
    assert_eq!(find_written_port("tcp://127.0.0.1:9000"), Some(9000));
    assert_eq!(find_written_port("tcp://example.com:0"), Some(0));
    assert_eq!(find_written_port("tcp://example.com:65535"), Some(65535));
    assert_eq!(find_written_port("tcp://[::1]:8080"), Some(8080));
    assert_eq!(find_written_port("http://h:80/index.html"), Some(80));
}

#[test]
fn no_port_after_the_host() {
    for text in [
        "", "h", "ftp", "ftp:", "ftp://", "ftp://h", "ftp://h:", "ftp://h/", "ftp://h/a:21",
        "ftp://h?a:21", "ftp://h#a:21", "ftp://[::1]", "ftp://[::21]", "ftp://user:21@h",
        "ftp://h:21x", "ftp://h:x21", "ftp://h:-1", "ftp://h:+1", "ftp://h:2.1", "ftp://h:٢١",
    ] {
        assert_eq!(find_written_port(text), None, "{:?}", text);
    }
}

#[test]
fn port_of_at_most_sixteen_bits() {
    assert_eq!(find_written_port("tcp://h:65535"), Some(65535));
    assert_eq!(find_written_port("tcp://h:65536"), None);
    assert_eq!(find_written_port("tcp://h:99999"), None);
    assert_eq!(find_written_port("tcp://h:4294967296"), None);
    assert_eq!(find_written_port("tcp://h:18446744073709551616"), None);
    assert_eq!(find_written_port("tcp://h:00000000000000000000080"), Some(80));
}

#[test]
fn port_after_user_information() {
    assert_eq!(find_written_port("ftp://user@h:21"), Some(21));
    assert_eq!(find_written_port("ftp://user:secret@h:21"), Some(21));
    assert_eq!(find_written_port("ftp://user:1@h"), None);
    assert_eq!(find_written_port("ftp://a@b@h:21"), Some(21));
    assert_eq!(find_written_port("ftp://h:21/a@b:5"), Some(21));
}

#[test]
fn blanks_and_slashes_are_left_aside() {
    assert_eq!(find_written_port(" ftp://h:21 "), Some(21));
    assert_eq!(find_written_port("ftp://h:2\t1\r\n"), Some(21));
    assert_eq!(find_written_port("ftp:h:21"), Some(21));
    assert_eq!(find_written_port("ftp:/h:21"), Some(21));
    assert_eq!(find_written_port("ftp:////h:21"), Some(21));
    assert_eq!(find_written_port("ftp:\\\\h:21\\dir"), Some(21));
}

#[test]
fn backslash_ends_the_authority() {
    assert_eq!(find_written_port("http://h:81\\x"), Some(81));
    assert_eq!(find_written_port("http://h\\x:81"), None);
    assert_eq!(find_written_port("http://h:\\:81"), None);
    assert_eq!(find_written_port("http://a:5\\b@h"), Some(5));
}
