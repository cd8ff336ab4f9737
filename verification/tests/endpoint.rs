use claw_wire::endpoint::{parse_endpoint, percent_decode, unescape_percent, BridgeEndpoint};

#[test]
fn parses_endpoint_with_token() {
    let parsed = parse_endpoint("tcp://127.0.0.1:5555?token=abc%2Fdef").expect("should parse");
    assert_eq!(parsed.addr, "127.0.0.1:5555");
    assert_eq!(parsed.token, "abc/def");
}

#[test]
fn rejects_endpoint_without_token() {
    // Without a token the peer cannot be verified: no bridge, rather than an open one.
    assert!(parse_endpoint("tcp://127.0.0.1:5555").is_none());
    assert!(parse_endpoint("http://127.0.0.1:5555?token=abc").is_none());
    assert!(parse_endpoint("garbage").is_none());
}

#[test]
fn rejects_endpoint_without_address_or_with_empty_token() {
    assert!(parse_endpoint("tcp://?token=abc").is_none());
    assert!(parse_endpoint("tcp://host:1?token=").is_none());
    assert!(parse_endpoint("tcp://host:1?other=abc").is_none());
    assert!(parse_endpoint("").is_none());
}

#[test]
fn last_token_of_the_query_counts() {
    let parsed = parse_endpoint("tcp://h:1?token=a&x=1&token=b").unwrap();
    assert_eq!(parsed.token, "b");
    assert!(parse_endpoint("tcp://h:1?token=a&token=").is_none());
    // Only the first question mark splits.
    let parsed = parse_endpoint("tcp://h:1?token=a?b").unwrap();
    assert_eq!(parsed.addr, "h:1");
    assert_eq!(parsed.token, "a?b");
}

#[test]
fn written_endpoint_is_read_back() {
    let parsed = parse_endpoint("tcp://[::1]:80?token=%E4%B8%AD%20a%26b%3D%2B").unwrap();
    assert_eq!(parsed.addr, "[::1]:80");
    assert_eq!(parsed.token, "中 a&b=+");
}

#[test]
fn percent_decode_resolves_escapes_and_plus() {
    assert_eq!(percent_decode("a+b%20c"), "a b c");
    assert_eq!(percent_decode("%2f%2F"), "//");
    // An escape that is cut short or is not hexadecimal stays as it is.
    assert_eq!(percent_decode("%"), "%");
    assert_eq!(percent_decode("%4"), "%4");
    assert_eq!(percent_decode("%41"), "A");
    assert_eq!(percent_decode("%zz"), "%zz");
    assert_eq!(percent_decode("%é1"), "%é1");
    // A sign in front of a digit is no hexadecimal digit.
    assert_eq!(percent_decode("%+9"), "% 9");
    assert_eq!(percent_decode("%+5"), "% 5");
}

#[test]
fn percent_decode_replaces_invalid_utf8() {
    assert_eq!(percent_decode("a%FFb"), "a\u{FFFD}b");
    assert_eq!(percent_decode("%C3%A9"), "é");
    assert_eq!(percent_decode("%E4%B8"), "\u{FFFD}");
    assert_eq!(percent_decode("%80%C1x%F5"), "\u{FFFD}\u{FFFD}x\u{FFFD}");
}

#[test]
fn unescape_percent_undoes_encoding_of_every_byte() {
    for b in 0u8..=255 {
        let code = format!("%{:02X}", b);
        assert_eq!(unescape_percent(code.as_bytes()), vec![b]);
    }
    assert_eq!(unescape_percent(b""), Vec::<u8>::new());
}

#[test]
fn endpoint_needs_both_parts() {
    assert!(BridgeEndpoint::new(String::new(), "t".to_string()).is_none());
    assert!(BridgeEndpoint::new("a".to_string(), String::new()).is_none());
    let endpoint = BridgeEndpoint::new("a".to_string(), "t".to_string()).unwrap();
    assert_eq!(endpoint.addr, "a");
    assert_eq!(endpoint.token, "t");
}

#[test]
fn text_without_percent_goes_through() {
    assert_eq!(percent_decode("a+é中"), "a é中");
    assert_eq!(percent_decode("a+é%2B"), "a é+");
    assert_eq!(percent_decode("a+é%FF"), "a é\u{FFFD}");
    assert_eq!(percent_decode("plain-text"), "plain-text");
    assert_eq!(percent_decode(""), "");
}

#[test]
fn token_that_is_no_utf8_still_names_an_endpoint() {
    let parsed = parse_endpoint("tcp://h:1?token=%FF").unwrap();
    assert_eq!(parsed.token, "\u{FFFD}");
}

#[test]
fn stray_bytes_are_replaced_one_by_one() {
    for b in (0x80u8..=0xc1).chain(0xf5..=0xff) {
        assert_eq!(percent_decode(&format!("%{b:02x}b")), "\u{FFFD}b");
    }
}
