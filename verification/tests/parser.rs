use url_wasm::parser::{
    ends_with_a_number, parse_ascii_domain, parse_host, parse_ipv4, parse_ipv4_number, parse_ipv6,
    parse_ipv6_pieces, parse_opaque_host,
};

#[test]
fn ipv4_numbers_in_each_radix() {
    assert_eq!(parse_ipv4_number("".to_string()), None);
    assert_eq!(parse_ipv4_number("127".to_string()), Some(127));
    assert_eq!(parse_ipv4_number("0x7f".to_string()), Some(127));
    assert_eq!(parse_ipv4_number("0X7F".to_string()), Some(127));
    assert_eq!(parse_ipv4_number("0x".to_string()), Some(0));
    assert_eq!(parse_ipv4_number("010".to_string()), Some(8));
    assert_eq!(parse_ipv4_number("09".to_string()), None);
    assert_eq!(parse_ipv4_number("08".to_string()), None);
    assert_eq!(parse_ipv4_number("07".to_string()), Some(7));
    assert_eq!(parse_ipv4_number("0".to_string()), Some(0));
    assert_eq!(parse_ipv4_number("00".to_string()), Some(0));
    assert_eq!(parse_ipv4_number("019".to_string()), None);
    assert_eq!(parse_ipv4_number("+1".to_string()), None);
    assert_eq!(parse_ipv4_number("0x+1".to_string()), None);
    assert_eq!(parse_ipv4_number("4294967295".to_string()), Some(4294967295));
    assert_eq!(parse_ipv4_number("4294967296".to_string()), None);
    assert_eq!(parse_ipv4_number("1a".to_string()), None);
}

#[test]
fn ipv4_addresses() {
    assert_eq!(parse_ipv4("192.168.0.1".to_string()), Some(3232235521));
    assert_eq!(parse_ipv4("0x7f.1".to_string()), Some(2130706433));
    assert_eq!(parse_ipv4("1.256".to_string()), Some(16777472));
    assert_eq!(parse_ipv4("1.".to_string()), Some(1));
    assert_eq!(parse_ipv4("4294967295".to_string()), Some(4294967295));
    assert_eq!(parse_ipv4("1.16777215".to_string()), Some(33554431));
    assert_eq!(parse_ipv4("255.255.255.255".to_string()), Some(4294967295));
}

#[test]
fn ipv4_failures() {
    assert_eq!(parse_ipv4("".to_string()), None);
    assert_eq!(parse_ipv4("1.2.3.4.5".to_string()), None);
    assert_eq!(parse_ipv4("256.1".to_string()), None);
    assert_eq!(parse_ipv4("256.256".to_string()), None);
    assert_eq!(parse_ipv4("300.300".to_string()), None);
    assert_eq!(parse_ipv4("255.255.255.256".to_string()), None);
    assert_eq!(parse_ipv4("1.16777216".to_string()), None);
    assert_eq!(parse_ipv4("1.2.3.257".to_string()), None);
    assert_eq!(parse_ipv4("a.b".to_string()), None);
}

#[test]
fn domains_ending_in_a_number() {
    assert!(!ends_with_a_number("example.com"));
    assert!(ends_with_a_number("example.1"));
    assert!(ends_with_a_number("1.2.3."));
    assert!(!ends_with_a_number("."));
    assert!(!ends_with_a_number("example.."));
    assert!(ends_with_a_number("example.0x1"));
    assert!(ends_with_a_number("0x1"));
    assert!(ends_with_a_number("a.0x1"));
    assert!(!ends_with_a_number("a.0x1g"));
    assert!(!ends_with_a_number(""));
}

#[test]
fn ipv6_addresses() {
    assert_eq!(parse_ipv6_pieces("::1"), Some(vec![0, 0, 0, 0, 0, 0, 0, 1]));
    assert_eq!(parse_ipv6_pieces("1:2:3:4:5:6:7:8"), Some(vec![1, 2, 3, 4, 5, 6, 7, 8]));
    assert_eq!(parse_ipv6_pieces("1:2"), None);
    assert_eq!(parse_ipv6_pieces("1:2:3:4:5:6:7"), None);
    assert_eq!(parse_ipv6_pieces("1::2"), Some(vec![1, 0, 0, 0, 0, 0, 0, 2]));
    assert_eq!(parse_ipv6_pieces("2001:DB8::1"), Some(vec![0x2001, 0xdb8, 0, 0, 0, 0, 0, 1]));
    assert_eq!(parse_ipv6_pieces("::"), Some(vec![0; 8]));
    assert_eq!(
        parse_ipv6_pieces("1:2:3:4:5:6:1.2.3.4"),
        Some(vec![1, 2, 3, 4, 5, 6, 0x0102, 0x0304])
    );
    assert_eq!(parse_ipv6_pieces(":1"), None);
    assert_eq!(parse_ipv6_pieces("12345::"), None);
    assert_eq!(parse_ipv6_pieces("1:2:3:4:5:6:7:8:9"), None);
    assert_eq!(parse_ipv6_pieces("1:2:3:4:5:6:1.2.3"), None);
    assert_eq!(parse_ipv6_pieces("1:2:3:4:5:6:1.02.3.4"), None);
    assert_eq!(parse_ipv6_pieces("1:2:3:4:5:6:1.2.3.256"), None);
    assert_eq!(parse_ipv6_pieces("1:"), None);
}

#[test]
fn ipv6_serialized() {
    assert_eq!(parse_ipv6("::1".to_string()), Some("::1".to_string()));
    assert_eq!(parse_ipv6("1:2:3:4:5:6:7:8".to_string()), Some("1:2:3:4:5:6:7:8".to_string()));
    assert_eq!(parse_ipv6("1::2".to_string()), Some("1::2".to_string()));
    assert_eq!(parse_ipv6("2001:DB8::1".to_string()), Some("2001:db8::1".to_string()));
    assert_eq!(parse_ipv6("::ffff:192.168.0.1".to_string()), Some("::ffff:c0a8:1".to_string()));
    assert_eq!(parse_ipv6("0:0:0:0:0:0:0:0".to_string()), Some("::".to_string()));
    assert_eq!(parse_ipv6("::d800".to_string()), Some("::d800".to_string()));
    assert_eq!(parse_ipv6("1:2:3:4:5:6:7".to_string()), None);
}

#[test]
fn opaque_hosts() {
    assert_eq!(parse_opaque_host("example".to_string()), "example".to_string());
    assert_eq!(parse_opaque_host("h\u{e9}llo".to_string()), "h%C3%A9llo".to_string());
    assert_eq!(parse_opaque_host("a b".to_string()), "".to_string());
    assert_eq!(parse_opaque_host("a<b".to_string()), "".to_string());
    assert_eq!(parse_opaque_host("a\u{7f}".to_string()), "a%7F".to_string());
}

#[test]
fn ascii_domains() {
    assert_eq!(parse_ascii_domain("".to_string()), "".to_string());
    assert_eq!(parse_ascii_domain("example.com".to_string()), "example.com".to_string());
    assert_eq!(parse_ascii_domain("ex%20ample".to_string()), "".to_string());
    assert_eq!(parse_ascii_domain("0x7f.1".to_string()), "127.0.0.1".to_string());
    assert_eq!(parse_ascii_domain("1.2.3.4.5".to_string()), "".to_string());
}

#[test]
fn hosts() {
    assert_eq!(parse_host("example.com".to_string(), false), "example.com".to_string());
    assert_eq!(parse_host("EXAMPLE.com".to_string(), false), "example.com".to_string());
    assert_eq!(parse_host("192.168.0.1".to_string(), false), "192.168.0.1".to_string());
    assert_eq!(parse_host("[::1]".to_string(), false), "::1".to_string());
    assert_eq!(parse_host("[::1".to_string(), false), "".to_string());
    assert_eq!(parse_host("[1::2]".to_string(), true), "1::2".to_string());
    assert_eq!(parse_host("[1:2]".to_string(), true), "".to_string());
    assert_eq!(parse_host("a b".to_string(), true), "".to_string());
    assert_eq!(parse_host("h\u{e9}llo".to_string(), true), "h%C3%A9llo".to_string());
    assert_eq!(parse_host("exa mple.com".to_string(), false), "".to_string());
    assert_eq!(parse_host("b\u{fc}cher.de".to_string(), false), "xn--bcher-kva.de".to_string());
}
