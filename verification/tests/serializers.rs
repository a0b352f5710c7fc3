use url_wasm::parser::{parse_ipv4, parse_ipv6};
use url_wasm::serializers::{
    find_longest_zero_sequence, serialize_ipv4, serialize_ipv6,
};

#[test]
fn ipv4_serialized() {
    assert_eq!(serialize_ipv4(3232235521), "192.168.0.1".to_string());
    assert_eq!(serialize_ipv4(0), "0.0.0.0".to_string());
    assert_eq!(serialize_ipv4(4294967295), "255.255.255.255".to_string());
    assert_eq!(serialize_ipv4(5033164800), "44.0.0.0".to_string());
    assert_eq!(serialize_ipv4(5033165100), "44.0.1.44".to_string());
}

#[test]
fn ipv4_serialized_through_a_double() {
    // 2^53 + 3 is not a double; the nearest one, ties to even, is 2^53 + 4.
    assert_eq!(serialize_ipv4((1u64 << 53) + 3), "0.0.0.4".to_string());
    assert_eq!(serialize_ipv4((1u64 << 53) + 1), "0.0.0.0".to_string());
    assert_eq!(serialize_ipv4(u64::MAX), "0.0.0.0".to_string());
}

#[test]
fn longest_zero_sequence() {
    assert_eq!(find_longest_zero_sequence(&vec![1, 0, 0, 2, 0, 0, 0, 3]), Some(4));
    assert_eq!(find_longest_zero_sequence(&vec![1, 0, 0, 1, 0, 0, 1, 1]), Some(1));
    assert_eq!(find_longest_zero_sequence(&vec![1, 0, 2, 0, 3, 0, 4, 0]), None);
    assert_eq!(find_longest_zero_sequence(&vec![1, 2, 3, 4, 5, 0, 0, 0]), Some(5));
    assert_eq!(find_longest_zero_sequence(&vec![0, 0, 0, 0, 0, 0, 0, 0]), Some(0));
    assert_eq!(find_longest_zero_sequence(&vec![]), None);
}

#[test]
fn ipv6_serialized_pieces() {
    assert_eq!(serialize_ipv6(vec![0x2001, 0xdb8, 0, 0, 0, 0, 0, 1]), "2001:db8::1".to_string());
    assert_eq!(serialize_ipv6(vec![0, 0, 0, 0, 0, 0, 0, 1]), "::1".to_string());
    assert_eq!(serialize_ipv6(vec![1, 2, 3, 4, 5, 6, 7, 8]), "1:2:3:4:5:6:7:8".to_string());
    assert_eq!(serialize_ipv6(vec![1, 0, 0, 2, 0, 0, 0, 3]), "1:0:0:2::3".to_string());
    assert_eq!(serialize_ipv6(vec![1, 0, 2, 0, 3, 0, 4, 0]), "1:0:2:0:3:0:4:0".to_string());
    assert_eq!(serialize_ipv6(vec![0; 8]), "::".to_string());
    assert_eq!(serialize_ipv6(vec![0xffff, 0xABCD, 0, 0, 1, 0, 0, 0]), "ffff:abcd:0:0:1::".to_string());
    assert_eq!(serialize_ipv6(vec![0xd800, 1, 1, 1, 1, 1, 1, 1]), "d800:1:1:1:1:1:1:1".to_string());
}

#[test]
fn ipv6_text_reads_back_as_itself() {
    for a in [
        vec![0x2001, 0xdb8, 0, 0, 0, 0, 0, 1],
        vec![1, 2, 3, 4, 5, 6, 7, 8],
        vec![0; 8],
        vec![1, 0, 0, 2, 0, 0, 0, 3],
        vec![0, 0, 0, 0, 0, 0xffff, 0xc0a8, 1],
    ] {
        let text = serialize_ipv6(a);
        assert_eq!(parse_ipv6(text.clone()), Some(text));
    }
}

#[test]
fn ipv4_text_reads_back_as_the_address() {
    for a in [0u64, 1, 255, 256, 65535, 3232235521, 16909060, 4294967295] {
        assert_eq!(parse_ipv4(serialize_ipv4(a)), Some(a));
    }
}

#[test]
fn distinct_addresses_have_distinct_text() {
    assert_ne!(serialize_ipv6(vec![1; 8]), serialize_ipv6(vec![2; 8]));
    assert_ne!(
        serialize_ipv6(vec![0, 0, 1, 0, 0, 0, 0, 0]),
        serialize_ipv6(vec![0, 0, 0, 1, 0, 0, 0, 0])
    );
}
