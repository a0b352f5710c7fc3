use url_wasm::encode_sets::{utf8_percent_encode, EncodeSet};
use url_wasm::number::{u32_from_str_radix, u64_to_decimal};
use url_wasm::platform::{
    is_normalized_windows_drive_letter, is_windows_drive_letter, starts_with_windows_drive_letter,
};
use url_wasm::state::{is_special_scheme, special_scheme_port};
use url_wasm::string::{
    is_ascii_alphanumeric, is_ascii_digit, is_ascii_hexdigit, is_double_dot_path_segment,
    is_single_dot_path_segment,
};
use url_wasm::text::{char_at, split_char, str_ascii_ci_eq, str_eq, substring, substring_from};
use url_wasm::url_object::URL;

#[test]
fn ascii_classes_of_a_code() {
    assert!(is_ascii_digit(Some(b'0')));
    assert!(is_ascii_digit(Some(b'9')));
    assert!(!is_ascii_digit(Some(b'a')));
    assert!(!is_ascii_digit(None));
    assert!(is_ascii_hexdigit(Some(b'f')));
    assert!(is_ascii_hexdigit(Some(b'F')));
    assert!(!is_ascii_hexdigit(Some(b'g')));
    assert!(!is_ascii_hexdigit(None));
    assert!(is_ascii_alphanumeric(Some(b'z')));
    assert!(is_ascii_alphanumeric(Some(b'Q')));
    assert!(is_ascii_alphanumeric(Some(b'5')));
    assert!(!is_ascii_alphanumeric(Some(b'-')));
    assert!(!is_ascii_alphanumeric(None));
}

#[test]
fn dot_segments() {
    assert!(is_double_dot_path_segment(".."));
    assert!(is_double_dot_path_segment(".%2e"));
    assert!(is_double_dot_path_segment("%2E."));
    assert!(is_double_dot_path_segment("%2e%2E"));
    assert!(!is_double_dot_path_segment("..."));
    assert!(!is_double_dot_path_segment("."));
    assert!(is_single_dot_path_segment("."));
    assert!(is_single_dot_path_segment("%2e"));
    assert!(is_single_dot_path_segment("%2E"));
    assert!(!is_single_dot_path_segment(".."));
    assert!(!is_single_dot_path_segment(""));
}

#[test]
fn windows_drive_letters() {
    assert!(is_windows_drive_letter("c:"));
    assert!(is_windows_drive_letter("C|"));
    assert!(!is_windows_drive_letter("1:"));
    assert!(!is_windows_drive_letter("c:/"));
    assert!(!is_windows_drive_letter("c"));
    assert!(is_normalized_windows_drive_letter("c:"));
    assert!(!is_normalized_windows_drive_letter("c|"));
    assert!(starts_with_windows_drive_letter("c:", 0));
    assert!(starts_with_windows_drive_letter("xc:/a", 1));
    assert!(starts_with_windows_drive_letter("c|?", 0));
    assert!(!starts_with_windows_drive_letter("c:a", 0));
    assert!(!starts_with_windows_drive_letter("c:", 1));
}

#[test]
fn special_schemes_and_their_ports() {
    assert_eq!(special_scheme_port("http"), Some(Some("80".to_string())));
    assert_eq!(special_scheme_port("https"), Some(Some("443".to_string())));
    assert_eq!(special_scheme_port("ws"), Some(Some("80".to_string())));
    assert_eq!(special_scheme_port("wss"), Some(Some("443".to_string())));
    assert_eq!(special_scheme_port("ftp"), Some(Some("21".to_string())));
    assert_eq!(special_scheme_port("file"), Some(None));
    assert_eq!(special_scheme_port("mailto"), None);
    assert!(is_special_scheme("file"));
    assert!(!is_special_scheme("HTTP"));
}

#[test]
fn percent_encoding_with_each_set() {
    assert_eq!(utf8_percent_encode("a b", EncodeSet::C0Control), "a b");
    assert_eq!(utf8_percent_encode("a b", EncodeSet::Fragment), "a%20b");
    assert_eq!(utf8_percent_encode("`#", EncodeSet::Fragment), "%60#");
    assert_eq!(utf8_percent_encode("`#", EncodeSet::Query), "`%23");
    assert_eq!(utf8_percent_encode("'", EncodeSet::Query), "'");
    assert_eq!(utf8_percent_encode("'", EncodeSet::SpecialQuery), "%27");
    assert_eq!(utf8_percent_encode("?{}", EncodeSet::Path), "%3F%7B%7D");
    assert_eq!(utf8_percent_encode("a@b:c", EncodeSet::UserInfo), "a%40b%3Ac");
    assert_eq!(utf8_percent_encode("[\\]^|", EncodeSet::UserInfo), "%5B%5C%5D%5E%7C");
    assert_eq!(utf8_percent_encode("é", EncodeSet::C0Control), "%C3%A9");
    assert_eq!(utf8_percent_encode("\u{7f}", EncodeSet::C0Control), "%7F");
    assert!(EncodeSet::Path.contains(b'?'));
    assert!(!EncodeSet::Query.contains(b'?'));
}

#[test]
fn numbers_in_a_radix_and_in_decimal() {
    assert_eq!(u32_from_str_radix("ff", 16), Some(255));
    assert_eq!(u32_from_str_radix("+17", 8), Some(15));
    assert_eq!(u32_from_str_radix("", 10), None);
    assert_eq!(u32_from_str_radix("+", 10), None);
    assert_eq!(u32_from_str_radix("4294967296", 10), None);
    assert_eq!(u32_from_str_radix("12a", 10), None);
    assert_eq!(u64_to_decimal(0), "0");
    assert_eq!(u64_to_decimal(8080), "8080");
    assert_eq!(u64_to_decimal(u64::MAX), "18446744073709551615");
}

#[test]
fn text_primitives() {
    assert!(str_eq("abc", "abc"));
    assert!(!str_eq("abc", "abd"));
    assert!(str_ascii_ci_eq("AbC", "aBc"));
    assert!(!str_ascii_ci_eq("ab", "abc"));
    assert_eq!(char_at("héllo", 1), Some('é'));
    assert_eq!(char_at("abc", 3), None);
    assert_eq!(substring_from("héllo", 2), "llo");
    assert_eq!(substring("héllo", 1, 3), "él");
    assert_eq!(split_char("a&b&&c", '&'), vec!["a", "b", "", "c"]);
    assert_eq!(split_char("", '&'), vec![""]);
}

#[test]
fn should_parse_protocol() {
    let url = URL::new("http://example\t.\norg".to_string(), None);
    assert_eq!(url.get_protocol(), "http:".to_string());
    assert_eq!(url.get_host(), "example.org");
    assert_eq!(url.get_href(), "http://example.org/");
    assert_eq!(url.get_pathname(), "/");
    assert_eq!(url.get_origin(), "http://example.org");
}

#[test]
fn url_object_parts() {
    let u = URL::new("https://u:p@h:8080/a/b?q#f".to_string(), None);
    assert_eq!(u.get_href(), "https://u:p@h:8080/a/b?q#f");
    assert_eq!(u.get_protocol(), "https:");
    assert_eq!(u.get_host(), "h:8080");
    assert_eq!(u.get_hostname(), "h");
    assert_eq!(u.get_port(), "8080");
    assert_eq!(u.get_pathname(), "/a/b");
    assert_eq!(u.get_search(), "?q");
    assert_eq!(u.get_hash(), "#f");
    assert_eq!(u.get_password(), "p");
    assert_eq!(u.get_origin(), "https://h:8080");
    let v = URL::new("http://[::1]:81/".to_string(), None);
    assert_eq!(v.get_hostname(), "[::1]");
    assert_eq!(v.get_host(), "[::1]:81");
    let m = URL::new("mailto:a@b".to_string(), None);
    assert_eq!(m.get_pathname(), "a@b");
    assert_eq!(m.get_origin(), "null");
    assert_eq!(m.get_href(), "mailto:a@b");
    let r = URL::new("c".to_string(), Some("http://example.com/a/b".to_string()));
    assert_eq!(r.get_href(), "http://example.com/a/c");
}

#[test]
fn url_object_of_a_failure_is_empty() {
    let u = URL::new("not a url".to_string(), None);
    assert_eq!(u.get_hash(), "");
    assert_eq!(u.get_host(), "");
    assert_eq!(u.get_hostname(), "");
    assert_eq!(u.get_href(), "");
    assert_eq!(u.get_origin(), "");
    assert_eq!(u.get_password(), "");
    assert_eq!(u.get_pathname(), "");
    assert_eq!(u.get_port(), "");
    assert_eq!(u.get_protocol(), "");
    assert_eq!(u.get_search(), "");
    let v = URL::new("c".to_string(), Some("also not a url".to_string()));
    assert_eq!(v.get_href(), "");
}
