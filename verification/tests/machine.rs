use url_wasm::machine::{clean_input_exec, URLStateMachine};
use url_wasm::state::State;
use url_wasm::url::URL;

fn parse(input: &str) -> URLStateMachine {
    URLStateMachine::parse(input, None, None, None).expect("the run completes")
}

fn strings(v: &[&str]) -> Vec<String> {
    v.iter().map(|s| s.to_string()).collect()
}

#[test]
fn cleaning_trims_controls_and_drops_tabs_and_newlines() {
    assert_eq!(clean_input_exec("  \thttp://a\n.b  "), "http://a.b");
    assert_eq!(clean_input_exec("\u{0}\u{1f} x\ry \u{7}"), "xy");
    assert_eq!(clean_input_exec(""), "");
    assert_eq!(clean_input_exec("   "), "");
}

#[test]
fn parses_every_component_of_a_special_url() {
    let m = parse("http://example.com/path?query#frag");
    assert!(!m.failure);
    assert_eq!(m.url.scheme, "http");
    assert_eq!(m.url.username, "");
    assert_eq!(m.url.password, "");
    assert_eq!(m.url.host, Some("example.com".to_string()));
    assert_eq!(m.url.port, None);
    assert_eq!(m.url.path, strings(&["path"]));
    assert_eq!(m.url.query, Some("query".to_string()));
    assert_eq!(m.url.fragment, Some("frag".to_string()));
}

#[test]
fn new_and_parse_agree() {
    let a = URLStateMachine::new("https://a.b/c/d", None, None, None);
    let b = parse("https://a.b/c/d");
    assert_eq!(a.failure, b.failure);
    assert_eq!(a.url.scheme, b.url.scheme);
    assert_eq!(a.url.host, b.url.host);
    assert_eq!(a.url.path, b.url.path);
    assert_eq!(a.url.path, strings(&["c", "d"]));
}

#[test]
fn scheme_is_lowercased() {
    let m = parse("HTTP://example.com/");
    assert!(!m.failure);
    assert_eq!(m.url.scheme, "http");
    assert_eq!(m.url.path, strings(&[""]));
}

#[test]
fn default_port_is_dropped_and_other_ports_kept() {
    let m = parse("http://example.com:80/");
    assert!(!m.failure);
    assert_eq!(m.url.port, None);
    let m = parse("http://example.com:8080/");
    assert!(!m.failure);
    assert_eq!(m.url.port, Some("8080".to_string()));
}

#[test]
fn port_out_of_range_fails() {
    let m = parse("http://a:99999/");
    assert!(m.failure);
}

#[test]
fn dot_segments_are_resolved() {
    let m = parse("http://a/b/../c");
    assert!(!m.failure);
    assert_eq!(m.url.path, strings(&["c"]));
    let m = parse("http://a/b/./c");
    assert!(!m.failure);
    assert_eq!(m.url.path, strings(&["b", "c"]));
}

#[test]
fn bracketed_ipv6_host() {
    let m = parse("http://[::1]/");
    assert!(!m.failure);
    assert_eq!(m.url.host, Some("::1".to_string()));
}

#[test]
fn ipv4_host_is_serialized() {
    let m = parse("http://0x7f.1/");
    assert!(!m.failure);
    assert_eq!(m.url.host, Some("127.0.0.1".to_string()));
}

#[test]
fn input_without_scheme_and_base_fails() {
    let m = parse("not a url");
    assert!(m.failure);
}

#[test]
fn file_scheme_alone_has_an_empty_host() {
    let m = parse("file:");
    assert!(!m.failure);
    assert_eq!(m.url.scheme, "file");
    assert_eq!(m.url.host, Some("".to_string()));
    assert_eq!(m.url.path, strings(&[""]));
}

#[test]
fn file_url_with_an_empty_host() {
    let m = parse("file:///tmp/x");
    assert!(!m.failure);
    assert_eq!(m.url.scheme, "file");
    assert_eq!(m.url.host, Some("".to_string()));
    assert_eq!(m.url.path, strings(&["tmp", "x"]));
}

#[test]
fn relative_input_against_a_base() {
    let base = parse("http://example.com/a/b").url;
    assert_eq!(base.path, strings(&["a", "b"]));
    let m = URLStateMachine::parse("c?q", Some(base), None, None).expect("the run completes");
    assert!(!m.failure);
    assert_eq!(m.url.scheme, "http");
    assert_eq!(m.url.host, Some("example.com".to_string()));
    assert_eq!(m.url.path, strings(&["a", "c"]));
    assert_eq!(m.url.query, Some("q".to_string()));
}

#[test]
fn scheme_must_start_with_a_letter() {
    let m = parse("1a:b");
    assert!(m.failure);
}

#[test]
fn opaque_path_is_one_string() {
    let m = parse("mailto:user@host?x#y");
    assert!(!m.failure);
    assert_eq!(m.url.scheme, "mailto");
    assert!(m.url.opaque_path);
    assert_eq!(m.url.path, strings(&["user@host"]));
    assert_eq!(m.url.query, Some("x".to_string()));
    assert_eq!(m.url.fragment, Some("y".to_string()));
    let m = parse("a:b#");
    assert!(!m.failure);
    assert_eq!(m.url.fragment, Some("".to_string()));
}

#[test]
fn fragment_only_against_an_opaque_base() {
    let base = parse("mailto:x").url;
    let m = URLStateMachine::parse("#f", Some(base), None, None).expect("completes");
    assert!(!m.failure);
    assert_eq!(m.url.scheme, "mailto");
    assert_eq!(m.url.path, strings(&["x"]));
    assert_eq!(m.url.fragment, Some("f".to_string()));
    let base = parse("mailto:x").url;
    let m = URLStateMachine::parse("y", Some(base), None, None).expect("completes");
    assert!(m.failure);
}

#[test]
fn credentials_are_percent_encoded_per_code_point() {
    let m = parse("http://\u{e9}:p@q@x/");
    assert!(!m.failure);
    assert_eq!(m.url.username, "%C3%A9");
    assert_eq!(m.url.password, "p%40q");
    assert_eq!(m.url.host, Some("x".to_string()));
    let m = parse("http://user@/");
    assert!(m.failure);
    let m = parse("http://@x/");
    assert!(!m.failure);
    assert_eq!(m.url.username, "");
}

#[test]
fn non_ascii_path_and_fragment() {
    let m = parse("http://a/\u{e9}#\u{e9}");
    assert!(!m.failure);
    assert_eq!(m.url.path, strings(&["%C3%A9"]));
    assert_eq!(m.url.fragment, Some("%C3%A9".to_string()));
}

#[test]
fn state_override_starts_elsewhere() {
    let m = URLStateMachine::parse("x", None, None, Some(State::Fragment)).expect("completes");
    assert!(!m.failure);
    assert_eq!(m.url.fragment, Some("x".to_string()));
}

#[test]
fn url_record_starts_empty() {
    let u = URL::new();
    assert_eq!(u.scheme, "");
    assert_eq!(u.username, "");
    assert_eq!(u.password, "");
    assert_eq!(u.host, None);
    assert_eq!(u.port, None);
    assert!(u.path.is_empty());
    assert_eq!(u.query, None);
    assert_eq!(u.fragment, None);
    let d = URL::default();
    assert_eq!(d.scheme, "");
    assert!(d.path.is_empty());
}

#[test]
fn url_record_copy_keeps_every_field() {
    let mut u = URL::new();
    u.scheme = "https".to_string();
    u.host = Some("h".to_string());
    u.path = strings(&["a", "b"]);
    u.query = Some("q".to_string());
    let c = u.copy();
    assert_eq!(c.scheme, "https");
    assert_eq!(c.host, Some("h".to_string()));
    assert_eq!(c.path, strings(&["a", "b"]));
    assert_eq!(c.query, Some("q".to_string()));
    assert_eq!(c.fragment, None);
    let k = u.clone();
    assert_eq!(k.path, strings(&["a", "b"]));
}

#[test]
fn ipv6_host_with_a_surrogate_valued_piece() {
    let m = parse("http://[::d800]/");
    assert!(!m.failure);
    assert_eq!(m.url.host, Some("::d800".to_string()));
}

#[test]
fn non_special_url_with_an_empty_host() {
    let m = parse("sc://");
    assert!(!m.failure);
    assert_eq!(m.url.host, Some("".to_string()));
    assert!(m.url.path.is_empty());
    let m = parse("sc://h#f");
    assert!(!m.failure);
    assert_eq!(m.url.host, Some("h".to_string()));
    assert_eq!(m.url.fragment, Some("f".to_string()));
    let m = parse("http:///");
    assert!(m.failure);
}

#[test]
fn query_and_fragment_end_a_segment() {
    let m = parse("sc:/a?b#c");
    assert!(!m.failure);
    assert!(!m.url.opaque_path);
    assert_eq!(m.url.path, strings(&["a"]));
    assert_eq!(m.url.query, Some("b".to_string()));
    assert_eq!(m.url.fragment, Some("c".to_string()));
}

#[test]
fn scheme_state_override_returns_after_the_scheme() {
    let m = URLStateMachine::parse("foo:bar", None, None, Some(State::Scheme)).expect("completes");
    assert!(!m.failure);
    assert_eq!(m.url.scheme, "foo");
    assert!(m.url.path.is_empty());
    let m = URLStateMachine::parse("http:", None, None, Some(State::Scheme)).expect("completes");
    assert_eq!(m.url.scheme, "");
}

#[test]
fn backslash_after_a_slash_in_a_non_special_relative_url() {
    let base = parse("foo://h/p").url;
    let m = URLStateMachine::parse("/\\x", Some(base), None, None).expect("completes");
    assert!(!m.failure);
    assert_eq!(m.url.host, Some("h".to_string()));
    assert_eq!(m.url.path, strings(&["\\x"]));
    let base = parse("http://h/p").url;
    let m = URLStateMachine::parse("/\\x", Some(base), None, None).expect("completes");
    assert!(!m.failure);
    assert_eq!(m.url.host, Some("x".to_string()));
}

#[test]
fn outer_controls_tabs_and_newlines_change_nothing() {
    let a = parse("http://example.com/a/b?q#f");
    let b = parse(" \u{1}\thttp://exa\nmple.com/a\r/b?q#f\t \u{1f}");
    assert_eq!(a.failure, b.failure);
    assert_eq!(a.url.scheme, b.url.scheme);
    assert_eq!(a.url.host, b.url.host);
    assert_eq!(a.url.path, b.url.path);
    assert_eq!(a.url.query, b.url.query);
    assert_eq!(a.url.fragment, b.url.fragment);
}
