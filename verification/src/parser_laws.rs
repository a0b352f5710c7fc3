//! Properties of URL parsing over all inputs: what each step and each run
//! of the parser keeps, and what it makes of the input.

use vstd::prelude::*;
use vstd::string::*;
use crate::encode_sets::{EncodeSet, in_encode_set, in_query_set, encode_byte,
    percent_encode_bytes, percent_encoded_byte, spec_utf8_percent_encode, hex_upper};
use crate::machine_spec::{MachineView, chr, opaque_text, path_step, userinfo_fold, at_buffer, port_value, step, step_ok, run, run_ok, code_at, code_count, shorten_path,
    spec_parse_url, parse_url_ok, initial_machine, clean_input, run_fuel, ends_file_host};
use crate::parser::{spec_parse_host, spec_parse_ipv4, spec_parse_ipv4_number, ipv4_parts,
    ipv4_number_of, ipv4_prefix_sum, pow256, lemma_ipv4_parts_nonempty};
use crate::platform::{is_ascii_alpha_char, spec_is_windows_drive_letter};
use crate::state::{Code, State, special_scheme};
use crate::string::spec_is_double_dot_path_segment;
use crate::text::unicode_lowercase;
use crate::url::UrlView;
use crate::number::lemma_decimal_digits;

verus! {

/// Every part of an IPv4 address but the last is at most 255, and the
/// address fits in 32 bits.
pub proof fn law_ipv4_parts_are_bytes(s: Seq<char>)
    ensures
        spec_parse_ipv4(s) matches Some(v) ==> {
            let parts = ipv4_parts(s);
            &&& v <= 0xFFFF_FFFF
            &&& forall|i: int|
                0 <= i < parts.len() - 1 ==> (#[trigger] spec_parse_ipv4_number(parts[i])
                    matches Some(x) && x <= 255)
        },
{
    if let Some(v) = spec_parse_ipv4(s) {
        let parts = ipv4_parts(s);
        let n = parts.len();
        assert forall|i: int| 0 <= i < n - 1 implies (#[trigger] spec_parse_ipv4_number(parts[i])
            matches Some(x) && x <= 255) by {
            assert(spec_parse_ipv4_number(parts[i]) is Some);
            assert(ipv4_number_of(parts[i]) <= 255);
        }
        assert(v <= 0xFFFF_FFFF) by {
            lemma_ipv4_sum_bound(s);
        }
    }
}

proof fn lemma_ipv4_sum_bound(s: Seq<char>)
    requires
        spec_parse_ipv4(s) is Some,
    ensures
        spec_parse_ipv4(s)->0 <= 0xFFFF_FFFF,
{
    let parts = ipv4_parts(s);
    let n = parts.len() as int;
    reveal_with_fuel(pow256, 5);
    reveal_with_fuel(ipv4_prefix_sum, 5);
    lemma_ipv4_parts_nonempty(s);
    assert(n <= 4);
    let last = ipv4_number_of(parts[n - 1]);
    assert(last < pow256((5 - n) as nat));
    let sum = ipv4_prefix_sum(parts, (n - 1) as nat) + last;
    if n == 1 {
        assert(sum == last);
    } else if n == 2 {
        assert(ipv4_number_of(parts[0]) <= 255);
        assert(sum == ipv4_number_of(parts[0]) * 0x100_0000 + last);
    } else if n == 3 {
        assert(ipv4_number_of(parts[0]) <= 255);
        assert(ipv4_number_of(parts[1]) <= 255);
        assert(sum == ipv4_number_of(parts[0]) * 0x100_0000 + ipv4_number_of(parts[1]) * 0x1_0000
            + last);
    } else {
        assert(ipv4_number_of(parts[0]) <= 255);
        assert(ipv4_number_of(parts[1]) <= 255);
        assert(ipv4_number_of(parts[2]) <= 255);
        assert(sum == ipv4_number_of(parts[0]) * 0x100_0000 + ipv4_number_of(parts[1]) * 0x1_0000
            + ipv4_number_of(parts[2]) * 0x100 + last);
    }
    assert(sum <= 0xFFFF_FFFF);
    assert(spec_parse_ipv4(s) == Some(sum as u64));
}

/// After the path step at a double-dot segment that ends the path (at the
/// end of input, or at '?' or '#' without a state override), the path is
/// the earlier path shortened by one segment, and its last segment is empty.
pub proof fn law_double_dot_keeps_a_trailing_empty_segment(m: MachineView, c: Option<char>)
    requires
        m.state == State::Path,
        c is None || (!m.state_override && (c == Some('?') || c == Some('#'))),
        spec_is_double_dot_path_segment(unicode_lowercase(m.buffer)),
    ensures
        ({
            let path = step(m, c).0.url.path;
            &&& path.len() >= 1
            &&& path.last() == Seq::<char>::empty()
            &&& path.drop_last() == shorten_path(m.url).path
            &&& step(m, c).1 is None
        }),
{
    reveal(step);
    let path = step(m, c).0.url.path;
    assert(path.drop_last() =~= shorten_path(m.url).path);
}

/// A file host that parses to "localhost" becomes the empty host.
pub proof fn law_file_localhost_is_the_empty_host(m: MachineView, c: Option<char>)
    requires
        m.state == State::FileHost,
        ends_file_host(c),
        m.state_override || !spec_is_windows_drive_letter(m.buffer),
        m.buffer.len() > 0,
        spec_parse_host(m.buffer, !m.is_special_url) == seq!['l', 'o', 'c', 'a', 'l', 'h', 'o', 's', 't'],
    ensures
        step(m, c).0.url.host == Some(Seq::<char>::empty()),
        step(m, c).1 != Some(Code::Failure),
{
    reveal(step);
    reveal_strlit("localhost");
    assert("localhost"@ =~= seq!['l', 'o', 'c', 'a', 'l', 'h', 'o', 's', 't']);
}

/// In the relative slash state, a code point that is not a slash (not
/// U+002F '/', nor U+005C '\' in a special URL) takes the base's username,
/// password, host and port, and goes on to the path.
pub proof fn law_relative_path_keeps_the_base_authority(m: MachineView, c: Option<char>)
    requires
        m.state == State::RelativeSlash,
        m.base is Some,
        c matches Some(x) ==> x as u32 != 0x2F && (m.is_special_url ==> x as u32 != 0x5C),
    ensures
        ({
            let (m2, r) = step(m, c);
            let b = m.base->0;
            &&& r is None
            &&& m2.state == State::Path
            &&& m2.url.username == b.username
            &&& m2.url.password == b.password
            &&& m2.url.host == b.host
            &&& m2.url.port == b.port
        }),
{
    reveal(step);
}

/// A code point that a query must not hold as it is: a C0 control, space,
/// '"', '#', '<', '>' or U+007F DELETE.
pub open spec fn is_query_code(c: char) -> bool {
    c <= '\u{1F}' || c == ' ' || c == '"' || c == '#' || c == '<' || c == '>' || c == '\u{7F}'
}

/// `s` holds none of those code points.
pub open spec fn no_query_code(s: Seq<char>) -> bool {
    forall|i: int| 0 <= i < s.len() ==> !is_query_code(#[trigger] s[i])
}

/// A query, if there is one, holds none of those code points.
pub open spec fn query_is_encoded(q: Option<Seq<char>>) -> bool {
    q matches Some(s) ==> no_query_code(s)
}

/// A set that holds the query percent-encode set.
pub open spec fn covers_query_set(set: EncodeSet) -> bool {
    forall|b: u8| in_query_set(b) ==> #[trigger] in_encode_set(set, b)
}

proof fn lemma_encoded_bytes_have_no_query_code(set: EncodeSet, bytes: Seq<u8>)
    requires
        covers_query_set(set),
    ensures
        forall|i: int|
            0 <= i < percent_encode_bytes(set, bytes).len() ==> !is_query_code(
                #[trigger] percent_encode_bytes(set, bytes)[i],
            ),
    decreases bytes.len(),
{
    if bytes.len() > 0 {
        lemma_encoded_bytes_have_no_query_code(set, bytes.drop_last());
        let head = percent_encode_bytes(set, bytes.drop_last());
        let b = bytes.last();
        let tail = encode_byte(set, b);
        assert forall|i: int| 0 <= i < tail.len() implies !is_query_code(#[trigger] tail[i]) by {
            if b >= 0x80 || in_encode_set(set, b) {
                assert(tail == percent_encoded_byte(b));
            } else {
                assert(!in_query_set(b));
            }
        }
        assert forall|i: int| 0 <= i < (head + tail).len() implies !is_query_code(
            #[trigger] (head + tail)[i],
        ) by {
            if i < head.len() {
                assert((head + tail)[i] == head[i]);
            } else {
                assert((head + tail)[i] == tail[i - head.len()]);
            }
        }
    }
}

/// Percent-encoding with the query or special-query set leaves none of the
/// code points that a query must not hold.
pub proof fn lemma_query_encoding_is_clean(s: Seq<char>, set: EncodeSet)
    requires
        set == EncodeSet::Query || set == EncodeSet::SpecialQuery,
    ensures
        no_query_code(spec_utf8_percent_encode(s, set)),
{
    assert(covers_query_set(set));
    lemma_encoded_bytes_have_no_query_code(set, vstd::utf8::encode_utf8(s));
}

proof fn lemma_clean_concat(q: Seq<char>, e: Seq<char>)
    requires
        no_query_code(q),
        no_query_code(e),
    ensures
        no_query_code(q + e),
{
    assert forall|i: int| 0 <= i < (q + e).len() implies !is_query_code(#[trigger] (q + e)[i]) by {
        if i < q.len() {
            assert((q + e)[i] == q[i]);
            assert(!is_query_code(q[i]));
        } else {
            assert((q + e)[i] == e[i - q.len()]);
            assert(!is_query_code(e[i - q.len()]));
        }
    }
}

/// What the query step and the other steps keep: the query and the base's
/// query hold no code point that a query must not hold.
pub open spec fn queries_encoded(m: MachineView) -> bool {
    &&& query_is_encoded(m.url.query)
    &&& m.base matches Some(b) ==> query_is_encoded(b.query)
}

proof fn lemma_authority_keeps_queries(m: MachineView, c: Option<char>)
    requires
        m.state == State::Authority,
        step_ok(m, c),
        queries_encoded(m),
    ensures
        queries_encoded(step(m, c).0),
{
    reveal(step);
    reveal(step_ok);
    assert(no_query_code(Seq::<char>::empty()));
}

proof fn lemma_scheme_start_keeps_queries(m: MachineView, c: Option<char>)
    requires
        m.state == State::SchemeStart,
        step_ok(m, c),
        queries_encoded(m),
    ensures
        queries_encoded(step(m, c).0),
{
    reveal(step);
    reveal(step_ok);
    assert(no_query_code(Seq::<char>::empty()));
}

proof fn lemma_scheme_keeps_queries(m: MachineView, c: Option<char>)
    requires
        m.state == State::Scheme,
        step_ok(m, c),
        queries_encoded(m),
    ensures
        queries_encoded(step(m, c).0),
{
    reveal(step);
    reveal(step_ok);
    assert(no_query_code(Seq::<char>::empty()));
}

proof fn lemma_host_keeps_queries(m: MachineView, c: Option<char>)
    requires
        m.state == State::Host,
        step_ok(m, c),
        queries_encoded(m),
    ensures
        queries_encoded(step(m, c).0),
{
    reveal(step);
    reveal(step_ok);
    assert(no_query_code(Seq::<char>::empty()));
}

proof fn lemma_no_scheme_keeps_queries(m: MachineView, c: Option<char>)
    requires
        m.state == State::NoScheme,
        step_ok(m, c),
        queries_encoded(m),
    ensures
        queries_encoded(step(m, c).0),
{
    reveal(step);
    reveal(step_ok);
    assert(no_query_code(Seq::<char>::empty()));
}

proof fn lemma_fragment_keeps_queries(m: MachineView, c: Option<char>)
    requires
        m.state == State::Fragment,
        step_ok(m, c),
        queries_encoded(m),
    ensures
        queries_encoded(step(m, c).0),
{
    reveal(step);
    reveal(step_ok);
    assert(no_query_code(Seq::<char>::empty()));
}

proof fn lemma_relative_keeps_queries(m: MachineView, c: Option<char>)
    requires
        m.state == State::Relative,
        step_ok(m, c),
        queries_encoded(m),
    ensures
        queries_encoded(step(m, c).0),
{
    reveal(step);
    reveal(step_ok);
    assert(no_query_code(Seq::<char>::empty()));
}

proof fn lemma_relative_slash_keeps_queries(m: MachineView, c: Option<char>)
    requires
        m.state == State::RelativeSlash,
        step_ok(m, c),
        queries_encoded(m),
    ensures
        queries_encoded(step(m, c).0),
{
    reveal(step);
    reveal(step_ok);
    assert(no_query_code(Seq::<char>::empty()));
}

proof fn lemma_file_keeps_queries(m: MachineView, c: Option<char>)
    requires
        m.state == State::File,
        step_ok(m, c),
        queries_encoded(m),
    ensures
        queries_encoded(step(m, c).0),
{
    reveal(step);
    reveal(step_ok);
    assert(no_query_code(Seq::<char>::empty()));
}

proof fn lemma_file_host_keeps_queries(m: MachineView, c: Option<char>)
    requires
        m.state == State::FileHost,
        step_ok(m, c),
        queries_encoded(m),
    ensures
        queries_encoded(step(m, c).0),
{
    reveal(step);
    reveal(step_ok);
    assert(no_query_code(Seq::<char>::empty()));
}

proof fn lemma_file_slash_keeps_queries(m: MachineView, c: Option<char>)
    requires
        m.state == State::FileSlash,
        step_ok(m, c),
        queries_encoded(m),
    ensures
        queries_encoded(step(m, c).0),
{
    reveal(step);
    reveal(step_ok);
    assert(no_query_code(Seq::<char>::empty()));
}

proof fn lemma_path_or_authority_keeps_queries(m: MachineView, c: Option<char>)
    requires
        m.state == State::PathOrAuthority,
        step_ok(m, c),
        queries_encoded(m),
    ensures
        queries_encoded(step(m, c).0),
{
    reveal(step);
    reveal(step_ok);
    assert(no_query_code(Seq::<char>::empty()));
}

proof fn lemma_special_authority_ignore_slashes_keeps_queries(m: MachineView, c: Option<char>)
    requires
        m.state == State::SpecialAuthorityIgnoreSlashes,
        step_ok(m, c),
        queries_encoded(m),
    ensures
        queries_encoded(step(m, c).0),
{
    reveal(step);
    reveal(step_ok);
    assert(no_query_code(Seq::<char>::empty()));
}

proof fn lemma_special_authority_slashes_keeps_queries(m: MachineView, c: Option<char>)
    requires
        m.state == State::SpecialAuthoritySlashes,
        step_ok(m, c),
        queries_encoded(m),
    ensures
        queries_encoded(step(m, c).0),
{
    reveal(step);
    reveal(step_ok);
    assert(no_query_code(Seq::<char>::empty()));
}

proof fn lemma_special_relative_or_authority_keeps_queries(m: MachineView, c: Option<char>)
    requires
        m.state == State::SpecialRelativeOrAuthority,
        step_ok(m, c),
        queries_encoded(m),
    ensures
        queries_encoded(step(m, c).0),
{
    reveal(step);
    reveal(step_ok);
    assert(no_query_code(Seq::<char>::empty()));
}

proof fn lemma_query_keeps_queries(m: MachineView, c: Option<char>)
    requires
        m.state == State::Query,
        step_ok(m, c),
        queries_encoded(m),
    ensures
        queries_encoded(step(m, c).0),
{
    reveal(step);
    reveal(step_ok);
    assert(no_query_code(Seq::<char>::empty()));
    lemma_query_encoding_is_clean(m.buffer, EncodeSet::Query);
    lemma_query_encoding_is_clean(m.buffer, EncodeSet::SpecialQuery);
    if let Some(q) = m.url.query {
        lemma_clean_concat(q, spec_utf8_percent_encode(m.buffer, EncodeSet::Query));
        lemma_clean_concat(q, spec_utf8_percent_encode(m.buffer, EncodeSet::SpecialQuery));
    }
}

proof fn lemma_path_keeps_queries(m: MachineView, c: Option<char>)
    requires
        m.state == State::Path,
        step_ok(m, c),
        queries_encoded(m),
    ensures
        queries_encoded(step(m, c).0),
{
    reveal(step);
    reveal(step_ok);
    assert(no_query_code(Seq::<char>::empty()));
}

proof fn lemma_path_start_keeps_queries(m: MachineView, c: Option<char>)
    requires
        m.state == State::PathStart,
        step_ok(m, c),
        queries_encoded(m),
    ensures
        queries_encoded(step(m, c).0),
{
    reveal(step);
    reveal(step_ok);
    assert(no_query_code(Seq::<char>::empty()));
}

proof fn lemma_opaque_path_keeps_queries(m: MachineView, c: Option<char>)
    requires
        m.state == State::OpaquePath,
        step_ok(m, c),
        queries_encoded(m),
    ensures
        queries_encoded(step(m, c).0),
{
    reveal(step);
    reveal(step_ok);
    assert(no_query_code(Seq::<char>::empty()));
}

proof fn lemma_port_keeps_queries(m: MachineView, c: Option<char>)
    requires
        m.state == State::Port,
        step_ok(m, c),
        queries_encoded(m),
    ensures
        queries_encoded(step(m, c).0),
{
    reveal(step);
    reveal(step_ok);
    assert(no_query_code(Seq::<char>::empty()));
}

proof fn lemma_step_keeps_queries_encoded(m: MachineView, c: Option<char>)
    requires
        step_ok(m, c),
        queries_encoded(m),
    ensures
        queries_encoded(step(m, c).0),
{
    match m.state {
        State::Authority => lemma_authority_keeps_queries(m, c),
        State::SchemeStart => lemma_scheme_start_keeps_queries(m, c),
        State::Scheme => lemma_scheme_keeps_queries(m, c),
        State::Host => lemma_host_keeps_queries(m, c),
        State::NoScheme => lemma_no_scheme_keeps_queries(m, c),
        State::Fragment => lemma_fragment_keeps_queries(m, c),
        State::Relative => lemma_relative_keeps_queries(m, c),
        State::RelativeSlash => lemma_relative_slash_keeps_queries(m, c),
        State::File => lemma_file_keeps_queries(m, c),
        State::FileHost => lemma_file_host_keeps_queries(m, c),
        State::FileSlash => lemma_file_slash_keeps_queries(m, c),
        State::PathOrAuthority => lemma_path_or_authority_keeps_queries(m, c),
        State::SpecialAuthorityIgnoreSlashes => lemma_special_authority_ignore_slashes_keeps_queries(m, c),
        State::SpecialAuthoritySlashes => lemma_special_authority_slashes_keeps_queries(m, c),
        State::SpecialRelativeOrAuthority => lemma_special_relative_or_authority_keeps_queries(m, c),
        State::Query => lemma_query_keeps_queries(m, c),
        State::Path => lemma_path_keeps_queries(m, c),
        State::PathStart => lemma_path_start_keeps_queries(m, c),
        State::OpaquePath => lemma_opaque_path_keeps_queries(m, c),
        State::Port => lemma_port_keeps_queries(m, c),
    }
}

proof fn lemma_run_keeps_queries_encoded(m: MachineView, fuel: nat)
    requires
        run_ok(m, fuel),
        queries_encoded(m),
    ensures
        queries_encoded(run(m, fuel)),
    decreases fuel,
{
    if fuel > 0 && m.pointer < code_count(m) {
        let (m2, r) = step(m, code_at(m));
        lemma_step_keeps_queries_encoded(m, code_at(m));
        if r is None {
            lemma_run_keeps_queries_encoded(MachineView { pointer: m2.pointer + 1, ..m2 }, (fuel - 1) as nat);
        }
    }
}

/// The query of a parsed URL holds no C0 control, space, '"', '#', '<', '>'
/// or U+007F as it is (they are percent-encoded), where the base's query,
/// if there is a base, holds none either.
pub proof fn law_parsed_query_is_percent_encoded(
    input: Seq<char>,
    base: Option<UrlView>,
    encoding_override: Option<Seq<char>>,
    state_override: Option<State>,
)
    requires
        parse_url_ok(input, base, encoding_override, state_override),
        base matches Some(b) ==> query_is_encoded(b.query),
    ensures
        query_is_encoded(spec_parse_url(input, base, encoding_override, state_override).url.query),
{
    let m = initial_machine(input, base, encoding_override, state_override);
    lemma_run_keeps_queries_encoded(m, run_fuel(m.input.len() as int));
}

/// The path, query and fragment states.
pub open spec fn in_path_or_after(m: MachineView) -> bool {
    m.state == State::Path || m.state == State::Query || m.state == State::Fragment
}

/// The parts of a URL record before its path: scheme, credentials, host and port.
pub open spec fn same_authority(u: UrlView, v: UrlView) -> bool {
    &&& u.scheme == v.scheme
    &&& u.username == v.username
    &&& u.password == v.password
    &&& u.host == v.host
    &&& u.port == v.port
}

proof fn lemma_path_step_keeps_authority(m: MachineView, c: Option<char>)
    requires
        in_path_or_after(m),
    ensures
        same_authority(step(m, c).0.url, m.url),
        step(m, c).1 != Some(Code::Failure),
        step(m, c).1 is None ==> in_path_or_after(step(m, c).0),
        !step(m, c).0.failure || m.failure,
{
    reveal(step);
}

proof fn lemma_run_keeps_authority(m: MachineView, fuel: nat)
    requires
        in_path_or_after(m),
    ensures
        same_authority(run(m, fuel).url, m.url),
        run(m, fuel).failure == m.failure,
    decreases fuel,
{
    if fuel > 0 && m.pointer < code_count(m) {
        let (m2, r) = step(m, code_at(m));
        lemma_path_step_keeps_authority(m, code_at(m));
        assert(m2.failure == m.failure) by {
            reveal(step);
        }
        if r is None {
            lemma_run_keeps_authority(MachineView { pointer: m2.pointer + 1, ..m2 }, (fuel - 1) as nat);
        }
    }
}

/// Resolving a path-absolute reference (one '/' and then no second '/', nor
/// '\' for a special scheme) against a base that is not a file URL and has
/// no opaque path keeps the base's scheme, username, password, host and
/// port, and does not fail.
pub proof fn law_path_absolute_reference_keeps_the_base_authority(
    input: Seq<char>,
    b: UrlView,
    encoding_override: Option<Seq<char>>,
)
    requires
        ({
            let t = clean_input(input);
            &&& t.len() >= 1
            &&& t[0] == '/'
            &&& t.len() >= 2 ==> (t[1] as u32 != 0x2F && (special_scheme(b.scheme) is Some ==> t[1]
                as u32 != 0x5C))
        }),
        !b.opaque_path,
        b.scheme != seq!['f', 'i', 'l', 'e'],
    ensures
        ({
            let r = spec_parse_url(input, Some(b), encoding_override, None);
            &&& same_authority(r.url, b)
            &&& !r.failure
        }),
{
    reveal(step);
    reveal_strlit("file");
    assert("file"@ =~= seq!['f', 'i', 'l', 'e']);
    let m0 = initial_machine(input, Some(b), encoding_override, None);
    let t = m0.input;
    let fuel = run_fuel(t.len() as int);
    assert(code_at(m0) == Some('/'));
    let (m1, r1) = step(m0, Some('/'));
    assert(m1.state == State::NoScheme && m1.pointer == -1 && r1 is None);
    let n1 = MachineView { pointer: 0, ..m1 };
    assert(run(m0, fuel) == run(n1, (fuel - 1) as nat));
    assert(code_at(n1) == Some('/'));
    let (m2, r2) = step(n1, Some('/'));
    assert(m2.state == State::Relative && m2.pointer == -1 && r2 is None);
    let n2 = MachineView { pointer: 0, ..m2 };
    assert(run(n1, (fuel - 1) as nat) == run(n2, (fuel - 2) as nat));
    let (m3, r3) = step(n2, Some('/'));
    assert(m3.state == State::RelativeSlash && m3.pointer == 0 && r3 is None);
    assert(m3.url.scheme == b.scheme);
    assert(m3.is_special_url == (special_scheme(b.scheme) is Some));
    let n3 = MachineView { pointer: 1, ..m3 };
    assert(run(n2, (fuel - 2) as nat) == run(n3, (fuel - 3) as nat));
    let c3 = code_at(n3);
    let (m4, r4) = step(n3, c3);
    assert(m4.state == State::Path && r4 is None);
    assert(same_authority(m4.url, b));
    assert(!m4.failure);
    let n4 = MachineView { pointer: m4.pointer + 1, ..m4 };
    assert(run(n3, (fuel - 3) as nat) == run(n4, (fuel - 4) as nat));
    lemma_run_keeps_authority(n4, (fuel - 4) as nat);
}

/// A code point that a fragment must not hold as it is: a C0 control,
/// space, '"', '<', '>', '`' or U+007F DELETE.
pub open spec fn is_fragment_code(c: char) -> bool {
    c <= '\u{1F}' || c == ' ' || c == '"' || c == '<' || c == '>' || c == '`' || c == '\u{7F}'
}

/// A code point that a username or password must not hold as it is: a C0
/// control, space, '"', '#', '<', '>', '?', '`', '{', '}', '/', ':', ';',
/// '=', '@', '[', '\\', ']', '^', '|' or U+007F DELETE.
pub open spec fn is_userinfo_code(c: char) -> bool {
    c <= '\u{1F}' || c == ' ' || c == '"' || c == '#' || c == '<' || c == '>' || c == '?' || c
        == '`' || c == '{' || c == '}' || c == '/' || c == ':' || c == ';' || c == '=' || c == '@'
        || ('[' <= c && c <= '^') || c == '|' || c == '\u{7F}'
}

/// `s` holds no code point for which `p` holds.
pub open spec fn free_of(s: Seq<char>, p: spec_fn(char) -> bool) -> bool {
    forall|i: int| 0 <= i < s.len() ==> !p(#[trigger] s[i])
}

/// Percent-encoding with a set leaves out every code point of a kind that
/// the set holds, where '%' and the uppercase hexadecimal digits are not of that kind.
proof fn lemma_encoded_bytes_free_of(set: EncodeSet, bytes: Seq<u8>, p: spec_fn(char) -> bool)
    requires
        forall|b: u8| b < 0x80 && #[trigger] p(b as char) ==> in_encode_set(set, b),
        !p('%'),
        forall|d: int| 0 <= d < 16 ==> !p(#[trigger] hex_upper(d)),
    ensures
        free_of(percent_encode_bytes(set, bytes), p),
    decreases bytes.len(),
{
    if bytes.len() > 0 {
        lemma_encoded_bytes_free_of(set, bytes.drop_last(), p);
        let head = percent_encode_bytes(set, bytes.drop_last());
        let b = bytes.last();
        let tail = encode_byte(set, b);
        assert forall|i: int| 0 <= i < tail.len() implies !p(#[trigger] tail[i]) by {
            if b >= 0x80 || in_encode_set(set, b) {
                assert(tail == percent_encoded_byte(b));
                assert(!p(hex_upper(b as int / 16)));
                assert(!p(hex_upper(b as int % 16)));
            } else {
                assert(tail[i] == b as char);
            }
        }
        assert forall|i: int| 0 <= i < (head + tail).len() implies !p(#[trigger] (head + tail)[i]) by {
            if i < head.len() {
                assert((head + tail)[i] == head[i]);
            } else {
                assert((head + tail)[i] == tail[i - head.len()]);
            }
        }
    }
}

proof fn lemma_free_of_concat(x: Seq<char>, y: Seq<char>, p: spec_fn(char) -> bool)
    requires
        free_of(x, p),
        free_of(y, p),
    ensures
        free_of(x + y, p),
{
    assert forall|i: int| 0 <= i < (x + y).len() implies !p(#[trigger] (x + y)[i]) by {
        if i < x.len() {
            assert((x + y)[i] == x[i]);
        } else {
            assert((x + y)[i] == y[i - x.len()]);
        }
    }
}

/// Percent-encoding with the fragment set leaves no fragment code point.
pub proof fn lemma_fragment_encoding_is_clean(s: Seq<char>)
    ensures
        free_of(spec_utf8_percent_encode(s, EncodeSet::Fragment), |c: char| is_fragment_code(c)),
{
    let p = |c: char| is_fragment_code(c);
    assert forall|d: int| 0 <= d < 16 implies !p(#[trigger] hex_upper(d)) by {}
    lemma_encoded_bytes_free_of(EncodeSet::Fragment, vstd::utf8::encode_utf8(s), p);
}

/// Percent-encoding with the userinfo set leaves no userinfo code point.
pub proof fn lemma_userinfo_encoding_is_clean(s: Seq<char>)
    ensures
        free_of(spec_utf8_percent_encode(s, EncodeSet::UserInfo), |c: char| is_userinfo_code(c)),
{
    let p = |c: char| is_userinfo_code(c);
    assert forall|d: int| 0 <= d < 16 implies !p(#[trigger] hex_upper(d)) by {}
    lemma_encoded_bytes_free_of(EncodeSet::UserInfo, vstd::utf8::encode_utf8(s), p);
}

proof fn lemma_userinfo_fold_clean(cs: Seq<char>, pts: bool, user: Seq<char>, pass: Seq<char>)
    requires
        free_of(user, |c: char| is_userinfo_code(c)),
        free_of(pass, |c: char| is_userinfo_code(c)),
    ensures
        free_of(userinfo_fold(cs, pts, user, pass).1, |c: char| is_userinfo_code(c)),
        free_of(userinfo_fold(cs, pts, user, pass).2, |c: char| is_userinfo_code(c)),
    decreases cs.len(),
{
    let p = |c: char| is_userinfo_code(c);
    if cs.len() > 0 {
        if cs[0] == ':' && !pts {
            lemma_userinfo_fold_clean(cs.drop_first(), true, user, pass);
        } else {
            let enc = spec_utf8_percent_encode(seq![cs[0]], EncodeSet::UserInfo);
            lemma_userinfo_encoding_is_clean(seq![cs[0]]);
            lemma_free_of_concat(user, enc, p);
            lemma_free_of_concat(pass, enc, p);
            if pts {
                lemma_userinfo_fold_clean(cs.drop_first(), pts, user, pass + enc);
            } else {
                lemma_userinfo_fold_clean(cs.drop_first(), pts, user + enc, pass);
            }
        }
    }
}

/// Only ASCII digits.
pub open spec fn all_digits(s: Seq<char>) -> bool {
    forall|i: int| 0 <= i < s.len() ==> '0' <= #[trigger] s[i] <= '9'
}

/// The credentials hold no userinfo code point and the port holds only digits.
pub open spec fn authority_encoded(u: UrlView) -> bool {
    &&& free_of(u.username, |c: char| is_userinfo_code(c))
    &&& free_of(u.password, |c: char| is_userinfo_code(c))
    &&& u.port matches Some(p) ==> all_digits(p)
}

/// What every step keeps: the fragment holds no fragment code point, and
/// the credentials and port of the URL and of the base are as
/// `authority_encoded` says.
pub open spec fn parts_encoded(m: MachineView) -> bool {
    &&& m.url.fragment matches Some(f) ==> free_of(f, |c: char| is_fragment_code(c))
    &&& authority_encoded(m.url)
    &&& m.base matches Some(b) ==> authority_encoded(b)
}

proof fn lemma_authority_keeps_parts(m: MachineView, c: Option<char>)
    requires
        m.state == State::Authority,
        step_ok(m, c),
        parts_encoded(m),
    ensures
        parts_encoded(step(m, c).0),
{
    reveal(step);
    reveal(step_ok);
    assert(free_of(Seq::<char>::empty(), |c: char| is_fragment_code(c)));
    assert(free_of(Seq::<char>::empty(), |c: char| is_userinfo_code(c)));
    lemma_userinfo_fold_clean(at_buffer(m), m.password_token_seen, m.url.username, m.url.password);
}

proof fn lemma_scheme_start_keeps_parts(m: MachineView, c: Option<char>)
    requires
        m.state == State::SchemeStart,
        step_ok(m, c),
        parts_encoded(m),
    ensures
        parts_encoded(step(m, c).0),
{
    reveal(step);
    reveal(step_ok);
    assert(free_of(Seq::<char>::empty(), |c: char| is_fragment_code(c)));
    assert(free_of(Seq::<char>::empty(), |c: char| is_userinfo_code(c)));
}

proof fn lemma_scheme_keeps_parts(m: MachineView, c: Option<char>)
    requires
        m.state == State::Scheme,
        step_ok(m, c),
        parts_encoded(m),
    ensures
        parts_encoded(step(m, c).0),
{
    reveal(step);
    reveal(step_ok);
    assert(free_of(Seq::<char>::empty(), |c: char| is_fragment_code(c)));
    assert(free_of(Seq::<char>::empty(), |c: char| is_userinfo_code(c)));
}

proof fn lemma_host_keeps_parts(m: MachineView, c: Option<char>)
    requires
        m.state == State::Host,
        step_ok(m, c),
        parts_encoded(m),
    ensures
        parts_encoded(step(m, c).0),
{
    reveal(step);
    reveal(step_ok);
    assert(free_of(Seq::<char>::empty(), |c: char| is_fragment_code(c)));
    assert(free_of(Seq::<char>::empty(), |c: char| is_userinfo_code(c)));
}

proof fn lemma_no_scheme_keeps_parts(m: MachineView, c: Option<char>)
    requires
        m.state == State::NoScheme,
        step_ok(m, c),
        parts_encoded(m),
    ensures
        parts_encoded(step(m, c).0),
{
    reveal(step);
    reveal(step_ok);
    assert(free_of(Seq::<char>::empty(), |c: char| is_fragment_code(c)));
    assert(free_of(Seq::<char>::empty(), |c: char| is_userinfo_code(c)));
}

proof fn lemma_fragment_keeps_parts(m: MachineView, c: Option<char>)
    requires
        m.state == State::Fragment,
        step_ok(m, c),
        parts_encoded(m),
    ensures
        parts_encoded(step(m, c).0),
{
    reveal(step);
    reveal(step_ok);
    assert(free_of(Seq::<char>::empty(), |c: char| is_fragment_code(c)));
    assert(free_of(Seq::<char>::empty(), |c: char| is_userinfo_code(c)));
    lemma_fragment_encoding_is_clean(m.input.subrange(m.pointer, m.input.len() as int));
}

proof fn lemma_relative_keeps_parts(m: MachineView, c: Option<char>)
    requires
        m.state == State::Relative,
        step_ok(m, c),
        parts_encoded(m),
    ensures
        parts_encoded(step(m, c).0),
{
    reveal(step);
    reveal(step_ok);
    assert(free_of(Seq::<char>::empty(), |c: char| is_fragment_code(c)));
    assert(free_of(Seq::<char>::empty(), |c: char| is_userinfo_code(c)));
}

proof fn lemma_relative_slash_keeps_parts(m: MachineView, c: Option<char>)
    requires
        m.state == State::RelativeSlash,
        step_ok(m, c),
        parts_encoded(m),
    ensures
        parts_encoded(step(m, c).0),
{
    reveal(step);
    reveal(step_ok);
    assert(free_of(Seq::<char>::empty(), |c: char| is_fragment_code(c)));
    assert(free_of(Seq::<char>::empty(), |c: char| is_userinfo_code(c)));
}

proof fn lemma_file_keeps_parts(m: MachineView, c: Option<char>)
    requires
        m.state == State::File,
        step_ok(m, c),
        parts_encoded(m),
    ensures
        parts_encoded(step(m, c).0),
{
    reveal(step);
    reveal(step_ok);
    assert(free_of(Seq::<char>::empty(), |c: char| is_fragment_code(c)));
    assert(free_of(Seq::<char>::empty(), |c: char| is_userinfo_code(c)));
}

proof fn lemma_file_host_keeps_parts(m: MachineView, c: Option<char>)
    requires
        m.state == State::FileHost,
        step_ok(m, c),
        parts_encoded(m),
    ensures
        parts_encoded(step(m, c).0),
{
    reveal(step);
    reveal(step_ok);
    assert(free_of(Seq::<char>::empty(), |c: char| is_fragment_code(c)));
    assert(free_of(Seq::<char>::empty(), |c: char| is_userinfo_code(c)));
}

proof fn lemma_file_slash_keeps_parts(m: MachineView, c: Option<char>)
    requires
        m.state == State::FileSlash,
        step_ok(m, c),
        parts_encoded(m),
    ensures
        parts_encoded(step(m, c).0),
{
    reveal(step);
    reveal(step_ok);
    assert(free_of(Seq::<char>::empty(), |c: char| is_fragment_code(c)));
    assert(free_of(Seq::<char>::empty(), |c: char| is_userinfo_code(c)));
}

proof fn lemma_path_or_authority_keeps_parts(m: MachineView, c: Option<char>)
    requires
        m.state == State::PathOrAuthority,
        step_ok(m, c),
        parts_encoded(m),
    ensures
        parts_encoded(step(m, c).0),
{
    reveal(step);
    reveal(step_ok);
    assert(free_of(Seq::<char>::empty(), |c: char| is_fragment_code(c)));
    assert(free_of(Seq::<char>::empty(), |c: char| is_userinfo_code(c)));
}

proof fn lemma_special_authority_ignore_slashes_keeps_parts(m: MachineView, c: Option<char>)
    requires
        m.state == State::SpecialAuthorityIgnoreSlashes,
        step_ok(m, c),
        parts_encoded(m),
    ensures
        parts_encoded(step(m, c).0),
{
    reveal(step);
    reveal(step_ok);
    assert(free_of(Seq::<char>::empty(), |c: char| is_fragment_code(c)));
    assert(free_of(Seq::<char>::empty(), |c: char| is_userinfo_code(c)));
}

proof fn lemma_special_authority_slashes_keeps_parts(m: MachineView, c: Option<char>)
    requires
        m.state == State::SpecialAuthoritySlashes,
        step_ok(m, c),
        parts_encoded(m),
    ensures
        parts_encoded(step(m, c).0),
{
    reveal(step);
    reveal(step_ok);
    assert(free_of(Seq::<char>::empty(), |c: char| is_fragment_code(c)));
    assert(free_of(Seq::<char>::empty(), |c: char| is_userinfo_code(c)));
}

proof fn lemma_special_relative_or_authority_keeps_parts(m: MachineView, c: Option<char>)
    requires
        m.state == State::SpecialRelativeOrAuthority,
        step_ok(m, c),
        parts_encoded(m),
    ensures
        parts_encoded(step(m, c).0),
{
    reveal(step);
    reveal(step_ok);
    assert(free_of(Seq::<char>::empty(), |c: char| is_fragment_code(c)));
    assert(free_of(Seq::<char>::empty(), |c: char| is_userinfo_code(c)));
}

proof fn lemma_query_keeps_parts(m: MachineView, c: Option<char>)
    requires
        m.state == State::Query,
        step_ok(m, c),
        parts_encoded(m),
    ensures
        parts_encoded(step(m, c).0),
{
    reveal(step);
    reveal(step_ok);
    assert(free_of(Seq::<char>::empty(), |c: char| is_fragment_code(c)));
    assert(free_of(Seq::<char>::empty(), |c: char| is_userinfo_code(c)));
}

proof fn lemma_path_keeps_parts(m: MachineView, c: Option<char>)
    requires
        m.state == State::Path,
        step_ok(m, c),
        parts_encoded(m),
    ensures
        parts_encoded(step(m, c).0),
{
    reveal(step);
    reveal(step_ok);
    assert(free_of(Seq::<char>::empty(), |c: char| is_fragment_code(c)));
    assert(free_of(Seq::<char>::empty(), |c: char| is_userinfo_code(c)));
}

proof fn lemma_path_start_keeps_parts(m: MachineView, c: Option<char>)
    requires
        m.state == State::PathStart,
        step_ok(m, c),
        parts_encoded(m),
    ensures
        parts_encoded(step(m, c).0),
{
    reveal(step);
    reveal(step_ok);
    assert(free_of(Seq::<char>::empty(), |c: char| is_fragment_code(c)));
    assert(free_of(Seq::<char>::empty(), |c: char| is_userinfo_code(c)));
}

proof fn lemma_opaque_path_keeps_parts(m: MachineView, c: Option<char>)
    requires
        m.state == State::OpaquePath,
        step_ok(m, c),
        parts_encoded(m),
    ensures
        parts_encoded(step(m, c).0),
{
    reveal(step);
    reveal(step_ok);
    assert(free_of(Seq::<char>::empty(), |c: char| is_fragment_code(c)));
    assert(free_of(Seq::<char>::empty(), |c: char| is_userinfo_code(c)));
}

proof fn lemma_port_keeps_parts(m: MachineView, c: Option<char>)
    requires
        m.state == State::Port,
        step_ok(m, c),
        parts_encoded(m),
    ensures
        parts_encoded(step(m, c).0),
{
    reveal(step);
    reveal(step_ok);
    assert(free_of(Seq::<char>::empty(), |c: char| is_fragment_code(c)));
    assert(free_of(Seq::<char>::empty(), |c: char| is_userinfo_code(c)));
    if let Some(v) = port_value(m.buffer) {
        lemma_decimal_digits(v);
    }
}

proof fn lemma_step_keeps_parts_encoded(m: MachineView, c: Option<char>)
    requires
        step_ok(m, c),
        parts_encoded(m),
    ensures
        parts_encoded(step(m, c).0),
{
    match m.state {
        State::Authority => lemma_authority_keeps_parts(m, c),
        State::SchemeStart => lemma_scheme_start_keeps_parts(m, c),
        State::Scheme => lemma_scheme_keeps_parts(m, c),
        State::Host => lemma_host_keeps_parts(m, c),
        State::NoScheme => lemma_no_scheme_keeps_parts(m, c),
        State::Fragment => lemma_fragment_keeps_parts(m, c),
        State::Relative => lemma_relative_keeps_parts(m, c),
        State::RelativeSlash => lemma_relative_slash_keeps_parts(m, c),
        State::File => lemma_file_keeps_parts(m, c),
        State::FileHost => lemma_file_host_keeps_parts(m, c),
        State::FileSlash => lemma_file_slash_keeps_parts(m, c),
        State::PathOrAuthority => lemma_path_or_authority_keeps_parts(m, c),
        State::SpecialAuthorityIgnoreSlashes => lemma_special_authority_ignore_slashes_keeps_parts(m, c),
        State::SpecialAuthoritySlashes => lemma_special_authority_slashes_keeps_parts(m, c),
        State::SpecialRelativeOrAuthority => lemma_special_relative_or_authority_keeps_parts(m, c),
        State::Query => lemma_query_keeps_parts(m, c),
        State::Path => lemma_path_keeps_parts(m, c),
        State::PathStart => lemma_path_start_keeps_parts(m, c),
        State::OpaquePath => lemma_opaque_path_keeps_parts(m, c),
        State::Port => lemma_port_keeps_parts(m, c),
    }
}

proof fn lemma_run_keeps_parts_encoded(m: MachineView, fuel: nat)
    requires
        run_ok(m, fuel),
        parts_encoded(m),
    ensures
        parts_encoded(run(m, fuel)),
    decreases fuel,
{
    if fuel > 0 && m.pointer < code_count(m) {
        let (m2, r) = step(m, code_at(m));
        lemma_step_keeps_parts_encoded(m, code_at(m));
        if r is None {
            lemma_run_keeps_parts_encoded(MachineView { pointer: m2.pointer + 1, ..m2 }, (fuel - 1) as nat);
        }
    }
}

/// In a parsed URL, the fragment holds no C0 control, space, '"', '<', '>',
/// '`' or U+007F as it is; the username and password hold none of the
/// userinfo code points as they are; and the port holds only ASCII digits,
/// where the base, if there is one, has such credentials and port.
pub proof fn law_parsed_parts_are_percent_encoded(
    input: Seq<char>,
    base: Option<UrlView>,
    encoding_override: Option<Seq<char>>,
    state_override: Option<State>,
)
    requires
        parse_url_ok(input, base, encoding_override, state_override),
        base matches Some(b) ==> authority_encoded(b),
    ensures
        ({
            let u = spec_parse_url(input, base, encoding_override, state_override).url;
            &&& u.fragment matches Some(f) ==> free_of(f, |c: char| is_fragment_code(c))
            &&& authority_encoded(u)
        }),
{
    let m = initial_machine(input, base, encoding_override, state_override);
    assert(free_of(Seq::<char>::empty(), |c: char| is_userinfo_code(c)));
    lemma_run_keeps_parts_encoded(m, run_fuel(m.input.len() as int));
}

/// A code point that a path segment must not hold as it is: a C0 control,
/// space, '"', '#', '<', '>', '?', '`', '{', '}' or U+007F DELETE.
pub open spec fn is_path_code(c: char) -> bool {
    c <= '\u{1F}' || c == ' ' || c == '"' || c == '#' || c == '<' || c == '>' || c == '?' || c
        == '`' || c == '{' || c == '}' || c == '\u{7F}'
}

/// A C0 control or U+007F DELETE.
pub open spec fn is_c0_code(c: char) -> bool {
    c <= '\u{1F}' || c == '\u{7F}'
}

/// Every segment of a path is free of the code points for which `p` holds.
pub open spec fn segments_free_of(path: Seq<Seq<char>>, p: spec_fn(char) -> bool) -> bool {
    forall|i: int| 0 <= i < path.len() ==> free_of(#[trigger] path[i], p)
}

/// The segments of a URL's path hold no path code point, or, for an opaque
/// path, no C0 control.
pub open spec fn path_encoded(u: UrlView) -> bool {
    &&& u.opaque_path ==> segments_free_of(u.path, |c: char| is_c0_code(c))
    &&& !u.opaque_path ==> segments_free_of(u.path, |c: char| is_path_code(c))
}

/// The states whose buffer holds what is not yet percent-encoded.
pub open spec fn raw_buffer_state(s: State) -> bool {
    s == State::Authority || s == State::Host || s == State::FileHost || s == State::Query
}

/// What every step keeps for the path: `path_encoded`; an opaque path only
/// in the opaque path, query and fragment states, and always in the first;
/// a buffer free of path code points in the states that build path segments;
/// and a base whose segments hold no path code point.
pub open spec fn path_parts_encoded(m: MachineView) -> bool {
    &&& path_encoded(m.url)
    &&& m.url.opaque_path ==> (m.state == State::OpaquePath || m.state == State::Query || m.state
        == State::Fragment)
    &&& m.state == State::OpaquePath ==> m.url.opaque_path
    &&& !raw_buffer_state(m.state) ==> free_of(m.buffer, |c: char| is_path_code(c))
    &&& m.base matches Some(b) ==> segments_free_of(b.path, |c: char| is_path_code(c))
}

/// Percent-encoding with the path set leaves no path code point.
pub proof fn lemma_path_encoding_is_clean(s: Seq<char>)
    ensures
        free_of(spec_utf8_percent_encode(s, EncodeSet::Path), |c: char| is_path_code(c)),
{
    let p = |c: char| is_path_code(c);
    assert forall|d: int| 0 <= d < 16 implies !p(#[trigger] hex_upper(d)) by {}
    lemma_encoded_bytes_free_of(EncodeSet::Path, vstd::utf8::encode_utf8(s), p);
}

/// Percent-encoding with the C0 control set leaves no C0 control.
pub proof fn lemma_c0_encoding_is_clean(s: Seq<char>)
    ensures
        free_of(spec_utf8_percent_encode(s, EncodeSet::C0Control), |c: char| is_c0_code(c)),
{
    let p = |c: char| is_c0_code(c);
    assert forall|d: int| 0 <= d < 16 implies !p(#[trigger] hex_upper(d)) by {}
    lemma_encoded_bytes_free_of(EncodeSet::C0Control, vstd::utf8::encode_utf8(s), p);
}

proof fn lemma_path_free_is_c0_free(path: Seq<Seq<char>>)
    requires
        segments_free_of(path, |c: char| is_path_code(c)),
    ensures
        segments_free_of(path, |c: char| is_c0_code(c)),
{
    assert forall|i: int| 0 <= i < path.len() implies free_of(#[trigger] path[i], |c: char| is_c0_code(c)) by {
        assert(free_of(path[i], |c: char| is_path_code(c)));
        assert forall|j: int| 0 <= j < path[i].len() implies !is_c0_code(#[trigger] path[i][j]) by {
            assert(!is_path_code(path[i][j]));
        }
    }
}

proof fn lemma_segments_push(path: Seq<Seq<char>>, seg: Seq<char>, p: spec_fn(char) -> bool)
    requires
        segments_free_of(path, p),
        free_of(seg, p),
    ensures
        segments_free_of(path.push(seg), p),
        path.len() > 0 ==> segments_free_of(path.drop_last(), p),
{
    assert forall|i: int| 0 <= i < path.push(seg).len() implies free_of(#[trigger] path.push(seg)[i], p) by {
        if i < path.len() {
            assert(path.push(seg)[i] == path[i]);
        }
    }
    if path.len() > 0 {
        assert forall|i: int| 0 <= i < path.drop_last().len() implies free_of(
            #[trigger] path.drop_last()[i],
            p,
        ) by {
            assert(path.drop_last()[i] == path[i]);
        }
    }
}

proof fn lemma_buffer_push_free(buffer: Seq<char>, x: char)
    requires
        free_of(buffer, |c: char| is_path_code(c)),
        !is_path_code(x),
    ensures
        free_of(buffer.push(x), |c: char| is_path_code(c)),
{
    assert forall|i: int| 0 <= i < buffer.push(x).len() implies !is_path_code(#[trigger] buffer.push(x)[i]) by {
        if i < buffer.len() {
            assert(buffer.push(x)[i] == buffer[i]);
        }
    }
}

proof fn lemma_drive_letter_free(buffer: Seq<char>)
    ensures
        spec_is_windows_drive_letter(buffer) ==> free_of(buffer, |c: char| is_path_code(c)),
{
    if spec_is_windows_drive_letter(buffer) {
        assert forall|i: int| 0 <= i < buffer.len() implies !is_path_code(#[trigger] buffer[i]) by {
            if i == 0 {
            } else {
                assert(i == 1);
            }
        }
    }
}

proof fn lemma_opaque_append(path: Seq<Seq<char>>, enc: Seq<char>)
    requires
        segments_free_of(path, |c: char| is_c0_code(c)),
        free_of(enc, |c: char| is_c0_code(c)),
    ensures
        segments_free_of(seq![opaque_text(path) + enc], |c: char| is_c0_code(c)),
{
    let pc = |c: char| is_c0_code(c);
    if path.len() > 0 {
        assert(free_of(path[0], pc));
    }
    assert(free_of(opaque_text(path), pc));
    lemma_free_of_concat(opaque_text(path), enc, pc);
    assert(seq![opaque_text(path) + enc][0] == opaque_text(path) + enc);
}

proof fn lemma_path_step_keeps_path(m: MachineView, c: Option<char>)
    requires
        m.state == State::Path,
        path_parts_encoded(m),
    ensures
        path_parts_encoded(path_step(m, c).0),
{
    let pp = |c: char| is_path_code(c);
    assert(!m.url.opaque_path);
    assert(free_of(m.buffer, pp));
    assert(free_of(Seq::<char>::empty(), pp));
    let path = m.url.path;
    lemma_segments_push(path, Seq::<char>::empty(), pp);
    lemma_segments_push(path, m.buffer, pp);
    let sp = shorten_path(m.url).path;
    assert(segments_free_of(sp, pp)) by {
        reveal_strlit("file");
    }
    lemma_segments_push(sp, Seq::<char>::empty(), pp);
    if m.buffer.len() > 0 {
        let seg = seq![m.buffer[0], ':'];
        assert(!is_path_code(m.buffer[0]));
        assert(free_of(seg, pp)) by {
            assert forall|i: int| 0 <= i < seg.len() implies !is_path_code(#[trigger] seg[i]) by {
                if i == 0 {
                } else {
                    assert(seg[i] == ':');
                }
            }
        }
        lemma_segments_push(path, seg, pp);
    }
    if let Some(x) = c {
        lemma_path_encoding_is_clean(seq![x]);
        lemma_free_of_concat(m.buffer, spec_utf8_percent_encode(seq![x], EncodeSet::Path), pp);
    }
    if let Some(x) = chr(m, m.pointer) {
        lemma_path_encoding_is_clean(seq![x]);
        lemma_free_of_concat(m.buffer, spec_utf8_percent_encode(seq![x], EncodeSet::Path), pp);
    }
}

proof fn lemma_authority_keeps_path(m: MachineView, c: Option<char>)
    requires
        m.state == State::Authority,
        step_ok(m, c),
        path_parts_encoded(m),
    ensures
        path_parts_encoded(step(m, c).0),
{
    reveal(step);
    reveal(step_ok);
    let pp = |c: char| is_path_code(c);
    let pc = |c: char| is_c0_code(c);
    assert(free_of(Seq::<char>::empty(), pp));
    assert(free_of(Seq::<char>::empty(), pc));
    assert(segments_free_of(Seq::<Seq<char>>::empty(), pp));
    assert(segments_free_of(seq![Seq::<char>::empty()], pc));
}

proof fn lemma_scheme_start_keeps_path(m: MachineView, c: Option<char>)
    requires
        m.state == State::SchemeStart,
        step_ok(m, c),
        path_parts_encoded(m),
    ensures
        path_parts_encoded(step(m, c).0),
{
    reveal(step);
    reveal(step_ok);
    let pp = |c: char| is_path_code(c);
    let pc = |c: char| is_c0_code(c);
    assert(free_of(Seq::<char>::empty(), pp));
    assert(free_of(Seq::<char>::empty(), pc));
    assert(segments_free_of(Seq::<Seq<char>>::empty(), pp));
    assert(segments_free_of(seq![Seq::<char>::empty()], pc));
    if let Some(x) = c {
        if is_ascii_alpha_char(x) || ('0' <= x && x <= '9') || x as u32 == 0x2B || x as u32 == 0x2D
            || x as u32 == 0x2E {
            lemma_buffer_push_free(m.buffer, crate::text::ascii_lower(x));
        }
    }
}

proof fn lemma_scheme_keeps_path(m: MachineView, c: Option<char>)
    requires
        m.state == State::Scheme,
        step_ok(m, c),
        path_parts_encoded(m),
    ensures
        path_parts_encoded(step(m, c).0),
{
    reveal(step);
    reveal(step_ok);
    let pp = |c: char| is_path_code(c);
    let pc = |c: char| is_c0_code(c);
    assert(free_of(Seq::<char>::empty(), pp));
    assert(free_of(Seq::<char>::empty(), pc));
    assert(segments_free_of(Seq::<Seq<char>>::empty(), pp));
    assert(segments_free_of(seq![Seq::<char>::empty()], pc));
    if let Some(x) = c {
        if is_ascii_alpha_char(x) || ('0' <= x && x <= '9') || x as u32 == 0x2B || x as u32 == 0x2D
            || x as u32 == 0x2E {
            lemma_buffer_push_free(m.buffer, crate::text::ascii_lower(x));
        }
    }
}

proof fn lemma_host_keeps_path(m: MachineView, c: Option<char>)
    requires
        m.state == State::Host,
        step_ok(m, c),
        path_parts_encoded(m),
    ensures
        path_parts_encoded(step(m, c).0),
{
    reveal(step);
    reveal(step_ok);
    let pp = |c: char| is_path_code(c);
    let pc = |c: char| is_c0_code(c);
    assert(free_of(Seq::<char>::empty(), pp));
    assert(free_of(Seq::<char>::empty(), pc));
    assert(segments_free_of(Seq::<Seq<char>>::empty(), pp));
    assert(segments_free_of(seq![Seq::<char>::empty()], pc));
}

proof fn lemma_no_scheme_keeps_path(m: MachineView, c: Option<char>)
    requires
        m.state == State::NoScheme,
        step_ok(m, c),
        path_parts_encoded(m),
    ensures
        path_parts_encoded(step(m, c).0),
{
    reveal(step);
    reveal(step_ok);
    let pp = |c: char| is_path_code(c);
    let pc = |c: char| is_c0_code(c);
    assert(free_of(Seq::<char>::empty(), pp));
    assert(free_of(Seq::<char>::empty(), pc));
    assert(segments_free_of(Seq::<Seq<char>>::empty(), pp));
    assert(segments_free_of(seq![Seq::<char>::empty()], pc));
    if let Some(b) = m.base {
        lemma_path_free_is_c0_free(b.path);
    }
}

proof fn lemma_fragment_keeps_path(m: MachineView, c: Option<char>)
    requires
        m.state == State::Fragment,
        step_ok(m, c),
        path_parts_encoded(m),
    ensures
        path_parts_encoded(step(m, c).0),
{
    reveal(step);
    reveal(step_ok);
    let pp = |c: char| is_path_code(c);
    let pc = |c: char| is_c0_code(c);
    assert(free_of(Seq::<char>::empty(), pp));
    assert(free_of(Seq::<char>::empty(), pc));
    assert(segments_free_of(Seq::<Seq<char>>::empty(), pp));
    assert(segments_free_of(seq![Seq::<char>::empty()], pc));
}

proof fn lemma_relative_keeps_path(m: MachineView, c: Option<char>)
    requires
        m.state == State::Relative,
        step_ok(m, c),
        path_parts_encoded(m),
    ensures
        path_parts_encoded(step(m, c).0),
{
    reveal(step);
    reveal(step_ok);
    let pp = |c: char| is_path_code(c);
    let pc = |c: char| is_c0_code(c);
    assert(free_of(Seq::<char>::empty(), pp));
    assert(free_of(Seq::<char>::empty(), pc));
    assert(segments_free_of(Seq::<Seq<char>>::empty(), pp));
    assert(segments_free_of(seq![Seq::<char>::empty()], pc));
    if let Some(b) = m.base {
        lemma_segments_push(b.path, Seq::<char>::empty(), pp);
    }
}

proof fn lemma_relative_slash_keeps_path(m: MachineView, c: Option<char>)
    requires
        m.state == State::RelativeSlash,
        step_ok(m, c),
        path_parts_encoded(m),
    ensures
        path_parts_encoded(step(m, c).0),
{
    reveal(step);
    reveal(step_ok);
    let pp = |c: char| is_path_code(c);
    let pc = |c: char| is_c0_code(c);
    assert(free_of(Seq::<char>::empty(), pp));
    assert(free_of(Seq::<char>::empty(), pc));
    assert(segments_free_of(Seq::<Seq<char>>::empty(), pp));
    assert(segments_free_of(seq![Seq::<char>::empty()], pc));
}

proof fn lemma_file_keeps_path(m: MachineView, c: Option<char>)
    requires
        m.state == State::File,
        step_ok(m, c),
        path_parts_encoded(m),
    ensures
        path_parts_encoded(step(m, c).0),
{
    reveal(step);
    reveal(step_ok);
    let pp = |c: char| is_path_code(c);
    let pc = |c: char| is_c0_code(c);
    assert(free_of(Seq::<char>::empty(), pp));
    assert(free_of(Seq::<char>::empty(), pc));
    assert(segments_free_of(Seq::<Seq<char>>::empty(), pp));
    assert(segments_free_of(seq![Seq::<char>::empty()], pc));
    if let Some(b) = m.base {
        lemma_segments_push(b.path, Seq::<char>::empty(), pp);
    }
}

proof fn lemma_file_host_keeps_path(m: MachineView, c: Option<char>)
    requires
        m.state == State::FileHost,
        step_ok(m, c),
        path_parts_encoded(m),
    ensures
        path_parts_encoded(step(m, c).0),
{
    reveal(step);
    reveal(step_ok);
    let pp = |c: char| is_path_code(c);
    let pc = |c: char| is_c0_code(c);
    assert(free_of(Seq::<char>::empty(), pp));
    assert(free_of(Seq::<char>::empty(), pc));
    assert(segments_free_of(Seq::<Seq<char>>::empty(), pp));
    assert(segments_free_of(seq![Seq::<char>::empty()], pc));
    lemma_drive_letter_free(m.buffer);
}

proof fn lemma_file_slash_keeps_path(m: MachineView, c: Option<char>)
    requires
        m.state == State::FileSlash,
        step_ok(m, c),
        path_parts_encoded(m),
    ensures
        path_parts_encoded(step(m, c).0),
{
    reveal(step);
    reveal(step_ok);
    let pp = |c: char| is_path_code(c);
    let pc = |c: char| is_c0_code(c);
    assert(free_of(Seq::<char>::empty(), pp));
    assert(free_of(Seq::<char>::empty(), pc));
    assert(segments_free_of(Seq::<Seq<char>>::empty(), pp));
    assert(segments_free_of(seq![Seq::<char>::empty()], pc));
    if let Some(b) = m.base {
        if b.path.len() > 0 {
            assert(free_of(b.path[0], pp));
            lemma_segments_push(m.url.path, b.path[0], pp);
        }
    }
}

proof fn lemma_path_or_authority_keeps_path(m: MachineView, c: Option<char>)
    requires
        m.state == State::PathOrAuthority,
        step_ok(m, c),
        path_parts_encoded(m),
    ensures
        path_parts_encoded(step(m, c).0),
{
    reveal(step);
    reveal(step_ok);
    let pp = |c: char| is_path_code(c);
    let pc = |c: char| is_c0_code(c);
    assert(free_of(Seq::<char>::empty(), pp));
    assert(free_of(Seq::<char>::empty(), pc));
    assert(segments_free_of(Seq::<Seq<char>>::empty(), pp));
    assert(segments_free_of(seq![Seq::<char>::empty()], pc));
}

proof fn lemma_special_authority_ignore_slashes_keeps_path(m: MachineView, c: Option<char>)
    requires
        m.state == State::SpecialAuthorityIgnoreSlashes,
        step_ok(m, c),
        path_parts_encoded(m),
    ensures
        path_parts_encoded(step(m, c).0),
{
    reveal(step);
    reveal(step_ok);
    let pp = |c: char| is_path_code(c);
    let pc = |c: char| is_c0_code(c);
    assert(free_of(Seq::<char>::empty(), pp));
    assert(free_of(Seq::<char>::empty(), pc));
    assert(segments_free_of(Seq::<Seq<char>>::empty(), pp));
    assert(segments_free_of(seq![Seq::<char>::empty()], pc));
}

proof fn lemma_special_authority_slashes_keeps_path(m: MachineView, c: Option<char>)
    requires
        m.state == State::SpecialAuthoritySlashes,
        step_ok(m, c),
        path_parts_encoded(m),
    ensures
        path_parts_encoded(step(m, c).0),
{
    reveal(step);
    reveal(step_ok);
    let pp = |c: char| is_path_code(c);
    let pc = |c: char| is_c0_code(c);
    assert(free_of(Seq::<char>::empty(), pp));
    assert(free_of(Seq::<char>::empty(), pc));
    assert(segments_free_of(Seq::<Seq<char>>::empty(), pp));
    assert(segments_free_of(seq![Seq::<char>::empty()], pc));
}

proof fn lemma_special_relative_or_authority_keeps_path(m: MachineView, c: Option<char>)
    requires
        m.state == State::SpecialRelativeOrAuthority,
        step_ok(m, c),
        path_parts_encoded(m),
    ensures
        path_parts_encoded(step(m, c).0),
{
    reveal(step);
    reveal(step_ok);
    let pp = |c: char| is_path_code(c);
    let pc = |c: char| is_c0_code(c);
    assert(free_of(Seq::<char>::empty(), pp));
    assert(free_of(Seq::<char>::empty(), pc));
    assert(segments_free_of(Seq::<Seq<char>>::empty(), pp));
    assert(segments_free_of(seq![Seq::<char>::empty()], pc));
}

proof fn lemma_query_keeps_path(m: MachineView, c: Option<char>)
    requires
        m.state == State::Query,
        step_ok(m, c),
        path_parts_encoded(m),
    ensures
        path_parts_encoded(step(m, c).0),
{
    reveal(step);
    reveal(step_ok);
    let pp = |c: char| is_path_code(c);
    let pc = |c: char| is_c0_code(c);
    assert(free_of(Seq::<char>::empty(), pp));
    assert(free_of(Seq::<char>::empty(), pc));
    assert(segments_free_of(Seq::<Seq<char>>::empty(), pp));
    assert(segments_free_of(seq![Seq::<char>::empty()], pc));
}

proof fn lemma_path_keeps_path(m: MachineView, c: Option<char>)
    requires
        m.state == State::Path,
        step_ok(m, c),
        path_parts_encoded(m),
    ensures
        path_parts_encoded(step(m, c).0),
{
    reveal(step);
    reveal(step_ok);
    let pp = |c: char| is_path_code(c);
    let pc = |c: char| is_c0_code(c);
    assert(free_of(Seq::<char>::empty(), pp));
    assert(free_of(Seq::<char>::empty(), pc));
    assert(segments_free_of(Seq::<Seq<char>>::empty(), pp));
    assert(segments_free_of(seq![Seq::<char>::empty()], pc));
    lemma_path_step_keeps_path(m, c);
}

proof fn lemma_path_start_keeps_path(m: MachineView, c: Option<char>)
    requires
        m.state == State::PathStart,
        step_ok(m, c),
        path_parts_encoded(m),
    ensures
        path_parts_encoded(step(m, c).0),
{
    reveal(step);
    reveal(step_ok);
    let pp = |c: char| is_path_code(c);
    let pc = |c: char| is_c0_code(c);
    assert(free_of(Seq::<char>::empty(), pp));
    assert(free_of(Seq::<char>::empty(), pc));
    assert(segments_free_of(Seq::<Seq<char>>::empty(), pp));
    assert(segments_free_of(seq![Seq::<char>::empty()], pc));
    lemma_segments_push(m.url.path, Seq::<char>::empty(), pp);
}

proof fn lemma_opaque_path_keeps_path(m: MachineView, c: Option<char>)
    requires
        m.state == State::OpaquePath,
        step_ok(m, c),
        path_parts_encoded(m),
    ensures
        path_parts_encoded(step(m, c).0),
{
    reveal(step);
    reveal(step_ok);
    let pp = |c: char| is_path_code(c);
    let pc = |c: char| is_c0_code(c);
    assert(free_of(Seq::<char>::empty(), pp));
    assert(free_of(Seq::<char>::empty(), pc));
    assert(segments_free_of(Seq::<Seq<char>>::empty(), pp));
    assert(segments_free_of(seq![Seq::<char>::empty()], pc));
    if let Some(x) = c {
        lemma_c0_encoding_is_clean(seq![x]);
        lemma_opaque_append(m.url.path, spec_utf8_percent_encode(seq![x], EncodeSet::C0Control));
    }
}

proof fn lemma_port_keeps_path(m: MachineView, c: Option<char>)
    requires
        m.state == State::Port,
        step_ok(m, c),
        path_parts_encoded(m),
    ensures
        path_parts_encoded(step(m, c).0),
{
    reveal(step);
    reveal(step_ok);
    let pp = |c: char| is_path_code(c);
    let pc = |c: char| is_c0_code(c);
    assert(free_of(Seq::<char>::empty(), pp));
    assert(free_of(Seq::<char>::empty(), pc));
    assert(segments_free_of(Seq::<Seq<char>>::empty(), pp));
    assert(segments_free_of(seq![Seq::<char>::empty()], pc));
    if let Some(x) = c {
        if '0' <= x && x <= '9' {
            lemma_buffer_push_free(m.buffer, x);
        }
    }
}

proof fn lemma_step_keeps_path_encoded(m: MachineView, c: Option<char>)
    requires
        step_ok(m, c),
        path_parts_encoded(m),
    ensures
        path_parts_encoded(step(m, c).0),
{
    match m.state {
        State::Authority => lemma_authority_keeps_path(m, c),
        State::SchemeStart => lemma_scheme_start_keeps_path(m, c),
        State::Scheme => lemma_scheme_keeps_path(m, c),
        State::Host => lemma_host_keeps_path(m, c),
        State::NoScheme => lemma_no_scheme_keeps_path(m, c),
        State::Fragment => lemma_fragment_keeps_path(m, c),
        State::Relative => lemma_relative_keeps_path(m, c),
        State::RelativeSlash => lemma_relative_slash_keeps_path(m, c),
        State::File => lemma_file_keeps_path(m, c),
        State::FileHost => lemma_file_host_keeps_path(m, c),
        State::FileSlash => lemma_file_slash_keeps_path(m, c),
        State::PathOrAuthority => lemma_path_or_authority_keeps_path(m, c),
        State::SpecialAuthorityIgnoreSlashes => lemma_special_authority_ignore_slashes_keeps_path(m, c),
        State::SpecialAuthoritySlashes => lemma_special_authority_slashes_keeps_path(m, c),
        State::SpecialRelativeOrAuthority => lemma_special_relative_or_authority_keeps_path(m, c),
        State::Query => lemma_query_keeps_path(m, c),
        State::Path => lemma_path_keeps_path(m, c),
        State::PathStart => lemma_path_start_keeps_path(m, c),
        State::OpaquePath => lemma_opaque_path_keeps_path(m, c),
        State::Port => lemma_port_keeps_path(m, c),
    }
}

proof fn lemma_run_keeps_path_encoded(m: MachineView, fuel: nat)
    requires
        run_ok(m, fuel),
        path_parts_encoded(m),
    ensures
        path_parts_encoded(run(m, fuel)),
    decreases fuel,
{
    if fuel > 0 && m.pointer < code_count(m) {
        let (m2, r) = step(m, code_at(m));
        lemma_step_keeps_path_encoded(m, code_at(m));
        if r is None {
            lemma_run_keeps_path_encoded(MachineView { pointer: m2.pointer + 1, ..m2 }, (fuel - 1) as nat);
        }
    }
}

/// In a URL parsed without a state override, no path segment holds a C0
/// control, space, '"', '#', '<', '>', '?', '`', '{', '}' or U+007F as it is
/// (an opaque path holds no C0 control or U+007F), where the base's segments,
/// if there is a base, hold none of the first kind either.
pub proof fn law_parsed_path_is_percent_encoded(
    input: Seq<char>,
    base: Option<UrlView>,
    encoding_override: Option<Seq<char>>,
)
    requires
        parse_url_ok(input, base, encoding_override, None),
        base matches Some(b) ==> segments_free_of(b.path, |c: char| is_path_code(c)),
    ensures
        path_encoded(spec_parse_url(input, base, encoding_override, None).url),
{
    let m = initial_machine(input, base, encoding_override, None);
    assert(free_of(Seq::<char>::empty(), |c: char| is_path_code(c)));
    assert(segments_free_of(Seq::<Seq<char>>::empty(), |c: char| is_path_code(c)));
    lemma_run_keeps_path_encoded(m, run_fuel(m.input.len() as int));
}

/// A URL's port, if it has one, is not the default port of its scheme.
pub open spec fn port_not_default(u: UrlView) -> bool {
    u.port matches Some(p) ==> special_scheme(u.scheme) != Some(Some(p))
}

/// The states before the parser reaches a port or copies one from the base.
pub open spec fn before_port(s: State) -> bool {
    s == State::SchemeStart || s == State::Scheme || s == State::NoScheme
        || s == State::SpecialRelativeOrAuthority
}

/// What every step keeps without a state override: no default port in the
/// URL or the base, and no port at all before the parser reaches one.
pub open spec fn ports_not_default(m: MachineView) -> bool {
    &&& !m.state_override
    &&& port_not_default(m.url)
    &&& before_port(m.state) ==> m.url.port is None
    &&& m.state == State::Relative ==> m.url.port is None || (m.base matches Some(b) && m.url.port
        == b.port && m.url.scheme == b.scheme)
    &&& m.state == State::RelativeSlash ==> (m.base matches Some(b) && m.url.scheme == b.scheme)
    &&& m.base matches Some(b) ==> port_not_default(b)
}

proof fn lemma_authority_keeps_port(m: MachineView, c: Option<char>)
    requires
        m.state == State::Authority,
        step_ok(m, c),
        ports_not_default(m),
    ensures
        ports_not_default(step(m, c).0),
{
    reveal(step);
    reveal(step_ok);
}

proof fn lemma_scheme_start_keeps_port(m: MachineView, c: Option<char>)
    requires
        m.state == State::SchemeStart,
        step_ok(m, c),
        ports_not_default(m),
    ensures
        ports_not_default(step(m, c).0),
{
    reveal(step);
    reveal(step_ok);
}

proof fn lemma_scheme_keeps_port(m: MachineView, c: Option<char>)
    requires
        m.state == State::Scheme,
        step_ok(m, c),
        ports_not_default(m),
    ensures
        ports_not_default(step(m, c).0),
{
    reveal(step);
    reveal(step_ok);
}

proof fn lemma_host_keeps_port(m: MachineView, c: Option<char>)
    requires
        m.state == State::Host,
        step_ok(m, c),
        ports_not_default(m),
    ensures
        ports_not_default(step(m, c).0),
{
    reveal(step);
    reveal(step_ok);
}

proof fn lemma_no_scheme_keeps_port(m: MachineView, c: Option<char>)
    requires
        m.state == State::NoScheme,
        step_ok(m, c),
        ports_not_default(m),
    ensures
        ports_not_default(step(m, c).0),
{
    reveal(step);
    reveal(step_ok);
}

proof fn lemma_fragment_keeps_port(m: MachineView, c: Option<char>)
    requires
        m.state == State::Fragment,
        step_ok(m, c),
        ports_not_default(m),
    ensures
        ports_not_default(step(m, c).0),
{
    reveal(step);
    reveal(step_ok);
}

proof fn lemma_relative_keeps_port(m: MachineView, c: Option<char>)
    requires
        m.state == State::Relative,
        step_ok(m, c),
        ports_not_default(m),
    ensures
        ports_not_default(step(m, c).0),
{
    reveal(step);
    reveal(step_ok);
}

proof fn lemma_relative_slash_keeps_port(m: MachineView, c: Option<char>)
    requires
        m.state == State::RelativeSlash,
        step_ok(m, c),
        ports_not_default(m),
    ensures
        ports_not_default(step(m, c).0),
{
    reveal(step);
    reveal(step_ok);
}

proof fn lemma_file_keeps_port(m: MachineView, c: Option<char>)
    requires
        m.state == State::File,
        step_ok(m, c),
        ports_not_default(m),
    ensures
        ports_not_default(step(m, c).0),
{
    reveal(step);
    reveal(step_ok);
    reveal_strlit("file");
    reveal_strlit("ftp");
    assert("file"@.len() == 4);
    assert("ftp"@.len() == 3);
    assert("file"@ != "ftp"@);
    assert(special_scheme("file"@) == Some(None::<Seq<char>>));
}

proof fn lemma_file_host_keeps_port(m: MachineView, c: Option<char>)
    requires
        m.state == State::FileHost,
        step_ok(m, c),
        ports_not_default(m),
    ensures
        ports_not_default(step(m, c).0),
{
    reveal(step);
    reveal(step_ok);
}

proof fn lemma_file_slash_keeps_port(m: MachineView, c: Option<char>)
    requires
        m.state == State::FileSlash,
        step_ok(m, c),
        ports_not_default(m),
    ensures
        ports_not_default(step(m, c).0),
{
    reveal(step);
    reveal(step_ok);
}

proof fn lemma_path_or_authority_keeps_port(m: MachineView, c: Option<char>)
    requires
        m.state == State::PathOrAuthority,
        step_ok(m, c),
        ports_not_default(m),
    ensures
        ports_not_default(step(m, c).0),
{
    reveal(step);
    reveal(step_ok);
}

proof fn lemma_special_authority_ignore_slashes_keeps_port(m: MachineView, c: Option<char>)
    requires
        m.state == State::SpecialAuthorityIgnoreSlashes,
        step_ok(m, c),
        ports_not_default(m),
    ensures
        ports_not_default(step(m, c).0),
{
    reveal(step);
    reveal(step_ok);
}

proof fn lemma_special_authority_slashes_keeps_port(m: MachineView, c: Option<char>)
    requires
        m.state == State::SpecialAuthoritySlashes,
        step_ok(m, c),
        ports_not_default(m),
    ensures
        ports_not_default(step(m, c).0),
{
    reveal(step);
    reveal(step_ok);
}

proof fn lemma_special_relative_or_authority_keeps_port(m: MachineView, c: Option<char>)
    requires
        m.state == State::SpecialRelativeOrAuthority,
        step_ok(m, c),
        ports_not_default(m),
    ensures
        ports_not_default(step(m, c).0),
{
    reveal(step);
    reveal(step_ok);
}

proof fn lemma_query_keeps_port(m: MachineView, c: Option<char>)
    requires
        m.state == State::Query,
        step_ok(m, c),
        ports_not_default(m),
    ensures
        ports_not_default(step(m, c).0),
{
    reveal(step);
    reveal(step_ok);
}

proof fn lemma_path_keeps_port(m: MachineView, c: Option<char>)
    requires
        m.state == State::Path,
        step_ok(m, c),
        ports_not_default(m),
    ensures
        ports_not_default(step(m, c).0),
{
    reveal(step);
    reveal(step_ok);
}

proof fn lemma_path_start_keeps_port(m: MachineView, c: Option<char>)
    requires
        m.state == State::PathStart,
        step_ok(m, c),
        ports_not_default(m),
    ensures
        ports_not_default(step(m, c).0),
{
    reveal(step);
    reveal(step_ok);
}

proof fn lemma_opaque_path_keeps_port(m: MachineView, c: Option<char>)
    requires
        m.state == State::OpaquePath,
        step_ok(m, c),
        ports_not_default(m),
    ensures
        ports_not_default(step(m, c).0),
{
    reveal(step);
    reveal(step_ok);
}

proof fn lemma_port_keeps_port(m: MachineView, c: Option<char>)
    requires
        m.state == State::Port,
        step_ok(m, c),
        ports_not_default(m),
    ensures
        ports_not_default(step(m, c).0),
{
    reveal(step);
    reveal(step_ok);
}

proof fn lemma_step_keeps_ports_not_default(m: MachineView, c: Option<char>)
    requires
        step_ok(m, c),
        ports_not_default(m),
    ensures
        ports_not_default(step(m, c).0),
{
    match m.state {
        State::Authority => lemma_authority_keeps_port(m, c),
        State::SchemeStart => lemma_scheme_start_keeps_port(m, c),
        State::Scheme => lemma_scheme_keeps_port(m, c),
        State::Host => lemma_host_keeps_port(m, c),
        State::NoScheme => lemma_no_scheme_keeps_port(m, c),
        State::Fragment => lemma_fragment_keeps_port(m, c),
        State::Relative => lemma_relative_keeps_port(m, c),
        State::RelativeSlash => lemma_relative_slash_keeps_port(m, c),
        State::File => lemma_file_keeps_port(m, c),
        State::FileHost => lemma_file_host_keeps_port(m, c),
        State::FileSlash => lemma_file_slash_keeps_port(m, c),
        State::PathOrAuthority => lemma_path_or_authority_keeps_port(m, c),
        State::SpecialAuthorityIgnoreSlashes => lemma_special_authority_ignore_slashes_keeps_port(m, c),
        State::SpecialAuthoritySlashes => lemma_special_authority_slashes_keeps_port(m, c),
        State::SpecialRelativeOrAuthority => lemma_special_relative_or_authority_keeps_port(m, c),
        State::Query => lemma_query_keeps_port(m, c),
        State::Path => lemma_path_keeps_port(m, c),
        State::PathStart => lemma_path_start_keeps_port(m, c),
        State::OpaquePath => lemma_opaque_path_keeps_port(m, c),
        State::Port => lemma_port_keeps_port(m, c),
    }
}

proof fn lemma_run_keeps_ports_not_default(m: MachineView, fuel: nat)
    requires
        run_ok(m, fuel),
        ports_not_default(m),
    ensures
        ports_not_default(run(m, fuel)),
    decreases fuel,
{
    if fuel > 0 && m.pointer < code_count(m) {
        let (m2, r) = step(m, code_at(m));
        lemma_step_keeps_ports_not_default(m, code_at(m));
        if r is None {
            lemma_run_keeps_ports_not_default(MachineView { pointer: m2.pointer + 1, ..m2 }, (fuel - 1) as nat);
        }
    }
}

/// A URL parsed without a state override never holds the default port of
/// its scheme (for example, "http://h:80/" has no port), where the base, if
/// there is one, does not either.
pub proof fn law_parsed_port_is_not_the_default(
    input: Seq<char>,
    base: Option<UrlView>,
    encoding_override: Option<Seq<char>>,
)
    requires
        parse_url_ok(input, base, encoding_override, None),
        base matches Some(b) ==> port_not_default(b),
    ensures
        port_not_default(spec_parse_url(input, base, encoding_override, None).url),
{
    let m = initial_machine(input, base, encoding_override, None);
    lemma_run_keeps_ports_not_default(m, run_fuel(m.input.len() as int));
}

/// `s` holds no ASCII uppercase letter.
pub open spec fn no_ascii_upper(s: Seq<char>) -> bool {
    forall|i: int| 0 <= i < s.len() ==> !('A' <= #[trigger] s[i] && s[i] <= 'Z')
}

/// What every step keeps: the scheme of the URL and of the base, and the
/// buffer while the scheme is read, hold no ASCII uppercase letter.
pub open spec fn scheme_lowercase(m: MachineView) -> bool {
    &&& no_ascii_upper(m.url.scheme)
    &&& (m.state == State::SchemeStart || m.state == State::Scheme) ==> no_ascii_upper(m.buffer)
    &&& m.base matches Some(b) ==> no_ascii_upper(b.scheme)
}

proof fn lemma_push_lower(buffer: Seq<char>, x: char)
    requires
        no_ascii_upper(buffer),
    ensures
        no_ascii_upper(buffer.push(crate::text::ascii_lower(x))),
{
    let y = crate::text::ascii_lower(x);
    assert(!('A' <= y && y <= 'Z'));
    assert forall|i: int| 0 <= i < buffer.push(y).len() implies !('A' <= #[trigger] buffer.push(y)[i]
        && buffer.push(y)[i] <= 'Z') by {
        if i < buffer.len() {
            assert(buffer.push(y)[i] == buffer[i]);
        }
    }
}

proof fn lemma_authority_keeps_scheme(m: MachineView, c: Option<char>)
    requires
        m.state == State::Authority,
        step_ok(m, c),
        scheme_lowercase(m),
    ensures
        scheme_lowercase(step(m, c).0),
{
    reveal(step);
    reveal(step_ok);
    assert(no_ascii_upper(Seq::<char>::empty()));
}

proof fn lemma_scheme_start_keeps_scheme(m: MachineView, c: Option<char>)
    requires
        m.state == State::SchemeStart,
        step_ok(m, c),
        scheme_lowercase(m),
    ensures
        scheme_lowercase(step(m, c).0),
{
    reveal(step);
    reveal(step_ok);
    assert(no_ascii_upper(Seq::<char>::empty()));
    if let Some(x) = c {
        lemma_push_lower(m.buffer, x);
    }
}

proof fn lemma_scheme_keeps_scheme(m: MachineView, c: Option<char>)
    requires
        m.state == State::Scheme,
        step_ok(m, c),
        scheme_lowercase(m),
    ensures
        scheme_lowercase(step(m, c).0),
{
    reveal(step);
    reveal(step_ok);
    assert(no_ascii_upper(Seq::<char>::empty()));
    if let Some(x) = c {
        lemma_push_lower(m.buffer, x);
    }
}

proof fn lemma_host_keeps_scheme(m: MachineView, c: Option<char>)
    requires
        m.state == State::Host,
        step_ok(m, c),
        scheme_lowercase(m),
    ensures
        scheme_lowercase(step(m, c).0),
{
    reveal(step);
    reveal(step_ok);
    assert(no_ascii_upper(Seq::<char>::empty()));
}

proof fn lemma_no_scheme_keeps_scheme(m: MachineView, c: Option<char>)
    requires
        m.state == State::NoScheme,
        step_ok(m, c),
        scheme_lowercase(m),
    ensures
        scheme_lowercase(step(m, c).0),
{
    reveal(step);
    reveal(step_ok);
    assert(no_ascii_upper(Seq::<char>::empty()));
}

proof fn lemma_fragment_keeps_scheme(m: MachineView, c: Option<char>)
    requires
        m.state == State::Fragment,
        step_ok(m, c),
        scheme_lowercase(m),
    ensures
        scheme_lowercase(step(m, c).0),
{
    reveal(step);
    reveal(step_ok);
    assert(no_ascii_upper(Seq::<char>::empty()));
}

proof fn lemma_relative_keeps_scheme(m: MachineView, c: Option<char>)
    requires
        m.state == State::Relative,
        step_ok(m, c),
        scheme_lowercase(m),
    ensures
        scheme_lowercase(step(m, c).0),
{
    reveal(step);
    reveal(step_ok);
    assert(no_ascii_upper(Seq::<char>::empty()));
}

proof fn lemma_relative_slash_keeps_scheme(m: MachineView, c: Option<char>)
    requires
        m.state == State::RelativeSlash,
        step_ok(m, c),
        scheme_lowercase(m),
    ensures
        scheme_lowercase(step(m, c).0),
{
    reveal(step);
    reveal(step_ok);
    assert(no_ascii_upper(Seq::<char>::empty()));
}

proof fn lemma_file_keeps_scheme(m: MachineView, c: Option<char>)
    requires
        m.state == State::File,
        step_ok(m, c),
        scheme_lowercase(m),
    ensures
        scheme_lowercase(step(m, c).0),
{
    reveal(step);
    reveal(step_ok);
    assert(no_ascii_upper(Seq::<char>::empty()));
    reveal_strlit("file");
}

proof fn lemma_file_host_keeps_scheme(m: MachineView, c: Option<char>)
    requires
        m.state == State::FileHost,
        step_ok(m, c),
        scheme_lowercase(m),
    ensures
        scheme_lowercase(step(m, c).0),
{
    reveal(step);
    reveal(step_ok);
    assert(no_ascii_upper(Seq::<char>::empty()));
}

proof fn lemma_file_slash_keeps_scheme(m: MachineView, c: Option<char>)
    requires
        m.state == State::FileSlash,
        step_ok(m, c),
        scheme_lowercase(m),
    ensures
        scheme_lowercase(step(m, c).0),
{
    reveal(step);
    reveal(step_ok);
    assert(no_ascii_upper(Seq::<char>::empty()));
}

proof fn lemma_path_or_authority_keeps_scheme(m: MachineView, c: Option<char>)
    requires
        m.state == State::PathOrAuthority,
        step_ok(m, c),
        scheme_lowercase(m),
    ensures
        scheme_lowercase(step(m, c).0),
{
    reveal(step);
    reveal(step_ok);
    assert(no_ascii_upper(Seq::<char>::empty()));
}

proof fn lemma_special_authority_ignore_slashes_keeps_scheme(m: MachineView, c: Option<char>)
    requires
        m.state == State::SpecialAuthorityIgnoreSlashes,
        step_ok(m, c),
        scheme_lowercase(m),
    ensures
        scheme_lowercase(step(m, c).0),
{
    reveal(step);
    reveal(step_ok);
    assert(no_ascii_upper(Seq::<char>::empty()));
}

proof fn lemma_special_authority_slashes_keeps_scheme(m: MachineView, c: Option<char>)
    requires
        m.state == State::SpecialAuthoritySlashes,
        step_ok(m, c),
        scheme_lowercase(m),
    ensures
        scheme_lowercase(step(m, c).0),
{
    reveal(step);
    reveal(step_ok);
    assert(no_ascii_upper(Seq::<char>::empty()));
}

proof fn lemma_special_relative_or_authority_keeps_scheme(m: MachineView, c: Option<char>)
    requires
        m.state == State::SpecialRelativeOrAuthority,
        step_ok(m, c),
        scheme_lowercase(m),
    ensures
        scheme_lowercase(step(m, c).0),
{
    reveal(step);
    reveal(step_ok);
    assert(no_ascii_upper(Seq::<char>::empty()));
}

proof fn lemma_query_keeps_scheme(m: MachineView, c: Option<char>)
    requires
        m.state == State::Query,
        step_ok(m, c),
        scheme_lowercase(m),
    ensures
        scheme_lowercase(step(m, c).0),
{
    reveal(step);
    reveal(step_ok);
    assert(no_ascii_upper(Seq::<char>::empty()));
}

proof fn lemma_path_keeps_scheme(m: MachineView, c: Option<char>)
    requires
        m.state == State::Path,
        step_ok(m, c),
        scheme_lowercase(m),
    ensures
        scheme_lowercase(step(m, c).0),
{
    reveal(step);
    reveal(step_ok);
    assert(no_ascii_upper(Seq::<char>::empty()));
}

proof fn lemma_path_start_keeps_scheme(m: MachineView, c: Option<char>)
    requires
        m.state == State::PathStart,
        step_ok(m, c),
        scheme_lowercase(m),
    ensures
        scheme_lowercase(step(m, c).0),
{
    reveal(step);
    reveal(step_ok);
    assert(no_ascii_upper(Seq::<char>::empty()));
}

proof fn lemma_opaque_path_keeps_scheme(m: MachineView, c: Option<char>)
    requires
        m.state == State::OpaquePath,
        step_ok(m, c),
        scheme_lowercase(m),
    ensures
        scheme_lowercase(step(m, c).0),
{
    reveal(step);
    reveal(step_ok);
    assert(no_ascii_upper(Seq::<char>::empty()));
}

proof fn lemma_port_keeps_scheme(m: MachineView, c: Option<char>)
    requires
        m.state == State::Port,
        step_ok(m, c),
        scheme_lowercase(m),
    ensures
        scheme_lowercase(step(m, c).0),
{
    reveal(step);
    reveal(step_ok);
    assert(no_ascii_upper(Seq::<char>::empty()));
}

proof fn lemma_step_keeps_scheme_lowercase(m: MachineView, c: Option<char>)
    requires
        step_ok(m, c),
        scheme_lowercase(m),
    ensures
        scheme_lowercase(step(m, c).0),
{
    match m.state {
        State::Authority => lemma_authority_keeps_scheme(m, c),
        State::SchemeStart => lemma_scheme_start_keeps_scheme(m, c),
        State::Scheme => lemma_scheme_keeps_scheme(m, c),
        State::Host => lemma_host_keeps_scheme(m, c),
        State::NoScheme => lemma_no_scheme_keeps_scheme(m, c),
        State::Fragment => lemma_fragment_keeps_scheme(m, c),
        State::Relative => lemma_relative_keeps_scheme(m, c),
        State::RelativeSlash => lemma_relative_slash_keeps_scheme(m, c),
        State::File => lemma_file_keeps_scheme(m, c),
        State::FileHost => lemma_file_host_keeps_scheme(m, c),
        State::FileSlash => lemma_file_slash_keeps_scheme(m, c),
        State::PathOrAuthority => lemma_path_or_authority_keeps_scheme(m, c),
        State::SpecialAuthorityIgnoreSlashes => lemma_special_authority_ignore_slashes_keeps_scheme(m, c),
        State::SpecialAuthoritySlashes => lemma_special_authority_slashes_keeps_scheme(m, c),
        State::SpecialRelativeOrAuthority => lemma_special_relative_or_authority_keeps_scheme(m, c),
        State::Query => lemma_query_keeps_scheme(m, c),
        State::Path => lemma_path_keeps_scheme(m, c),
        State::PathStart => lemma_path_start_keeps_scheme(m, c),
        State::OpaquePath => lemma_opaque_path_keeps_scheme(m, c),
        State::Port => lemma_port_keeps_scheme(m, c),
    }
}

proof fn lemma_run_keeps_scheme_lowercase(m: MachineView, fuel: nat)
    requires
        run_ok(m, fuel),
        scheme_lowercase(m),
    ensures
        scheme_lowercase(run(m, fuel)),
    decreases fuel,
{
    if fuel > 0 && m.pointer < code_count(m) {
        let (m2, r) = step(m, code_at(m));
        lemma_step_keeps_scheme_lowercase(m, code_at(m));
        if r is None {
            lemma_run_keeps_scheme_lowercase(MachineView { pointer: m2.pointer + 1, ..m2 }, (fuel - 1) as nat);
        }
    }
}

/// The scheme of a parsed URL holds no ASCII uppercase letter ("HTTP://h"
/// has the scheme "http"), where the base's scheme, if there is a base,
/// holds none either.
pub proof fn law_parsed_scheme_is_lowercase(
    input: Seq<char>,
    base: Option<UrlView>,
    encoding_override: Option<Seq<char>>,
    state_override: Option<State>,
)
    requires
        parse_url_ok(input, base, encoding_override, state_override),
        base matches Some(b) ==> no_ascii_upper(b.scheme),
    ensures
        no_ascii_upper(spec_parse_url(input, base, encoding_override, state_override).url.scheme),
{
    let m = initial_machine(input, base, encoding_override, state_override);
    assert(no_ascii_upper(Seq::<char>::empty()));
    lemma_run_keeps_scheme_lowercase(m, run_fuel(m.input.len() as int));
}

} // verus!
