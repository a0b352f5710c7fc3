//! Properties that relate the library's functions to one another.

use vstd::prelude::*;
use crate::encode_sets::{EncodeSet, in_encode_set};
use crate::platform::{spec_is_normalized_windows_drive_letter, spec_is_windows_drive_letter};
use crate::number::{decimal, lemma_decimal_digits};
use crate::parser::{spec_ipv6_pieces, spec_parse_ipv6, spec_parse_ipv4, spec_parse_ipv4_number, ipv4_parts, ipv4_number_of,
    ipv4_prefix_sum, pow256};
use crate::serializers::{spec_serialize_ipv6, spec_serialize_ipv4, f64_unit, f64_round};
use crate::machine_spec::{trim_start, trim_end, remove_tab_newline, is_tab_or_newline,
    clean_input, spec_parse_url, parse_url_ok};
use crate::state::State;
use crate::url::UrlView;
use crate::ipv6_text::{is_ipv6_address, lemma_ipv6_round_trip, lemma_parsed_pieces_bounded};
use crate::text::{split_on, lemma_split_on_join, lemma_split_on_without_sep};
use crate::url_search_params::{PairView, set_pairs, is_first_named, serialize_pairs, parse_query, query_pairs,
    strip_question_mark, first_value, has_name, values_named, with_name,
    without_name, is_stable_sort_by_name, sorted_by_name, name_le, lemma_with_name_push,
    lemma_with_name_concat, lemma_with_name_none, lemma_has_name, lemma_name_le_antisymmetric, lemma_name_le_reflexive};

verus! {

/// A normalized Windows drive letter is a Windows drive letter.
pub proof fn law_normalized_drive_letter_is_drive_letter(s: Seq<char>)
    requires
        spec_is_normalized_windows_drive_letter(s),
    ensures
        spec_is_windows_drive_letter(s),
{
}

/// The percent-encode sets nest: the fragment and query sets hold the C0
/// control set, the special-query and path sets hold the query set, and the
/// userinfo set holds the path set.
pub proof fn law_encode_sets_nest(b: u8)
    ensures
        in_encode_set(EncodeSet::C0Control, b) ==> in_encode_set(EncodeSet::Fragment, b),
        in_encode_set(EncodeSet::C0Control, b) ==> in_encode_set(EncodeSet::Query, b),
        in_encode_set(EncodeSet::Query, b) ==> in_encode_set(EncodeSet::SpecialQuery, b),
        in_encode_set(EncodeSet::Query, b) ==> in_encode_set(EncodeSet::Path, b),
        in_encode_set(EncodeSet::Path, b) ==> in_encode_set(EncodeSet::UserInfo, b),
{
}

/// A name is present exactly when `get` finds a value for it and when
/// `get_all` finds at least one.
pub proof fn law_has_iff_get(ps: Seq<PairView>, name: Seq<char>)
    ensures
        has_name(ps, name) <==> first_value(ps, name) is Some,
        has_name(ps, name) <==> values_named(ps, name).len() > 0,
{
    lemma_has_name(ps, name);
}

/// After appending a pair, `get` of its name finds the first value that
/// name had, or the appended value if it had none; other names are unchanged.
pub proof fn law_append_then_get(ps: Seq<PairView>, name: Seq<char>, value: Seq<char>, other: Seq<char>)
    ensures
        first_value(ps.push((name, value)), name) == match first_value(ps, name) {
            Some(v) => Some(v),
            None => Some(value),
        },
        other != name ==> first_value(ps.push((name, value)), other) == first_value(ps, other),
        values_named(ps.push((name, value)), name) == values_named(ps, name).push(value),
{
    lemma_with_name_push(ps, (name, value), name);
    lemma_with_name_push(ps, (name, value), other);
    assert(values_named(ps.push((name, value)), name) =~= values_named(ps, name).push(value));
}

/// After deleting a name, no pair has it, and the pairs of every other
/// name are unchanged.
pub proof fn law_delete_then_has(ps: Seq<PairView>, name: Seq<char>, other: Seq<char>)
    ensures
        !has_name(without_name(ps, name), name),
        other != name ==> with_name(without_name(ps, name), other) == with_name(ps, other),
    decreases ps.len(),
{
    if ps.len() > 0 {
        law_delete_then_has(ps.drop_last(), name, other);
        lemma_with_name_push(ps.drop_last(), ps.last(), name);
        lemma_with_name_push(without_name(ps.drop_last(), name), ps.last(), name);
        lemma_with_name_push(ps.drop_last(), ps.last(), other);
        lemma_with_name_push(without_name(ps.drop_last(), name), ps.last(), other);
        assert(ps.drop_last().push(ps.last()) =~= ps);
        lemma_has_name(without_name(ps.drop_last(), name), name);
        lemma_has_name(without_name(ps, name), name);
    } else {
        lemma_has_name(ps, name);
    }
}

/// After setting a name to a value, `get` and `get_all` of that name give
/// that value alone, and the pairs of every other name are unchanged.
pub proof fn law_set_then_get(ps: Seq<PairView>, name: Seq<char>, value: Seq<char>, other: Seq<char>)
    ensures
        first_value(set_pairs(ps, name, value), name) == Some(value),
        values_named(set_pairs(ps, name, value), name) == seq![value],
        other != name ==> with_name(set_pairs(ps, name, value), other) == with_name(ps, other),
{
    let p = (name, value);
    let r = set_pairs(ps, name, value);
    if has_name(ps, name) {
        let k = choose|k: int| is_first_named(ps, name, k);
        assert(exists|k: int| is_first_named(ps, name, k)) by {
            lemma_first_named_exists(ps, name);
        }
        let a = ps.take(k);
        let rest = ps.skip(k + 1);
        let w = without_name(rest, name);
        assert(r == a.push(p) + w);
        lemma_with_name_concat(a.push(p), w, name);
        lemma_with_name_concat(a.push(p), w, other);
        lemma_with_name_push(a, p, name);
        lemma_with_name_push(a, p, other);
        assert forall|j: int| 0 <= j < a.len() implies #[trigger] a[j].0 != name by {
            assert(a[j] == ps[j]);
        }
        lemma_with_name_none(a, name);
        law_delete_then_has(rest, name, other);
        lemma_has_name(w, name);
        assert(with_name(r, name) =~= seq![p]);
        assert(values_named(r, name) =~= seq![value]);
        assert(ps =~= a + seq![ps[k]] + rest);
        lemma_with_name_concat(a + seq![ps[k]], rest, other);
        lemma_with_name_concat(a, seq![ps[k]], other);
        assert(seq![ps[k]] =~= Seq::<PairView>::empty().push(ps[k]));
        lemma_with_name_push(Seq::<PairView>::empty(), ps[k], other);
        if other != name {
            assert(with_name(seq![ps[k]], other) =~= Seq::<PairView>::empty());
            assert(with_name(r, other) =~= with_name(ps, other));
        }
    } else {
        lemma_has_name(ps, name);
        lemma_with_name_push(ps, p, name);
        lemma_with_name_push(ps, p, other);
        assert(with_name(r, name) =~= seq![p]);
        assert(values_named(r, name) =~= seq![value]);
    }
}

/// A list with a pair of a name has a first pair of that name.
proof fn lemma_first_named_exists(ps: Seq<PairView>, name: Seq<char>)
    requires
        has_name(ps, name),
    ensures
        exists|k: int| is_first_named(ps, name, k),
    decreases ps.len(),
{
    if ps[0].0 == name {
        assert(is_first_named(ps, name, 0));
    } else {
        let t = ps.drop_first();
        let i = choose|i: int| 0 <= i < ps.len() && #[trigger] ps[i].0 == name;
        assert(t[i - 1].0 == name);
        lemma_first_named_exists(t, name);
        let k = choose|k: int| is_first_named(t, name, k);
        assert forall|j: int| 0 <= j < k + 1 implies #[trigger] ps[j].0 != name by {
            if j > 0 {
                assert(ps[j] == t[j - 1]);
            }
        }
        assert(is_first_named(ps, name, k + 1));
    }
}

/// The pairs of a name in a list are those of its first pair, then those of the rest.
proof fn lemma_with_name_first(r: Seq<PairView>, m: Seq<char>)
    requires
        r.len() > 0,
    ensures
        with_name(r, m) == with_name(seq![r[0]], m) + with_name(r.drop_first(), m),
        with_name(seq![r[0]], m) == if r[0].0 == m {
            seq![r[0]]
        } else {
            Seq::<PairView>::empty()
        },
{
    assert(r =~= seq![r[0]] + r.drop_first());
    lemma_with_name_concat(seq![r[0]], r.drop_first(), m);
    assert(seq![r[0]] =~= Seq::<PairView>::empty().push(r[0]));
    lemma_with_name_push(Seq::<PairView>::empty(), r[0], m);
}

/// A name kept by `with_name` occurs in the list.
proof fn lemma_with_name_member(r: Seq<PairView>, m: Seq<char>)
    requires
        with_name(r, m).len() > 0,
    ensures
        exists|k: int| 0 <= k < r.len() && #[trigger] r[k].0 == m,
{
    lemma_has_name(r, m);
}

/// Sorting by name has one result: two lists that are both `ps` sorted
/// stably by name are equal.
pub proof fn law_sort_is_unique(ps: Seq<PairView>, r1: Seq<PairView>, r2: Seq<PairView>)
    requires
        is_stable_sort_by_name(ps, r1),
        is_stable_sort_by_name(ps, r2),
    ensures
        r1 == r2,
{
    lemma_sorted_unique(r1, r2);
}

proof fn lemma_sorted_unique(r1: Seq<PairView>, r2: Seq<PairView>)
    requires
        r1.len() == r2.len(),
        sorted_by_name(r1),
        sorted_by_name(r2),
        forall|m: Seq<char>| #[trigger] with_name(r1, m) == with_name(r2, m),
    ensures
        r1 == r2,
    decreases r1.len(),
{
    if r1.len() == 0 {
        assert(r1 =~= r2);
    } else {
        let n1 = r1[0].0;
        let n2 = r2[0].0;
        lemma_with_name_first(r1, n1);
        lemma_with_name_first(r2, n2);
        assert(with_name(r2, n1) == with_name(r1, n1));
        assert(with_name(r1, n2) == with_name(r2, n2));
        lemma_with_name_member(r2, n1);
        lemma_with_name_member(r1, n2);
        let k2 = choose|k: int| 0 <= k < r2.len() && #[trigger] r2[k].0 == n1;
        let k1 = choose|k: int| 0 <= k < r1.len() && #[trigger] r1[k].0 == n2;
        lemma_name_le_reflexive(n1);
        lemma_name_le_reflexive(n2);
        if k2 > 0 {
            assert(name_le(r2[0].0, r2[k2].0));
        }
        if k1 > 0 {
            assert(name_le(r1[0].0, r1[k1].0));
        }
        lemma_name_le_antisymmetric(n1, n2);
        lemma_with_name_first(r2, n1);
        assert(r1[0] == with_name(r1, n1)[0]);
        assert(r2[0] == with_name(r2, n1)[0]);
        let t1 = r1.drop_first();
        let t2 = r2.drop_first();
        assert forall|m: Seq<char>| #[trigger] with_name(t1, m) == with_name(t2, m) by {
            lemma_with_name_first(r1, m);
            lemma_with_name_first(r2, m);
            assert(with_name(r1, m) == with_name(r2, m));
            if r1[0].0 == m {
                assert(with_name(t1, m) =~= with_name(r1, m).drop_first());
                assert(with_name(t2, m) =~= with_name(r2, m).drop_first());
            } else {
                assert(with_name(t1, m) =~= with_name(r1, m));
                assert(with_name(t2, m) =~= with_name(r2, m));
            }
        }
        assert forall|i: int, j: int| 0 <= i < j < t1.len() implies name_le(
            #[trigger] t1[i].0,
            #[trigger] t1[j].0,
        ) by {
            assert(name_le(r1[i + 1].0, r1[j + 1].0));
        }
        assert forall|i: int, j: int| 0 <= i < j < t2.len() implies name_le(
            #[trigger] t2[i].0,
            #[trigger] t2[j].0,
        ) by {
            assert(name_le(r2[i + 1].0, r2[j + 1].0));
        }
        lemma_sorted_unique(t1, t2);
        assert(r1 =~= seq![r1[0]] + t1);
        assert(r2 =~= seq![r2[0]] + t2);
    }
}

/// Sorting by name keeps pairs in their order where they are already sorted.
pub proof fn law_sorted_is_own_sort(ps: Seq<PairView>)
    requires
        sorted_by_name(ps),
    ensures
        is_stable_sort_by_name(ps, ps),
{
}

/// Neither '&' nor '=' occurs in `s`.
pub open spec fn is_plain_query_text(s: Seq<char>) -> bool {
    !s.contains('&') && !s.contains('=')
}

/// The pair written as "name=value".
pub open spec fn pair_segment(p: PairView) -> Seq<char> {
    p.0 + seq!['='] + p.1
}

/// Every name and value of `ps` is plain query text.
pub open spec fn all_plain(ps: Seq<PairView>) -> bool {
    forall|i: int| 0 <= i < ps.len() ==> is_plain_query_text(#[trigger] ps[i].0)
        && is_plain_query_text(ps[i].1)
}

proof fn lemma_serialize_segments(ps: Seq<PairView>)
    requires
        ps.len() > 0,
        all_plain(ps),
    ensures
        split_on(serialize_pairs(ps), '&') == ps.map_values(|p: PairView| pair_segment(p)),
        serialize_pairs(ps).len() > 0,
        serialize_pairs(ps)[0] == pair_segment(ps[0])[0],
    decreases ps.len(),
{
    reveal_strlit("&");
    reveal_strlit("=");
    let p = ps.last();
    let seg = pair_segment(p);
    assert(is_plain_query_text(ps[ps.len() - 1].0));
    assert(!seg.contains('&')) by {
        if seg.contains('&') {
            let i = choose|i: int| 0 <= i < seg.len() && seg[i] == '&';
            if i < p.0.len() {
                assert(p.0[i] == '&');
            } else if i > p.0.len() {
                assert(p.1[i - p.0.len() - 1] == '&');
            }
        }
    }
    lemma_split_on_without_sep(seg, '&');
    let dl = ps.drop_last();
    assert("&"@ =~= seq!['&']);
    assert("="@ =~= seq!['=']);
    if ps.len() == 1 {
        assert(serialize_pairs(dl) =~= Seq::<char>::empty());
        assert(serialize_pairs(ps) =~= seg);
        assert(ps.map_values(|q: PairView| pair_segment(q)) =~= seq![seg]);
    } else {
        assert(all_plain(dl)) by {
            assert forall|i: int| 0 <= i < dl.len() implies is_plain_query_text(#[trigger] dl[i].0)
                && is_plain_query_text(dl[i].1) by {
                assert(dl[i] == ps[i]);
            }
        }
        lemma_serialize_segments(dl);
        let head = serialize_pairs(dl);
        assert(serialize_pairs(ps) =~= head + seq!['&'] + seg);
        lemma_split_on_join(head, seg, '&');
        assert(ps.map_values(|q: PairView| pair_segment(q)) =~= dl.map_values(
            |q: PairView| pair_segment(q),
        ) + seq![seg]);
        assert(dl[0] == ps[0]);
    }
}

proof fn lemma_query_pairs_of_segments(ps: Seq<PairView>)
    requires
        all_plain(ps),
    ensures
        query_pairs(ps.map_values(|p: PairView| pair_segment(p))) == ps,
    decreases ps.len(),
{
    let segs = ps.map_values(|p: PairView| pair_segment(p));
    if ps.len() == 0 {
        assert(segs =~= Seq::<Seq<char>>::empty());
        assert(query_pairs(segs) =~= ps);
    } else {
        let dl = ps.drop_last();
        let p = ps.last();
        assert(is_plain_query_text(ps[ps.len() - 1].0));
        assert(all_plain(dl)) by {
            assert forall|i: int| 0 <= i < dl.len() implies is_plain_query_text(#[trigger] dl[i].0)
                && is_plain_query_text(dl[i].1) by {
                assert(dl[i] == ps[i]);
            }
        }
        lemma_query_pairs_of_segments(dl);
        assert(segs.drop_last() =~= dl.map_values(|q: PairView| pair_segment(q)));
        lemma_split_on_join(p.0, p.1, '=');
        lemma_split_on_without_sep(p.0, '=');
        lemma_split_on_without_sep(p.1, '=');
        let kv = split_on(segs.last(), '=');
        assert(kv =~= seq![p.0, p.1]);
        assert(query_pairs(segs) =~= dl.push(p));
        assert(dl.push(p) =~= ps);
    }
}

/// Reading back the query string that `to_js_string` writes gives the same
/// pairs, where no name or value holds '&' or '=' and the first name does
/// not start with '?'.
pub proof fn law_query_string_round_trip(ps: Seq<PairView>)
    requires
        all_plain(ps),
        ps.len() > 0 ==> !(ps[0].0.len() > 0 && ps[0].0[0] == '?'),
    ensures
        parse_query(serialize_pairs(ps)) == ps,
{
    reveal_strlit("=");
    if ps.len() == 0 {
        let e = Seq::<char>::empty();
        assert(serialize_pairs(ps) =~= e);
        assert(strip_question_mark(e) =~= e);
        assert(split_on(e, '&') =~= seq![e]);
        assert(split_on(e, '=') =~= seq![e]);
        assert(seq![e].drop_last() =~= Seq::<Seq<char>>::empty());
        assert(query_pairs(Seq::<Seq<char>>::empty()) =~= ps);
        assert(query_pairs(seq![e]) =~= ps);
        assert(parse_query(serialize_pairs(ps)) =~= ps);
    } else {
        lemma_serialize_segments(ps);
        let s = serialize_pairs(ps);
        if ps[0].0.len() > 0 {
            assert(pair_segment(ps[0])[0] == ps[0].0[0]);
        } else {
            assert(pair_segment(ps[0])[0] == '=');
        }
        assert(strip_question_mark(s) == s);
        lemma_query_pairs_of_segments(ps);
    }
}

/// Decimal digits never hold '.'.
proof fn lemma_decimal_has_no_dot(n: nat)
    ensures
        !decimal(n).contains('.'),
{
    lemma_decimal_digits(n);
    let d = decimal(n);
    if d.contains('.') {
        let i = choose|i: int| 0 <= i < d.len() && d[i] == '.';
        assert('0' <= d[i] <= '9');
    }
}

/// The decimal digits of a byte parse back as that byte.
proof fn lemma_ipv4_number_of_decimal(n: nat)
    requires
        n < 256,
    ensures
        spec_parse_ipv4_number(decimal(n)) == Some(n as u32),
{
    lemma_decimal_digits(n);
    let d = decimal(n);
    assert('0' <= d[0] <= '9');
    if n == 0 {
        assert(d.subrange(1, 1) =~= Seq::<char>::empty());
    }
}

/// Serializing an IPv4 address below 2^32 and parsing the text back gives
/// the address.
pub proof fn law_ipv4_round_trip(a: u64)
    requires
        a < 0x1_0000_0000,
    ensures
        spec_parse_ipv4(spec_serialize_ipv4(a)) == Some(a),
{
    reveal_strlit(".");
    assert("."@ =~= seq!['.']);
    assert(f64_unit(a as nat) == 1);
    assert(f64_round(a as nat) == a as nat);
    let b3: u64 = (a / 0x100_0000) % 256;
    let b2: u64 = (a / 0x1_0000) % 256;
    let b1: u64 = (a / 0x100) % 256;
    let b0: u64 = a % 256;
    assert(a == b3 * 0x100_0000 + b2 * 0x1_0000 + b1 * 0x100 + b0) by (bit_vector)
        requires
            a < 0x1_0000_0000,
            b3 == (a / 0x100_0000) % 256,
            b2 == (a / 0x1_0000) % 256,
            b1 == (a / 0x100) % 256,
            b0 == a % 256,
    ;
    let d3 = decimal(b3 as nat);
    let d2 = decimal(b2 as nat);
    let d1 = decimal(b1 as nat);
    let d0 = decimal(b0 as nat);
    let dot = seq!['.'];
    let s = d3 + dot + d2 + dot + d1 + dot + d0;
    assert(spec_serialize_ipv4(a) =~= s);
    lemma_decimal_has_no_dot(b3 as nat);
    lemma_decimal_has_no_dot(b2 as nat);
    lemma_decimal_has_no_dot(b1 as nat);
    lemma_decimal_has_no_dot(b0 as nat);
    lemma_decimal_digits(b0 as nat);
    lemma_split_on_without_sep(d3, '.');
    lemma_split_on_without_sep(d2, '.');
    lemma_split_on_without_sep(d1, '.');
    lemma_split_on_without_sep(d0, '.');
    lemma_split_on_join(d3, d2, '.');
    lemma_split_on_join(d3 + dot + d2, d1, '.');
    lemma_split_on_join(d3 + dot + d2 + dot + d1, d0, '.');
    let parts = seq![d3, d2, d1, d0];
    assert(split_on(s, '.') =~= parts);
    assert(ipv4_parts(s) == parts);
    lemma_ipv4_number_of_decimal(b3 as nat);
    lemma_ipv4_number_of_decimal(b2 as nat);
    lemma_ipv4_number_of_decimal(b1 as nat);
    lemma_ipv4_number_of_decimal(b0 as nat);
    assert forall|i: int| 0 <= i < 4 implies #[trigger] spec_parse_ipv4_number(parts[i])
        is Some && ipv4_number_of(parts[i]) <= 255 by {
        if i == 0 {
            assert(parts[i] == d3);
        } else if i == 1 {
            assert(parts[i] == d2);
        } else if i == 2 {
            assert(parts[i] == d1);
        } else {
            assert(parts[i] == d0);
        }
    }
    assert(!exists|i: int| 0 <= i < 4 && #[trigger] spec_parse_ipv4_number(parts[i]) is None);
    assert(!exists|i: int| 0 <= i < 3 && #[trigger] ipv4_number_of(parts[i]) > 255);
    reveal_with_fuel(pow256, 5);
    reveal_with_fuel(ipv4_prefix_sum, 4);
    assert(parts[0] == d3 && parts[1] == d2 && parts[2] == d1 && parts[3] == d0);
    assert(ipv4_prefix_sum(parts, 3) == b3 * 0x100_0000 + b2 * 0x1_0000 + b1 * 0x100);
}

/// Every code point of `s` is a C0 control or a space.
pub open spec fn all_c0_or_space(s: Seq<char>) -> bool {
    forall|i: int| 0 <= i < s.len() ==> #[trigger] s[i] <= ' '
}

proof fn lemma_trim_start_drops_spaces(pre: Seq<char>, x: Seq<char>)
    requires
        all_c0_or_space(pre),
    ensures
        trim_start(pre + x) == trim_start(x),
    decreases pre.len(),
{
    if pre.len() > 0 {
        assert(pre[0] <= ' ');
        assert((pre + x)[0] == pre[0]);
        assert((pre + x).drop_first() =~= pre.drop_first() + x);
        assert(all_c0_or_space(pre.drop_first())) by {
            assert forall|i: int| 0 <= i < pre.drop_first().len() implies #[trigger] pre.drop_first()[i]
                <= ' ' by {
                assert(pre.drop_first()[i] == pre[i + 1]);
            }
        }
        lemma_trim_start_drops_spaces(pre.drop_first(), x);
    } else {
        assert(pre + x =~= x);
    }
}

proof fn lemma_trim_end_drops_spaces(x: Seq<char>, suf: Seq<char>)
    requires
        all_c0_or_space(suf),
    ensures
        trim_end(x + suf) == trim_end(x),
    decreases suf.len(),
{
    if suf.len() > 0 {
        assert(suf[suf.len() - 1] <= ' ');
        assert((x + suf).last() == suf.last());
        assert((x + suf).drop_last() =~= x + suf.drop_last());
        assert(all_c0_or_space(suf.drop_last())) by {
            assert forall|i: int| 0 <= i < suf.drop_last().len() implies #[trigger] suf.drop_last()[i]
                <= ' ' by {
                assert(suf.drop_last()[i] == suf[i]);
            }
        }
        lemma_trim_end_drops_spaces(x, suf.drop_last());
    } else {
        assert(x + suf =~= x);
    }
}

proof fn lemma_trim_start_keeps_rest(a: Seq<char>, y: Seq<char>)
    requires
        !all_c0_or_space(a),
    ensures
        trim_start(a + y) == trim_start(a) + y,
    decreases a.len(),
{
    assert(a.len() > 0);
    assert((a + y)[0] == a[0]);
    assert((a + y).drop_first() =~= a.drop_first() + y);
    if a[0] <= ' ' {
        assert(!all_c0_or_space(a.drop_first())) by {
            let i = choose|i: int| 0 <= i < a.len() && !(#[trigger] a[i] <= ' ');
            assert(a.drop_first()[i - 1] == a[i]);
        }
        lemma_trim_start_keeps_rest(a.drop_first(), y);
    }
}

proof fn lemma_trim_end_keeps_rest(z: Seq<char>, b: Seq<char>)
    requires
        !all_c0_or_space(b),
    ensures
        trim_end(z + b) == z + trim_end(b),
    decreases b.len(),
{
    assert(b.len() > 0);
    assert((z + b).last() == b.last());
    assert((z + b).drop_last() =~= z + b.drop_last());
    if b.last() <= ' ' {
        assert(!all_c0_or_space(b.drop_last())) by {
            let i = choose|i: int| 0 <= i < b.len() && !(#[trigger] b[i] <= ' ');
            assert(i != b.len() - 1);
            assert(b.drop_last()[i] == b[i]);
        }
        lemma_trim_end_keeps_rest(z, b.drop_last());
    }
}

proof fn lemma_remove_tab_newline_concat(p: Seq<char>, q: Seq<char>)
    ensures
        remove_tab_newline(p + q) == remove_tab_newline(p) + remove_tab_newline(q),
    decreases q.len(),
{
    if q.len() == 0 {
        assert(p + q =~= p);
        assert(remove_tab_newline(p) + remove_tab_newline(q) =~= remove_tab_newline(p));
    } else {
        assert((p + q).drop_last() =~= p + q.drop_last());
        assert((p + q).last() == q.last());
        lemma_remove_tab_newline_concat(p, q.drop_last());
        if !is_tab_or_newline(q.last()) {
            assert((remove_tab_newline(p) + remove_tab_newline(q.drop_last())).push(q.last())
                =~= remove_tab_newline(p) + remove_tab_newline(q.drop_last()).push(q.last()));
        }
    }
}

/// Parsing leaves out C0 controls and spaces before and after the input:
/// the parser's result is the same with them as without.
pub proof fn law_parse_ignores_outer_c0_and_spaces(
    s: Seq<char>,
    pre: Seq<char>,
    suf: Seq<char>,
    base: Option<UrlView>,
    encoding_override: Option<Seq<char>>,
    state_override: Option<State>,
)
    requires
        all_c0_or_space(pre),
        all_c0_or_space(suf),
    ensures
        spec_parse_url(pre + s + suf, base, encoding_override, state_override) == spec_parse_url(
            s,
            base,
            encoding_override,
            state_override,
        ),
        parse_url_ok(pre + s + suf, base, encoding_override, state_override) == parse_url_ok(
            s,
            base,
            encoding_override,
            state_override,
        ),
{
    let t = pre + s + suf;
    assert(t =~= pre + (s + suf));
    lemma_trim_start_drops_spaces(pre, s + suf);
    if all_c0_or_space(s) {
        assert(all_c0_or_space(s + suf)) by {
            assert forall|i: int| 0 <= i < (s + suf).len() implies #[trigger] (s + suf)[i] <= ' ' by {
                if i < s.len() {
                    assert((s + suf)[i] == s[i]);
                } else {
                    assert((s + suf)[i] == suf[i - s.len()]);
                }
            }
        }
        let e = Seq::<char>::empty();
        lemma_trim_start_drops_spaces(s + suf, e);
        lemma_trim_start_drops_spaces(s, e);
        assert(s + suf + e =~= s + suf);
        assert(s + e =~= s);
    } else {
        lemma_trim_start_keeps_rest(s, suf);
        lemma_trim_end_drops_spaces(trim_start(s), suf);
    }
    assert(clean_input(t) == clean_input(s));
}

/// Parsing leaves out ASCII tabs and newlines: the parser's result is the
/// same with one inserted anywhere in the input as without.
pub proof fn law_parse_ignores_tabs_and_newlines(
    s: Seq<char>,
    i: int,
    c: char,
    base: Option<UrlView>,
    encoding_override: Option<Seq<char>>,
    state_override: Option<State>,
)
    requires
        0 <= i <= s.len(),
        c == '\t' || c == '\n' || c == '\r',
    ensures
        spec_parse_url(s.insert(i, c), base, encoding_override, state_override) == spec_parse_url(
            s,
            base,
            encoding_override,
            state_override,
        ),
        parse_url_ok(s.insert(i, c), base, encoding_override, state_override) == parse_url_ok(
            s,
            base,
            encoding_override,
            state_override,
        ),
{
    let a = s.take(i);
    let b = s.skip(i);
    let cs = seq![c];
    assert(s.insert(i, c) =~= a + (cs + b));
    assert(s =~= a + b);
    assert(all_c0_or_space(cs));
    let lhs = clean_input(a + (cs + b));
    if all_c0_or_space(a) {
        lemma_trim_start_drops_spaces(a, cs + b);
        lemma_trim_start_drops_spaces(a, b);
        lemma_trim_start_drops_spaces(cs, b);
    } else {
        lemma_trim_start_keeps_rest(a, cs + b);
        lemma_trim_start_keeps_rest(a, b);
        let z = trim_start(a);
        if all_c0_or_space(b) {
            assert(z + (cs + b) =~= (z + cs) + b);
            lemma_trim_end_drops_spaces(z + cs, b);
            lemma_trim_end_drops_spaces(z, cs);
            lemma_trim_end_drops_spaces(z, b);
        } else {
            assert(z + (cs + b) =~= (z + cs) + b);
            lemma_trim_end_keeps_rest(z + cs, b);
            lemma_trim_end_keeps_rest(z, b);
            lemma_remove_tab_newline_concat(z + cs, trim_end(b));
            lemma_remove_tab_newline_concat(z, cs);
            lemma_remove_tab_newline_concat(z, trim_end(b));
            assert(cs.drop_last() =~= Seq::<char>::empty());
            assert(cs.last() == c);
            assert(is_tab_or_newline(cs.last()));
            assert(remove_tab_newline(Seq::<char>::empty()) =~= Seq::<char>::empty());
            assert(remove_tab_newline(cs) =~= Seq::<char>::empty());
            assert(remove_tab_newline(z) + Seq::<char>::empty() =~= remove_tab_newline(z));
        }
    }
    assert(lhs == clean_input(s));
}

/// Serializing an IPv6 address (eight pieces of at most 16 bits) and
/// parsing the text gives back the address, and the text itself as its
/// serialization.
pub proof fn law_ipv6_round_trip(a: Seq<u32>)
    requires
        is_ipv6_address(a),
    ensures
        spec_ipv6_pieces(spec_serialize_ipv6(a)) == Some(a),
        spec_parse_ipv6(spec_serialize_ipv6(a)) == Some(spec_serialize_ipv6(a)),
{
    lemma_ipv6_round_trip(a);
}

/// Distinct IPv6 addresses are serialized to distinct text.
pub proof fn law_ipv6_serialize_injective(a: Seq<u32>, b: Seq<u32>)
    requires
        is_ipv6_address(a),
        is_ipv6_address(b),
        a != b,
    ensures
        spec_serialize_ipv6(a) != spec_serialize_ipv6(b),
{
    lemma_ipv6_round_trip(a);
    lemma_ipv6_round_trip(b);
}

/// The text that IPv6 parsing returns parses to itself.
pub proof fn law_parse_ipv6_canonical(s: Seq<char>)
    ensures
        spec_parse_ipv6(s) matches Some(t) ==> spec_parse_ipv6(t) == Some(t),
{
    lemma_parsed_pieces_bounded(s);
    if let Some(a) = spec_ipv6_pieces(s) {
        lemma_ipv6_round_trip(a);
    }
}

} // verus!
