//! What the IPv6 serializer writes, and how the IPv6 parser reads it back.

use vstd::prelude::*;
use vstd::string::*;
use crate::parser::{Ipv6Scan, ipv6_hex, ipv6_main, ipv6_v4, ipv4_in_ipv6_digits, ipv6_swaps, ipv6_start, ipv6_fuel,
    spec_ipv6_pieces, is_hex_char, hex_char_value};
use crate::serializers::{hex_lower, hex_lower_digit, ipv6_text, spec_serialize_ipv6,
    longest_zero_index, is_longest_zero_index, zero_run};
use crate::text::char_at_spec;

verus! {

/// The value of hexadecimal digits, the last one the least significant.
pub open spec fn hex_val(d: Seq<char>) -> nat
    decreases d.len(),
{
    if d.len() == 0 {
        0
    } else {
        hex_val(d.drop_last()) * 16 + hex_char_value(d.last())
    }
}

/// Eight pieces, each of at most 16 bits.
pub open spec fn is_ipv6_address(a: Seq<u32>) -> bool {
    a.len() == 8 && forall|j: int| 0 <= j < 8 ==> #[trigger] a[j] <= 0xFFFF
}

proof fn lemma_hex_digit(x: nat)
    requires
        x < 16,
    ensures
        is_hex_char(hex_lower_digit(x)),
        hex_char_value(hex_lower_digit(x)) == x,
{
}

/// The lowercase hexadecimal digits of `v`: one to four of them below 2^16,
/// all hexadecimal digits, and they read back as `v`.
pub proof fn lemma_hex_lower(v: nat)
    ensures
        hex_lower(v).len() >= 1,
        forall|j: int| 0 <= j < hex_lower(v).len() ==> is_hex_char(#[trigger] hex_lower(v)[j]),
        hex_val(hex_lower(v)) == v,
        v < 0x10 ==> hex_lower(v).len() <= 1,
        v < 0x100 ==> hex_lower(v).len() <= 2,
        v < 0x1000 ==> hex_lower(v).len() <= 3,
        v < 0x10000 ==> hex_lower(v).len() <= 4,
    decreases v,
{
    let h = hex_lower(v);
    lemma_hex_digit(v % 16);
    if v < 16 {
        assert(h.drop_last() =~= Seq::<char>::empty());
        assert(hex_val(Seq::<char>::empty()) == 0);
    } else {
        lemma_hex_lower(v / 16);
        assert(h.drop_last() =~= hex_lower(v / 16));
        assert forall|j: int| 0 <= j < h.len() implies is_hex_char(#[trigger] h[j]) by {
            if j < h.len() - 1 {
                assert(h[j] == hex_lower(v / 16)[j]);
            }
        }
    }
}

/// Pieces `i` to 7, each in hexadecimal, separated by ':'.
pub open spec fn plain_text(a: Seq<u32>, i: int) -> Seq<char>
    decreases 8 - i,
{
    if i >= 8 {
        Seq::empty()
    } else {
        hex_lower(a[i] as nat) + (if i != 7 {
            seq![':']
        } else {
            Seq::empty()
        }) + plain_text(a, i + 1)
    }
}

/// Pieces `i` to `k - 1`, each in hexadecimal followed by ':'.
pub open spec fn prefix_text(a: Seq<u32>, i: int, k: int) -> Seq<char>
    decreases k - i,
{
    if i >= k {
        Seq::empty()
    } else {
        hex_lower(a[i] as nat) + seq![':'] + prefix_text(a, i + 1, k)
    }
}

proof fn lemma_text_plain(a: Seq<u32>, comp: Option<int>, i: int)
    requires
        a.len() == 8,
        0 <= i <= 8,
        comp is None || comp->0 < i,
    ensures
        ipv6_text(a, comp, i, false) == plain_text(a, i),
    decreases 8 - i,
{
    reveal_strlit(":");
    assert(":"@ =~= seq![':']);
    if i < 8 {
        lemma_text_plain(a, comp, i + 1);
    }
}

proof fn lemma_text_skip(a: Seq<u32>, k: int, i: int, e: int)
    requires
        a.len() == 8,
        0 <= k < i <= e <= 8,
        forall|j: int| i <= j < e ==> a[j] == 0,
        e == 8 || a[e] != 0,
    ensures
        ipv6_text(a, Some(k), i, true) == plain_text(a, e),
    decreases e - i,
{
    reveal_strlit(":");
    assert(":"@ =~= seq![':']);
    if i < e {
        lemma_text_skip(a, k, i + 1, e);
    } else if e < 8 {
        lemma_text_plain(a, Some(k), e + 1);
    }
}

proof fn lemma_text_prefix(a: Seq<u32>, k: int, i: int)
    requires
        a.len() == 8,
        0 <= i <= k <= 7,
    ensures
        ipv6_text(a, Some(k), i, false) == prefix_text(a, i, k) + ipv6_text(a, Some(k), k, false),
    decreases k - i,
{
    reveal_strlit(":");
    assert(":"@ =~= seq![':']);
    if i < k {
        lemma_text_prefix(a, k, i + 1);
        let h = hex_lower(a[i] as nat);
        assert(h + seq![':'] + (prefix_text(a, i + 1, k) + ipv6_text(a, Some(k), k, false)) =~= (h
            + seq![':'] + prefix_text(a, i + 1, k)) + ipv6_text(a, Some(k), k, false));
    } else {
        assert(prefix_text(a, i, k) + ipv6_text(a, Some(k), k, false) =~= ipv6_text(
            a,
            Some(k),
            k,
            false,
        ));
    }
}

proof fn lemma_zero_run_facts(a: Seq<u32>, t: int)
    requires
        0 <= t <= a.len(),
    ensures
        t + zero_run(a, t) <= a.len(),
        forall|j: int| t <= j < t + zero_run(a, t) ==> a[j] == 0,
        t + zero_run(a, t) == a.len() || a[t + zero_run(a, t)] != 0,
    decreases a.len() - t,
{
    if t < a.len() && a[t] == 0 {
        lemma_zero_run_facts(a, t + 1);
    }
}

/// The first index of a longest run of zeros among the first `n` indices.
spec fn best_zero_index(a: Seq<u32>, n: int) -> int
    decreases n,
{
    if n <= 1 {
        0
    } else if zero_run(a, n - 1) > zero_run(a, best_zero_index(a, n - 1)) {
        n - 1
    } else {
        best_zero_index(a, n - 1)
    }
}

proof fn lemma_best_zero_index(a: Seq<u32>, n: int)
    requires
        1 <= n,
    ensures
        0 <= best_zero_index(a, n) < n,
        forall|t: int| 0 <= t < n ==> #[trigger] zero_run(a, t) <= zero_run(a, best_zero_index(a, n)),
        forall|t: int|
            0 <= t < best_zero_index(a, n) ==> #[trigger] zero_run(a, t) < zero_run(
                a,
                best_zero_index(a, n),
            ),
    decreases n,
{
    if n > 1 {
        lemma_best_zero_index(a, n - 1);
    }
}

proof fn lemma_longest_zero_index_exists(a: Seq<u32>)
    requires
        a.len() == 8,
    ensures
        is_longest_zero_index(a, longest_zero_index(a)),
{
    if exists|t: int| 0 <= t < a.len() && #[trigger] zero_run(a, t) >= 2 {
        lemma_best_zero_index(a, 8);
        let b = best_zero_index(a, 8);
        let t = choose|t: int| 0 <= t < a.len() && #[trigger] zero_run(a, t) >= 2;
        assert(zero_run(a, t) <= zero_run(a, b));
        assert(is_longest_zero_index(a, Some(b)));
    } else {
        assert(is_longest_zero_index(a, None));
    }
}

/// The serialization of eight pieces: all pieces separated by ':' when no
/// run of two or more zeros exists; otherwise the pieces before the first
/// longest run, "::", and the pieces after it.
pub proof fn lemma_serialize_shape(a: Seq<u32>)
    requires
        a.len() == 8,
    ensures
        match longest_zero_index(a) {
            None => spec_serialize_ipv6(a) == plain_text(a, 0),
            Some(k) => {
                let e = k + zero_run(a, k);
                &&& 0 <= k && k + 2 <= e <= 8
                &&& forall|j: int| k <= j < e ==> a[j] == 0
                &&& spec_serialize_ipv6(a) == prefix_text(a, 0, k) + (if k == 0 {
                    seq![':', ':']
                } else {
                    seq![':']
                }) + plain_text(a, e)
            },
        },
{
    lemma_longest_zero_index_exists(a);
    reveal_strlit(":");
    reveal_strlit("::");
    assert(":"@ =~= seq![':']);
    assert("::"@ =~= seq![':', ':']);
    match longest_zero_index(a) {
        None => {
            lemma_text_plain(a, None, 0);
        },
        Some(k) => {
            lemma_zero_run_facts(a, k);
            let e = k + zero_run(a, k);
            lemma_text_prefix(a, k, 0);
            lemma_text_skip(a, k, k + 1, e);
            let mark = if k == 0 {
                seq![':', ':']
            } else {
                seq![':']
            };
            assert(ipv6_text(a, Some(k), k, false) == mark + plain_text(a, e));
            assert(prefix_text(a, 0, k) + (mark + plain_text(a, e)) =~= prefix_text(a, 0, k) + mark
                + plain_text(a, e));
        },
    }
}

/// Reading the hexadecimal digits `h` at `p`: after `k` of them, the pointer
/// has moved by `k` and the value is that of the first `k` digits.
proof fn lemma_read_hex_steps(cs: Seq<char>, bl: int, p: int, h: Seq<char>, k: int)
    requires
        bl == cs.len(),
        0 <= p,
        p + h.len() <= cs.len(),
        0 <= k <= h.len() <= 4,
        cs.subrange(p, p + h.len()) == h,
        forall|j: int| 0 <= j < h.len() ==> is_hex_char(#[trigger] h[j]),
    ensures
        ipv6_hex(cs, bl, p, 0, 0) == ipv6_hex(cs, bl, p + k, hex_val(h.take(k)), k as nat),
    decreases k,
{
    if k == 0 {
        assert(h.take(0) =~= Seq::<char>::empty());
    } else {
        lemma_read_hex_steps(cs, bl, p, h, k - 1);
        assert(h.take(k).drop_last() =~= h.take(k - 1));
        assert(h.take(k).last() == h[k - 1]);
        assert(cs[p + k - 1] == cs.subrange(p, p + h.len())[k - 1]);
        assert(is_hex_char(h[k - 1]));
    }
}

/// The parser reads the hexadecimal text of a piece back as the piece.
proof fn lemma_read_hex(cs: Seq<char>, p: int, v: nat)
    requires
        v <= 0xFFFF,
        0 <= p,
        p + hex_lower(v).len() <= cs.len(),
        cs.subrange(p, p + hex_lower(v).len()) == hex_lower(v),
        p + hex_lower(v).len() == cs.len() || !is_hex_char(cs[p + hex_lower(v).len()]),
    ensures
        ipv6_hex(cs, cs.len() as int, p, 0, 0) == (
            p + hex_lower(v).len(),
            v,
            hex_lower(v).len(),
        ),
{
    let h = hex_lower(v);
    lemma_hex_lower(v);
    lemma_read_hex_steps(cs, cs.len() as int, p, h, h.len() as int);
    assert(h.take(h.len() as int) =~= h);
}

/// The pieces `a[i..i + n]` written into `addr` from index `pi` on.
pub open spec fn write_range(addr: Seq<u32>, pi: int, a: Seq<u32>, i: int, n: int) -> Seq<u32> {
    Seq::new(addr.len(), |x: int| if pi <= x < pi + n { a[x - pi + i] } else { addr[x] })
}

/// The parser reads the text of pieces `i` to 7, at the end of its input, into
/// the pieces from `piece_index` on.
proof fn lemma_read_plain(cs: Seq<char>, a: Seq<u32>, i: int, st: Ipv6Scan, fuel: nat)
    requires
        is_ipv6_address(a),
        0 <= i <= 8,
        st.address.len() == 8,
        0 <= st.piece_index,
        st.piece_index + 8 - i <= 8,
        0 <= st.pointer <= cs.len(),
        cs.subrange(st.pointer, cs.len() as int) == plain_text(a, i),
        fuel > 8 - i,
    ensures
        ipv6_main(cs, cs.len() as int, st, fuel) == Some(
            (
                write_range(st.address, st.piece_index, a, i, 8 - i),
                st.piece_index + 8 - i,
                st.compress,
            ),
        ),
    decreases 8 - i,
{
    let bl = cs.len() as int;
    let p = st.pointer;
    let pi = st.piece_index;
    let rest = cs.subrange(p, bl);
    if i == 8 {
        assert(rest.len() == 0);
        assert(write_range(st.address, pi, a, i, 0) =~= st.address);
    } else {
        let v = a[i] as nat;
        assert(a[i] <= 0xFFFF);
        let h = hex_lower(v);
        lemma_hex_lower(v);
        let m = h.len() as int;
        let sep = if i != 7 {
            seq![':']
        } else {
            Seq::<char>::empty()
        };
        let tail = plain_text(a, i + 1);
        assert(rest == h + sep + tail);
        assert(cs.subrange(p, p + m) =~= rest.subrange(0, m));
        assert(rest.subrange(0, m) =~= h);
        assert(cs[p] == h[0]);
        assert(is_hex_char(h[0]));
        if i != 7 {
            assert(cs[p + m] == rest[m]);
            assert(rest[m] == ':');
            lemma_hex_lower(a[i + 1] as nat);
            assert(tail.len() >= 1);
            assert(cs.subrange(p + m + 1, bl) =~= rest.subrange(m + 1, rest.len() as int));
            assert(rest.subrange(m + 1, rest.len() as int) =~= tail);
        } else {
            assert(tail =~= Seq::<char>::empty());
            assert(p + m == bl);
            assert(cs.subrange(p + m, bl) =~= tail);
        }
        lemma_read_hex(cs, p, v);
        let p3 = if i != 7 {
            p + m + 1
        } else {
            p + m
        };
        let st2 = Ipv6Scan {
            address: st.address.update(pi, v as u32),
            piece_index: pi + 1,
            compress: st.compress,
            pointer: p3,
        };
        lemma_read_plain(cs, a, i + 1, st2, (fuel - 1) as nat);
        assert(ipv6_main(cs, bl, st, fuel) == ipv6_main(cs, bl, st2, (fuel - 1) as nat));
        assert(write_range(st2.address, pi + 1, a, i + 1, 8 - (i + 1)) =~= write_range(
            st.address,
            pi,
            a,
            i,
            8 - i,
        ));
    }
}

/// The parser reads the text of pieces `i` to `k - 1`, each followed by
/// ':', into the pieces from `piece_index` on, and stops at the ':' after them.
#[verifier::spinoff_prover]
#[verifier::rlimit(40)]
proof fn lemma_read_prefix(
    cs: Seq<char>,
    a: Seq<u32>,
    i: int,
    k: int,
    r: Seq<char>,
    st: Ipv6Scan,
    fuel: nat,
)
    requires
        is_ipv6_address(a),
        0 <= i <= k <= 7,
        st.address.len() == 8,
        st.compress is None,
        0 <= st.piece_index,
        st.piece_index + (k - i) <= 7,
        0 <= st.pointer <= cs.len(),
        cs.subrange(st.pointer, cs.len() as int) == prefix_text(a, i, k) + seq![':'] + r,
        fuel > k - i,
    ensures
        ipv6_main(cs, cs.len() as int, st, fuel) == ipv6_main(
            cs,
            cs.len() as int,
            Ipv6Scan {
                address: write_range(st.address, st.piece_index, a, i, k - i),
                piece_index: st.piece_index + k - i,
                compress: None,
                pointer: st.pointer + prefix_text(a, i, k).len(),
            },
            (fuel - (k - i)) as nat,
        ),
    decreases k - i,
{
    let bl = cs.len() as int;
    let p = st.pointer;
    let pi = st.piece_index;
    let rest = cs.subrange(p, bl);
    if i == k {
        assert(prefix_text(a, i, k).len() == 0);
        assert(write_range(st.address, pi, a, i, 0) =~= st.address);
        assert(st == Ipv6Scan {
            address: write_range(st.address, pi, a, i, k - i),
            piece_index: pi + k - i,
            compress: None,
            pointer: p + prefix_text(a, i, k).len(),
        });
    } else {
        let v = a[i] as nat;
        assert(a[i] <= 0xFFFF);
        let h = hex_lower(v);
        lemma_hex_lower(v);
        let m = h.len() as int;
        let tail = prefix_text(a, i + 1, k) + seq![':'] + r;
        assert(rest =~= h + seq![':'] + tail);
        assert(cs.subrange(p, p + m) =~= rest.subrange(0, m));
        assert(rest.subrange(0, m) =~= h);
        assert(cs[p] == h[0]);
        assert(is_hex_char(h[0]));
        assert(cs[p + m] == rest[m]);
        assert(rest[m] == ':');
        assert(tail.len() >= 1);
        assert(cs[p + m + 1] == rest[m + 1]);
        assert(cs.subrange(p + m + 1, bl) =~= rest.subrange(m + 1, rest.len() as int));
        assert(rest.subrange(m + 1, rest.len() as int) =~= tail);
        lemma_read_hex(cs, p, v);
        let st2 = Ipv6Scan {
            address: st.address.update(pi, v as u32),
            piece_index: pi + 1,
            compress: None,
            pointer: p + m + 1,
        };
        assert(ipv6_main(cs, bl, st, fuel) == ipv6_main(cs, bl, st2, (fuel - 1) as nat));
        lemma_read_prefix(cs, a, i + 1, k, r, st2, (fuel - 1) as nat);
        assert(write_range(st2.address, pi + 1, a, i + 1, k - (i + 1)) =~= write_range(
            st.address,
            pi,
            a,
            i,
            k - i,
        ));
        assert(prefix_text(a, i, k).len() == m + 1 + prefix_text(a, i + 1, k).len());
    }
}

/// The swaps that move the pieces after a compressed run to the end: after
/// `t` of them, the first pieces are untouched, a block of zeros follows,
/// and the last `t` pieces have moved to the end.
proof fn lemma_swaps(o: Seq<u32>, c: int, s: int, t: int, addr: Seq<u32>)
    requires
        o.len() == 8,
        addr.len() == 8,
        1 <= c,
        0 <= t <= s,
        c + s <= 7,
        forall|x: int| c + s <= x < 8 ==> o[x] == 0,
        forall|x: int| 0 <= x < c + s - t ==> addr[x] == o[x],
        forall|x: int| c + s - t <= x < 8 - t ==> addr[x] == 0,
        forall|x: int| 8 - t <= x < 8 ==> addr[x] == o[x - (8 - c - s)],
    ensures
        ipv6_swaps(addr, 7 - t, s - t, c) == Seq::new(
            8,
            |x: int|
                if x < c {
                    o[x]
                } else if x < 8 - s {
                    0u32
                } else {
                    o[x - (8 - c - s)]
                },
        ),
    decreases s - t,
{
    let target = Seq::new(
        8,
        |x: int|
            if x < c {
                o[x]
            } else if x < 8 - s {
                0u32
            } else {
                o[x - (8 - c - s)]
            },
    );
    if t == s {
        assert(addr =~= target);
    } else {
        let pi = 7 - t;
        let j = c + (s - t) - 1;
        let swapped = addr.update(pi, addr[j]).update(j, addr[pi]);
        assert(j < pi);
        lemma_swaps(o, c, s, t + 1, swapped);
    }
}

/// The text of each piece and the separators are ASCII.
proof fn lemma_ipv6_text_ascii(a: Seq<u32>, cs: Seq<char>)
    requires
        is_ipv6_address(a),
        cs == spec_serialize_ipv6(a),
    ensures
        vstd::utf8::encode_utf8(cs).len() == cs.len(),
{
    lemma_all_hex_or_colon(a, cs);
    assert(vstd::utf8::is_ascii_chars(cs)) by {
        assert forall|j: int| 0 <= j < cs.len() implies '\0' <= #[trigger] cs[j] <= '\u{7f}' by {
            assert(is_hex_char(cs[j]) || cs[j] == ':');
        }
    }
    vstd::utf8::is_ascii_chars_encode_utf8(cs);
}

/// Every code point of `s` is a hexadecimal digit or ':'.
pub open spec fn hex_or_colon(s: Seq<char>) -> bool {
    forall|j: int| 0 <= j < s.len() ==> is_hex_char(#[trigger] s[j]) || s[j] == ':'
}

proof fn lemma_hex_or_colon_concat(x: Seq<char>, y: Seq<char>)
    requires
        hex_or_colon(x),
        hex_or_colon(y),
    ensures
        hex_or_colon(x + y),
{
    assert forall|j: int| 0 <= j < (x + y).len() implies is_hex_char(#[trigger] (x + y)[j]) || (x
        + y)[j] == ':' by {
        if j < x.len() {
            assert((x + y)[j] == x[j]);
        } else {
            assert((x + y)[j] == y[j - x.len()]);
        }
    }
}

proof fn lemma_hex_or_colon_hex(v: nat)
    ensures
        hex_or_colon(hex_lower(v)),
{
    lemma_hex_lower(v);
}

proof fn lemma_plain_hex_or_colon(a: Seq<u32>, i: int)
    requires
        a.len() == 8,
        0 <= i <= 8,
    ensures
        hex_or_colon(plain_text(a, i)),
    decreases 8 - i,
{
    if i < 8 {
        lemma_plain_hex_or_colon(a, i + 1);
        lemma_hex_or_colon_hex(a[i] as nat);
        let sep = if i != 7 {
            seq![':']
        } else {
            Seq::<char>::empty()
        };
        assert(hex_or_colon(sep));
        lemma_hex_or_colon_concat(hex_lower(a[i] as nat), sep);
        lemma_hex_or_colon_concat(hex_lower(a[i] as nat) + sep, plain_text(a, i + 1));
    }
}

proof fn lemma_prefix_hex_or_colon(a: Seq<u32>, i: int, k: int)
    requires
        a.len() == 8,
        0 <= i <= k <= 8,
    ensures
        hex_or_colon(prefix_text(a, i, k)),
    decreases k - i,
{
    if i < k {
        lemma_prefix_hex_or_colon(a, i + 1, k);
        lemma_hex_or_colon_hex(a[i] as nat);
        assert(hex_or_colon(seq![':']));
        lemma_hex_or_colon_concat(hex_lower(a[i] as nat), seq![':']);
        lemma_hex_or_colon_concat(hex_lower(a[i] as nat) + seq![':'], prefix_text(a, i + 1, k));
    }
}

proof fn lemma_all_hex_or_colon(a: Seq<u32>, cs: Seq<char>)
    requires
        is_ipv6_address(a),
        cs == spec_serialize_ipv6(a),
    ensures
        hex_or_colon(cs),
{
    lemma_serialize_shape(a);
    match longest_zero_index(a) {
        None => {
            lemma_plain_hex_or_colon(a, 0);
        },
        Some(k) => {
            let e = k + zero_run(a, k);
            let mark = if k == 0 {
                seq![':', ':']
            } else {
                seq![':']
            };
            assert(hex_or_colon(mark));
            lemma_prefix_hex_or_colon(a, 0, k);
            lemma_plain_hex_or_colon(a, e);
            lemma_hex_or_colon_concat(prefix_text(a, 0, k), mark);
            lemma_hex_or_colon_concat(prefix_text(a, 0, k) + mark, plain_text(a, e));
        },
    }
}

/// The parser's main loop on a serialization with a compressed run from
/// `k` to `e`: the pieces before the run, then those after it from index
/// `k + 1` on, with `compress` at `k + 1`.
proof fn lemma_read_compressed(a: Seq<u32>, k: int, e: int)
    requires
        is_ipv6_address(a),
        0 <= k,
        k + 2 <= e <= 8,
        spec_serialize_ipv6(a) == prefix_text(a, 0, k) + (if k == 0 {
            seq![':', ':']
        } else {
            seq![':']
        }) + plain_text(a, e),
        vstd::utf8::encode_utf8(spec_serialize_ipv6(a)).len() == spec_serialize_ipv6(a).len(),
    ensures
        ({
            let cs = spec_serialize_ipv6(a);
            let bl = cs.len() as int;
            let zeros = Seq::new(8, |i: int| 0u32);
            &&& ipv6_start(cs) is Some
            &&& ipv6_main(cs, bl, ipv6_start(cs)->0, ipv6_fuel(bl)) == Some(
                (
                    write_range(write_range(zeros, 0, a, 0, k), k + 1, a, e, 8 - e),
                    k + 1 + 8 - e,
                    Some(k + 1),
                ),
            )
        }),
{
    let cs = spec_serialize_ipv6(a);
    let bl = cs.len() as int;
    let zeros = Seq::new(8, |i: int| 0u32);
    let fuel = ipv6_fuel(bl);
    let tail = plain_text(a, e);
    let w1 = write_range(zeros, 0, a, 0, k);
    let pre = prefix_text(a, 0, k);
    if k == 0 {
        assert(pre =~= Seq::<char>::empty());
        assert(cs =~= seq![':', ':'] + tail);
        assert(w1 =~= zeros);
        let st1 = Ipv6Scan { address: w1, piece_index: 1, compress: Some(1), pointer: 2 };
        assert(ipv6_start(cs) == Some(st1));
        assert(cs.subrange(2, bl) =~= tail);
        lemma_read_plain(cs, a, e, st1, fuel);
    } else {
        lemma_hex_lower(a[0] as nat);
        assert(pre =~= hex_lower(a[0] as nat) + seq![':'] + prefix_text(a, 1, k));
        assert(cs[0] == hex_lower(a[0] as nat)[0]);
        assert(is_hex_char(hex_lower(a[0] as nat)[0]));
        let st0 = Ipv6Scan { address: zeros, piece_index: 0, compress: None, pointer: 0 };
        assert(ipv6_start(cs) == Some(st0));
        assert(cs.subrange(0, bl) =~= pre + seq![':'] + tail);
        lemma_read_prefix(cs, a, 0, k, tail, st0, fuel);
        let q = pre.len() as int;
        let stq = Ipv6Scan { address: w1, piece_index: k, compress: None, pointer: q };
        let st1 = Ipv6Scan { address: w1, piece_index: k + 1, compress: Some(k + 1), pointer: q + 1 };
        assert(cs[q] == ':');
        assert(char_at_spec(cs, q) == Some(':'));
        assert(ipv6_main(cs, bl, stq, (fuel - k) as nat) == ipv6_main(
            cs,
            bl,
            st1,
            (fuel - k - 1) as nat,
        ));
        assert(cs.subrange(q + 1, bl) =~= tail);
        lemma_read_plain(cs, a, e, st1, (fuel - k - 1) as nat);
    }
}

/// Parsing the serialization of an IPv6 address gives back its pieces.
pub proof fn lemma_ipv6_round_trip(a: Seq<u32>)
    requires
        is_ipv6_address(a),
    ensures
        spec_ipv6_pieces(spec_serialize_ipv6(a)) == Some(a),
{
    let cs = spec_serialize_ipv6(a);
    lemma_serialize_shape(a);
    lemma_ipv6_text_ascii(a, cs);
    let bl = cs.len() as int;
    let zeros = Seq::new(8, |i: int| 0u32);
    let fuel = ipv6_fuel(bl);
    match longest_zero_index(a) {
        None => {
            lemma_hex_lower(a[0] as nat);
            assert(cs[0] == hex_lower(a[0] as nat)[0]);
            assert(is_hex_char(hex_lower(a[0] as nat)[0]));
            let st = Ipv6Scan { address: zeros, piece_index: 0, compress: None, pointer: 0 };
            assert(ipv6_start(cs) == Some(st));
            assert(cs.subrange(0, bl) =~= cs);
            lemma_read_plain(cs, a, 0, st, fuel);
            assert(write_range(zeros, 0, a, 0, 8) =~= a);
        },
        Some(k) => {
            let e = k + zero_run(a, k);
            lemma_read_compressed(a, k, e);
            let w2 = write_range(write_range(zeros, 0, a, 0, k), k + 1, a, e, 8 - e);
            let s = 8 - e;
            let c = k + 1;
            lemma_swaps(w2, c, s, 0, w2);
            let target = Seq::new(
                8,
                |x: int|
                    if x < c {
                        w2[x]
                    } else if x < 8 - s {
                        0u32
                    } else {
                        w2[x - (8 - c - s)]
                    },
            );
            assert(target =~= a);
        },
    }
}

/// Sixteen to the power `n`.
spec fn pow16(n: nat) -> nat
    decreases n,
{
    if n == 0 {
        1
    } else {
        16 * pow16((n - 1) as nat)
    }
}

proof fn lemma_hex_read_bound(cs: Seq<char>, bl: int, p: int, value: nat, length: nat)
    requires
        length <= 4,
        value < pow16(length),
    ensures
        ipv6_hex(cs, bl, p, value, length).2 <= 4,
        ipv6_hex(cs, bl, p, value, length).1 < pow16(ipv6_hex(cs, bl, p, value, length).2),
    decreases 4 - length,
{
    if length < 4 && p < bl && char_at_spec(cs, p) is Some && is_hex_char(char_at_spec(cs, p)->0) {
        let d = hex_char_value(char_at_spec(cs, p)->0);
        assert(d < 16);
        assert(pow16(length + 1) == 16 * pow16(length));
        lemma_hex_read_bound(cs, bl, p + 1, value * 16 + d, length + 1);
    }
}

proof fn lemma_v4_digits(cs: Seq<char>, p: int, piece: Option<nat>)
    requires
        piece is None || piece->0 <= 255,
    ensures
        ipv4_in_ipv6_digits(cs, p, piece) matches Some((p2, pc)) ==> (pc is Some && pc->0 <= 255)
            || pc == piece,
    decreases cs.len() - p,
{
    if 0 <= p < cs.len() && '0' <= cs[p] && cs[p] <= '9' {
        let number = (cs[p] as u32 - 0x30) as nat;
        match piece {
            None => {
                lemma_v4_digits(cs, p + 1, Some(number));
            },
            Some(x) => {
                if x != 0 && x * 10 + number <= 255 {
                    lemma_v4_digits(cs, p + 1, Some(x * 10 + number));
                }
            },
        }
    }
}

/// Pieces of at most 16 bits.
pub open spec fn pieces_bounded(addr: Seq<u32>) -> bool {
    addr.len() == 8 && forall|x: int| 0 <= x < 8 ==> #[trigger] addr[x] <= 0xFFFF
}

proof fn lemma_v4_bound(cs: Seq<char>, address: Seq<u32>, pi: int, p: int, ns: nat)
    requires
        ns <= 4,
        pieces_bounded(address),
        0 <= pi,
        ns % 2 == 0 ==> pi + (4 - ns) / 2 <= 8 && forall|x: int| pi <= x < 8 ==> address[x] == 0,
        ns % 2 == 1 ==> pi + (5 - ns) / 2 <= 8 && address[pi] <= 255 && forall|x: int|
            pi < x < 8 ==> address[x] == 0,
    ensures
        ipv6_v4(cs, address, pi, p, ns) matches Some((a2, pi2)) ==> pieces_bounded(a2) && pi <= pi2
            <= 8,
    decreases 4 - ns,
{
    if char_at_spec(cs, p) is None {
    } else if ns > 0 && !(char_at_spec(cs, p) == Some('.') && ns < 4) {
    } else {
        let p1 = if ns > 0 {
            p + 1
        } else {
            p
        };
        if 0 <= p1 < cs.len() && '0' <= cs[p1] && cs[p1] <= '9' {
            let number = (cs[p1] as u32 - 0x30) as nat;
            assert(ipv4_in_ipv6_digits(cs, p1, None) == ipv4_in_ipv6_digits(cs, p1 + 1, Some(number)));
            lemma_v4_digits(cs, p1 + 1, Some(number));
            match ipv4_in_ipv6_digits(cs, p1, None) {
                None => {},
                Some((p2, piece)) => {
                    let x = piece->0;
                    assert(x <= 255);
                    assert(ns < 4);
                    assert(pi < 8);
                    let old_v = address[pi];
                    assert(old_v <= 255);
                    let nv = old_v * 0x100 + x;
                    assert(nv <= 0xFFFF);
                    let address2 = address.update(pi, nv as u32);
                    let ns2 = ns + 1;
                    let pi2 = if ns2 == 2 || ns2 == 4 {
                        pi + 1
                    } else {
                        pi
                    };
                    assert(pieces_bounded(address2));
                    lemma_v4_bound(cs, address2, pi2, p2, ns2);
                },
            }
        }
    }
}

proof fn lemma_main_bound(cs: Seq<char>, bl: int, st: Ipv6Scan, fuel: nat)
    requires
        pieces_bounded(st.address),
        0 <= st.piece_index <= 8,
        forall|x: int| st.piece_index <= x < 8 ==> st.address[x] == 0,
        st.compress matches Some(c) ==> 1 <= c <= st.piece_index,
    ensures
        ipv6_main(cs, bl, st, fuel) matches Some((a2, pi2, comp)) ==> pieces_bounded(a2) && 0 <= pi2
            <= 8 && (comp matches Some(c) ==> 1 <= c <= pi2),
    decreases fuel,
{
    let p = st.pointer;
    let pi = st.piece_index;
    if fuel == 0 || !(p < bl) || pi == 8 {
    } else if char_at_spec(cs, p) == Some(':') {
        if st.compress is None {
            lemma_main_bound(
                cs,
                bl,
                Ipv6Scan { pointer: p + 1, piece_index: pi + 1, compress: Some(pi + 1), ..st },
                (fuel - 1) as nat,
            );
        }
    } else {
        let (p2, value, length) = ipv6_hex(cs, bl, p, 0, 0);
        lemma_hex_read_bound(cs, bl, p, 0, 0);
        reveal_with_fuel(pow16, 5);
        assert(value <= 0xFFFF) by {
            if length == 0 {
            } else if length == 1 {
            } else if length == 2 {
            } else if length == 3 {
            } else {
            }
        }
        if char_at_spec(cs, p2) == Some('.') {
            if length != 0 && pi <= 6 {
                lemma_v4_bound(cs, st.address, pi, p2 - length, 0);
            }
        } else {
            let p3 = if char_at_spec(cs, p2) == Some(':') {
                p2 + 1
            } else {
                p2
            };
            let st2 = Ipv6Scan {
                address: st.address.update(pi, value as u32),
                piece_index: pi + 1,
                compress: st.compress,
                pointer: p3,
            };
            lemma_main_bound(cs, bl, st2, (fuel - 1) as nat);
        }
    }
}

proof fn lemma_swaps_bound(addr: Seq<u32>, pi: int, swaps: int, c: int)
    requires
        pieces_bounded(addr),
        0 <= pi <= 7,
        0 <= c,
        0 <= swaps,
        c + swaps - 1 <= pi,
    ensures
        pieces_bounded(ipv6_swaps(addr, pi, swaps, c)),
    decreases swaps,
{
    if pi != 0 && swaps > 0 {
        let j = c + swaps - 1;
        let swapped = addr.update(pi, addr[j]).update(j, addr[pi]);
        assert(pieces_bounded(swapped));
        lemma_swaps_bound(swapped, pi - 1, swaps - 1, c);
    }
}

/// The pieces that the IPv6 parser gives are eight, each of at most 16 bits.
pub proof fn lemma_parsed_pieces_bounded(cs: Seq<char>)
    ensures
        spec_ipv6_pieces(cs) matches Some(a) ==> is_ipv6_address(a),
{
    let bl = vstd::utf8::encode_utf8(cs).len() as int;
    let zeros = Seq::new(8, |i: int| 0u32);
    assert(pieces_bounded(zeros));
    match ipv6_start(cs) {
        None => {},
        Some(st) => {
            lemma_main_bound(cs, bl, st, ipv6_fuel(bl));
            match ipv6_main(cs, bl, st, ipv6_fuel(bl)) {
                None => {},
                Some((address, pi, compress)) => {
                    match compress {
                        Some(c) => {
                            if pi - c >= 0 {
                                lemma_swaps_bound(address, 7, pi - c, c);
                            }
                            assert(pieces_bounded(ipv6_swaps(address, 7, pi - c, c)));
                        },
                        None => {},
                    }
                },
            }
        },
    }
}

} // verus!
