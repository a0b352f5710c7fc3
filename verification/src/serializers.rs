//! Serializing IPv4 and IPv6 addresses.

use vstd::prelude::*;
use vstd::string::*;
use vstd::arithmetic::div_mod::{lemma_div_denominator, lemma_fundamental_div_mod};
use crate::number::{decimal, u64_to_decimal};
use crate::text::push_char;

verus! {

/// 2^53: below it every integer is a double.
pub open spec fn two_pow_53() -> nat {
    0x20_0000_0000_0000
}

/// The spacing of doubles at `x`: 1 below 2^53, doubling with each power of two above.
pub open spec fn f64_unit(x: nat) -> nat
    decreases x,
{
    if x < two_pow_53() {
        1
    } else {
        2 * f64_unit(x / 2)
    }
}

/// The double nearest to `x`, ties to even, as `x as f64` gives it.
pub open spec fn f64_round(x: nat) -> nat {
    let u = f64_unit(x);
    let q = x / u;
    let rem = x % u;
    if u == 1 {
        x
    } else if rem > u / 2 || (rem == u / 2 && q % 2 == 1) {
        (q + 1) * u
    } else {
        q * u
    }
}

/// The four bytes of the double nearest to `address`, most significant
/// first, in decimal and separated by '.'.
pub open spec fn spec_serialize_ipv4(address: u64) -> Seq<char> {
    let r = f64_round(address as nat);
    decimal((r / 0x100_0000) % 256) + "."@ + decimal((r / 0x1_0000) % 256) + "."@ + decimal(
        (r / 0x100) % 256,
    ) + "."@ + decimal(r % 256)
}

proof fn lemma_f64_unit_pos(x: nat)
    ensures
        f64_unit(x) >= 1,
    decreases x,
{
    if x >= two_pow_53() {
        lemma_f64_unit_pos(x / 2);
    }
}

/// Serializes an IPv4 address. The address goes through a double first, so
/// that above 2^53 it is rounded to the nearest double.
pub fn serialize_ipv4(address: u64) -> (r: String)
    ensures
        r@ == spec_serialize_ipv4(address),
{
    // The double nearest to the address: q * u, with u a power of two.
    let mut q: u64 = address;
    let mut u: u64 = 1;
    while q >= 0x20_0000_0000_0000
        invariant
            1 <= u <= 0x1000,
            q as nat == address as nat / (u as nat),
            f64_unit(address as nat) == u * f64_unit(q as nat),
            q * u <= address,
        decreases q,
    {
        proof {
            lemma_div_denominator(address as int, u as int, 2);
            assert(f64_unit(q as nat) == 2 * f64_unit((q / 2) as nat));
            assert(u * (2 * f64_unit((q / 2) as nat)) == (u * 2) * f64_unit((q / 2) as nat))
                by (nonlinear_arith);
            assert((q / 2) * (u * 2) <= q * u) by (nonlinear_arith);
            assert(address as nat / (u as nat) / 2 == address as nat / ((u * 2) as nat));
            assert(q / 2 < 0x10_0000_0000_0000 ==> u * 2 <= 0x1000) by {
                // q * u <= address < 2^64 and q >= 2^53, so u < 2^11.
                assert(q * u >= 0x20_0000_0000_0000 * u) by (nonlinear_arith)
                    requires
                        q >= 0x20_0000_0000_0000,
                ;
            }
            assert(u * 2 <= 0x1000) by {
                assert(q * u >= 0x20_0000_0000_0000 * u) by (nonlinear_arith)
                    requires
                        q >= 0x20_0000_0000_0000,
                ;
            }
        }
        q = q / 2;
        u = u * 2;
    }
    proof {
        assert(f64_unit(q as nat) == 1);
        let fu = f64_unit(q as nat);
        assert(u * fu == u) by (nonlinear_arith)
            requires
                fu == 1,
        ;
        assert(f64_unit(address as nat) == u);
        lemma_fundamental_div_mod(address as int, u as int);
        assert((u as int) * (q as int) == (q as int) * (u as int)) by (nonlinear_arith);
        assert(((q as int) + 1) * (u as int) <= 0x20_0000_0000_0001 * 0x1000) by (nonlinear_arith)
            requires
                q < 0x20_0000_0000_0000,
                u <= 0x1000,
        ;
    }
    let rem: u64 = address - q * u;
    let rounded: u128 = if u == 1 {
        address as u128
    } else if rem > u / 2 || (rem == u / 2 && q % 2 == 1) {
        ((q as u128) + 1) * (u as u128)
    } else {
        (q as u128) * (u as u128)
    };
    proof {
        assert(rem as nat == address as nat % (u as nat));
        assert(rounded as nat == f64_round(address as nat));
    }
    let d0: u64 = (rounded % 256) as u64;
    let n1: u128 = rounded / 256;
    let d1: u64 = (n1 % 256) as u64;
    let n2: u128 = n1 / 256;
    let d2: u64 = (n2 % 256) as u64;
    let n3: u128 = n2 / 256;
    let d3: u64 = (n3 % 256) as u64;
    proof {
        lemma_div_denominator(rounded as int, 256, 256);
        lemma_div_denominator(rounded as int, 0x1_0000, 256);
    }
    let mut output = u64_to_decimal(d3);
    push_char(&mut output, '.');
    output.append(u64_to_decimal(d2).as_str());
    push_char(&mut output, '.');
    output.append(u64_to_decimal(d1).as_str());
    push_char(&mut output, '.');
    output.append(u64_to_decimal(d0).as_str());
    proof {
        reveal_strlit(".");
        assert(output@ =~= spec_serialize_ipv4(address));
    }
    output
}

} // verus!

verus! {

/// An optional index as an integer.
pub open spec fn opt_index(r: Option<usize>) -> Option<int> {
    match r {
        Some(k) => Some(k as int),
        None => None,
    }
}

/// The number of consecutive zero pieces starting at index `i`.
pub open spec fn zero_run(a: Seq<u32>, i: int) -> nat
    decreases a.len() - i,
{
    if 0 <= i < a.len() && a[i] == 0 {
        1 + zero_run(a, i + 1)
    } else {
        0
    }
}

/// `r` is where the first longest run of zero pieces starts, when that run
/// has at least two pieces; `r` is `None` when there is no such run.
pub open spec fn is_longest_zero_index(a: Seq<u32>, r: Option<int>) -> bool {
    if exists|t: int| 0 <= t < a.len() && #[trigger] zero_run(a, t) >= 2 {
        &&& r matches Some(k)
        &&& 0 <= k < a.len()
        &&& zero_run(a, k) >= 2
        &&& forall|t: int| 0 <= t < a.len() ==> #[trigger] zero_run(a, t) <= zero_run(a, k)
        &&& forall|t: int| 0 <= t < k ==> #[trigger] zero_run(a, t) < zero_run(a, k)
    } else {
        r is None
    }
}

/// The index that `is_longest_zero_index` describes (it describes one only).
pub open spec fn longest_zero_index(a: Seq<u32>) -> Option<int> {
    choose|r: Option<int>| is_longest_zero_index(a, r)
}

pub proof fn lemma_longest_zero_index_unique(a: Seq<u32>, r1: Option<int>, r2: Option<int>)
    requires
        is_longest_zero_index(a, r1),
        is_longest_zero_index(a, r2),
    ensures
        r1 == r2,
{
    if exists|t: int| 0 <= t < a.len() && #[trigger] zero_run(a, t) >= 2 {
        let k1 = r1->0;
        let k2 = r2->0;
        assert(zero_run(a, k1) <= zero_run(a, k2));
        assert(zero_run(a, k2) <= zero_run(a, k1));
        if k1 < k2 {
            assert(zero_run(a, k1) < zero_run(a, k2));
        }
        if k2 < k1 {
            assert(zero_run(a, k2) < zero_run(a, k1));
        }
    }
}

/// A block of zeros from `t` up to `e`, ended by the end of `a` or a nonzero piece.
proof fn lemma_zero_run_block(a: Seq<u32>, t: int, e: int)
    requires
        0 <= t <= e <= a.len(),
        forall|j: int| t <= j < e ==> a[j] == 0,
        e == a.len() || a[e] != 0,
    ensures
        zero_run(a, t) == e - t,
    decreases e - t,
{
    if t < e {
        lemma_zero_run_block(a, t + 1, e);
    }
}

/// Where the first longest run of at least two zero pieces starts, if
/// there is such a run.
pub fn find_longest_zero_sequence(address: &Vec<u32>) -> (r: Option<usize>)
    ensures
        is_longest_zero_index(address@, opt_index(r)),
        opt_index(r) == longest_zero_index(address@),
{
    let ghost a = address@;
    let n = address.len();
    let mut max_idx: Option<usize> = None;
    let mut max_length: usize = 1;
    let mut current_start: Option<usize> = None;
    let mut current_length: usize = 0;
    let mut index: usize = 0;
    while index < n
        invariant
            a == address@,
            n == a.len(),
            index <= n,
            current_length <= index,
            current_start == (if current_length > 0 {
                Some((index - current_length) as usize)
            } else {
                None::<usize>
            }),
            forall|j: int| index - current_length <= j < index ==> a[j] == 0,
            index - current_length == 0 || a[index - current_length - 1] != 0,
            max_length >= 1,
            forall|t: int| 0 <= t < index - current_length ==> #[trigger] zero_run(a, t) <= max_length,
            match max_idx {
                Some(m) => {
                    &&& m < index - current_length
                    &&& zero_run(a, m as int) == max_length
                    &&& max_length >= 2
                    &&& forall|t: int| 0 <= t < m ==> #[trigger] zero_run(a, t) < max_length
                },
                None => max_length == 1,
            },
        decreases n - index,
    {
        let character = address[index];
        if character != 0 {
            let ghost start = index - current_length;
            proof {
                lemma_zero_run_block(a, start, index as int);
                assert forall|t: int| start <= t < index implies #[trigger] zero_run(a, t) == index
                    - t by {
                    lemma_zero_run_block(a, t, index as int);
                }
                assert(zero_run(a, index as int) == 0);
            }
            if current_length > max_length {
                max_idx = current_start;
                max_length = current_length;
            }
            current_start = None;
            current_length = 0;
        } else {
            if current_start.is_none() {
                current_start = Some(index);
            }
            current_length = current_length + 1;
        }
        index = index + 1;
    }
    let ghost start = n - current_length;
    proof {
        lemma_zero_run_block(a, start, n as int);
        assert forall|t: int| start <= t < n implies #[trigger] zero_run(a, t) == n - t by {
            lemma_zero_run_block(a, t, n as int);
        }
    }
    let r = if current_length > max_length {
        current_start
    } else {
        max_idx
    };
    proof {
        if current_length > max_length {
            assert(zero_run(a, r->0 as int) >= 2);
        } else {
            match max_idx {
                Some(m) => {
                    assert(zero_run(a, m as int) >= 2);
                },
                None => {
                    assert forall|t: int| 0 <= t < a.len() implies #[trigger] zero_run(a, t) < 2 by {
                        if t >= start {
                            assert(zero_run(a, t) == n - t);
                        }
                    }
                },
            }
        }
        assert(is_longest_zero_index(a, opt_index(r)));
        lemma_longest_zero_index_unique(a, opt_index(r), longest_zero_index(a));
    }
    r
}

} // verus!

verus! {

/// A lowercase hexadecimal digit.
pub open spec fn hex_lower_digit(d: nat) -> char {
    if d < 10 {
        (0x30 + d) as char
    } else {
        (0x61 + d - 10) as char
    }
}

/// `n` in lowercase hexadecimal, without leading zeros.
pub open spec fn hex_lower(n: nat) -> Seq<char>
    decreases n,
{
    if n < 16 {
        seq![hex_lower_digit(n)]
    } else {
        hex_lower(n / 16).push(hex_lower_digit(n % 16))
    }
}

/// The text of the pieces from index `i` on, `compress` the piece that
/// stands for the compressed run and `ignore` whether zero pieces are still
/// being skipped after it.
pub open spec fn ipv6_text(a: Seq<u32>, compress: Option<int>, i: int, ignore: bool) -> Seq<char>
    decreases 8 - i,
{
    if i >= 8 {
        Seq::empty()
    } else if ignore && a[i] == 0 {
        ipv6_text(a, compress, i + 1, true)
    } else if compress == Some(i) {
        (if i == 0 {
            "::"@
        } else {
            ":"@
        }) + ipv6_text(a, compress, i + 1, true)
    } else {
        hex_lower(a[i] as nat) + (if i != 7 {
            ":"@
        } else {
            Seq::empty()
        }) + ipv6_text(a, compress, i + 1, false)
    }
}

/// The serialization of eight pieces: each in lowercase hexadecimal, the
/// first longest run of two or more zero pieces written as "::".
pub open spec fn spec_serialize_ipv6(a: Seq<u32>) -> Seq<char> {
    ipv6_text(a, longest_zero_index(a), 0, false)
}

/// `n` in lowercase hexadecimal.
fn u32_to_hex(n: u32) -> (r: String)
    ensures
        r@ == hex_lower(n as nat),
    decreases n,
{
    let d = n % 16;
    let c = if d < 10 {
        crate::text::char_from_ascii_u32(0x30 + d)
    } else {
        crate::text::char_from_ascii_u32(0x61 + d - 10)
    };
    if n < 16 {
        let mut s = String::new();
        push_char(&mut s, c);
        proof {
            assert(s@ =~= hex_lower(n as nat));
        }
        s
    } else {
        let mut s = u32_to_hex(n / 16);
        push_char(&mut s, c);
        s
    }
}

pub fn serialize_ipv6(address: Vec<u32>) -> (r: String)
    requires
        address@.len() >= 8,
    ensures
        r@ == spec_serialize_ipv6(address@),
{
    let ghost a = address@;
    let mut output = String::new();
    let compress = find_longest_zero_sequence(&address);
    let mut ignore_0 = false;
    let mut piece_index: usize = 0;
    proof {
        reveal_strlit("::");
        reveal_strlit(":");
    }
    while piece_index < 8
        invariant
            a == address@,
            a.len() >= 8,
            opt_index(compress) == longest_zero_index(a),
            piece_index <= 8,
            output@ + ipv6_text(a, opt_index(compress), piece_index as int, ignore_0)
                == spec_serialize_ipv6(a),
        decreases 8 - piece_index,
    {
        if ignore_0 && address[piece_index] == 0 {
            piece_index = piece_index + 1;
            continue;
        } else if ignore_0 {
            ignore_0 = false;
        }
        if compress == Some(piece_index) {
            let ghost before = output@;
            if piece_index == 0 {
                output.append("::");
            } else {
                output.append(":");
            }
            ignore_0 = true;
            piece_index = piece_index + 1;
            proof {
                assert(output@ + ipv6_text(a, opt_index(compress), piece_index as int, true)
                    =~= before + ipv6_text(a, opt_index(compress), piece_index - 1, false));
            }
            continue;
        }
        let ghost before = output@;
        proof {
            assert(opt_index(compress) != Some(piece_index as int));
        }
        let digits = u32_to_hex(address[piece_index]);
        output.append(digits.as_str());
        if piece_index != 7 {
            output.append(":");
        }
        piece_index = piece_index + 1;
        proof {
            assert(output@ + ipv6_text(a, opt_index(compress), piece_index as int, false) =~= before
                + ipv6_text(a, opt_index(compress), piece_index - 1, false));
        }
    }
    proof {
        assert(output@ =~= spec_serialize_ipv6(a));
    }
    output
}

} // verus!
