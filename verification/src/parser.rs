//! Host parsing: IPv4 and IPv6 addresses, opaque hosts and domains.

use vstd::prelude::*;
use vstd::string::*;
use vstd::utf8::encode_utf8;
use crate::text::{views, split_on, lemma_split_on_nonempty, split_char, substring_from, char_at,
    char_at_spec, str_eq};
use crate::number::{spec_u32_from_str_radix, u32_from_str_radix};
use crate::serializers::opt_index;

verus! {

/// The digits of an IPv4 number in radix `radix`: at least one digit,
/// nothing else, and a value that fits in a `u32`.
pub open spec fn ipv4_digits_value(s: Seq<char>, radix: nat) -> Option<u32> {
    if s.len() > 0 && s[0] == '+' {
        None
    } else {
        spec_u32_from_str_radix(s, radix)
    }
}

/// The IPv4 number parser: "0x" or "0X" selects radix 16, a leading "0"
/// in an input of at least two code points selects radix 8, otherwise radix
/// 10; an input that is empty after the prefix stands for 0.
pub open spec fn spec_parse_ipv4_number(s: Seq<char>) -> Option<u32> {
    if s.len() == 0 {
        None
    } else if s.len() >= 2 && s[0] == '0' && (s[1] == 'x' || s[1] == 'X') {
        let rest = s.subrange(2, s.len() as int);
        if rest.len() == 0 {
            Some(0)
        } else {
            ipv4_digits_value(rest, 16)
        }
    } else if s.len() >= 2 && s[0] == '0' {
        ipv4_digits_value(s.subrange(1, s.len() as int), 8)
    } else {
        ipv4_digits_value(s, 10)
    }
}

/// Parses one part of an IPv4 address as a number in radix 16, 8 or 10.
pub fn parse_ipv4_number(buffer: String) -> (r: Option<u32>)
    ensures
        r == spec_parse_ipv4_number(buffer@),
{
    let s = buffer.as_str();
    let n = s.unicode_len();
    if n == 0 {
        return None;
    }
    let c0 = s.get_char(0);
    let hex_prefix = match char_at(s, 1) {
        Some(c1) => c0 == '0' && (c1 == 'x' || c1 == 'X'),
        None => false,
    };
    if hex_prefix {
        let rest = substring_from(s, 2);
        if rest.as_str().unicode_len() == 0 {
            return Some(0);
        }
        return ipv4_digits(rest.as_str(), 16);
    } else if n >= 2 && c0 == '0' {
        let rest = substring_from(s, 1);
        return ipv4_digits(rest.as_str(), 8);
    }
    ipv4_digits(s, 10)
}

/// Reads the digits of an IPv4 number in `radix`; a sign is not a digit.
fn ipv4_digits(s: &str, radix: u32) -> (r: Option<u32>)
    requires
        2 <= radix <= 36,
    ensures
        r == ipv4_digits_value(s@, radix as nat),
{
    if char_at(s, 0) == Some('+') {
        return None;
    }
    u32_from_str_radix(s, radix)
}

/// 256 to the power `e`.
pub open spec fn pow256(e: nat) -> nat
    decreases e,
{
    if e == 0 {
        1
    } else {
        256 * pow256((e - 1) as nat)
    }
}

/// The parts of an IPv4 address: the input split on '.', without a last
/// empty part when there are more parts than one.
pub open spec fn ipv4_parts(s: Seq<char>) -> Seq<Seq<char>> {
    let p = split_on(s, '.');
    if p.last().len() == 0 && p.len() > 1 {
        p.drop_last()
    } else {
        p
    }
}

/// The number that a part stands for (meaningful where it parses).
pub open spec fn ipv4_number_of(part: Seq<char>) -> nat {
    spec_parse_ipv4_number(part)->0 as nat
}

/// The sum of the first `k` numbers, the `c`-th weighted by 256^(3 - c).
pub open spec fn ipv4_prefix_sum(parts: Seq<Seq<char>>, k: nat) -> nat
    decreases k,
{
    if k == 0 {
        0
    } else {
        ipv4_prefix_sum(parts, (k - 1) as nat) + ipv4_number_of(parts[k - 1]) * pow256(
            (3 - (k - 1)) as nat,
        )
    }
}

/// The IPv4 parser: at most four parts, each of which parses as a number;
/// each part but the last is at most 255, and the last is below
/// 256^(5 - the number of parts). The result is the last
/// number plus each other number times 256^(3 - its index).
pub open spec fn spec_parse_ipv4(s: Seq<char>) -> Option<u64> {
    let parts = ipv4_parts(s);
    let n = parts.len();
    if n > 4 {
        None
    } else if exists|i: int| 0 <= i < n && #[trigger] spec_parse_ipv4_number(parts[i]) is None {
        None
    } else if exists|i: int| 0 <= i < n - 1 && #[trigger] ipv4_number_of(parts[i]) > 255 {
        None
    } else if ipv4_number_of(parts[n - 1]) >= pow256((5 - n) as nat) {
        None
    } else {
        Some((ipv4_prefix_sum(parts, (n - 1) as nat) + ipv4_number_of(parts[n - 1])) as u64)
    }
}

pub proof fn lemma_ipv4_parts_nonempty(s: Seq<char>)
    ensures
        ipv4_parts(s).len() >= 1,
{
    lemma_split_on_nonempty(s, '.');
}

fn pow256_exec(e: u64) -> (r: u64)
    requires
        e <= 4,
    ensures
        r == pow256(e as nat),
{
    proof {
        reveal_with_fuel(pow256, 5);
    }
    if e == 0 {
        1
    } else if e == 1 {
        256
    } else if e == 2 {
        65536
    } else if e == 3 {
        16777216
    } else {
        4294967296
    }
}

pub fn parse_ipv4(buffer: String) -> (r: Option<u64>)
    ensures
        r == spec_parse_ipv4(buffer@),
{
    // Let parts be the result of strictly splitting input on U+002E (.).
    let parts = split_char(buffer.as_str(), '.');
    let ghost all = split_on(buffer@, '.');
    proof {
        lemma_split_on_nonempty(buffer@, '.');
        lemma_ipv4_parts_nonempty(buffer@);
        assert(views(parts@).len() == parts@.len());
    }
    let mut n = parts.len();
    // If the last item in parts is the empty string and parts has more than one item, remove it.
    if parts[n - 1].as_str().unicode_len() == 0 && n > 1 {
        n = n - 1;
    }
    let ghost ps = ipv4_parts(buffer@);
    proof {
        assert(ps.len() == n);
        assert forall|i: int| 0 <= i < n implies ps[i] == #[trigger] parts@[i]@ by {
            assert(views(parts@)[i] == parts@[i]@);
        }
    }
    // If parts's size is greater than 4, validation error, return failure.
    if n > 4 {
        return None;
    }
    let mut numbers: Vec<u32> = Vec::new();
    let mut i: usize = 0;
    while i < n
        invariant
            n == ps.len(),
            1 <= n <= 4,
            n <= parts@.len(),
            ps == ipv4_parts(buffer@),
            forall|j: int| 0 <= j < n ==> ps[j] == #[trigger] parts@[j]@,
            i <= n,
            numbers@.len() == i,
            forall|j: int|
                0 <= j < i ==> spec_parse_ipv4_number(#[trigger] ps[j]) == Some(numbers@[j]),
            forall|j: int| 0 <= j < i && j < n - 1 ==> #[trigger] ipv4_number_of(ps[j]) <= 255,
        decreases n - i,
    {
        let result = parse_ipv4_number(parts[i].clone());
        match result {
            Some(number) => {
                // If any but the last item in numbers is greater than 255, return failure.
                if number > 255 && i < n - 1 {
                    proof {
                        assert(ipv4_number_of(ps[i as int]) > 255);
                    }
                    return None;
                }
                numbers.push(number);
            },
            None => {
                proof {
                    assert(spec_parse_ipv4_number(ps[i as int]) is None);
                }
                return None;
            },
        }
        i = i + 1;
    }
    let last: u64 = numbers[n - 1] as u64;
    // If the last item in numbers is greater than or equal to 256^(5 - numbers's size), return failure.
    if last >= pow256_exec((5 - n) as u64) {
        return None;
    }
    // Let ipv4 be the last item in numbers, plus each other n times 256^(3 - its index).
    let mut ipv4: u64 = last;
    let mut c: usize = 0;
    proof {
        reveal_with_fuel(pow256, 5);
    }
    while c < n - 1
        invariant
            1 <= n <= 4,
            n == ps.len(),
            numbers@.len() == n,
            forall|j: int| 0 <= j < n ==> spec_parse_ipv4_number(#[trigger] ps[j]) == Some(numbers@[j]),
            c <= n - 1,
            ipv4 == ipv4_prefix_sum(ps, c as nat) + last,
            last <= u32::MAX,
            ipv4_prefix_sum(ps, c as nat) <= c * 0x1_0000_0000_0000_00,
        decreases n - 1 - c,
    {
        let weight = pow256_exec((3 - c) as u64);
        let num: u64 = numbers[c] as u64;
        proof {
            assert(pow256((3 - c) as nat) <= 0x100_0000) by {
                reveal_with_fuel(pow256, 5);
            }
            assert(num * weight <= 0xFFFF_FFFFu64 * 0x100_0000u64) by (nonlinear_arith)
                requires
                    num <= 0xFFFF_FFFFu64,
                    weight <= 0x100_0000u64,
            ;
            assert(ipv4_number_of(ps[c as int]) == num);
        }
        ipv4 = ipv4 + num * weight;
        c = c + 1;
    }
    Some(ipv4)
}

/// All code points of `s` are ASCII digits.
pub open spec fn all_ascii_digits_spec(s: Seq<char>) -> bool {
    forall|i: int| 0 <= i < s.len() ==> '0' <= #[trigger] s[i] && s[i] <= '9'
}

/// The last part of a domain split on '.', after dropping a last empty part.
pub open spec fn domain_last_part(s: Seq<char>) -> Seq<char> {
    let parts0 = split_on(s, '.');
    if parts0.last().len() == 0 {
        parts0.drop_last().last()
    } else {
        parts0.last()
    }
}

/// Whether the last part of a domain (after dropping a last empty part) is
/// non-empty and consists of ASCII digits only, or parses as an IPv4 number.
pub open spec fn spec_ends_with_a_number(s: Seq<char>) -> bool {
    let parts0 = split_on(s, '.');
    if parts0.last().len() == 0 && parts0.len() == 1 {
        false
    } else {
        let last = domain_last_part(s);
        (last.len() > 0 && all_ascii_digits_spec(last)) || spec_parse_ipv4_number(last) is Some
    }
}

fn all_ascii_digits(s: &str) -> (r: bool)
    ensures
        r == all_ascii_digits_spec(s@),
{
    let n = s.unicode_len();
    let mut i: usize = 0;
    while i < n
        invariant
            n == s@.len(),
            i <= n,
            forall|j: int| 0 <= j < i ==> '0' <= #[trigger] s@[j] && s@[j] <= '9',
        decreases n - i,
    {
        let c = s.get_char(i);
        if !('0' <= c && c <= '9') {
            return false;
        }
        i = i + 1;
    }
    true
}

pub fn ends_with_a_number(domain: &str) -> (r: bool)
    ensures
        r == spec_ends_with_a_number(domain@),
{
    // Let parts be the result of strictly splitting input on U+002E (.).
    let parts = split_char(domain, '.');
    proof {
        lemma_split_on_nonempty(domain@, '.');
        assert(views(parts@).len() == parts@.len());
    }
    let mut n = parts.len();
    proof {
        assert(views(parts@)[n - 1] == parts@[n - 1]@);
    }
    // If the last item in parts is the empty string, then:
    if parts[n - 1].as_str().unicode_len() == 0 {
        // If parts's size is 1, then return false.
        if n == 1 {
            return false;
        }
        // Remove the last item from parts.
        n = n - 1;
        proof {
            assert(views(parts@)[n - 1] == parts@[n - 1]@);
        }
    }
    // If last is non-empty and contains only ASCII digits, then return true.
    if parts[n - 1].as_str().unicode_len() > 0 && all_ascii_digits(parts[n - 1].as_str()) {
        return true;
    }
    // If parsing last as an IPv4 number does not return failure, then return true.
    match parse_ipv4_number(parts[n - 1].clone()) {
        Some(_) => true,
        None => false,
    }
}

} // verus!

verus! {

/// The state of the IPv6 parser between two steps of its main loop.
pub struct Ipv6Scan {
    pub address: Seq<u32>,
    pub piece_index: int,
    pub compress: Option<int>,
    pub pointer: int,
}

pub open spec fn is_hex_char(c: char) -> bool {
    ('0' <= c && c <= '9') || ('a' <= c && c <= 'f') || ('A' <= c && c <= 'F')
}

pub open spec fn hex_char_value(c: char) -> nat {
    if '0' <= c && c <= '9' {
        (c as u32 - 0x30) as nat
    } else if 'a' <= c && c <= 'f' {
        (c as u32 - 0x61 + 10) as nat
    } else {
        (c as u32 - 0x41 + 10) as nat
    }
}

/// Up to four hexadecimal digits from `p` on: the pointer after them, their
/// value and their number.
pub open spec fn ipv6_hex(cs: Seq<char>, bl: int, p: int, value: nat, length: nat) -> (int, nat, nat)
    decreases 4 - length,
{
    if length < 4 && p < bl && char_at_spec(cs, p) is Some && is_hex_char(char_at_spec(cs, p)->0) {
        ipv6_hex(cs, bl, p + 1, value * 16 + hex_char_value(char_at_spec(cs, p)->0), length + 1)
    } else {
        (p, value, length)
    }
}

/// The decimal digits of one number of an embedded IPv4 address from `p`
/// on: the pointer after them and the number, or `None` on a leading zero
/// followed by more digits or on a number above 255.
pub open spec fn ipv4_in_ipv6_digits(cs: Seq<char>, p: int, piece: Option<nat>) -> Option<(int, Option<nat>)>
    decreases cs.len() - p,
{
    if 0 <= p < cs.len() && '0' <= cs[p] && cs[p] <= '9' {
        let number = (cs[p] as u32 - 0x30) as nat;
        match piece {
            None => ipv4_in_ipv6_digits(cs, p + 1, Some(number)),
            Some(x) => if x == 0 {
                None
            } else if x * 10 + number > 255 {
                None
            } else {
                ipv4_in_ipv6_digits(cs, p + 1, Some(x * 10 + number))
            },
        }
    } else {
        Some((p, piece))
    }
}

/// The embedded IPv4 address at the end of an IPv6 address: four numbers
/// separated by '.', each two of them forming one piece.
pub open spec fn ipv6_v4(cs: Seq<char>, address: Seq<u32>, pi: int, p: int, ns: nat) -> Option<(Seq<u32>, int)>
    decreases 4 - ns,
{
    if char_at_spec(cs, p) is None {
        if ns != 4 {
            None
        } else {
            Some((address, pi))
        }
    } else if ns > 0 && !(char_at_spec(cs, p) == Some('.') && ns < 4) {
        None
    } else {
        let p1 = if ns > 0 {
            p + 1
        } else {
            p
        };
        if !(0 <= p1 < cs.len() && '0' <= cs[p1] && cs[p1] <= '9') {
            None
        } else {
            match ipv4_in_ipv6_digits(cs, p1, None) {
                None => None,
                Some((p2, piece)) => {
                    let address2 = address.update(pi, (address[pi] * 0x100 + piece->0) as u32);
                    let ns2 = ns + 1;
                    let pi2 = if ns2 == 2 || ns2 == 4 {
                        pi + 1
                    } else {
                        pi
                    };
                    ipv6_v4(cs, address2, pi2, p2, ns2)
                },
            }
        }
    }
}

/// The result of the main loop: the pieces, the piece index and `compress`.
pub open spec fn ipv6_main(cs: Seq<char>, bl: int, st: Ipv6Scan, fuel: nat) -> Option<(Seq<u32>, int, Option<int>)>
    decreases fuel,
{
    let p = st.pointer;
    let pi = st.piece_index;
    if fuel == 0 {
        None
    } else if !(p < bl) {
        Some((st.address, pi, st.compress))
    } else if pi == 8 {
        None
    } else if char_at_spec(cs, p) == Some(':') {
        if st.compress is Some {
            None
        } else {
            ipv6_main(cs, bl, Ipv6Scan { pointer: p + 1, piece_index: pi + 1, compress: Some(pi + 1), ..st }, (fuel - 1) as nat)
        }
    } else {
        let (p2, value, length) = ipv6_hex(cs, bl, p, 0, 0);
        if char_at_spec(cs, p2) == Some('.') {
            if length == 0 {
                None
            } else if pi > 6 {
                None
            } else {
                match ipv6_v4(cs, st.address, pi, p2 - length, 0) {
                    None => None,
                    Some((address, pi2)) => Some((address, pi2, st.compress)),
                }
            }
        } else if char_at_spec(cs, p2) == Some(':') && char_at_spec(cs, p2 + 1) is None {
            None
        } else if char_at_spec(cs, p2) is Some && char_at_spec(cs, p2) != Some(':') {
            None
        } else {
            let p3 = if char_at_spec(cs, p2) == Some(':') {
                p2 + 1
            } else {
                p2
            };
            ipv6_main(
                cs,
                bl,
                Ipv6Scan {
                    address: st.address.update(pi, value as u32),
                    piece_index: pi + 1,
                    compress: st.compress,
                    pointer: p3,
                },
                (fuel - 1) as nat,
            )
        }
    }
}

/// Moves the pieces after `compress` to the end, swapping from the back.
pub open spec fn ipv6_swaps(address: Seq<u32>, pi: int, swaps: int, compress: int) -> Seq<u32>
    decreases swaps,
{
    if pi != 0 && swaps > 0 {
        let j = compress + swaps - 1;
        let swapped = address.update(pi, address[j]).update(j, address[pi]);
        ipv6_swaps(swapped, pi - 1, swaps - 1, compress)
    } else {
        address
    }
}

/// Where the main loop starts: after a leading "::" or at the beginning.
pub open spec fn ipv6_start(cs: Seq<char>) -> Option<Ipv6Scan> {
    let zeros = Seq::new(8, |i: int| 0u32);
    if char_at_spec(cs, 0) == Some(':') {
        if char_at_spec(cs, 1) != Some(':') {
            None
        } else {
            Some(Ipv6Scan { address: zeros, piece_index: 1, compress: Some(1), pointer: 2 })
        }
    } else {
        Some(Ipv6Scan { address: zeros, piece_index: 0, compress: None, pointer: 0 })
    }
}

/// Enough steps for the main loop on an input of `bl` bytes.
pub open spec fn ipv6_fuel(bl: int) -> nat {
    (9 * (bl + 2)) as nat
}

/// The eight pieces of an IPv6 address, or `None` on failure.
pub open spec fn spec_ipv6_pieces(cs: Seq<char>) -> Option<Seq<u32>> {
    let bl = encode_utf8(cs).len() as int;
    match ipv6_start(cs) {
        None => None,
        Some(st) => match ipv6_main(cs, bl, st, ipv6_fuel(bl)) {
            None => None,
            Some((address, pi, compress)) => match compress {
                Some(c) => Some(ipv6_swaps(address, 7, pi - c, c)),
                None => if pi != 8 {
                    None
                } else {
                    Some(address)
                },
            },
        },
    }
}

/// The IPv6 parser: the pieces, serialized.
pub open spec fn spec_parse_ipv6(cs: Seq<char>) -> Option<Seq<char>> {
    match spec_ipv6_pieces(cs) {
        None => None,
        Some(a) => Some(crate::serializers::spec_serialize_ipv6(a)),
    }
}

} // verus!

verus! {

fn hex_char_at(s: &str, p: usize) -> (r: Option<u32>)
    ensures
        match r {
            Some(v) => char_at_spec(s@, p as int) is Some && is_hex_char(char_at_spec(s@, p as int)->0)
                && v as nat == hex_char_value(char_at_spec(s@, p as int)->0) && v < 16,
            None => !(char_at_spec(s@, p as int) is Some && is_hex_char(
                char_at_spec(s@, p as int)->0,
            )),
        },
{
    match char_at(s, p) {
        Some(c) => {
            if '0' <= c && c <= '9' {
                Some(c as u32 - 0x30)
            } else if 'a' <= c && c <= 'f' {
                Some(c as u32 - 0x61 + 10)
            } else if 'A' <= c && c <= 'F' {
                Some(c as u32 - 0x41 + 10)
            } else {
                None
            }
        },
        None => None,
    }
}

fn ipv6_hex_exec(s: &str, bl: usize, p: usize) -> (r: (usize, u32, usize))
    ensures
        ipv6_hex(s@, bl as int, p as int, 0, 0) == (r.0 as int, r.1 as nat, r.2 as nat),
        r.2 <= 4,
        r.0 == p + r.2,
        r.2 > 0 ==> r.0 <= bl,
        r.1 < 0x10000,
{
    let mut pointer: usize = p;
    let mut value: u32 = 0;
    let mut length: usize = 0;
    let mut more = true;
    while more
        invariant
            ipv6_hex(s@, bl as int, p as int, 0, 0) == ipv6_hex(
                s@,
                bl as int,
                pointer as int,
                value as nat,
                length as nat,
            ),
            length <= 4,
            pointer == p + length,
            length > 0 ==> pointer <= bl,
            length == 0 ==> value == 0,
            length == 1 ==> value < 0x10,
            length == 2 ==> value < 0x100,
            length == 3 ==> value < 0x1000,
            length == 4 ==> value < 0x10000,
            !more ==> ipv6_hex(s@, bl as int, pointer as int, value as nat, length as nat) == (
            pointer as int, value as nat, length as nat),
        decreases 4 - length + (if more { 1int } else { 0int }),
    {
        if length < 4 && pointer < bl {
            match hex_char_at(s, pointer) {
                Some(d) => {
                    value = value * 16 + d;
                    pointer = pointer + 1;
                    length = length + 1;
                },
                None => {
                    more = false;
                },
            }
        } else {
            more = false;
        }
    }
    (pointer, value, length)
}

fn ipv4_in_ipv6_digits_exec(s: &str, p: usize) -> (r: Option<(usize, u32)>)
    requires
        0 <= p < s@.len(),
        '0' <= s@[p as int] && s@[p as int] <= '9',
    ensures
        match r {
            None => ipv4_in_ipv6_digits(s@, p as int, None) is None,
            Some((q, v)) => ipv4_in_ipv6_digits(s@, p as int, None) == Some(
                (q as int, Some(v as nat)),
            ) && v <= 255 && p < q <= s@.len(),
        },
{
    let n = s.unicode_len();
    let mut pointer: usize = p;
    let mut piece: Option<u32> = None;
    loop
        invariant
            n == s@.len(),
            p < n,
            '0' <= s@[p as int] && s@[p as int] <= '9',
            p <= pointer <= n,
            pointer == p ==> piece is None,
            pointer > p ==> piece is Some,
            piece matches Some(x) ==> x <= 255,
            ipv4_in_ipv6_digits(s@, p as int, None) == ipv4_in_ipv6_digits(
                s@,
                pointer as int,
                match piece {
                    Some(x) => Some(x as nat),
                    None => None,
                },
            ),
        decreases n - pointer,
    {
        if pointer < n {
            let c = s.get_char(pointer);
            if '0' <= c && c <= '9' {
                let number = c as u32 - 0x30;
                match piece {
                    None => {
                        piece = Some(number);
                    },
                    Some(x) => {
                        if x == 0 {
                            return None;
                        }
                        if x * 10 + number > 255 {
                            return None;
                        }
                        piece = Some(x * 10 + number);
                    },
                }
                pointer = pointer + 1;
                continue;
            }
        }
        match piece {
            Some(x) => {
                return Some((pointer, x));
            },
            None => {
                return None;
            },
        }
    }
}

} // verus!

verus! {

fn ipv6_v4_exec(s: &str, address: &mut Vec<u32>, pi: usize, p: usize) -> (r: Option<usize>)
    requires
        old(address)@.len() == 8,
        pi <= 6,
        forall|j: int| pi <= j < 8 ==> old(address)@[j] == 0,
    ensures
        final(address)@.len() == 8,
        match r {
            None => ipv6_v4(s@, old(address)@, pi as int, p as int, 0) is None,
            Some(pi2) => ipv6_v4(s@, old(address)@, pi as int, p as int, 0) == Some(
                (final(address)@, pi2 as int),
            ) && pi <= pi2 <= 8,
        },
{
    let ghost a0 = address@;
    let n = s.unicode_len();
    let mut pi_cur: usize = pi;
    let mut p_cur: usize = p;
    let mut ns: usize = 0;
    loop
        invariant
            address@.len() == 8,
            a0 == old(address)@,
            n == s@.len(),
            pi <= 6,
            ns <= 4,
            pi_cur == pi + (if ns >= 2 {
                1usize
            } else {
                0usize
            }) + (if ns >= 4 {
                1usize
            } else {
                0usize
            }),
            ns % 2 == 0 && pi_cur < 8 ==> address@[pi_cur as int] == 0,
            ns % 2 == 1 ==> address@[pi_cur as int] <= 255,
            forall|j: int| pi_cur < j < 8 ==> address@[j] == 0,
            ipv6_v4(s@, a0, pi as int, p as int, 0) == ipv6_v4(
                s@,
                address@,
                pi_cur as int,
                p_cur as int,
                ns as nat,
            ),
        decreases 4 - ns,
    {
        let c = char_at(s, p_cur);
        if c.is_none() {
            if ns != 4 {
                assert(char_at_spec(s@, p_cur as int) is None);
                assert(ipv6_v4(s@, address@, pi_cur as int, p_cur as int, ns as nat) is None);
                return None;
            } else {
                return Some(pi_cur);
            }
        }
        if ns > 0 {
            if c == Some('.') && ns < 4 {
                p_cur = p_cur + 1;
            } else {
                return None;
            }
        }
        let d = char_at(s, p_cur);
        let is_digit = match d {
            Some(ch) => '0' <= ch && ch <= '9',
            None => false,
        };
        if !is_digit {
            return None;
        }
        match ipv4_in_ipv6_digits_exec(s, p_cur) {
            None => {
                return None;
            },
            Some((p2, piece)) => {
                let old_v = address[pi_cur];
                address.set(pi_cur, old_v * 0x100 + piece);
                ns = ns + 1;
                if ns == 2 || ns == 4 {
                    pi_cur = pi_cur + 1;
                }
                p_cur = p2;
            },
        }
    }
}

/// The eight pieces of the IPv6 address `buffer`, or `None` on failure.
pub fn parse_ipv6_pieces(buffer: &str) -> (r: Option<Vec<u32>>)
    ensures
        match r {
            Some(a) => spec_ipv6_pieces(buffer@) == Some(a@) && a@.len() == 8,
            None => spec_ipv6_pieces(buffer@) is None,
        },
{
    let s = buffer;
    let ghost cs = s@;
    let bl = s.as_bytes().len();
    let ghost blg = bl as int;
    proof {
        crate::text::lemma_encode_utf8_len(cs);
    }
    // Let address be a new IPv6 address whose IPv6 pieces are all 0.
    let mut address: Vec<u32> = Vec::new();
    while address.len() < 8
        invariant
            address@.len() <= 8,
            forall|j: int| 0 <= j < address@.len() ==> address@[j] == 0,
        decreases 8 - address.len(),
    {
        address.push(0);
    }
    proof {
        assert(address@ =~= Seq::new(8, |i: int| 0u32));
    }
    let mut piece_index: usize = 0;
    let mut compress: Option<usize> = None;
    let mut pointer: usize = 0;
    // If c is U+003A (:), then:
    if char_at(s, 0) == Some(':') {
        // If remaining does not start with U+003A (:), validation error, return failure.
        if char_at(s, 1) != Some(':') {
            return None;
        }
        pointer = 2;
        piece_index = 1;
        compress = Some(1);
    }
    let ghost start = ipv6_start(cs)->0;
    let ghost fuel0 = ipv6_fuel(blg);
    let ghost mut fuel: nat = fuel0;
    let mut done = false;
    proof {
        assert(start.address == address@);
    }
    while !done && pointer < bl
        invariant
            cs == s@,
            bl as int == encode_utf8(cs).len(),
            bl >= cs.len(),
            cs == buffer@,
            ipv6_start(cs) == Some(start),
            fuel0 == ipv6_fuel(bl as int),
            address@.len() == 8,
            pointer <= bl,
            piece_index <= 8,
            compress matches Some(c) ==> c <= piece_index,
            !done ==> forall|j: int| piece_index <= j < 8 ==> address@[j] == 0,
            !done ==> fuel > 9 * (bl - pointer) + (8 - piece_index),
            !done ==> ipv6_main(cs, bl as int, start, fuel0) == ipv6_main(
                cs,
                bl as int,
                Ipv6Scan {
                    address: address@,
                    piece_index: piece_index as int,
                    compress: opt_index(compress),
                    pointer: pointer as int,
                },
                fuel,
            ),
            done ==> ipv6_main(cs, bl as int, start, fuel0) == Some(
                (address@, piece_index as int, opt_index(compress)),
            ),
        decreases fuel,
    {
        // If pieceIndex is 8, validation error, return failure.
        if piece_index == 8 {
            return None;
        }
        // If c is U+003A (:), then:
        if char_at(s, pointer) == Some(':') {
            // If compress is non-null, validation error, return failure.
            if compress.is_some() {
                return None;
            }
            pointer = pointer + 1;
            piece_index = piece_index + 1;
            compress = Some(piece_index);
            proof {
                fuel = (fuel - 1) as nat;
            }
            continue;
        }
        // Let value and length be 0; read up to four hexadecimal digits.
        let (p2, value, length) = ipv6_hex_exec(s, bl, pointer);
        let c2 = char_at(s, p2);
        if c2 == Some('.') {
            if length == 0 {
                return None;
            }
            let p3 = p2 - length;
            if piece_index > 6 {
                return None;
            }
            match ipv6_v4_exec(s, &mut address, piece_index, p3) {
                None => {
                    return None;
                },
                Some(pi2) => {
                    piece_index = pi2;
                    done = true;
                    proof {
                        fuel = (fuel - 1) as nat;
                    }
                },
            }
        } else {
            let mut p3 = p2;
            if c2 == Some(':') {
                p3 = p2 + 1;
                if char_at(s, p3).is_none() {
                    return None;
                }
            } else if c2.is_some() {
                return None;
            }
            address.set(piece_index, value);
            piece_index = piece_index + 1;
            pointer = p3;
            proof {
                fuel = (fuel - 1) as nat;
            }
        }
    }
    let ghost main_out = (address@, piece_index as int, opt_index(compress));
    proof {
        assert(ipv6_main(cs, bl as int, start, fuel0) == Some(main_out));
    }
    // Compress is non-null: move the pieces after it to the end.
    match compress {
        Some(c) => {
            let mut swaps: usize = piece_index - c;
            let ghost a1 = address@;
            let ghost s0 = swaps;
            piece_index = 7;
            while piece_index != 0 && swaps > 0
                invariant
                    address@.len() == 8,
                    piece_index <= 7,
                    c + swaps <= 8,
                    ipv6_swaps(a1, 7, s0 as int, c as int) == ipv6_swaps(
                        address@,
                        piece_index as int,
                        swaps as int,
                        c as int,
                    ),
                decreases swaps,
            {
                let j = c + swaps - 1;
                let x = address[piece_index];
                let y = address[j];
                address.set(piece_index, y);
                address.set(j, x);
                piece_index = piece_index - 1;
                swaps = swaps - 1;
            }
        },
        None => {
            if piece_index != 8 {
                return None;
            }
        },
    }
    proof {
        assert(spec_ipv6_pieces(cs) == Some(address@));
    }
    Some(address)
}

/// Parses an IPv6 address and returns its serialization.
pub fn parse_ipv6(buffer: String) -> (r: Option<String>)
    ensures
        match r {
            Some(v) => spec_parse_ipv6(buffer@) == Some(v@),
            None => spec_parse_ipv6(buffer@) is None,
        },
{
    match parse_ipv6_pieces(buffer.as_str()) {
        Some(address) => Some(crate::serializers::serialize_ipv6(address)),
        None => None,
    }
}

} // verus!

verus! {

/// A forbidden host code point.
pub open spec fn is_forbidden_host_char(c: char) -> bool {
    c == '\0' || c == '\t' || c == '\n' || c == '\r' || c == ' ' || c == '#' || c == '/' || c
        == ':' || c == '<' || c == '>' || c == '?' || c == '@' || c == '[' || c == '\\' || c
        == ']' || c == '^' || c == '|'
}

/// A forbidden domain code point.
pub open spec fn is_forbidden_domain_char(c: char) -> bool {
    c <= '\u{1F}' || c == ' ' || c == '#' || c == '%' || c == '/' || c == ':' || c == '<' || c
        == '>' || c == '?' || c == '@' || c == '[' || c == '\\' || c == ']' || c == '^' || c
        == '\u{7F}' || c == '|'
}

/// The opaque-host parser: failure (the empty string) on a forbidden host
/// code point, otherwise the input percent-encoded with the C0 control set.
pub open spec fn spec_parse_opaque_host(s: Seq<char>) -> Seq<char> {
    if exists|i: int| 0 <= i < s.len() && #[trigger] is_forbidden_host_char(s[i]) {
        Seq::empty()
    } else {
        crate::encode_sets::spec_utf8_percent_encode(s, crate::encode_sets::EncodeSet::C0Control)
    }
}

/// What a host becomes once it is an ASCII domain: failure (the empty
/// string) when empty or holding a forbidden domain code point; if it ends
/// in a number, the serialized IPv4 address (or failure); otherwise itself.
pub open spec fn spec_parse_ascii_domain(d: Seq<char>) -> Seq<char> {
    if d.len() == 0 {
        Seq::empty()
    } else if exists|i: int| 0 <= i < d.len() && #[trigger] is_forbidden_domain_char(d[i]) {
        Seq::empty()
    } else if spec_ends_with_a_number(d) {
        match spec_parse_ipv4(d) {
            Some(a) => crate::serializers::spec_serialize_ipv4(a),
            None => Seq::empty(),
        }
    } else {
        d
    }
}

/// The result of `idna::domain_to_ascii` on a domain, `None` on its error.
pub uninterp spec fn idna_domain_to_ascii(domain: Seq<char>) -> Option<Seq<char>>;

/// The inside of a bracketed host.
pub open spec fn bracket_inner(s: Seq<char>) -> Seq<char> {
    s.subrange(1, s.len() - 1)
}

/// The host parser; the empty string stands for failure.
pub open spec fn spec_parse_host(s: Seq<char>, is_not_url_special: bool) -> Seq<char> {
    if s.len() > 0 && s[0] == '[' {
        if s.last() != ']' {
            Seq::empty()
        } else {
            match spec_parse_ipv6(bracket_inner(s)) {
                Some(v) => v,
                None => Seq::empty(),
            }
        }
    } else if is_not_url_special {
        spec_parse_opaque_host(s)
    } else {
        spec_parse_ascii_domain(
            match idna_domain_to_ascii(s) {
                Some(d) => d,
                None => Seq::empty(),
            },
        )
    }
}

/// UTS #46 processing of a domain to ASCII.
///
/// Trusted: `idna::domain_to_ascii`, whose result depends on the domain
/// alone (the default configuration of the `idna` crate); it is named
/// `idna_domain_to_ascii`, with its error as `None`.
#[verifier::external_body]
fn domain_to_ascii(domain: &str) -> (r: Option<String>)
    ensures
        match r {
            Some(v) => idna_domain_to_ascii(domain@) == Some(v@),
            None => idna_domain_to_ascii(domain@) is None,
        },
{
    match idna::domain_to_ascii(domain) {
        Ok(v) => Some(v),
        Err(_) => None,
    }
}

fn find_char(s: &str, forbidden: bool) -> (r: bool)
    ensures
        forbidden ==> r == exists|i: int| 0 <= i < s@.len() && #[trigger] is_forbidden_host_char(s@[i]),
        !forbidden ==> r == exists|i: int|
            0 <= i < s@.len() && #[trigger] is_forbidden_domain_char(s@[i]),
{
    let n = s.unicode_len();
    let mut i: usize = 0;
    while i < n
        invariant
            n == s@.len(),
            i <= n,
            forbidden ==> forall|j: int| 0 <= j < i ==> !#[trigger] is_forbidden_host_char(s@[j]),
            !forbidden ==> forall|j: int| 0 <= j < i ==> !#[trigger] is_forbidden_domain_char(s@[j]),
        decreases n - i,
    {
        let c = s.get_char(i);
        let bad = if forbidden {
            c == '\0' || c == '\t' || c == '\n' || c == '\r' || c == ' ' || c == '#' || c == '/'
                || c == ':' || c == '<' || c == '>' || c == '?' || c == '@' || c == '[' || c
                == '\\' || c == ']' || c == '^' || c == '|'
        } else {
            c <= '\u{1F}' || c == ' ' || c == '#' || c == '%' || c == '/' || c == ':' || c == '<'
                || c == '>' || c == '?' || c == '@' || c == '[' || c == '\\' || c == ']' || c
                == '^' || c == '\u{7F}' || c == '|'
        };
        if bad {
            proof {
                if forbidden {
                    assert(is_forbidden_host_char(s@[i as int]));
                } else {
                    assert(is_forbidden_domain_char(s@[i as int]));
                }
            }
            return true;
        }
        i = i + 1;
    }
    false
}

pub fn parse_opaque_host(buffer: String) -> (r: String)
    ensures
        r@ == spec_parse_opaque_host(buffer@),
{
    // If input contains a forbidden host code point, validation error, return failure.
    if find_char(buffer.as_str(), true) {
        return String::new();
    }
    crate::encode_sets::utf8_percent_encode(
        buffer.as_str(),
        crate::encode_sets::EncodeSet::C0Control,
    )
}

/// The steps of host parsing that follow domain-to-ASCII.
pub fn parse_ascii_domain(ascii_domain: String) -> (r: String)
    ensures
        r@ == spec_parse_ascii_domain(ascii_domain@),
{
    // If asciiDomain is failure, validation error, return failure.
    if ascii_domain.as_str().unicode_len() == 0 {
        return String::new();
    }
    // If asciiDomain contains a forbidden domain code point, validation error, return failure.
    if find_char(ascii_domain.as_str(), false) {
        return String::new();
    }
    // If asciiDomain ends in a number, then return the result of IPv4 parsing asciiDomain.
    if ends_with_a_number(ascii_domain.as_str()) {
        return match parse_ipv4(ascii_domain) {
            Some(result) => crate::serializers::serialize_ipv4(result),
            None => String::new(),
        };
    }
    ascii_domain
}

/// Returns empty string if fails
pub fn parse_host(buffer: String, is_not_url_special: bool) -> (r: String)
    ensures
        r@ == spec_parse_host(buffer@, is_not_url_special),
{
    let s = buffer.as_str();
    let n = s.unicode_len();
    // If input starts with U+005B ([), then:
    if n > 0 && s.get_char(0) == '[' {
        // If input does not end with U+005D (]), validation error, return failure.
        if s.get_char(n - 1) != ']' {
            return String::new();
        }
        // Return the result of IPv6 parsing input with its leading U+005B ([) and trailing U+005D (]) removed.
        let inner = crate::text::substring(s, 1, n - 1);
        return match parse_ipv6(inner) {
            Some(v) => v,
            None => String::new(),
        };
    }
    // If isNotSpecial is true, then return the result of opaque-host parsing input.
    if is_not_url_special {
        return parse_opaque_host(buffer);
    }
    let ascii_domain = match domain_to_ascii(s) {
        Some(v) => v,
        None => String::new(),
    };
    parse_ascii_domain(ascii_domain)
}

} // verus!

verus! {

} // verus!
