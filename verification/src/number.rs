//! Reading an unsigned integer from its digits in a radix, as
//! `u32::from_str_radix` does.

use vstd::prelude::*;
use vstd::string::*;

verus! {

/// The value of a digit code point in radices up to 36: '0'..'9', then
/// 'a'..'z' or 'A'..'Z' for 10 to 35.
pub open spec fn digit_value(c: char) -> Option<nat> {
    if '0' <= c && c <= '9' {
        Some((c as u32 - 0x30) as nat)
    } else if 'a' <= c && c <= 'z' {
        Some((c as u32 - 0x61 + 10) as nat)
    } else if 'A' <= c && c <= 'Z' {
        Some((c as u32 - 0x41 + 10) as nat)
    } else {
        None
    }
}

/// The value that a sequence of radix-`radix` digits stands for, or `None`
/// when one of them is not such a digit.
pub open spec fn radix_value(d: Seq<char>, radix: nat) -> Option<nat>
    decreases d.len(),
{
    if d.len() == 0 {
        Some(0)
    } else {
        match (radix_value(d.drop_last(), radix), digit_value(d.last())) {
            (Some(v), Some(x)) => if x < radix {
                Some(v * radix + x)
            } else {
                None
            },
            _ => None,
        }
    }
}

/// `u32::from_str_radix`: an optional leading '+', then at least one digit
/// of the radix, with a value that fits in a `u32`.
pub open spec fn spec_u32_from_str_radix(s: Seq<char>, radix: nat) -> Option<u32> {
    let digits = if s.len() > 0 && s[0] == '+' {
        s.subrange(1, s.len() as int)
    } else {
        s
    };
    if digits.len() == 0 {
        None
    } else {
        match radix_value(digits, radix) {
            Some(v) => if v <= u32::MAX {
                Some(v as u32)
            } else {
                None
            },
            None => None,
        }
    }
}

/// A valid prefix never has a larger value than the whole.
pub proof fn lemma_radix_value_prefix(d: Seq<char>, k: int, radix: nat)
    requires
        0 <= k <= d.len(),
        radix >= 1,
        radix_value(d, radix) is Some,
    ensures
        radix_value(d.subrange(0, k), radix) is Some,
        radix_value(d.subrange(0, k), radix)->0 <= radix_value(d, radix)->0,
    decreases d.len(),
{
    if k == d.len() {
        assert(d.subrange(0, k) =~= d);
    } else {
        lemma_radix_value_prefix(d.drop_last(), k, radix);
        assert(d.drop_last().subrange(0, k) =~= d.subrange(0, k));
        let v = radix_value(d.drop_last(), radix)->0;
        let x = digit_value(d.last())->0;
        assert(v <= v * radix + x) by (nonlinear_arith)
            requires
                radix >= 1,
        ;
    }
}

fn char_digit_value(c: char) -> (r: Option<u32>)
    ensures
        match r {
            Some(v) => digit_value(c) == Some(v as nat),
            None => digit_value(c) is None,
        },
{
    if '0' <= c && c <= '9' {
        Some(c as u32 - 0x30)
    } else if 'a' <= c && c <= 'z' {
        Some(c as u32 - 0x61 + 10)
    } else if 'A' <= c && c <= 'Z' {
        Some(c as u32 - 0x41 + 10)
    } else {
        None
    }
}

/// Reads `s` as a number in `radix`, as `u32::from_str_radix` does.
pub fn u32_from_str_radix(s: &str, radix: u32) -> (r: Option<u32>)
    requires
        2 <= radix <= 36,
    ensures
        r == spec_u32_from_str_radix(s@, radix as nat),
{
    let n = s.unicode_len();
    let mut start: usize = 0;
    if n > 0 && s.get_char(0) == '+' {
        start = 1;
    }
    let ghost digits = if s@.len() > 0 && s@[0] == '+' {
        s@.subrange(1, s@.len() as int)
    } else {
        s@
    };
    proof {
        assert(digits =~= s@.subrange(start as int, n as int));
    }
    if start == n {
        return None;
    }
    let mut value: u64 = 0;
    let mut i: usize = start;
    proof {
        assert(digits.subrange(0, 0) =~= Seq::<char>::empty());
    }
    while i < n
        invariant
            n == s@.len(),
            start <= i <= n,
            2 <= radix <= 36,
            digits =~= s@.subrange(start as int, n as int),
            digits == (if s@.len() > 0 && s@[0] == '+' {
                s@.subrange(1, s@.len() as int)
            } else {
                s@
            }),
            radix_value(digits.subrange(0, i - start), radix as nat) == Some(value as nat),
            value <= u32::MAX,
        decreases n - i,
    {
        let c = s.get_char(i);
        let ghost pre = digits.subrange(0, i - start + 1);
        proof {
            assert(pre.drop_last() =~= digits.subrange(0, i - start));
            assert(pre.last() == c);
        }
        match char_digit_value(c) {
            Some(x) => {
                if x >= radix {
                    proof {
                        assert(digit_value(pre.last()) == Some(x as nat));
                        assert(radix_value(pre, radix as nat) is None);
                        if radix_value(digits, radix as nat) is Some {
                            lemma_radix_value_prefix(digits, i - start + 1, radix as nat);
                        }
                    }
                    return None;
                }
                proof {
                    assert(value * radix <= 0xFFFF_FFFFu64 * 36) by (nonlinear_arith)
                        requires
                            value <= 0xFFFF_FFFFu64,
                            radix <= 36,
                    ;
                }
                let next: u64 = value * (radix as u64) + (x as u64);
                if next > 0xFFFF_FFFF {
                    proof {
                        if radix_value(digits, radix as nat) is Some {
                            lemma_radix_value_prefix(digits, i - start + 1, radix as nat);
                        }
                    }
                    return None;
                }
                value = next;
            },
            None => {
                proof {
                    if radix_value(digits, radix as nat) is Some {
                        lemma_radix_value_prefix(digits, i - start + 1, radix as nat);
                    }
                }
                return None;
            },
        }
        i = i + 1;
    }
    proof {
        assert(digits.subrange(0, n - start) =~= digits);
    }
    Some(value as u32)
}

/// Writes `n` in decimal, as `to_string` does for an integer.
pub open spec fn decimal(n: nat) -> Seq<char>
    decreases n,
{
    if n < 10 {
        seq![(0x30 + n) as char]
    } else {
        decimal(n / 10).push((0x30 + n % 10) as char)
    }
}

/// The decimal digits of `n` are ASCII digits, the first of them '0' only
/// for `n` zero, and they read back as `n` in radix 10.
pub proof fn lemma_decimal_digits(n: nat)
    ensures
        decimal(n).len() >= 1,
        forall|i: int| 0 <= i < decimal(n).len() ==> '0' <= #[trigger] decimal(n)[i] <= '9',
        decimal(n)[0] == '0' ==> n == 0,
        n == 0 ==> decimal(n) == seq!['0'],
        radix_value(decimal(n), 10) == Some(n),
    decreases n,
{
    if n < 10 {
        let d = decimal(n);
        assert(d.drop_last() =~= Seq::<char>::empty());
        assert(radix_value(d.drop_last(), 10) == Some(0nat));
    } else {
        lemma_decimal_digits(n / 10);
        let d = decimal(n);
        assert(d.drop_last() =~= decimal(n / 10));
        assert(d[0] == decimal(n / 10)[0]);
        assert(n == (n / 10) * 10 + n % 10);
    }
}

/// The decimal digits of `n`.
pub fn u64_to_decimal(n: u64) -> (r: String)
    ensures
        r@ == decimal(n as nat),
    decreases n,
{
    if n < 10 {
        let mut s = String::new();
        crate::text::push_char(&mut s, crate::text::char_from_ascii_u32((0x30 + n) as u32));
        proof {
            assert(s@ =~= decimal(n as nat));
        }
        s
    } else {
        let mut s = u64_to_decimal(n / 10);
        crate::text::push_char(
            &mut s,
            crate::text::char_from_ascii_u32((0x30 + n % 10) as u32),
        );
        s
    }
}

} // verus!
