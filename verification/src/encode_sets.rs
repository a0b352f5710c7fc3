//! The percent-encode sets of URL parsing, and UTF-8 percent-encoding
//! of a string with one of them.

use vstd::prelude::*;
use vstd::string::*;
use crate::text::{char_from_ascii_u32, push_char};

verus! {

/// The percent-encode sets that the parser uses.
#[derive(Clone, Copy, Debug, PartialEq, Eq)]
pub enum EncodeSet {
    /// The C0 control percent-encode set: U+0000 to U+001F and U+007F.
    C0Control,
    /// The C0 control set and U+0020 SPACE, U+0022 ("), U+003C (<), U+003E (>), and U+0060 (`).
    Fragment,
    /// The C0 control set and U+0020 SPACE, U+0022 ("), U+0023 (#), U+003C (<), and U+003E (>).
    Query,
    /// The query set and U+0027 (').
    SpecialQuery,
    /// The query set and U+003F (?), U+0060 (`), U+007B ({), and U+007D (}).
    Path,
    /// The path set and U+002F (/), U+003A (:), U+003B (;), U+003D (=), U+0040 (@),
    /// U+005B ([) to U+005E (^) inclusive, and U+007C (|).
    UserInfo,
}

pub open spec fn in_c0_control_set(b: u8) -> bool {
    b <= 0x1F || b == 0x7F
}

pub open spec fn in_query_set(b: u8) -> bool {
    in_c0_control_set(b) || b == 0x20 || b == 0x22 || b == 0x23 || b == 0x3C || b == 0x3E
}

pub open spec fn in_path_set(b: u8) -> bool {
    in_query_set(b) || b == 0x3F || b == 0x60 || b == 0x7B || b == 0x7D
}

/// Membership of an ASCII byte in a percent-encode set.
pub open spec fn in_encode_set(set: EncodeSet, b: u8) -> bool {
    match set {
        EncodeSet::C0Control => in_c0_control_set(b),
        EncodeSet::Fragment => in_c0_control_set(b) || b == 0x20 || b == 0x22 || b == 0x3C || b
            == 0x3E || b == 0x60,
        EncodeSet::Query => in_query_set(b),
        EncodeSet::SpecialQuery => in_query_set(b) || b == 0x27,
        EncodeSet::Path => in_path_set(b),
        EncodeSet::UserInfo => in_path_set(b) || b == 0x2F || b == 0x3A || b == 0x3B || b == 0x3D
            || b == 0x40 || (0x5B <= b && b <= 0x5E) || b == 0x7C,
    }
}

/// The uppercase hexadecimal digit of a value below 16.
pub open spec fn hex_upper(d: int) -> char {
    if d < 10 {
        (0x30 + d) as char
    } else {
        (0x41 + d - 10) as char
    }
}

/// "%" followed by the two uppercase hexadecimal digits of `b`.
pub open spec fn percent_encoded_byte(b: u8) -> Seq<char> {
    seq!['%', hex_upper(b as int / 16), hex_upper(b as int % 16)]
}

/// One byte of UTF-8 percent-encoding: a byte outside ASCII or in the set is
/// percent-encoded, any other byte stands for itself.
pub open spec fn encode_byte(set: EncodeSet, b: u8) -> Seq<char> {
    if b >= 0x80 || in_encode_set(set, b) {
        percent_encoded_byte(b)
    } else {
        seq![b as char]
    }
}

/// Percent-encoding of a byte sequence, byte by byte.
pub open spec fn percent_encode_bytes(set: EncodeSet, bytes: Seq<u8>) -> Seq<char>
    decreases bytes.len(),
{
    if bytes.len() == 0 {
        Seq::empty()
    } else {
        percent_encode_bytes(set, bytes.drop_last()) + encode_byte(set, bytes.last())
    }
}

/// UTF-8 percent-encoding of a string with a percent-encode set.
pub open spec fn spec_utf8_percent_encode(s: Seq<char>, set: EncodeSet) -> Seq<char> {
    percent_encode_bytes(set, vstd::utf8::encode_utf8(s))
}

/// The percent-encoding of one byte.
///
/// Trusted: `percent_encoding::percent_encode_byte`, which returns "%" and the
/// byte's two uppercase hexadecimal digits (its source reads them from a table
/// of "%00" to "%FF").
#[verifier::external_body]
fn percent_encode_byte(byte: u8) -> (r: &'static str)
    ensures
        r@ == percent_encoded_byte(byte),
{
    percent_encoding::percent_encode_byte(byte)
}

impl EncodeSet {
    /// Whether the ASCII byte `b` is in this set.
    pub fn contains(&self, b: u8) -> (r: bool)
        ensures
            r == in_encode_set(*self, b),
    {
        let c0 = b <= 0x1F || b == 0x7F;
        let query = c0 || b == 0x20 || b == 0x22 || b == 0x23 || b == 0x3C || b == 0x3E;
        let path = query || b == 0x3F || b == 0x60 || b == 0x7B || b == 0x7D;
        match self {
            EncodeSet::C0Control => c0,
            EncodeSet::Fragment => c0 || b == 0x20 || b == 0x22 || b == 0x3C || b == 0x3E || b
                == 0x60,
            EncodeSet::Query => query,
            EncodeSet::SpecialQuery => query || b == 0x27,
            EncodeSet::Path => path,
            EncodeSet::UserInfo => path || b == 0x2F || b == 0x3A || b == 0x3B || b == 0x3D || b
                == 0x40 || (0x5B <= b && b <= 0x5E) || b == 0x7C,
        }
    }
}

/// UTF-8 percent-encodes `input` with the percent-encode set `set`.
pub fn utf8_percent_encode(input: &str, set: EncodeSet) -> (r: String)
    ensures
        r@ == spec_utf8_percent_encode(input@, set),
{
    let bytes = input.as_bytes();
    let n = bytes.len();
    let mut out = String::new();
    let mut i: usize = 0;
    while i < n
        invariant
            n == bytes@.len(),
            bytes@ == vstd::utf8::encode_utf8(input@),
            i <= n,
            out@ == percent_encode_bytes(set, bytes@.subrange(0, i as int)),
        decreases n - i,
    {
        let b = bytes[i];
        proof {
            assert(bytes@.subrange(0, i + 1).drop_last() =~= bytes@.subrange(0, i as int));
        }
        if b >= 0x80 || set.contains(b) {
            out.append(percent_encode_byte(b));
        } else {
            let c = char_from_ascii_u32(b as u32);
            push_char(&mut out, c);
        }
        i = i + 1;
    }
    proof {
        assert(bytes@.subrange(0, n as int) =~= bytes@);
    }
    out
}

} // verus!
