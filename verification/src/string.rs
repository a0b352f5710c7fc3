//! Code point classes and dot path segments.

use vstd::prelude::*;
use vstd::string::*;
use crate::text::{ascii_ci_eq, str_ascii_ci_eq, str_eq};

verus! {

/// An ASCII digit: U+0030 (0) to U+0039 (9).
pub open spec fn spec_is_ascii_digit(b: u8) -> bool {
    0x30 <= b && b <= 0x39
}

/// An ASCII upper or lower alpha.
pub open spec fn spec_is_ascii_alpha(b: u8) -> bool {
    (0x41 <= b && b <= 0x5A) || (0x61 <= b && b <= 0x7A)
}

/// An ASCII digit or ASCII alpha.
pub open spec fn spec_is_ascii_alphanumeric(b: u8) -> bool {
    spec_is_ascii_digit(b) || spec_is_ascii_alpha(b)
}

/// An ASCII digit, U+0041 (A) to U+0046 (F), or U+0061 (a) to U+0066 (f).
pub open spec fn spec_is_ascii_hexdigit(b: u8) -> bool {
    spec_is_ascii_digit(b) || (0x41 <= b && b <= 0x46) || (0x61 <= b && b <= 0x66)
}

/// A double-dot path segment: ".." or an ASCII case-insensitive match for
/// ".%2e", "%2e.", or "%2e%2e".
pub open spec fn spec_is_double_dot_path_segment(s: Seq<char>) -> bool {
    ||| s == ".."@
    ||| ascii_ci_eq(s, ".%2e"@)
    ||| ascii_ci_eq(s, "%2e."@)
    ||| ascii_ci_eq(s, "%2e%2e"@)
}

/// A single-dot path segment: "." or an ASCII case-insensitive match for "%2e".
pub open spec fn spec_is_single_dot_path_segment(s: Seq<char>) -> bool {
    s == "."@ || ascii_ci_eq(s, "%2e"@)
}

pub fn is_ascii_alphanumeric(input: Option<u8>) -> (r: bool)
    ensures
        r == (input matches Some(b) && spec_is_ascii_alphanumeric(b)),
{
    match input {
        Some(value) => (0x30 <= value && value <= 0x39) || (0x41 <= value && value <= 0x5A) || (
        0x61 <= value && value <= 0x7A),
        None => false,
    }
}

pub fn is_ascii_digit(input: Option<u8>) -> (r: bool)
    ensures
        r == (input matches Some(b) && spec_is_ascii_digit(b)),
{
    match input {
        Some(value) => 0x30 <= value && value <= 0x39,
        None => false,
    }
}

pub fn is_ascii_hexdigit(input: Option<u8>) -> (r: bool)
    ensures
        r == (input matches Some(b) && spec_is_ascii_hexdigit(b)),
{
    match input {
        Some(value) => (0x30 <= value && value <= 0x39) || (0x41 <= value && value <= 0x46) || (
        0x61 <= value && value <= 0x66),
        None => false,
    }
}

/// A double-dot path segment must be ".." or an ASCII case-insensitive match for ".%2e", "%2e.", or "%2e%2e".
pub fn is_double_dot_path_segment(input: &str) -> (r: bool)
    ensures
        r == spec_is_double_dot_path_segment(input@),
{
    str_eq(input, "..") || str_ascii_ci_eq(input, ".%2e") || str_ascii_ci_eq(input, "%2e.")
        || str_ascii_ci_eq(input, "%2e%2e")
}

/// A single-dot path segment must be "." or an ASCII case-insensitive match for "%2e".
pub fn is_single_dot_path_segment(input: &str) -> (r: bool)
    ensures
        r == spec_is_single_dot_path_segment(input@),
{
    str_eq(input, ".") || str_ascii_ci_eq(input, "%2e")
}

} // verus!
