//! Windows drive letters, as the file scheme knows them.

use vstd::prelude::*;
use vstd::string::*;
use crate::text::char_at;

verus! {

/// An ASCII alpha code point.
pub open spec fn is_ascii_alpha_char(c: char) -> bool {
    ('A' <= c && c <= 'Z') || ('a' <= c && c <= 'z')
}

/// Two code points, the first an ASCII alpha and the second ':' or '|'.
pub open spec fn spec_is_windows_drive_letter(s: Seq<char>) -> bool {
    &&& s.len() == 2
    &&& is_ascii_alpha_char(s[0])
    &&& (s[1] == ':' || s[1] == '|')
}

/// A Windows drive letter whose second code point is ':'.
pub open spec fn spec_is_normalized_windows_drive_letter(s: Seq<char>) -> bool {
    spec_is_windows_drive_letter(s) && s[1] == ':'
}

/// The code points of `s` from index `start` on start with a Windows drive
/// letter: at least two of them, the first two a Windows drive letter, and
/// either exactly two or the third one of '/', '\', '?', '#'.
pub open spec fn spec_starts_with_windows_drive_letter(s: Seq<char>, start: int) -> bool {
    let rest = s.subrange(start, s.len() as int);
    &&& 0 <= start <= s.len()
    &&& rest.len() >= 2
    &&& spec_is_windows_drive_letter(rest.subrange(0, 2))
    &&& (rest.len() == 2 || rest[2] == '/' || rest[2] == '\\' || rest[2] == '?' || rest[2] == '#')
}

fn char_is_ascii_alpha(c: char) -> (r: bool)
    ensures
        r == is_ascii_alpha_char(c),
{
    ('A' <= c && c <= 'Z') || ('a' <= c && c <= 'z')
}

/// A Windows drive letter is two code points, of which the first is an ASCII alpha and the second is either U+003A (:) or U+007C (|).
pub fn is_windows_drive_letter(input: &str) -> (r: bool)
    ensures
        r == spec_is_windows_drive_letter(input@),
{
    let n = input.unicode_len();
    if n != 2 {
        return false;
    }
    let first = input.get_char(0);
    let second = input.get_char(1);
    char_is_ascii_alpha(first) && (second == ':' || second == '|')
}

/// A normalized Windows drive letter is a Windows drive letter of which the second code point is U+003A (:).
pub fn is_normalized_windows_drive_letter(input: &str) -> (r: bool)
    ensures
        r == spec_is_normalized_windows_drive_letter(input@),
{
    char_at(input, 1) == Some(':') && is_windows_drive_letter(input)
}

/// The code points of `input` from index `start` on start with a Windows drive letter.
pub fn starts_with_windows_drive_letter(input: &str, start: usize) -> (r: bool)
    ensures
        r == spec_starts_with_windows_drive_letter(input@, start as int),
{
    let n = input.unicode_len();
    if start > n || n - start < 2 {
        return false;
    }
    let first = input.get_char(start);
    let second = input.get_char(start + 1);
    let ok = char_is_ascii_alpha(first) && (second == ':' || second == '|');
    if !ok {
        proof {
            let rest = input@.subrange(start as int, n as int);
            assert(rest.subrange(0, 2)[0] == first);
            assert(rest.subrange(0, 2)[1] == second);
        }
        return false;
    }
    if n - start == 2 {
        return true;
    }
    let third = input.get_char(start + 2);
    third == '/' || third == '\\' || third == '?' || third == '#'
}

} // verus!
