//! The blank-character set shared by every value type: the characters
//! treated as whitespace/control for trim-emptiness tests and as a
//! disallowed-anywhere set for hosts and addresses.

use vstd::prelude::*;

verus! {

/// A blank character: NUL, horizontal tab, line feed, vertical tab,
/// form feed, carriage return, or space.
pub open spec fn is_blank_char(c: char) -> bool {
    ||| c == '\u{0000}'
    ||| c == '\u{0009}'
    ||| c == '\u{000A}'
    ||| c == '\u{000B}'
    ||| c == '\u{000C}'
    ||| c == '\u{000D}'
    ||| c == ' '
}

/// Every character of `s` is blank; equivalently, `s` trimmed of blank
/// characters is empty. Holds for the empty sequence.
pub open spec fn all_blank(s: Seq<char>) -> bool {
    forall|i: int| 0 <= i < s.len() ==> is_blank_char(#[trigger] s[i])
}

/// Some character of `s` is blank.
pub open spec fn has_blank_char(s: Seq<char>) -> bool {
    exists|i: int| 0 <= i < s.len() && is_blank_char(#[trigger] s[i])
}

/// Whether `c` belongs to the blank-character set.
pub fn is_blank(c: char) -> (r: bool)
    ensures
        r == is_blank_char(c),
{
    c == '\u{0000}' || c == '\u{0009}' || c == '\u{000A}' || c == '\u{000B}' || c == '\u{000C}'
        || c == '\u{000D}' || c == ' '
}

/// Whether `s` is empty after trimming blank characters, that is,
/// whether every character of `s` is blank.
pub fn is_all_blank(s: &str) -> (r: bool)
    ensures
        r == all_blank(s@),
{
    let len = s.unicode_len();
    for i in 0..len
        invariant
            len == s@.len(),
            forall|j: int| 0 <= j < i ==> is_blank_char(#[trigger] s@[j]),
    {
        if !is_blank(s.get_char(i)) {
            return false;
        }
    }
    true
}

/// Whether `s` contains a blank character anywhere.
pub fn contains_blank_char(s: &str) -> (r: bool)
    ensures
        r == has_blank_char(s@),
{
    let len = s.unicode_len();
    for i in 0..len
        invariant
            len == s@.len(),
            forall|j: int| 0 <= j < i ==> !is_blank_char(#[trigger] s@[j]),
    {
        if is_blank(s.get_char(i)) {
            return true;
        }
    }
    false
}

} // verus!
