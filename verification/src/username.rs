//! A validated username: a non-blank string restricted to lowercase ASCII
//! letters, digits and `.`.

use crate::misc::all_blank;
use vstd::prelude::*;

verus! {

/// A character permitted in a username: a lowercase ASCII letter, a
/// digit, or `.`.
pub open spec fn username_char_allowed(c: char) -> bool {
    ||| ('a' <= c && c <= 'z')
    ||| ('0' <= c && c <= '9')
    ||| c == '.'
}

/// A valid username text: non-blank after trimming, and every character
/// in the whitelist.
pub open spec fn username_valid(s: Seq<char>) -> bool {
    &&& !all_blank(s)
    &&& forall|i: int| 0 <= i < s.len() ==> username_char_allowed(#[trigger] s[i])
}

/// Why a username text is rejected.
#[derive(Debug, Clone, Copy, PartialEq, Eq, Structural)]
pub enum UsernameError {
    /// The text is empty after trimming blank characters.
    Blank,
    /// The text contains a character outside the whitelist; carries the
    /// first such character in left-to-right order.
    InvalidChar { char: char },
}

/// The outcome `validate_username` owes on `s`: `None` on a valid text,
/// otherwise the error, with `Blank` taking precedence and `InvalidChar`
/// citing the first offending character.
pub open spec fn username_check(s: Seq<char>, r: Result<(), UsernameError>) -> bool {
    match r {
        Ok(()) => username_valid(s),
        Err(UsernameError::Blank) => all_blank(s),
        Err(UsernameError::InvalidChar { char }) => {
            &&& !all_blank(s)
            &&& exists|i: int|
                0 <= i < s.len() && #[trigger] s[i] == char && !username_char_allowed(char)
                    && forall|j: int| 0 <= j < i ==> username_char_allowed(#[trigger] s[j])
        },
    }
}

/// Law: on a text every character of which is in the whitelist and that
/// is non-blank after trimming, `Ok` is the one verdict the checks
/// allow, so `Username::new` succeeds and stores the text unchanged and
/// `as_str` hands it back.
pub proof fn lemma_valid_username_accepted(s: Seq<char>, r: Result<(), UsernameError>)
    requires
        username_valid(s),
        username_check(s, r),
    ensures
        r is Ok,
{
}

/// A username, valid by construction and immutable thereafter.
#[derive(Debug, Clone, PartialEq, Eq, PartialOrd, Ord, Hash)]
pub struct Username {
    username: String,
}

impl View for Username {
    type V = Seq<char>;

    closed spec fn view(&self) -> Seq<char> {
        self.username@
    }
}

impl Username {
    /// Validates `username` and wraps it unchanged.
    pub fn new(username: String) -> (r: Result<Self, UsernameError>)
        ensures
            r matches Ok(u) ==> u@ == username@ && username_valid(username@),
            r matches Err(e) ==> username_check(username@, Err(e)) && !username_valid(username@),
    {
        match validate_username(username.as_str()) {
            Ok(()) => Ok(Self { username }),
            Err(e) => Err(e),
        }
    }

    /// The stored text, unchanged.
    pub fn as_str(&self) -> (r: &str)
        ensures
            r@ == self@,
    {
        self.username.as_str()
    }

    /// Re-runs the construction checks against the stored value; of use
    /// after the value arrived from an untrusted source.
    pub fn validate(&self) -> (r: Result<(), UsernameError>)
        ensures
            username_check(self@, r),
            r is Ok <==> username_valid(self@),
    {
        validate_username(self.username.as_str())
    }
}

fn username_char_ok(c: char) -> (r: bool)
    ensures
        r == username_char_allowed(c),
{
    ('a' <= c && c <= 'z') || ('0' <= c && c <= '9') || c == '.'
}

/// Rejects a text that is blank after trimming, then a text whose first
/// out-of-whitelist character exists, reporting that character.
pub fn validate_username(username: &str) -> (r: Result<(), UsernameError>)
    ensures
        username_check(username@, r),
        r is Ok <==> username_valid(username@),
{
    if crate::misc::is_all_blank(username) {
        return Err(UsernameError::Blank);
    }
    let len = username.unicode_len();
    for i in 0..len
        invariant
            len == username@.len(),
            !all_blank(username@),
            forall|j: int| 0 <= j < i ==> username_char_allowed(#[trigger] username@[j]),
    {
        let c = username.get_char(i);
        if !username_char_ok(c) {
            return Err(UsernameError::InvalidChar { char: c });
        }
    }
    Ok(())
}

} // verus!
