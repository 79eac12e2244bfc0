//! A validated password: a non-blank string restricted to a whitelist of
//! printable ASCII letters, digits and symbols.

use crate::misc::all_blank;
use vstd::prelude::*;

verus! {

/// A character permitted in a password: ASCII letters of either case,
/// digits, and the symbols `. _ - + = ! ? @ # $ % & * ( ) [ ] { } : ; , /`.
pub open spec fn password_char_allowed(c: char) -> bool {
    ||| ('a' <= c && c <= 'z')
    ||| ('A' <= c && c <= 'Z')
    ||| ('0' <= c && c <= '9')
    ||| c == '.'
    ||| c == '_'
    ||| c == '-'
    ||| c == '+'
    ||| c == '='
    ||| c == '!'
    ||| c == '?'
    ||| c == '@'
    ||| c == '#'
    ||| c == '$'
    ||| c == '%'
    ||| c == '&'
    ||| c == '*'
    ||| c == '('
    ||| c == ')'
    ||| c == '['
    ||| c == ']'
    ||| c == '{'
    ||| c == '}'
    ||| c == ':'
    ||| c == ';'
    ||| c == ','
    ||| c == '/'
}

/// A valid password text: non-blank after trimming, and every character
/// in the whitelist.
pub open spec fn password_valid(s: Seq<char>) -> bool {
    &&& !all_blank(s)
    &&& forall|i: int| 0 <= i < s.len() ==> password_char_allowed(#[trigger] s[i])
}

/// Why a password text is rejected.
#[derive(Debug, Clone, Copy, PartialEq, Eq, Structural)]
pub enum PasswordError {
    /// The text is empty after trimming blank characters.
    Blank,
    /// The text contains a character outside the whitelist; carries the
    /// first such character in left-to-right order.
    InvalidChar { char: char },
}

/// The outcome `validate_password` owes on `s`: `None` on a valid text,
/// otherwise the error, with `Blank` taking precedence and `InvalidChar`
/// citing the first offending character.
pub open spec fn password_check(s: Seq<char>, r: Result<(), PasswordError>) -> bool {
    match r {
        Ok(()) => password_valid(s),
        Err(PasswordError::Blank) => all_blank(s),
        Err(PasswordError::InvalidChar { char }) => {
            &&& !all_blank(s)
            &&& exists|i: int|
                0 <= i < s.len() && #[trigger] s[i] == char && !password_char_allowed(char)
                    && forall|j: int| 0 <= j < i ==> password_char_allowed(#[trigger] s[j])
        },
    }
}

/// Law: on a text every character of which is in the whitelist and that
/// is non-blank after trimming, `Ok` is the one verdict the checks
/// allow, so `Password::new` succeeds and stores the text unchanged and
/// `as_str` hands it back.
pub proof fn lemma_valid_password_accepted(s: Seq<char>, r: Result<(), PasswordError>)
    requires
        password_valid(s),
        password_check(s, r),
    ensures
        r is Ok,
{
}

/// A password, valid by construction and immutable thereafter.
#[derive(Debug, Clone, PartialEq, Eq, PartialOrd, Ord, Hash)]
pub struct Password {
    password: String,
}

impl View for Password {
    type V = Seq<char>;

    closed spec fn view(&self) -> Seq<char> {
        self.password@
    }
}

impl Password {
    /// Validates `password` and wraps it unchanged; the untrimmed text is
    /// stored, trimming serves only the blankness test.
    pub fn new(password: String) -> (r: Result<Self, PasswordError>)
        ensures
            r matches Ok(p) ==> p@ == password@ && password_valid(password@),
            r matches Err(e) ==> password_check(password@, Err(e)) && !password_valid(password@),
    {
        match validate_password(password.as_str()) {
            Ok(()) => Ok(Self { password }),
            Err(e) => Err(e),
        }
    }

    /// The stored text, unchanged.
    pub fn as_str(&self) -> (r: &str)
        ensures
            r@ == self@,
    {
        self.password.as_str()
    }

    /// Re-runs the construction checks against the stored value; of use
    /// after the value arrived from an untrusted source.
    pub fn validate(&self) -> (r: Result<(), PasswordError>)
        ensures
            password_check(self@, r),
            r is Ok <==> password_valid(self@),
    {
        validate_password(self.password.as_str())
    }
}

fn password_char_ok(c: char) -> (r: bool)
    ensures
        r == password_char_allowed(c),
{
    ('a' <= c && c <= 'z') || ('A' <= c && c <= 'Z') || ('0' <= c && c <= '9') || c == '.'
        || c == '_' || c == '-' || c == '+' || c == '=' || c == '!' || c == '?' || c == '@'
        || c == '#' || c == '$' || c == '%' || c == '&' || c == '*' || c == '(' || c == ')'
        || c == '[' || c == ']' || c == '{' || c == '}' || c == ':' || c == ';' || c == ','
        || c == '/'
}

/// Rejects a text that is blank after trimming, then a text whose first
/// out-of-whitelist character exists, reporting that character.
pub fn validate_password(password: &str) -> (r: Result<(), PasswordError>)
    ensures
        password_check(password@, r),
        r is Ok <==> password_valid(password@),
{
    if crate::misc::is_all_blank(password) {
        return Err(PasswordError::Blank);
    }
    let len = password.unicode_len();
    for i in 0..len
        invariant
            len == password@.len(),
            !all_blank(password@),
            forall|j: int| 0 <= j < i ==> password_char_allowed(#[trigger] password@[j]),
    {
        let c = password.get_char(i);
        if !password_char_ok(c) {
            return Err(PasswordError::InvalidChar { char: c });
        }
    }
    Ok(())
}

} // verus!
