//! A validated server address: a `host:port` pair. The host, trimmed, is
//! non-empty and contains no blank character; the port is any 16-bit
//! value. An address can be parsed from a single `"host:port"` text and
//! rendered back, and rendering inverts parsing.

use crate::misc::{all_blank, has_blank_char, is_blank_char};
use vstd::prelude::*;

verus! {

/// Why a host text is rejected.
#[derive(Debug, Clone, Copy, PartialEq, Eq, Structural)]
pub enum HostError {
    /// The host is empty after trimming blank characters.
    Blank,
    /// The host contains a blank character anywhere.
    HasBlankChar,
}

/// Why an address text fails to parse.
#[derive(Debug, Clone, Copy, PartialEq, Eq, Structural)]
pub enum ParseError {
    /// The text is empty after trimming blank characters.
    Blank,
    /// The text contains a blank character anywhere.
    HasBlankChar,
    /// The port part is not a decimal 16-bit unsigned integer.
    InvalidPort,
    /// The count of `:` delimiters is not exactly the expected one.
    InvalidDelimiterCount { expected: usize, supplied: usize },
}

/// Why an address cannot be built: its host was rejected, or the text
/// handed to `parse` was.
#[derive(Debug, Clone, Copy, PartialEq, Eq, Structural)]
pub enum ServerAddrError {
    HostError(HostError),
    ParseError(ParseError),
}

/// The verdict construction owes on a host text: `Blank` when every
/// character is blank, else `HasBlankChar` when some character is blank,
/// else acceptance.
pub open spec fn host_check(h: Seq<char>) -> Option<HostError> {
    if all_blank(h) {
        Some(HostError::Blank)
    } else if has_blank_char(h) {
        Some(HostError::HasBlankChar)
    } else {
        None
    }
}

/// How many `:` characters `s` holds.
pub open spec fn colon_count(s: Seq<char>) -> nat
    decreases s.len(),
{
    if s.len() == 0 {
        0
    } else {
        colon_count(s.drop_last()) + if s.last() == ':' {
            1nat
        } else {
            0nat
        }
    }
}

/// The position of the one `:` in `s`; meaningful only when
/// `colon_count(s) == 1`.
pub open spec fn colon_index(s: Seq<char>) -> int {
    choose|i: int| 0 <= i < s.len() && s[i] == ':'
}

/// A decimal digit.
pub open spec fn is_digit(c: char) -> bool {
    '0' <= c && c <= '9'
}

/// The value of a decimal digit.
pub open spec fn digit_val(c: char) -> int {
    c as u32 - '0' as u32
}

/// Every character of `s` is a decimal digit.
pub open spec fn all_digits(s: Seq<char>) -> bool {
    forall|i: int| 0 <= i < s.len() ==> is_digit(#[trigger] s[i])
}

/// The value of `s` read as a decimal numeral, most significant digit
/// first.
pub open spec fn dec_val(s: Seq<char>) -> int
    decreases s.len(),
{
    if s.len() == 0 {
        0
    } else {
        dec_val(s.drop_last()) * 10 + digit_val(s.last())
    }
}

/// A port text: non-empty, all digits, and of value at most 65535.
pub open spec fn valid_port_text(s: Seq<char>) -> bool {
    &&& s.len() > 0
    &&& all_digits(s)
    &&& dec_val(s) <= 65535
}

/// What parsing an address text yields: the host and port on success,
/// the error otherwise. The checks run in order: blankness of the whole
/// text, blank characters anywhere, the delimiter count, the port
/// numeral, and last the blankness of the host part.
pub open spec fn parse_spec(s: Seq<char>) -> Result<(Seq<char>, u16), ServerAddrError> {
    if all_blank(s) {
        Err(ServerAddrError::ParseError(ParseError::Blank))
    } else if has_blank_char(s) {
        Err(ServerAddrError::ParseError(ParseError::HasBlankChar))
    } else if colon_count(s) != 1 {
        Err(
            ServerAddrError::ParseError(
                ParseError::InvalidDelimiterCount {
                    expected: 1,
                    supplied: colon_count(s) as usize,
                },
            ),
        )
    } else {
        let host = s.subrange(0, colon_index(s));
        let port_text = s.subrange(colon_index(s) + 1, s.len() as int);
        if !valid_port_text(port_text) {
            Err(ServerAddrError::ParseError(ParseError::InvalidPort))
        } else if all_blank(host) {
            Err(ServerAddrError::HostError(HostError::Blank))
        } else {
            Ok((host, dec_val(port_text) as u16))
        }
    }
}

/// The decimal digit `d` as a character; meaningful for `d < 10`.
pub open spec fn digit_char(d: nat) -> char {
    if d == 0 {
        '0'
    } else if d == 1 {
        '1'
    } else if d == 2 {
        '2'
    } else if d == 3 {
        '3'
    } else if d == 4 {
        '4'
    } else if d == 5 {
        '5'
    } else if d == 6 {
        '6'
    } else if d == 7 {
        '7'
    } else if d == 8 {
        '8'
    } else {
        '9'
    }
}

/// The decimal numeral of `n`, most significant digit first, with no
/// leading zero except for `n == 0` itself.
pub open spec fn dec_digits(n: nat) -> Seq<char>
    decreases n,
{
    if n < 10 {
        seq![digit_char(n)]
    } else {
        dec_digits((n / 10) as nat) + seq![digit_char((n % 10) as nat)]
    }
}

proof fn lemma_colon_here_count_positive(s: Seq<char>, i: int)
    requires
        0 <= i < s.len(),
        s[i] == ':',
    ensures
        colon_count(s) >= 1,
    decreases s.len(),
{
    if i == s.len() - 1 {
    } else {
        lemma_colon_here_count_positive(s.drop_last(), i);
    }
}

proof fn lemma_two_colons_count_two(s: Seq<char>, i: int, j: int)
    requires
        0 <= i < j < s.len(),
        s[i] == ':',
        s[j] == ':',
    ensures
        colon_count(s) >= 2,
    decreases s.len(),
{
    if j == s.len() - 1 {
        lemma_colon_here_count_positive(s.drop_last(), i);
    } else {
        lemma_two_colons_count_two(s.drop_last(), i, j);
    }
}

proof fn lemma_no_colon_count_zero(s: Seq<char>)
    requires
        forall|i: int| 0 <= i < s.len() ==> s[i] != ':',
    ensures
        colon_count(s) == 0,
    decreases s.len(),
{
    if s.len() > 0 {
        lemma_no_colon_count_zero(s.drop_last());
    }
}

proof fn lemma_colon_count_concat(a: Seq<char>, b: Seq<char>)
    ensures
        colon_count(a + b) == colon_count(a) + colon_count(b),
    decreases b.len(),
{
    if b.len() == 0 {
        assert(a + b =~= a);
    } else {
        assert((a + b).drop_last() =~= a + b.drop_last());
        lemma_colon_count_concat(a, b.drop_last());
    }
}

proof fn lemma_dec_val_nonneg(s: Seq<char>)
    requires
        all_digits(s),
    ensures
        dec_val(s) >= 0,
    decreases s.len(),
{
    if s.len() > 0 {
        assert(all_digits(s.drop_last())) by {
            assert(forall|i: int|
                0 <= i < s.len() - 1 ==> #[trigger] s.drop_last()[i] == s[i]);
        }
        lemma_dec_val_nonneg(s.drop_last());
    }
}

proof fn lemma_dec_val_prefix_bound(s: Seq<char>, k: int)
    requires
        all_digits(s),
        0 <= k <= s.len(),
    ensures
        dec_val(s) >= dec_val(s.subrange(0, k)),
    decreases s.len() - k,
{
    if k == s.len() {
        assert(s.subrange(0, k) =~= s);
    } else {
        assert(s.subrange(0, k + 1).drop_last() =~= s.subrange(0, k));
        assert(s.subrange(0, k + 1).last() == s[k]);
        assert(all_digits(s.subrange(0, k)));
        lemma_dec_val_nonneg(s.subrange(0, k));
        lemma_dec_val_prefix_bound(s, k + 1);
    }
}

proof fn lemma_digit_char(d: nat)
    requires
        d < 10,
    ensures
        is_digit(digit_char(d)),
        digit_val(digit_char(d)) == d,
        !is_blank_char(digit_char(d)),
        digit_char(d) != ':',
{
}

proof fn lemma_dec_digits_wf(n: nat)
    ensures
        dec_digits(n).len() >= 1,
        all_digits(dec_digits(n)),
        dec_val(dec_digits(n)) == n,
    decreases n,
{
    if n < 10 {
        let b = seq![digit_char(n)];
        lemma_digit_char(n);
        assert(b.len() == 1);
        assert(b.last() == digit_char(n));
        assert(b.drop_last() =~= Seq::<char>::empty());
        assert(dec_val(b.drop_last()) == 0);
        assert(dec_val(b) == dec_val(b.drop_last()) * 10 + digit_val(b.last()));
    } else {
        let a = dec_digits((n / 10) as nat);
        let b = seq![digit_char((n % 10) as nat)];
        lemma_dec_digits_wf((n / 10) as nat);
        lemma_digit_char((n % 10) as nat);
        assert((a + b).drop_last() =~= a);
        assert((a + b).last() == digit_char((n % 10) as nat));
        assert forall|i: int| 0 <= i < (a + b).len() implies is_digit(#[trigger] (a + b)[i]) by {
            if i < a.len() {
                assert((a + b)[i] == a[i]);
            } else {
                assert((a + b)[i] == digit_char((n % 10) as nat));
            }
        }
        assert(dec_val(a + b) == dec_val(a) * 10 + digit_val(digit_char((n % 10) as nat)));
        assert(dec_val(a + b) == (n / 10) * 10 + n % 10);
    }
}

/// A server address: a validated host and a 16-bit port, immutable once
/// constructed.
#[derive(Debug, Clone, PartialEq, Eq, PartialOrd, Ord, Hash)]
pub struct ServerAddr {
    host: String,
    port: u16,
}

impl ServerAddr {
    /// The host text, as a sequence of characters.
    pub closed spec fn host_view(&self) -> Seq<char> {
        self.host@
    }

    /// The port value.
    pub closed spec fn port_view(&self) -> u16 {
        self.port
    }

    /// Validates `host` and aggregates it with `port`, which any 16-bit
    /// value is accepted for.
    pub fn new(host: String, port: u16) -> (r: Result<Self, ServerAddrError>)
        ensures
            r matches Ok(a) ==> host_check(host@) is None && a.host_view() == host@
                && a.port_view() == port,
            r matches Err(e) ==> (host_check(host@) matches Some(h) && e
                == ServerAddrError::HostError(h)),
    {
        if crate::misc::is_all_blank(host.as_str()) {
            return Err(ServerAddrError::HostError(HostError::Blank));
        }
        if crate::misc::contains_blank_char(host.as_str()) {
            return Err(ServerAddrError::HostError(HostError::HasBlankChar));
        }
        Ok(ServerAddr { host, port })
    }

    /// The host, unchanged.
    pub fn host(&self) -> (r: &str)
        ensures
            r@ == self.host_view(),
    {
        self.host.as_str()
    }

    /// The port, unchanged.
    pub fn port(&self) -> (r: &u16)
        ensures
            *r == self.port_view(),
    {
        &self.port
    }

    /// Renders the address as `"host:port"`, the port in decimal with
    /// no leading zero; the exact inverse of `parse` on every
    /// constructed address.
    pub fn to_string(&self) -> (r: String)
        ensures
            r@ == self.host_view() + seq![':'] + dec_digits(self.port_view() as nat),
    {
        let mut s = self.host.clone();
        proof {
            reveal_strlit(":");
            assert((":")@ =~= seq![':']);
        }
        s.append(":");
        let p = dec_digits_str(self.port);
        s.append(p.as_str());
        proof {
            assert(s@ =~= self.host_view() + seq![':'] + dec_digits(self.port_view() as nat));
        }
        s
    }

    /// Splits `addr` on its one `:` into host and port and validates
    /// both, as `parse_spec` lays down.
    pub fn parse(addr: &str) -> (r: Result<Self, ServerAddrError>)
        ensures
            r matches Ok(a) ==> parse_spec(addr@) == Ok::<(Seq<char>, u16), ServerAddrError>(
                (a.host_view(), a.port_view()),
            ),
            r matches Err(e) ==> parse_spec(addr@) == Err::<(Seq<char>, u16), ServerAddrError>(e),
    {
        if crate::misc::is_all_blank(addr) {
            return Err(ServerAddrError::ParseError(ParseError::Blank));
        }
        if crate::misc::contains_blank_char(addr) {
            return Err(ServerAddrError::ParseError(ParseError::HasBlankChar));
        }
        let len = addr.unicode_len();
        let mut count: usize = 0;
        let mut first: usize = 0;
        let mut found = false;
        for i in 0..len
            invariant
                len == addr@.len(),
                count as nat == colon_count(addr@.subrange(0, i as int)),
                count <= i,
                found ==> first < i && addr@[first as int] == ':' && forall|j: int|
                    0 <= j < first ==> addr@[j] != ':',
                !found ==> forall|j: int| 0 <= j < i ==> addr@[j] != ':',
        {
            let c = addr.get_char(i);
            proof {
                assert(addr@.subrange(0, i + 1).drop_last() =~= addr@.subrange(0, i as int));
                assert(addr@.subrange(0, i + 1).last() == addr@[i as int]);
            }
            if c == ':' {
                if !found {
                    first = i;
                    found = true;
                }
                count = count + 1;
            }
        }
        proof {
            assert(addr@.subrange(0, len as int) =~= addr@);
        }
        if count != 1 {
            return Err(
                ServerAddrError::ParseError(
                    ParseError::InvalidDelimiterCount { expected: 1, supplied: count },
                ),
            );
        }
        proof {
            if !found {
                lemma_no_colon_count_zero(addr@);
            }
            let ci = colon_index(addr@);
            assert(0 <= ci < addr@.len() && addr@[ci] == ':') by {
                assert(0 <= first as int && (first as int) < addr@.len() && addr@[first as int]
                    == ':');
            }
            if ci > first as int {
                lemma_two_colons_count_two(addr@, first as int, ci);
            }
            assert(ci == first as int);
        }
        let host_part = addr.substring_char(0, first);
        let port_part = addr.substring_char(first + 1, len);
        match parse_u16(port_part) {
            None => Err(ServerAddrError::ParseError(ParseError::InvalidPort)),
            Some(port) => {
                proof {
                    if has_blank_char(host_part@) {
                        let i = choose|i: int|
                            0 <= i < host_part@.len() && is_blank_char(host_part@[i]);
                        assert(addr@[i] == host_part@[i]);
                        assert(has_blank_char(addr@));
                    }
                }
                match ServerAddr::new(String::from_str(host_part), port) {
                    Ok(a) => Ok(a),
                    Err(e) => Err(e),
                }
            },
        }
    }
}

fn digit_str(d: u16) -> (r: &'static str)
    requires
        d < 10,
    ensures
        r@ == seq![digit_char(d as nat)],
{
    proof {
        reveal_strlit("0");
        reveal_strlit("1");
        reveal_strlit("2");
        reveal_strlit("3");
        reveal_strlit("4");
        reveal_strlit("5");
        reveal_strlit("6");
        reveal_strlit("7");
        reveal_strlit("8");
        reveal_strlit("9");
    }
    let r = if d == 0 {
        "0"
    } else if d == 1 {
        "1"
    } else if d == 2 {
        "2"
    } else if d == 3 {
        "3"
    } else if d == 4 {
        "4"
    } else if d == 5 {
        "5"
    } else if d == 6 {
        "6"
    } else if d == 7 {
        "7"
    } else if d == 8 {
        "8"
    } else {
        "9"
    };
    proof {
        assert(r@ =~= seq![digit_char(d as nat)]);
    }
    r
}

fn dec_digits_str(n: u16) -> (r: String)
    ensures
        r@ == dec_digits(n as nat),
    decreases n,
{
    if n < 10 {
        String::from_str(digit_str(n))
    } else {
        let mut s = dec_digits_str(n / 10);
        s.append(digit_str(n % 10));
        s
    }
}

/// Reads `s` as a decimal 16-bit unsigned numeral; `None` on an empty
/// text, a non-digit, or a value above 65535.
fn parse_u16(s: &str) -> (r: Option<u16>)
    ensures
        r matches Some(v) ==> valid_port_text(s@) && v == dec_val(s@) as u16,
        r is None ==> !valid_port_text(s@),
{
    let len = s.unicode_len();
    if len == 0 {
        return None;
    }
    let mut acc: u32 = 0;
    for i in 0..len
        invariant
            len == s@.len(),
            len > 0,
            forall|j: int| 0 <= j < i ==> is_digit(#[trigger] s@[j]),
            acc as int == dec_val(s@.subrange(0, i as int)),
            acc <= 65535,
    {
        let c = s.get_char(i);
        if c < '0' || c > '9' {
            return None;
        }
        proof {
            assert(s@.subrange(0, i + 1).drop_last() =~= s@.subrange(0, i as int));
            assert(s@.subrange(0, i + 1).last() == s@[i as int]);
        }
        let d: u32 = (c as u32) - 48;
        let next: u32 = acc * 10 + d;
        if next > 65535 {
            proof {
                if all_digits(s@) {
                    lemma_dec_val_prefix_bound(s@, i + 1);
                }
            }
            return None;
        }
        acc = next;
    }
    proof {
        assert(s@.subrange(0, len as int) =~= s@);
    }
    Some(acc as u16)
}

/// Round trip: rendering an address and parsing the text gives back the
/// same host and port. For every host that construction accepts and that
/// holds no `:`, and every port, `parse_spec` on the text that
/// `to_string` produces — the host, a `:`, and the port's decimal
/// numeral — succeeds with exactly that pair. A host with a `:` of its
/// own renders to a text with two delimiters, which `parse` rejects, so
/// such hosts stand outside this law.
pub proof fn lemma_to_string_parse_round_trip(host: Seq<char>, port: u16)
    requires
        host_check(host) is None,
        forall|i: int| 0 <= i < host.len() ==> host[i] != ':',
    ensures
        parse_spec(host + seq![':'] + dec_digits(port as nat)) == Ok::<
            (Seq<char>, u16),
            ServerAddrError,
        >((host, port)),
{
    let digits = dec_digits(port as nat);
    let text = host + seq![':'] + digits;
    let k = host.len() as int;
    lemma_dec_digits_wf(port as nat);
    assert forall|i: int| 0 <= i < digits.len() implies !is_blank_char(#[trigger] digits[i])
        && digits[i] != ':' by {
        assert(is_digit(digits[i]));
    }
    assert(text[k] == ':');
    assert(forall|i: int| 0 <= i < k ==> text[i] == host[i]);
    assert(forall|i: int| k < i < text.len() ==> text[i] == digits[i - k - 1]);

    // the text is not all blank: some host character is not blank
    assert(!all_blank(host));
    let w = choose|i: int| !(0 <= i < host.len() ==> is_blank_char(host[i]));
    assert(0 <= w < host.len() && !is_blank_char(host[w]));
    assert(text[w] == host[w]);
    assert(!all_blank(text));

    // the text has no blank character: the host has none, `:` and the
    // digits are none
    assert(!has_blank_char(host));
    assert(!has_blank_char(text)) by {
        if has_blank_char(text) {
            let b = choose|i: int| 0 <= i < text.len() && is_blank_char(text[i]);
            if b < k {
                assert(is_blank_char(host[b]));
                assert(has_blank_char(host));
            } else if b > k {
                assert(is_blank_char(digits[b - k - 1]));
            }
        }
    }

    // exactly one delimiter
    lemma_no_colon_count_zero(host);
    lemma_no_colon_count_zero(digits);
    let one_colon = seq![':'];
    assert(one_colon.len() == 1);
    assert(one_colon.last() == ':');
    assert(one_colon.drop_last() =~= Seq::<char>::empty());
    assert(colon_count(one_colon.drop_last()) == 0);
    assert(colon_count(one_colon) == colon_count(one_colon.drop_last()) + 1);
    lemma_colon_count_concat(host, seq![':']);
    lemma_colon_count_concat(host + seq![':'], digits);
    assert(text =~= (host + seq![':']) + digits);
    assert(colon_count(text) == 1);

    // the one delimiter stands at the end of the host
    let ci = colon_index(text);
    assert(0 <= ci < text.len() && text[ci] == ':') by {
        assert(0 <= k && k < text.len() && text[k] == ':');
    }
    assert(ci == k) by {
        if ci < k {
            assert(text[ci] == host[ci]);
        } else if ci > k {
            assert(text[ci] == digits[ci - k - 1]);
        }
    }

    // the split recovers the host and the numeral
    assert(text.subrange(0, k) =~= host);
    assert(text.subrange(k + 1, text.len() as int) =~= digits);

    // the numeral is a valid port text of the port's own value
    assert(valid_port_text(digits));
    assert(dec_val(digits) as u16 == port);
}

} // verus!
