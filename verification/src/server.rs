//! Decisions of the HTTP server front: the listening port, and which requests a
//! replica hands back to the primary region.

use vstd::prelude::*;
use crate::keyed::str_equal;
use crate::text::{chars_of, decimal, digit_char, push_str, string_from_chars};

verus! {

/// Whether `c` is an ASCII decimal digit.
pub open spec fn is_digit(c: char) -> bool {
    '0' <= c <= '9'
}

/// The value of a string of decimal digits.
pub open spec fn digits_value(s: Seq<char>) -> nat
    decreases s.len(),
{
    if s.len() == 0 {
        0
    } else {
        digits_value(s.drop_last()) * 10 + ((s.last() as u32) - 48) as nat
    }
}

/// What `str::parse::<u16>` accepts: an optional `+`, then one or more ASCII digits
/// whose value fits in 16 bits.
pub open spec fn parsed_u16(s: Seq<char>) -> Option<u16> {
    let digits = unsigned_digits(s);
    if digits.len() > 0 && (forall|i: int| 0 <= i < digits.len() ==> is_digit(#[trigger] digits[i]))
        && digits_value(digits) <= u16::MAX {
        Some(digits_value(digits) as u16)
    } else {
        None
    }
}

/// The characters that `parsed_u16` reads as digits.
pub open spec fn unsigned_digits(s: Seq<char>) -> Seq<char> {
    if s.len() > 0 && s[0] == '+' {
        s.drop_first()
    } else {
        s
    }
}

/// The port used when `PORT` is unset or not a valid port number.
pub open spec fn default_port() -> u16 {
    3000
}

/// The listening port for the value of the `PORT` variable.
pub open spec fn port_for(value: Option<Seq<char>>) -> u16 {
    match value {
        Some(v) => match parsed_u16(v) {
            Some(p) => p,
            None => default_port(),
        },
        None => default_port(),
    }
}

proof fn lemma_digits_value_monotone(s: Seq<char>, i: int)
    requires
        0 <= i <= s.len(),
        forall|k: int| 0 <= k < s.len() ==> is_digit(#[trigger] s[k]),
    ensures
        digits_value(s.take(i)) <= digits_value(s),
    decreases s.len() - i,
{
    if i < s.len() {
        lemma_digits_value_monotone(s, i + 1);
        assert(s.take(i + 1).drop_last() =~= s.take(i));
    } else {
        assert(s.take(i) =~= s);
    }
}

proof fn lemma_decimal_digits(n: nat)
    ensures
        decimal(n).len() > 0,
        forall|i: int| 0 <= i < decimal(n).len() ==> is_digit(#[trigger] decimal(n)[i]),
        digits_value(decimal(n)) == n,
    decreases n,
{
    if n < 10 {
        assert(decimal(n) == seq![digit_char(n as int)]);
        assert(decimal(n).drop_last() =~= Seq::<char>::empty());
        assert(digit_char(n as int) as u32 == n + 48);
        assert(digits_value(decimal(n)) == digits_value(Seq::<char>::empty()) * 10 + ((digit_char(n as int) as u32) - 48) as nat);
    } else {
        lemma_decimal_digits(n / 10);
        let d = decimal(n);
        assert(d.drop_last() =~= decimal(n / 10));
        assert(d.last() == digit_char((n % 10) as int));
        assert(digit_char((n % 10) as int) as u32 == n % 10 + 48);
        assert(digits_value(d) == n / 10 * 10 + n % 10);
        assert forall|i: int| 0 <= i < d.len() implies is_digit(#[trigger] d[i]) by {
            if i < d.len() - 1 {
                assert(d[i] == decimal(n / 10)[i]);
            }
        }
    }
}

/// Every port number written in decimal reads back as itself.
pub proof fn law_port_text_round_trip(p: u16)
    ensures
        parsed_u16(decimal(p as nat)) == Some(p),
        port_for(Some(decimal(p as nat))) == p,
{
    lemma_decimal_digits(p as nat);
    assert(decimal(p as nat)[0] != '+') by {
        assert(is_digit(decimal(p as nat)[0]));
    }
    assert(unsigned_digits(decimal(p as nat)) == decimal(p as nat));
}

/// `str::parse::<u16>`, as a port number is read.
pub fn parse_u16(text: &str) -> (r: Option<u16>)
    ensures
        r == parsed_u16(text@),
{
    let s = chars_of(text);
    let n = s.len();
    let mut i: usize = 0;
    if n > 0 && s[0] == '+' {
        i = 1;
    }
    let ghost digits = unsigned_digits(s@);
    let ghost first = i;
    assert(digits =~= s@.subrange(first as int, n as int));
    if i == n {
        return None;
    }
    let mut value: u32 = 0;
    while i < n
        invariant
            first <= i <= n == s@.len(),
            digits == s@.subrange(first as int, n as int),
            s@ == text@,
            digits == unsigned_digits(text@),
            forall|k: int| 0 <= k < i - first ==> is_digit(#[trigger] digits[k]),
            value == digits_value(digits.take(i - first)),
            value <= u16::MAX,
        decreases n - i,
    {
        let c = s[i];
        if !('0' <= c && c <= '9') {
            assert(!is_digit(digits[i - first]));
            assert(!(forall|k: int| 0 <= k < digits.len() ==> is_digit(#[trigger] digits[k])));
            assert(parsed_u16(text@) is None);
            return None;
        }
        assert(digits.take(i - first + 1).drop_last() =~= digits.take(i - first));
        let d = (c as u32) - 48;
        let next = value * 10 + d;
        if next > 65535 {
            proof {
                assert(digits_value(digits.take(i - first + 1)) == next);
                if forall|k: int| 0 <= k < digits.len() ==> is_digit(#[trigger] digits[k]) {
                    lemma_digits_value_monotone(digits, i - first + 1);
                }
                assert(parsed_u16(text@) is None);
            }
            return None;
        }
        value = next;
        i = i + 1;
    }
    assert(digits.take(n - first) =~= digits);
    Some(value as u16)
}

/// The listening port: the value of `PORT` when it is a valid port number,
/// otherwise 3000.
pub fn port_from_env(value: Option<&str>) -> (port: u16)
    ensures
        port == port_for(
            match value {
                Some(v) => Some(v@),
                None => None,
            },
        ),
{
    match value {
        Some(v) => match parse_u16(v) {
            Some(p) => p,
            None => 3000,
        },
        None => 3000,
    }
}

/// Methods that change state and so must run on the primary region.
pub open spec fn is_mutating_method(method: Seq<char>) -> bool {
    method == "POST"@ || method == "PUT"@ || method == "PATCH"@ || method == "DELETE"@
}

/// The `fly-replay` header value owed for a request, if any: when the machine
/// runs in a known region other than the primary one and the request mutates
/// state, the request is replayed on the primary region.
pub open spec fn replay_header_for(
    current_region: Option<Seq<char>>,
    primary_region: Seq<char>,
    method: Seq<char>,
) -> Option<Seq<char>> {
    match current_region {
        Some(r) => if r != primary_region && is_mutating_method(method) {
            Some("region="@ + primary_region)
        } else {
            None
        },
        None => None,
    }
}

/// Decides whether a request must be replayed on the primary region, from the
/// machine's `FLY_REGION` (when set), the primary region and the request method.
/// Returns the value of the `fly-replay` header to answer with (status 409), or
/// `None` when the request is served here.
pub fn fly_replay_header(current_region: Option<&str>, primary_region: &str, method: &str) -> (r:
    Option<String>)
    ensures
        match r {
            Some(h) => replay_header_for(
                match current_region {
                    Some(c) => Some(c@),
                    None => None,
                },
                primary_region@,
                method@,
            ) == Some(h@),
            None => replay_header_for(
                match current_region {
                    Some(c) => Some(c@),
                    None => None,
                },
                primary_region@,
                method@,
            ) is None,
        },
{
    match current_region {
        Some(region) => {
            if !str_equal(region, primary_region) {
                let mutating = str_equal(method, "POST") || str_equal(method, "PUT") || str_equal(
                    method,
                    "PATCH",
                ) || str_equal(method, "DELETE");
                if mutating {
                    let mut out: Vec<char> = Vec::new();
                    push_str(&mut out, "region=");
                    push_str(&mut out, primary_region);
                    return Some(string_from_chars(&out));
                }
            }
            None
        },
        None => None,
    }
}

} // verus!
