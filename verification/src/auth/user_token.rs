//! Anonymous device or user tokens carried by incoming requests.

use vstd::prelude::*;
use crate::text::{
    chars_of, equals_str, find_char_from, first_index_of, lemma_first_index_bounds, slice_chars,
    string_from_chars, trim_chars, trim_ws,
};

verus! {

/// Whether a non-ASCII `c` is alphabetic or numeric in Unicode, as
/// `char::is_alphanumeric` decides.
pub uninterp spec fn char_is_alphanumeric(c: char) -> bool;

/// Alphanumeric characters: on ASCII exactly the letters and the decimal digits,
/// elsewhere the Unicode `Alphabetic` and `Numeric` characters.
pub open spec fn alphanumeric(c: char) -> bool {
    if (c as u32) < 128 {
        ('a' <= c <= 'z') || ('A' <= c <= 'Z') || ('0' <= c <= '9')
    } else {
        char_is_alphanumeric(c)
    }
}

/// `char::is_alphanumeric`: Unicode `Alphabetic` or `Numeric`. Its Unicode tables are
/// not restated: the result is named for non-ASCII characters, and stated on ASCII
/// characters, where exactly the letters and the decimal digits are alphanumeric.
#[verifier::external_body]
fn is_alphanumeric(c: char) -> (b: bool)
    ensures
        b == alphanumeric(c),
        (c as u32) >= 128 ==> b == char_is_alphanumeric(c),
{
    c.is_alphanumeric()
}

/// Characters a token keeps: alphanumerics, `-` and `_`.
pub open spec fn token_char(c: char) -> bool {
    alphanumeric(c) || c == '-' || c == '_'
}

/// The characters of `s` that a token keeps, in order.
pub open spec fn token_chars(s: Seq<char>) -> Seq<char>
    decreases s.len(),
{
    if s.len() == 0 {
        Seq::empty()
    } else {
        token_chars(s.drop_last()) + if token_char(s.last()) {
            seq![s.last()]
        } else {
            Seq::empty()
        }
    }
}

/// At most the first 128 characters.
pub open spec fn cap_128(s: Seq<char>) -> Seq<char> {
    if s.len() <= 128 {
        s
    } else {
        s.take(128)
    }
}

/// A sanitized token: the kept characters of `s`, at most 128 of them.
pub open spec fn sanitize_token(s: Seq<char>) -> Seq<char> {
    cap_128(token_chars(s))
}

/// The value of a `key=value` query pair: the text between the first `=` and the
/// next `=` or the end; `None` when the pair has no `=`.
pub open spec fn pair_value(pair: Seq<char>) -> Option<Seq<char>> {
    let j = first_index_of(pair, '=');
    if j < pair.len() {
        let rest = pair.subrange(j + 1, pair.len() as int);
        Some(rest.subrange(0, first_index_of(rest, '=')))
    } else {
        None
    }
}

/// Whether a query pair carries a token: its key is `token`, `user_token` or
/// `x-user-token` and its value is not blank.
pub open spec fn pair_carries_token(pair: Seq<char>) -> bool {
    let key = pair.subrange(0, first_index_of(pair, '='));
    match pair_value(pair) {
        Some(v) => (key == "token"@ || key == "user_token"@ || key == "x-user-token"@) && trim_ws(
            v,
        ).len() > 0,
        None => false,
    }
}

/// The value of the first `&`-separated pair of a query string that carries a token.
pub open spec fn query_token(q: Seq<char>) -> Option<Seq<char>>
    decreases q.len(),
{
    let i = first_index_of(q, '&');
    proof {
        lemma_first_index_bounds(q, '&');
    }
    let pair = q.subrange(0, i);
    if pair_carries_token(pair) {
        pair_value(pair)
    } else if i < q.len() {
        query_token(q.subrange(i + 1, q.len() as int))
    } else {
        None
    }
}

/// The token a request carries: the `x-user-token` header when it is not blank,
/// otherwise the first query pair `token`, `user_token` or `x-user-token` with a
/// non-blank value, otherwise the empty token. The text found is sanitized.
pub open spec fn request_token(header: Option<Seq<char>>, query: Option<Seq<char>>) -> Seq<char> {
    match header {
        Some(h) if trim_ws(h).len() > 0 => sanitize_token(h),
        _ => match query {
            Some(q) => match query_token(q) {
                Some(v) => sanitize_token(v),
                None => Seq::empty(),
            },
            None => Seq::empty(),
        },
    }
}

proof fn lemma_token_chars_kept(s: Seq<char>)
    ensures
        forall|i: int| 0 <= i < token_chars(s).len() ==> token_char(#[trigger] token_chars(s)[i]),
    decreases s.len(),
{
    if s.len() > 0 {
        lemma_token_chars_kept(s.drop_last());
        let prev = token_chars(s.drop_last());
        assert forall|i: int| 0 <= i < token_chars(s).len() implies token_char(
            #[trigger] token_chars(s)[i],
        ) by {
            if i < prev.len() {
                assert(token_chars(s)[i] == prev[i]);
            }
        }
    }
}

proof fn lemma_token_chars_fixed(u: Seq<char>)
    requires
        forall|i: int| 0 <= i < u.len() ==> token_char(#[trigger] u[i]),
    ensures
        token_chars(u) == u,
    decreases u.len(),
{
    if u.len() > 0 {
        let init = u.drop_last();
        assert forall|i: int| 0 <= i < init.len() implies token_char(#[trigger] init[i]) by {
            assert(init[i] == u[i]);
        }
        lemma_token_chars_fixed(init);
        assert(token_char(u[u.len() - 1]));
        assert(init + seq![u.last()] =~= u);
    }
}

/// Sanitizing is idempotent: a sanitized token is its own sanitization, so building
/// a token from a token's text gives the same token back.
pub proof fn law_sanitize_idempotent(s: Seq<char>)
    ensures
        sanitize_token(sanitize_token(s)) == sanitize_token(s),
        sanitize_token(s).len() <= 128,
        forall|i: int|
            0 <= i < sanitize_token(s).len() ==> token_char(#[trigger] sanitize_token(s)[i]),
{
    let t = token_chars(s);
    lemma_token_chars_kept(s);
    let c = cap_128(t);
    assert forall|i: int| 0 <= i < c.len() implies token_char(#[trigger] c[i]) by {
        assert(c[i] == t[i]);
    }
    lemma_token_chars_fixed(c);
}

/// Represents an anonymous device or user token extracted from incoming requests.
/// Looks in `x-user-token` header first, then query parameters (`token` or `user_token`).
#[derive(Debug, Clone, PartialEq, Eq, Hash)]
pub struct UserToken(String);

impl View for UserToken {
    type V = Seq<char>;

    closed spec fn view(&self) -> Seq<char> {
        self.0@
    }
}

/// The value of the first query pair that carries a token, if any.
fn find_query_token(s: &Vec<char>) -> (r: Option<Vec<char>>)
    ensures
        match r {
            Some(v) => query_token(s@) == Some(v@),
            None => query_token(s@) is None,
        },
{
    let n = s.len();
    let mut start: usize = 0;
    assert(s@.subrange(0, n as int) =~= s@);
    loop
        invariant
            start <= n == s@.len(),
            query_token(s@) == query_token(s@.subrange(start as int, n as int)),
        decreases n - start,
    {
        let ghost rest = s@.subrange(start as int, n as int);
        let end = find_char_from(s, start, '&');
        proof {
            lemma_first_index_bounds(rest, '&');
        }
        let pair = slice_chars(s, start, end);
        assert(pair@ =~= rest.subrange(0, first_index_of(rest, '&')));
        let eq = find_char_from(&pair, 0, '=');
        assert(pair@.subrange(0, pair@.len() as int) =~= pair@);
        if eq < pair.len() {
            let key = slice_chars(&pair, 0, eq);
            let vend = find_char_from(&pair, eq + 1, '=');
            let value = slice_chars(&pair, eq + 1, vend);
            let ghost rest2 = pair@.subrange(eq + 1, pair@.len() as int);
            assert(value@ =~= rest2.subrange(0, first_index_of(rest2, '=')));
            assert(pair_value(pair@) == Some(value@));
            let named = equals_str(&key, "token") || equals_str(&key, "user_token")
                || equals_str(&key, "x-user-token");
            if named && trim_chars(&value).len() > 0 {
                assert(pair_carries_token(pair@));
                return Some(value);
            }
            assert(!pair_carries_token(pair@));
        } else {
            assert(pair_value(pair@) is None);
        }
        if end >= n {
            assert(query_token(rest) is None);
            return None;
        }
        assert(rest.subrange(first_index_of(rest, '&') + 1, rest.len() as int) =~= s@.subrange(
            end + 1,
            n as int,
        ));
        start = end + 1;
    }
}

impl UserToken {
    /// Creates a new UserToken after sanitization: only alphanumeric characters,
    /// `-` and `_` are kept, at most 128 of them.
    pub fn new(token: &str) -> (t: Self)
        ensures
            t@ == sanitize_token(token@),
    {
        let chars = chars_of(token);
        let mut out: Vec<char> = Vec::new();
        let mut i: usize = 0;
        while i < chars.len()
            invariant
                i <= chars@.len(),
                out@ == cap_128(token_chars(chars@.take(i as int))),
            decreases chars@.len() - i,
        {
            let c = chars[i];
            assert(chars@.take(i + 1).drop_last() =~= chars@.take(i as int));
            let keep = is_alphanumeric(c) || c == '-' || c == '_';
            let ghost before = token_chars(chars@.take(i as int));
            if keep && out.len() < 128 {
                out.push(c);
                assert(out@ =~= cap_128(before + seq![c]));
            } else if keep {
                assert(cap_128(before + seq![c]) =~= cap_128(before));
            } else {
                assert(before + Seq::<char>::empty() =~= before);
            }
            i = i + 1;
        }
        assert(chars@.take(chars@.len() as int) =~= chars@);
        UserToken(string_from_chars(&out))
    }

    /// The token from a request's `x-user-token` header value and query string, as
    /// the request extractor reads them.
    pub fn from_request_sources(header: Option<&str>, query: Option<&str>) -> (t: Self)
        ensures
            t@ == request_token(
                match header {
                    Some(h) => Some(h@),
                    None => None,
                },
                match query {
                    Some(q) => Some(q@),
                    None => None,
                },
            ),
    {
        if let Some(h) = header {
            let trimmed = trim_chars(&chars_of(h));
            if trimmed.len() > 0 {
                return UserToken::new(h);
            }
        }
        if let Some(q) = query {
            let s = chars_of(q);
            if let Some(v) = find_query_token(&s) {
                let text = string_from_chars(&v);
                return UserToken::new(text.as_str());
            }
        }
        UserToken(string_from_chars(&Vec::new()))
    }

    /// Returns the underlying token string.
    pub fn as_str(&self) -> (s: &str)
        ensures
            s@ == self@,
    {
        self.0.as_str()
    }

    /// Returns true if the token is non-empty.
    pub fn is_present(&self) -> (b: bool)
        ensures
            b == (self@.len() > 0),
    {
        !self.0.as_str().is_empty()
    }
}

} // verus!
