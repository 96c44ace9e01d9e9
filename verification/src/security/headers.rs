//! Response headers that harden every page against content sniffing, framing and
//! referrer leaks.

use vstd::prelude::*;

verus! {

/// The security headers, by name and value, in the order they are set.
pub open spec fn security_header_pairs() -> Seq<(Seq<char>, Seq<char>)> {
    seq![
        ("x-content-type-options"@, "nosniff"@),
        ("x-frame-options"@, "SAMEORIGIN"@),
        ("referrer-policy"@, "strict-origin-when-cross-origin"@),
    ]
}

/// A header name and value taken by their characters.
pub open spec fn header_pair_view(p: (&'static str, &'static str)) -> (Seq<char>, Seq<char>) {
    (p.0@, p.1@)
}

/// The standard security response headers: `X-Content-Type-Options: nosniff`,
/// `X-Frame-Options: SAMEORIGIN` and `Referrer-Policy: strict-origin-when-cross-origin`.
pub fn security_headers() -> (headers: Vec<(&'static str, &'static str)>)
    ensures
        headers@.map_values(|p: (&'static str, &'static str)| header_pair_view(p))
            == security_header_pairs(),
{
    let headers = vec![
        ("x-content-type-options", "nosniff"),
        ("x-frame-options", "SAMEORIGIN"),
        ("referrer-policy", "strict-origin-when-cross-origin"),
    ];
    assert(headers@.map_values(|p: (&'static str, &'static str)| header_pair_view(p))
        =~= security_header_pairs());
    headers
}

} // verus!
