//! Address, host name and URL checks that keep outbound requests away from private,
//! loopback, link-local, cloud-metadata and other reserved destinations.

use vstd::prelude::*;
use crate::text::{
    ascii_lower_chars, ascii_lower_seq, chars_of, contains_str, ends_with_str, equals_str,
    push_chars, push_str, result_view, seq_contains_seq, seq_ends_with, seq_starts_with,
    starts_with_str, string_from_chars, trim_chars, trim_end_char, trim_end_char_exec,
    trim_start_char, trim_start_char_exec, trim_ws,
};

verus! {

/// An IP address: four octets, or eight 16-bit segments.
#[derive(Clone, Copy, Debug, PartialEq, Eq)]
pub enum IpAddress {
    V4([u8; 4]),
    V6([u16; 8]),
}

/// Whether the IPv4 address `a.b.c.d` lies in a private, loopback, link-local,
/// shared, documentation, benchmarking, multicast or reserved block.
pub open spec fn ipv4_restricted(a: u8, b: u8, c: u8, d: u8) -> bool {
    ||| a == 0  // 0.0.0.0/8 "this network"
    ||| a == 10  // 10.0.0.0/8 private
    ||| (a == 100 && 64 <= b <= 127)  // 100.64.0.0/10 shared address space
    ||| a == 127  // 127.0.0.0/8 loopback
    ||| (a == 169 && b == 254)  // 169.254.0.0/16 link-local, cloud metadata
    ||| (a == 172 && 16 <= b <= 31)  // 172.16.0.0/12 private
    ||| (a == 192 && b == 0 && c == 0)  // 192.0.0.0/24 IETF protocol assignments
    ||| (a == 192 && b == 0 && c == 2)  // 192.0.2.0/24 TEST-NET-1
    ||| (a == 192 && b == 88 && c == 99)  // 192.88.99.0/24 6to4 relay anycast
    ||| (a == 192 && b == 168)  // 192.168.0.0/16 private
    ||| (a == 198 && 18 <= b <= 19)  // 198.18.0.0/15 benchmarking
    ||| (a == 198 && b == 51 && c == 100)  // 198.51.100.0/24 TEST-NET-2
    ||| (a == 203 && b == 0 && c == 113)  // 203.0.113.0/24 TEST-NET-3
    ||| 224 <= a  // 224.0.0.0/4 multicast, 240.0.0.0/4 reserved and broadcast
}

/// The IPv4 address held in two 16-bit segments, high byte first.
pub open spec fn embedded_ipv4(hi: u16, lo: u16) -> (u8, u8, u8, u8) {
    ((hi >> 8u16) as u8, (hi & 0xffu16) as u8, (lo >> 8u16) as u8, (lo & 0xffu16) as u8)
}

/// Whether the IPv4 address held in two segments is restricted.
pub open spec fn embedded_ipv4_restricted(hi: u16, lo: u16) -> bool {
    let (a, b, c, d) = embedded_ipv4(hi, lo);
    ipv4_restricted(a, b, c, d)
}

/// Whether the IPv6 address with segments `s` is loopback, unspecified, link-local,
/// unique-local, multicast, documentation or discard-only, a 6to4 address embedding a
/// restricted IPv4 address, or an IPv4-mapped or IPv4-compatible address whose IPv4
/// address is restricted.
pub open spec fn ipv6_restricted(s: Seq<u16>) -> bool {
    let zero_prefix5 = s[0] == 0 && s[1] == 0 && s[2] == 0 && s[3] == 0 && s[4] == 0;
    if (zero_prefix5 && s[5] == 0 && s[6] == 0 && (s[7] == 0 || s[7] == 1))  // :: and ::1
     || (s[0] & 0xffc0u16) == 0xfe80u16  // fe80::/10
     || (s[0] & 0xfe00u16) == 0xfc00u16  // fc00::/7
     || (s[0] & 0xff00u16) == 0xff00u16  // ff00::/8
     || (s[0] == 0x2001 && s[1] == 0x0db8)  // 2001:db8::/32
     || (s[0] == 0x0100 && s[1] == 0 && s[2] == 0 && s[3] == 0)  // 100::/64
     || (s[0] == 0x2002 && embedded_ipv4_restricted(s[1], s[2])) {  // 2002::/16 6to4
        true
    } else if zero_prefix5 && s[5] == 0xffff {
        embedded_ipv4_restricted(s[6], s[7])  // ::ffff:a.b.c.d
    } else if zero_prefix5 && s[5] == 0 {
        embedded_ipv4_restricted(s[6], s[7])  // ::a.b.c.d
    } else {
        false
    }
}

/// Whether an address of either family is restricted.
pub open spec fn ip_restricted(ip: IpAddress) -> bool {
    match ip {
        IpAddress::V4(o) => ipv4_restricted(o[0], o[1], o[2], o[3]),
        IpAddress::V6(s) => ipv6_restricted(s@),
    }
}

/// Returns true if the IPv4 address with these octets is in a private, loopback,
/// link-local, cloud metadata, multicast, or otherwise reserved/restricted range.
pub fn is_restricted_ipv4(octets: [u8; 4]) -> (r: bool)
    ensures
        r == ipv4_restricted(octets[0], octets[1], octets[2], octets[3]),
{
    let a = octets[0];
    let b = octets[1];
    let c = octets[2];
    if a == 0 {
        return true;
    }
    if a == 10 {
        return true;
    }
    if a == 100 && 64 <= b && b <= 127 {
        return true;
    }
    if a == 127 {
        return true;
    }
    if a == 169 && b == 254 {
        return true;
    }
    if a == 172 && 16 <= b && b <= 31 {
        return true;
    }
    if a == 192 && b == 0 && c == 0 {
        return true;
    }
    if a == 192 && b == 0 && c == 2 {
        return true;
    }
    if a == 192 && b == 88 && c == 99 {
        return true;
    }
    if a == 192 && b == 168 {
        return true;
    }
    if a == 198 && 18 <= b && b <= 19 {
        return true;
    }
    if a == 198 && b == 51 && c == 100 {
        return true;
    }
    if a == 203 && b == 0 && c == 113 {
        return true;
    }
    if 224 <= a && a <= 239 {
        return true;
    }
    if a >= 240 {
        return true;
    }
    false
}

fn embedded_ipv4_exec(hi: u16, lo: u16) -> (o: [u8; 4])
    ensures
        (o[0], o[1], o[2], o[3]) == embedded_ipv4(hi, lo),
{
    [(hi >> 8) as u8, (hi & 0xff) as u8, (lo >> 8) as u8, (lo & 0xff) as u8]
}

/// Returns true if the IPv6 address with these segments is in a private, loopback,
/// link-local, multicast, documentation, or IPv4-mapped/compatible restricted range.
pub fn is_restricted_ipv6(segments: [u16; 8]) -> (r: bool)
    ensures
        r == ipv6_restricted(segments@),
{
    let s = segments;
    // ::1 loopback and :: unspecified
    if s[0] == 0 && s[1] == 0 && s[2] == 0 && s[3] == 0 && s[4] == 0 && s[5] == 0 && s[6] == 0
        && (s[7] == 0 || s[7] == 1) {
        return true;
    }
    if (s[0] & 0xffc0) == 0xfe80 {
        return true;
    }
    if (s[0] & 0xfe00) == 0xfc00 {
        return true;
    }
    if (s[0] & 0xff00) == 0xff00 {
        return true;
    }
    if s[0] == 0x2001 && s[1] == 0x0db8 {
        return true;
    }
    if s[0] == 0x0100 && s[1] == 0 && s[2] == 0 && s[3] == 0 {
        return true;
    }
    if s[0] == 0x2002 {
        if is_restricted_ipv4(embedded_ipv4_exec(s[1], s[2])) {
            return true;
        }
    }
    if s[0] == 0 && s[1] == 0 && s[2] == 0 && s[3] == 0 && s[4] == 0 && s[5] == 0xffff {
        return is_restricted_ipv4(embedded_ipv4_exec(s[6], s[7]));
    }
    if s[0] == 0 && s[1] == 0 && s[2] == 0 && s[3] == 0 && s[4] == 0 && s[5] == 0 && (s[6] != 0
        || s[7] > 1) {
        return is_restricted_ipv4(embedded_ipv4_exec(s[6], s[7]));
    }
    false
}

/// Checks if an IP address (v4 or v6) is private or restricted.
pub fn is_private_or_restricted_ip(ip: IpAddress) -> (r: bool)
    ensures
        r == ip_restricted(ip),
{
    match ip {
        IpAddress::V4(o) => is_restricted_ipv4(o),
        IpAddress::V6(s) => is_restricted_ipv6(s),
    }
}


// ---------------------------------------------------------------------------
// Host names
// ---------------------------------------------------------------------------

/// Whether a host name is restricted: after trimming whitespace and ASCII
/// lower-casing it is a loopback or cloud-metadata name, or it ends in an internal or
/// private top-level domain.
pub open spec fn hostname_restricted(host: Seq<char>) -> bool {
    let h = ascii_lower_seq(trim_ws(host));
    ||| h == "localhost"@
    ||| h == "localhost.localdomain"@
    ||| h == "ip6-localhost"@
    ||| h == "ip6-loopback"@
    ||| h == "metadata.google.internal"@
    ||| h == "metadata"@
    ||| h == "instance-data"@
    ||| seq_ends_with(h, ".localhost"@)
    ||| seq_ends_with(h, ".local"@)
    ||| seq_ends_with(h, ".internal"@)
    ||| seq_ends_with(h, ".lan"@)
    ||| seq_ends_with(h, ".home"@)
    ||| seq_ends_with(h, ".corp"@)
    ||| seq_ends_with(h, ".invalid"@)
    ||| seq_ends_with(h, ".onion"@)
}

fn hostname_restricted_chars(lower: &Vec<char>) -> (r: bool)
    ensures
        r == ({
            let h = lower@;
            ||| h == "localhost"@
            ||| h == "localhost.localdomain"@
            ||| h == "ip6-localhost"@
            ||| h == "ip6-loopback"@
            ||| h == "metadata.google.internal"@
            ||| h == "metadata"@
            ||| h == "instance-data"@
            ||| seq_ends_with(h, ".localhost"@)
            ||| seq_ends_with(h, ".local"@)
            ||| seq_ends_with(h, ".internal"@)
            ||| seq_ends_with(h, ".lan"@)
            ||| seq_ends_with(h, ".home"@)
            ||| seq_ends_with(h, ".corp"@)
            ||| seq_ends_with(h, ".invalid"@)
            ||| seq_ends_with(h, ".onion"@)
        }),
{
    if equals_str(lower, "localhost") || equals_str(lower, "localhost.localdomain") || equals_str(
        lower,
        "ip6-localhost",
    ) || equals_str(lower, "ip6-loopback") || equals_str(lower, "metadata.google.internal")
        || equals_str(lower, "metadata") || equals_str(lower, "instance-data") {
        return true;
    }
    ends_with_str(lower, ".localhost") || ends_with_str(lower, ".local") || ends_with_str(
        lower,
        ".internal",
    ) || ends_with_str(lower, ".lan") || ends_with_str(lower, ".home") || ends_with_str(
        lower,
        ".corp",
    ) || ends_with_str(lower, ".invalid") || ends_with_str(lower, ".onion")
}

/// Checks if a hostname or domain name is restricted (e.g. localhost, cloud metadata,
/// local/internal domains).
pub fn is_restricted_hostname(host: &str) -> (r: bool)
    ensures
        r == hostname_restricted(host@),
{
    let chars = chars_of(host);
    let trimmed = trim_chars(&chars);
    let lower = ascii_lower_chars(&trimmed);
    hostname_restricted_chars(&lower)
}

// ---------------------------------------------------------------------------
// URLs
// ---------------------------------------------------------------------------

/// Outcome of normalizing user input into a URL to parse: the input without
/// surrounding whitespace, with `https://` put in front when it names no scheme.
pub open spec fn normalized_url(raw: Seq<char>) -> Result<Seq<char>, Seq<char>> {
    let clean = trim_ws(raw);
    if clean.len() == 0 {
        Err("URL cannot be empty"@)
    } else if !seq_starts_with(clean, "http://"@) && !seq_starts_with(clean, "https://"@) {
        if seq_contains_seq(clean, "://"@) {
            Err("Disallowed URL scheme. Only 'http' and 'https' are permitted."@)
        } else {
            Ok("https://"@ + clean)
        }
    } else {
        Ok(clean)
    }
}

/// Trims a raw URL and adds the `https://` scheme when it has none; any scheme other
/// than `http` and `https` is refused.
pub fn normalize_url_input(raw_url: &str) -> (res: Result<String, String>)
    ensures
        result_view(res) == normalized_url(raw_url@),
{
    let chars = chars_of(raw_url);
    let clean = trim_chars(&chars);
    if clean.len() == 0 {
        return Err(string_from_chars(&chars_of("URL cannot be empty")));
    }
    if !starts_with_str(&clean, "http://") && !starts_with_str(&clean, "https://") {
        if contains_str(&clean, "://") {
            return Err(
                string_from_chars(
                    &chars_of("Disallowed URL scheme. Only 'http' and 'https' are permitted."),
                ),
            );
        }
        let mut full: Vec<char> = Vec::new();
        push_str(&mut full, "https://");
        push_chars(&mut full, &clean);
        return Ok(string_from_chars(&full));
    }
    Ok(string_from_chars(&clean))
}

/// Outcome of checking a parsed URL's scheme and host: the scheme, lower-cased, must
/// be `http` or `https`; the host must be present and non-blank; its trimmed form must
/// not be a restricted host name. On success the trimmed host is returned.
pub open spec fn url_host_check(scheme: Seq<char>, host: Option<Seq<char>>) -> Result<
    Seq<char>,
    Seq<char>,
> {
    let sl = ascii_lower_seq(scheme);
    if sl != "http"@ && sl != "https"@ {
        Err("Invalid URL scheme '"@ + sl + "'. Only 'http' and 'https' are permitted."@)
    } else {
        match host {
            Some(h) if trim_ws(h).len() > 0 => {
                let t = trim_ws(h);
                if hostname_restricted(t) {
                    Err("Access to internal or reserved hostname '"@ + t + "' is blocked."@)
                } else {
                    Ok(t)
                }
            },
            _ => Err("URL must have a valid host"@),
        }
    }
}

/// Checks the scheme and host of a parsed URL; returns the trimmed host.
pub fn check_url_target(scheme: &str, host: Option<&str>) -> (res: Result<String, String>)
    ensures
        result_view(res) == url_host_check(
            scheme@,
            match host {
                Some(h) => Some(h@),
                None => None,
            },
        ),
{
    let sl = ascii_lower_chars(&chars_of(scheme));
    if !equals_str(&sl, "http") && !equals_str(&sl, "https") {
        let mut msg: Vec<char> = Vec::new();
        push_str(&mut msg, "Invalid URL scheme '");
        push_chars(&mut msg, &sl);
        push_str(&mut msg, "'. Only 'http' and 'https' are permitted.");
        return Err(string_from_chars(&msg));
    }
    let trimmed = match host {
        Some(h) => trim_chars(&chars_of(h)),
        None => Vec::new(),
    };
    if trimmed.len() == 0 {
        return Err(string_from_chars(&chars_of("URL must have a valid host")));
    }
    let t = string_from_chars(&trimmed);
    if is_restricted_hostname(t.as_str()) {
        let mut msg: Vec<char> = Vec::new();
        push_str(&mut msg, "Access to internal or reserved hostname '");
        push_chars(&mut msg, &trimmed);
        push_str(&mut msg, "' is blocked.");
        return Err(string_from_chars(&msg));
    }
    Ok(t)
}


/// A host with leading `[` and trailing `]` removed, as bracketed IPv6 literals come.
pub fn strip_ip_brackets(host: &str) -> (res: String)
    ensures
        res@ == trim_end_char(trim_start_char(host@, '['), ']'),
{
    let chars = chars_of(host);
    let a = trim_start_char_exec(&chars, '[');
    let b = trim_end_char_exec(&a, ']');
    string_from_chars(&b)
}

/// Outcome of checking an IP literal host: refused when the address is restricted,
/// naming the address as `ip_text` shows it.
pub open spec fn ip_literal_check(ip: IpAddress, ip_text: Seq<char>) -> Result<(), Seq<char>> {
    if ip_restricted(ip) {
        Err("Access to private or restricted IP address '"@ + ip_text + "' is blocked."@)
    } else {
        Ok(())
    }
}

/// Refuses a restricted IP literal host; `ip_text` is how the address is displayed.
pub fn check_ip_literal(ip: IpAddress, ip_text: &str) -> (res: Result<(), String>)
    ensures
        result_view(res) == ip_literal_check(ip, ip_text@),
{
    if is_private_or_restricted_ip(ip) {
        let mut msg: Vec<char> = Vec::new();
        push_str(&mut msg, "Access to private or restricted IP address '");
        push_str(&mut msg, ip_text);
        push_str(&mut msg, "' is blocked.");
        return Err(string_from_chars(&msg));
    }
    Ok(())
}

/// Index of the first restricted address, or the length when there is none.
pub open spec fn first_restricted(addrs: Seq<(IpAddress, String)>) -> int
    decreases addrs.len(),
{
    if addrs.len() == 0 {
        0
    } else if ip_restricted(addrs[0].0) {
        0
    } else {
        1 + first_restricted(addrs.drop_first())
    }
}

/// Outcome of checking the addresses a host name resolved to: a resolution error is
/// reported; the first restricted address refuses the host; no address at all refuses
/// it too.
pub open spec fn resolved_check(
    host: Seq<char>,
    resolution: Result<Seq<(IpAddress, String)>, Seq<char>>,
) -> Result<(), Seq<char>> {
    match resolution {
        Err(e) => Err("DNS resolution failed for '"@ + host + "': "@ + e),
        Ok(addrs) => {
            let i = first_restricted(addrs);
            if i < addrs.len() {
                Err(
                    "Host '"@ + host + "' resolved to private or restricted IP address '"@
                        + addrs[i].1@ + "'. Request blocked."@,
                )
            } else if addrs.len() == 0 {
                Err("Could not resolve hostname '"@ + host + "'."@)
            } else {
                Ok(())
            }
        },
    }
}

proof fn lemma_first_restricted(addrs: Seq<(IpAddress, String)>, i: int)
    requires
        0 <= i <= addrs.len(),
        forall|k: int| 0 <= k < i ==> !ip_restricted(#[trigger] addrs[k].0),
    ensures
        i < addrs.len() && ip_restricted(addrs[i].0) ==> first_restricted(addrs) == i,
        i == addrs.len() ==> first_restricted(addrs) == addrs.len(),
    decreases i,
{
    if i > 0 {
        lemma_first_restricted(addrs.drop_first(), i - 1);
    }
}

/// Checks the addresses a host name resolved to, each with its displayed form, or the
/// text of the resolution error.
pub fn check_resolved_addresses(
    host: &str,
    resolution: Result<Vec<(IpAddress, String)>, String>,
) -> (res: Result<(), String>)
    ensures
        result_view(res) == resolved_check(host@, result_view(resolution)),
{
    let ghost rv = result_view(resolution);
    match resolution {
        Err(e) => {
            let mut msg: Vec<char> = Vec::new();
            push_str(&mut msg, "DNS resolution failed for '");
            push_str(&mut msg, host);
            push_str(&mut msg, "': ");
            push_str(&mut msg, e.as_str());
            Err(string_from_chars(&msg))
        },
        Ok(addrs) => {
            let mut i: usize = 0;
            while i < addrs.len()
                invariant
                    i <= addrs@.len(),
                    rv == Ok::<Seq<(IpAddress, String)>, Seq<char>>(addrs@),
                    rv == result_view(resolution),
                    forall|k: int| 0 <= k < i ==> !ip_restricted(#[trigger] addrs@[k].0),
                decreases addrs@.len() - i,
            {
                if is_private_or_restricted_ip(addrs[i].0) {
                    proof {
                        lemma_first_restricted(addrs@, i as int);
                    }
                    let mut msg: Vec<char> = Vec::new();
                    push_str(&mut msg, "Host '");
                    push_str(&mut msg, host);
                    push_str(&mut msg, "' resolved to private or restricted IP address '");
                    push_str(&mut msg, addrs[i].1.as_str());
                    push_str(&mut msg, "'. Request blocked.");
                    return Err(string_from_chars(&msg));
                }
                i = i + 1;
            }
            proof {
                lemma_first_restricted(addrs@, i as int);
            }
            if addrs.len() == 0 {
                let mut msg: Vec<char> = Vec::new();
                push_str(&mut msg, "Could not resolve hostname '");
                push_str(&mut msg, host);
                push_str(&mut msg, "'.");
                return Err(string_from_chars(&msg));
            }
            Ok(())
        },
    }
}


// ---------------------------------------------------------------------------
// Laws
// ---------------------------------------------------------------------------

/// The 16-bit segment holding two octets, high octet first.
pub open spec fn segment_of(hi: u8, lo: u8) -> u16 {
    ((hi as u16) << 8u16) | (lo as u16)
}

proof fn lemma_segment_octets(hi: u8, lo: u8)
    ensures
        (segment_of(hi, lo) >> 8u16) as u8 == hi,
        (segment_of(hi, lo) & 0xffu16) as u8 == lo,
{
    assert((((hi as u16) << 8u16) | (lo as u16)) >> 8u16 == hi as u16) by (bit_vector);
    assert((((hi as u16) << 8u16) | (lo as u16)) & 0xffu16 == lo as u16) by (bit_vector);
}

/// An IPv6 address that embeds an IPv4 address `a.b.c.d`, IPv4-mapped
/// (`::ffff:a.b.c.d`) or IPv4-compatible (`::a.b.c.d`), is restricted exactly when the
/// IPv4 address is.
pub proof fn law_embedded_ipv4_agrees(a: u8, b: u8, c: u8, d: u8)
    ensures
        ipv6_restricted(seq![0u16, 0u16, 0u16, 0u16, 0u16, 0xffffu16, segment_of(a, b), segment_of(c, d)])
            == ipv4_restricted(a, b, c, d),
        ipv6_restricted(seq![0u16, 0u16, 0u16, 0u16, 0u16, 0u16, segment_of(a, b), segment_of(c, d)])
            == ipv4_restricted(a, b, c, d),
{
    lemma_segment_octets(a, b);
    lemma_segment_octets(c, d);
    assert(0u16 & 0xffc0u16 == 0u16) by (bit_vector);
    assert(0u16 & 0xfe00u16 == 0u16) by (bit_vector);
    assert(0u16 & 0xff00u16 == 0u16) by (bit_vector);
    assert((((a as u16) << 8u16) | (b as u16)) == 0u16 ==> a == 0u8) by (bit_vector);
}

/// A 6to4 address `2002:aabb:ccdd::/48` is restricted whenever the IPv4 address
/// `aa.bb.cc.dd` it carries is.
pub proof fn law_6to4_restricted(a: u8, b: u8, c: u8, d: u8, rest: Seq<u16>)
    requires
        rest.len() == 5,
        ipv4_restricted(a, b, c, d),
    ensures
        ipv6_restricted(seq![0x2002u16, segment_of(a, b), segment_of(c, d)] + rest),
{
    lemma_segment_octets(a, b);
    lemma_segment_octets(c, d);
    let s = seq![0x2002u16, segment_of(a, b), segment_of(c, d)] + rest;
    assert(s[0] == 0x2002u16 && s[1] == segment_of(a, b) && s[2] == segment_of(c, d));
}

/// Private networks (RFC 1918), loopback, link-local addresses (where cloud metadata
/// services answer), multicast and broadcast are all refused, and well-known public
/// resolvers are not.
pub proof fn law_private_networks_blocked(b: u8, c: u8, d: u8)
    ensures
        ip_restricted(IpAddress::V4([10u8, b, c, d])),
        16 <= b <= 31 ==> ip_restricted(IpAddress::V4([172u8, b, c, d])),
        ip_restricted(IpAddress::V4([192u8, 168u8, c, d])),
        ip_restricted(IpAddress::V4([127u8, b, c, d])),
        ip_restricted(IpAddress::V4([169u8, 254u8, c, d])),
        224 <= b ==> ip_restricted(IpAddress::V4([b, c, d, 0u8])),
        !ip_restricted(IpAddress::V4([8u8, 8u8, 8u8, 8u8])),
        !ip_restricted(IpAddress::V4([1u8, 1u8, 1u8, 1u8])),
{
}

// ---------------------------------------------------------------------------
// Whole-URL check
// ---------------------------------------------------------------------------

/// The parts of a parsed URL the checks read: its scheme, its host as written in the
/// URL (`None` when it has none), its port or the scheme's default (`None` when there
/// is neither), and, for an IP-address host, the address with its display text.
pub struct UrlParts {
    pub scheme: String,
    pub host: Option<String>,
    pub port: Option<u16>,
    pub ip: Option<(IpAddress, String)>,
}

/// The parsed parts of a URL, or the parse error's text, taken by their characters.
pub open spec fn url_parts_view(r: Result<UrlParts, String>) -> Result<
    (Seq<char>, Option<Seq<char>>, Option<u16>, Option<(IpAddress, Seq<char>)>),
    Seq<char>,
> {
    match r {
        Ok(p) => Ok(
            (
                p.scheme@,
                match p.host {
                    Some(h) => Some(h@),
                    None => None,
                },
                p.port,
                match p.ip {
                    Some((a, t)) => Some((a, t@)),
                    None => None,
                },
            ),
        ),
        Err(e) => Err(e@),
    }
}

/// What `url::Url::parse` makes of `input` (WHATWG URL parsing): the scheme, the
/// host string, the port or the scheme's default, and for an IPv4 or IPv6 host the
/// address and its standard display; or the text of the parse error.
pub uninterp spec fn url_parts_of(input: Seq<char>) -> Result<
    (Seq<char>, Option<Seq<char>>, Option<u16>, Option<(IpAddress, Seq<char>)>),
    Seq<char>,
>;

/// `url::Url::parse` with `Url::scheme`, `Url::host_str`, `Url::port_or_known_default`
/// and `Url::host`: the parts of the URL the checks read, or the error as text. The
/// result is named; the WHATWG parsing rules are not restated.
#[verifier::external_body]
fn parse_url_parts(input: &str) -> (r: Result<UrlParts, String>)
    ensures
        url_parts_view(r) == url_parts_of(input@),
{
    let url = url::Url::parse(input).map_err(|e| e.to_string())?;
    let ip = match url.host() {
        Some(url::Host::Ipv4(a)) => Some((IpAddress::V4(a.octets()), a.to_string())),
        Some(url::Host::Ipv6(a)) => Some((IpAddress::V6(a.segments()), a.to_string())),
        _ => None,
    };
    let host = url.host_str().map(|h| h.to_string());
    Ok(UrlParts { scheme: url.scheme().to_string(), host, port: url.port_or_known_default(), ip })
}

/// The port a host name is resolved on: the URL's port or its scheme's default, else 80.
pub open spec fn port_or_80(port: Option<u16>) -> u16 {
    match port {
        Some(p) => p,
        None => 80,
    }
}

/// What remains to check of a URL once its text is accepted: nothing for an IP
/// literal, or the addresses its host name resolves to.
#[derive(Debug, Clone, PartialEq, Eq)]
pub enum UrlCheck {
    Done,
    Resolve { host: String, port: u16 },
}

/// `UrlCheck` taken by its characters.
pub enum UrlCheckView {
    Done,
    Resolve(Seq<char>, u16),
}

/// The outcome of checking raw URL input before any name resolution: the input is
/// normalized, parsed, its scheme and host checked; an IP-literal host is then judged
/// on its address, and any other host is left for resolution on its port, or on port
/// 80 when the URL names none and its scheme has no default.
pub open spec fn url_ssrf_check(raw: Seq<char>) -> Result<UrlCheckView, Seq<char>> {
    match normalized_url(raw) {
        Err(e) => Err(e),
        Ok(full) => match url_parts_of(full) {
            Err(e) => Err("Invalid URL format: "@ + e),
            Ok((scheme, host, port, ip)) => match url_host_check(scheme, host) {
                Err(e) => Err(e),
                Ok(h) => match ip {
                    Some((a, text)) => match ip_literal_check(a, text) {
                        Err(e) => Err(e),
                        Ok(_) => Ok(UrlCheckView::Done),
                    },
                    None => Ok(UrlCheckView::Resolve(h, port_or_80(port))),
                },
            },
        },
    }
}

/// `UrlCheck` results taken by their characters.
pub open spec fn url_check_view(r: Result<UrlCheck, String>) -> Result<UrlCheckView, Seq<char>> {
    match r {
        Ok(UrlCheck::Done) => Ok(UrlCheckView::Done),
        Ok(UrlCheck::Resolve { host, port }) => Ok(UrlCheckView::Resolve(host@, port)),
        Err(e) => Err(e@),
    }
}

/// Checks raw URL input against server-side request forgery up to name resolution:
/// only `http` and `https` to a host that is no reserved name and no restricted IP
/// address. Returns what is left to check: nothing, or the host name to resolve and
/// the port to resolve it on (see `check_resolved_addresses`).
pub fn check_url_for_ssrf(raw_url: &str) -> (r: Result<UrlCheck, String>)
    ensures
        url_check_view(r) == url_ssrf_check(raw_url@),
        r matches Ok(UrlCheck::Resolve { port, .. }) ==> normalized_url(raw_url@) matches Ok(full)
            && url_parts_of(full) matches Ok(parts) && port == port_or_80(parts.2),
{
    let full = match normalize_url_input(raw_url) {
        Ok(f) => f,
        Err(e) => {
            return Err(e);
        },
    };
    let parts = match parse_url_parts(full.as_str()) {
        Ok(p) => p,
        Err(e) => {
            let mut msg: Vec<char> = Vec::new();
            push_str(&mut msg, "Invalid URL format: ");
            push_str(&mut msg, e.as_str());
            return Err(string_from_chars(&msg));
        },
    };
    let host = match &parts.host {
        Some(h) => Some(h.as_str()),
        None => None,
    };
    let checked = check_url_target(parts.scheme.as_str(), host);
    let h = match checked {
        Ok(h) => h,
        Err(e) => {
            return Err(e);
        },
    };
    match &parts.ip {
        Some((a, text)) => match check_ip_literal(*a, text.as_str()) {
            Ok(()) => Ok(UrlCheck::Done),
            Err(e) => Err(e),
        },
        None => {
            let port = match parts.port {
                Some(p) => p,
                None => 80,
            };
            Ok(UrlCheck::Resolve { host: h, port })
        },
    }
}

/// The most redirects an outbound request follows.
pub open spec fn max_redirects() -> usize {
    10
}

/// The verdict on following a redirect after `previous_hops` earlier hops to
/// `target`: refused past the limit, else the URL check with its refusal prefixed.
pub open spec fn redirect_check(previous_hops: usize, target: Seq<char>) -> Result<UrlCheckView, Seq<char>> {
    if previous_hops >= max_redirects() {
        Err("Too many redirects"@)
    } else {
        match url_ssrf_check(target) {
            Err(e) => Err("SSRF Protection blocked redirect: "@ + e),
            Ok(c) => Ok(c),
        }
    }
}

/// Decides whether an outbound request may follow a redirect to `target_url` after
/// `previous_hops` hops; what is left is the name resolution of the target's host.
pub fn check_redirect(previous_hops: usize, target_url: &str) -> (r: Result<UrlCheck, String>)
    ensures
        url_check_view(r) == redirect_check(previous_hops, target_url@),
        r matches Ok(UrlCheck::Resolve { port, .. }) ==> normalized_url(target_url@) matches Ok(full)
            && url_parts_of(full) matches Ok(parts) && port == port_or_80(parts.2),
{
    if previous_hops >= 10 {
        return Err("Too many redirects".to_owned());
    }
    match check_url_for_ssrf(target_url) {
        Ok(c) => Ok(c),
        Err(e) => {
            let mut msg: Vec<char> = Vec::new();
            push_str(&mut msg, "SSRF Protection blocked redirect: ");
            push_str(&mut msg, e.as_str());
            Err(string_from_chars(&msg))
        },
    }
}

/// Unique-local (fc00::/7: a first segment from fc00 to fdff, which includes the
/// fd00::/8 block in use for private networks), link-local (fe80::/10: fe80 to febf)
/// and multicast (ff00::/8) IPv6 addresses are restricted, whatever their other
/// segments.
pub proof fn law_ipv6_private_blocks_restricted(a: [u16; 8])
    ensures
        0xfc00 <= a[0] <= 0xfdff ==> ip_restricted(IpAddress::V6(a)),
        0xfe80 <= a[0] <= 0xfebf ==> ip_restricted(IpAddress::V6(a)),
        0xff00 <= a[0] ==> ip_restricted(IpAddress::V6(a)),
{
    let x = a[0];
    assert(0xfc00u16 <= x <= 0xfdffu16 ==> (x & 0xfe00u16) == 0xfc00u16) by (bit_vector);
    assert(0xfe80u16 <= x <= 0xfebfu16 ==> (x & 0xffc0u16) == 0xfe80u16) by (bit_vector);
    assert(0xff00u16 <= x ==> (x & 0xff00u16) == 0xff00u16) by (bit_vector);
    assert(a@[0] == x);
}

/// Every host whose trimmed, lower-cased name is one of the reserved names, or ends
/// in one of the reserved suffixes, is restricted.
pub proof fn law_reserved_names_restricted(host: Seq<char>, prefix: Seq<char>, name: Seq<char>)
    ensures
        ascii_lower_seq(trim_ws(host)) == name && (name == "localhost"@ || name
            == "localhost.localdomain"@ || name == "ip6-localhost"@ || name == "ip6-loopback"@
            || name == "metadata.google.internal"@ || name == "metadata"@ || name
            == "instance-data"@) ==> hostname_restricted(host),
        ascii_lower_seq(trim_ws(host)) == prefix + name && (name == ".localhost"@ || name
            == ".local"@ || name == ".internal"@ || name == ".lan"@ || name == ".home"@ || name
            == ".corp"@ || name == ".invalid"@ || name == ".onion"@) ==> hostname_restricted(host),
{
    let h = ascii_lower_seq(trim_ws(host));
    if h == prefix + name {
        assert(h.subrange(h.len() - name.len(), h.len() as int) =~= name);
    }
}

/// The remaining reserved IPv4 blocks are refused as well ("this network" 0/8,
/// shared address space 100.64/10, IETF assignments 192.0.0/24, the documentation
/// blocks 192.0.2/24, 198.51.100/24 and 203.0.113/24, the 6to4 relay 192.88.99/24 and
/// benchmarking 198.18/15), while an address whose first octet lies outside every
/// reserved block is allowed whatever its other octets.
pub proof fn law_ipv4_blocks(a: u8, b: u8, c: u8, d: u8)
    ensures
        a == 0 ==> ipv4_restricted(a, b, c, d),
        a == 100 && 64 <= b <= 127 ==> ipv4_restricted(a, b, c, d),
        a == 192 && b == 0 && (c == 0 || c == 2) ==> ipv4_restricted(a, b, c, d),
        a == 192 && b == 88 && c == 99 ==> ipv4_restricted(a, b, c, d),
        a == 198 && (b == 18 || b == 19) ==> ipv4_restricted(a, b, c, d),
        a == 198 && b == 51 && c == 100 ==> ipv4_restricted(a, b, c, d),
        a == 203 && b == 0 && c == 113 ==> ipv4_restricted(a, b, c, d),
        (1 <= a <= 9 || 11 <= a <= 99 || 101 <= a <= 126 || 128 <= a <= 168 || 170 <= a <= 171
            || 173 <= a <= 191 || 193 <= a <= 197 || 199 <= a <= 202 || 204 <= a <= 223)
            ==> !ipv4_restricted(a, b, c, d),
        a == 100 && (b < 64 || b > 127) ==> !ipv4_restricted(a, b, c, d),
        a == 172 && (b < 16 || b > 31) ==> !ipv4_restricted(a, b, c, d),
{
}

/// Loopback `::1`, the unspecified `::`, documentation (2001:db8::/32) and
/// discard-only (100::/64) IPv6 addresses are refused; a global unicast address
/// (2000::/3) outside the documentation and 6to4 blocks is allowed.
pub proof fn law_ipv6_special_and_global(a: [u16; 8])
    ensures
        a@ == seq![0u16, 0u16, 0u16, 0u16, 0u16, 0u16, 0u16, 1u16] ==> ip_restricted(
            IpAddress::V6(a),
        ),
        a@ == seq![0u16, 0u16, 0u16, 0u16, 0u16, 0u16, 0u16, 0u16] ==> ip_restricted(
            IpAddress::V6(a),
        ),
        a[0] == 0x2001 && a[1] == 0x0db8 ==> ip_restricted(IpAddress::V6(a)),
        a[0] == 0x0100 && a[1] == 0 && a[2] == 0 && a[3] == 0 ==> ip_restricted(IpAddress::V6(a)),
        0x2000 <= a[0] <= 0x3fff && a[0] != 0x2002 && !(a[0] == 0x2001 && a[1] == 0x0db8)
            ==> !ip_restricted(IpAddress::V6(a)),
{
    let x = a[0];
    assert(0x2000u16 <= x <= 0x3fffu16 ==> (x & 0xffc0u16) != 0xfe80u16 && (x & 0xfe00u16)
        != 0xfc00u16 && (x & 0xff00u16) != 0xff00u16) by (bit_vector);
    assert(a@[0] == x && a@[1] == a[1] && a@[2] == a[2] && a@[3] == a[3]);
}

} // verus!
