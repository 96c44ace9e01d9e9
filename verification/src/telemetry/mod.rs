//! W3C Trace Context (`traceparent`) header parsing and propagation.
//!
//! traceparent format: `{version}-{trace-id}-{parent-id}-{flags}`
//! Example: `00-4bf92f3577b34da6a3ce929d0e0e4736-00f067aa0ba902b7-01`

use vstd::prelude::*;
use crate::clock::wall_clock_subsec_nanos;
use crate::text::{ascii_lower_chars, ascii_lower_seq, chars_of, push_str, string_from_chars};

verus! {

/// Mixes a clock reading and a call counter into a pseudo-random 64-bit value:
/// two multiplicative hashes added, then XORed with rotations of both inputs.
pub open spec fn mix_u64(nanos: u64, count: u64) -> u64 {
    nanos.wrapping_mul(6364136223846793005u64).wrapping_add(
        count.wrapping_mul(1442695040888963407u64),
    ) ^ ((nanos << 17u64) | (nanos >> 47u64)) ^ ((count >> 31u64) | (count << 33u64))
}

/// Pseudo-random 64-bit value from the sub-second nanoseconds of the wall clock and
/// a process-wide call counter.
pub fn pseudo_random_u64(nanos: u64, count: u64) -> (r: u64)
    ensures
        r == mix_u64(nanos, count),
{
    nanos.wrapping_mul(6364136223846793005).wrapping_add(count.wrapping_mul(1442695040888963407))
        ^ ((nanos << 17) | (nanos >> 47)) ^ ((count >> 31) | (count << 33))
}

/// Source of pseudo-random ids: the wall clock's sub-second nanoseconds mixed with a
/// count of the values drawn so far.
pub struct RandomSource {
    count: u64,
}

impl RandomSource {
    /// How many values were drawn, modulo 2^64.
    pub closed spec fn drawn(&self) -> u64 {
        self.count
    }

    /// A source that has drawn nothing yet.
    pub fn new() -> (source: Self)
        ensures
            source.drawn() == 0,
    {
        RandomSource { count: 0 }
    }

    /// The next pseudo-random value: the mix of the clock's sub-second nanoseconds
    /// and the count so far, which then goes up by one.
    pub fn next_u64(&mut self) -> (r: u64)
        ensures
            final(self).drawn() == old(self).drawn().wrapping_add(1),
            exists|nanos: u64| nanos < 1_000_000_000 && r == #[trigger] mix_u64(nanos, old(self).drawn()),
    {
        let nanos = wall_clock_subsec_nanos() as u64;
        let count = self.count;
        self.count = self.count.wrapping_add(1);
        let r = pseudo_random_u64(nanos, count);
        assert(count == old(self).drawn());
        assert(mix_u64(nanos, old(self).drawn()) == r);
        r
    }
}

/// Parsed and validated W3C Trace Context carried by a request or response.
#[derive(Debug, Clone, PartialEq, Eq)]
pub struct TraceContext {
    /// 32 lowercase hex characters — the W3C trace-id field.
    pub trace_id: String,
    /// 16 lowercase hex characters — the W3C parent-id / span-id field.
    pub span_id: String,
    /// Trace flags byte. Bit 0 (`0x01`) means "sampled".
    pub flags: u8,
}

/// Extractor payload carrying the trace context of the current request.
pub struct TraceContextExt(pub TraceContext);

/// ASCII hexadecimal digits, in either case.
pub open spec fn is_ascii_hex_digit(c: char) -> bool {
    ('0' <= c <= '9') || ('a' <= c <= 'f') || ('A' <= c <= 'F')
}

/// Every character of `s` is a hexadecimal digit.
pub open spec fn all_hex(s: Seq<char>) -> bool {
    forall|i: int| 0 <= i < s.len() ==> is_ascii_hex_digit(#[trigger] s[i])
}

/// The value of a hexadecimal digit.
pub open spec fn hex_digit_value(c: char) -> nat {
    if '0' <= c <= '9' {
        (c as u32 - 48) as nat
    } else if 'a' <= c <= 'f' {
        (c as u32 - 87) as nat
    } else {
        (c as u32 - 55) as nat
    }
}

/// Value of a string of hexadecimal digits.
pub open spec fn hex_value(s: Seq<char>) -> nat
    decreases s.len(),
{
    if s.len() == 0 {
        0
    } else {
        16 * hex_value(s.drop_last()) + hex_digit_value(s.last())
    }
}

/// `u8::from_str_radix(s, 16)`: an optional `+`, then at least one hexadecimal digit,
/// with a value below 256.
pub open spec fn parse_hex_u8(s: Seq<char>) -> Option<u8> {
    let digits = if s.len() > 0 && s[0] == '+' {
        s.drop_first()
    } else {
        s
    };
    if digits.len() > 0 && all_hex(digits) && hex_value(digits) < 256 {
        Some(hex_value(digits) as u8)
    } else {
        None
    }
}

/// Index of the first `-` in `s`, or its length.
pub open spec fn first_dash(s: Seq<char>) -> int
    decreases s.len(),
{
    if s.len() == 0 {
        0
    } else if s[0] == '-' {
        0
    } else {
        1 + first_dash(s.drop_first())
    }
}

/// `s` split at its first `-`, when it has one.
pub open spec fn split_at_dash(s: Seq<char>) -> Option<(Seq<char>, Seq<char>)> {
    let i = first_dash(s);
    if i < s.len() {
        Some((s.subrange(0, i), s.subrange(i + 1, s.len() as int)))
    } else {
        None
    }
}

/// The four fields of `version-trace-id-parent-id-flags`, split at the first three
/// dashes; the flags field keeps any further dashes.
pub open spec fn traceparent_fields(s: Seq<char>) -> Option<(Seq<char>, Seq<char>, Seq<char>, Seq<char>)> {
    match split_at_dash(s) {
        None => None,
        Some((version, r0)) => match split_at_dash(r0) {
            None => None,
            Some((trace, r1)) => match split_at_dash(r1) {
                None => None,
                Some((span, flags)) => Some((version, trace, span, flags)),
            },
        },
    }
}

/// A trace context as parsed from a header: every field has its W3C length in
/// hexadecimal digits (version 2, trace-id 32, parent-id 16, flags 2); the trace-id
/// and parent-id are lower-cased.
pub open spec fn parsed_traceparent(header: Seq<char>) -> Option<(Seq<char>, Seq<char>, u8)> {
    match traceparent_fields(header) {
        None => None,
        Some((version, trace, span, flags)) => {
            if version.len() == 2 && all_hex(version) && trace.len() == 32 && all_hex(trace)
                && span.len() == 16 && all_hex(span) && flags.len() == 2 && all_hex(flags) {
                match parse_hex_u8(flags) {
                    Some(f) => Some((ascii_lower_seq(trace), ascii_lower_seq(span), f)),
                    None => None,
                }
            } else {
                None
            }
        },
    }
}

/// Lower-case hexadecimal digit for a value below sixteen.
pub open spec fn hex_lower(d: int) -> char {
    if d < 10 {
        ((d + 48) as u8) as char
    } else {
        ((d + 87) as u8) as char
    }
}

/// `{:016x}`: sixteen lower-case hexadecimal digits, zero-padded.
pub open spec fn hex16(v: u64) -> Seq<char> {
    Seq::new(16, |i: int| hex_lower(((v >> ((60 - 4 * i) as u64)) & 15u64) as int))
}

/// `{:02x}`: two lower-case hexadecimal digits.
pub open spec fn hex2(v: u8) -> Seq<char> {
    seq![hex_lower(v as int / 16), hex_lower(v as int % 16)]
}

/// The `traceparent` header for a context: version `00`.
pub open spec fn traceparent_header(trace_id: Seq<char>, span_id: Seq<char>, flags: u8) -> Seq<char> {
    "00-"@ + trace_id + "-"@ + span_id + "-"@ + hex2(flags)
}

fn first_dash_from(s: &Vec<char>, start: usize) -> (i: usize)
    requires
        start <= s@.len(),
    ensures
        i as int == start + first_dash(s@.subrange(start as int, s@.len() as int)),
        start <= i <= s@.len(),
{
    let n = s.len();
    let mut i = start;
    while i < n && s[i] != '-'
        invariant
            start <= i <= n == s@.len(),
            first_dash(s@.subrange(start as int, n as int)) == (i - start) + first_dash(
                s@.subrange(i as int, n as int),
            ),
        decreases n - i,
    {
        assert(s@.subrange(i as int, n as int).drop_first() =~= s@.subrange(i + 1, n as int));
        i = i + 1;
    }
    i
}

fn sub_chars(s: &Vec<char>, a: usize, b: usize) -> (t: Vec<char>)
    requires
        a <= b <= s@.len(),
    ensures
        t@ == s@.subrange(a as int, b as int),
{
    let mut t: Vec<char> = Vec::new();
    let mut k = a;
    while k < b
        invariant
            a <= k <= b <= s@.len(),
            t@ == s@.subrange(a as int, k as int),
        decreases b - k,
    {
        t.push(s[k]);
        assert(t@ =~= s@.subrange(a as int, k + 1));
        k = k + 1;
    }
    t
}

fn all_hex_exec(s: &Vec<char>) -> (b: bool)
    ensures
        b == all_hex(s@),
{
    let mut i: usize = 0;
    while i < s.len()
        invariant
            i <= s@.len(),
            forall|k: int| 0 <= k < i ==> is_ascii_hex_digit(#[trigger] s@[k]),
        decreases s@.len() - i,
    {
        let c = s[i];
        if !(('0' <= c && c <= '9') || ('a' <= c && c <= 'f') || ('A' <= c && c <= 'F')) {
            return false;
        }
        i = i + 1;
    }
    true
}

fn parse_hex_u8_exec(s: &Vec<char>) -> (r: Option<u8>)
    ensures
        r == parse_hex_u8(s@),
{
    let start: usize = if s.len() > 0 && s[0] == '+' {
        1
    } else {
        0
    };
    let ghost digits = s@.subrange(start as int, s@.len() as int);
    assert(digits =~= (if s@.len() > 0 && s@[0] == '+' {
        s@.drop_first()
    } else {
        s@
    }));
    if start >= s.len() {
        return None;
    }
    let mut v: u32 = 0;
    let mut i = start;
    while i < s.len()
        invariant
            start <= i <= s@.len(),
            digits == s@.subrange(start as int, s@.len() as int),
            digits == (if s@.len() > 0 && s@[0] == '+' {
                s@.drop_first()
            } else {
                s@
            }),
            all_hex(s@.subrange(start as int, i as int)),
            v as nat == hex_value(s@.subrange(start as int, i as int)),
            v < 256,
        decreases s@.len() - i,
    {
        let c = s[i];
        let d: u32 = if '0' <= c && c <= '9' {
            (c as u32) - 48
        } else if 'a' <= c && c <= 'f' {
            (c as u32) - 87
        } else if 'A' <= c && c <= 'F' {
            (c as u32) - 55
        } else {
            proof {
                assert(digits[i - start] == c);
                assert(!is_ascii_hex_digit(digits[i - start]));
            }
            return None;
        };
        let ghost pre = s@.subrange(start as int, i as int);
        let ghost post = s@.subrange(start as int, i + 1);
        assert(post.drop_last() =~= pre);
        assert(all_hex(post));
        assert(hex_value(post) == 16 * hex_value(pre) + d);
        if v * 16 + d >= 256 {
            proof {
                if all_hex(digits) {
                    lemma_hex_prefix_bound(digits, (i + 1 - start) as int);
                    assert(digits.subrange(0, (i + 1 - start) as int) =~= post);
                }
            }
            return None;
        }
        v = v * 16 + d;
        i = i + 1;
    }
    assert(s@.subrange(start as int, s@.len() as int) == digits);
    Some(v as u8)
}

/// The value of a string of hex digits is at least that of any of its prefixes.
proof fn lemma_hex_prefix_bound(s: Seq<char>, k: int)
    requires
        0 <= k <= s.len(),
        all_hex(s),
    ensures
        hex_value(s.subrange(0, k)) <= hex_value(s),
    decreases s.len() - k,
{
    if k < s.len() {
        assert(s.drop_last().subrange(0, k) =~= s.subrange(0, k));
        assert(all_hex(s.drop_last()));
        lemma_hex_prefix_bound(s.drop_last(), k);
    } else {
        assert(s.subrange(0, k) =~= s);
    }
}

fn push_hex16(out: &mut Vec<char>, v: u64)
    ensures
        final(out)@ == old(out)@ + hex16(v),
{
    let ghost start = out@;
    let mut i: u64 = 0;
    while i < 16
        invariant
            i <= 16,
            out@ == start + hex16(v).take(i as int),
        decreases 16 - i,
    {
        let sh: u64 = 60 - 4 * i;
        let d = (v >> sh) & 15;
        assert((v >> sh) & 15u64 < 16u64) by (bit_vector);
        let c = if d < 10 {
            ((d as u8) + 48) as char
        } else {
            ((d as u8) + 87) as char
        };
        out.push(c);
        assert(out@ =~= start + hex16(v).take(i + 1));
        i = i + 1;
    }
    assert(hex16(v).take(16) =~= hex16(v));
}

fn push_hex2(out: &mut Vec<char>, v: u8)
    ensures
        final(out)@ == old(out)@ + hex2(v),
{
    let hi = v / 16;
    let lo = v % 16;
    out.push(if hi < 10 { (hi + 48) as char } else { (hi + 87) as char });
    out.push(if lo < 10 { (lo + 48) as char } else { (lo + 87) as char });
}

/// Lower-case hexadecimal digits only.
pub open spec fn is_lower_hex(s: Seq<char>) -> bool {
    forall|i: int| 0 <= i < s.len() ==> ('0' <= #[trigger] s[i] <= '9') || ('a' <= s[i] <= 'f')
}

proof fn lemma_first_dash_concat(a: Seq<char>, b: Seq<char>)
    requires
        forall|i: int| 0 <= i < a.len() ==> #[trigger] a[i] != '-',
    ensures
        first_dash(a + b) == a.len() + first_dash(b),
    decreases a.len(),
{
    if a.len() > 0 {
        assert((a + b).drop_first() =~= a.drop_first() + b);
        assert((a + b)[0] == a[0]);
        lemma_first_dash_concat(a.drop_first(), b);
    } else {
        assert(a + b =~= b);
    }
}

proof fn lemma_hex2_parses(f: u8)
    ensures
        parse_hex_u8(hex2(f)) == Some(f),
{
    let h = hex2(f);
    let hi = f as int / 16;
    let lo = f as int % 16;
    assert(h[0] == hex_lower(hi) && h[1] == hex_lower(lo));
    assert(h[0] != '+');
    assert(is_ascii_hex_digit(h[0]) && is_ascii_hex_digit(h[1]));
    assert(hex_digit_value(h[0]) == hi);
    assert(hex_digit_value(h[1]) == lo);
    assert(h.drop_last().drop_last() =~= Seq::<char>::empty());
    assert(h.drop_last().last() == h[0]);
    assert(hex_value(Seq::<char>::empty()) == 0);
    assert(hex_value(h.drop_last()) == hi);
    assert(hex_value(h) == 16 * hi + lo);
}

/// A context whose trace-id is 32 and whose parent-id is 16 lower-case hexadecimal
/// digits is read back unchanged from the `traceparent` header it is written as.
pub proof fn law_traceparent_round_trip(trace_id: Seq<char>, span_id: Seq<char>, flags: u8)
    requires
        trace_id.len() == 32,
        span_id.len() == 16,
        is_lower_hex(trace_id),
        is_lower_hex(span_id),
    ensures
        parsed_traceparent(traceparent_header(trace_id, span_id, flags)) == Some(
            (trace_id, span_id, flags),
        ),
{
    reveal_strlit("00-");
    reveal_strlit("-");
    let dash = "-"@;
    let h = traceparent_header(trace_id, span_id, flags);
    let f = hex2(flags);
    let r1 = span_id + dash + f;
    let r0 = trace_id + dash + r1;
    let v = seq!['0', '0'];
    assert(h =~= v + dash + r0);
    assert forall|i: int| 0 <= i < v.len() implies #[trigger] v[i] != '-' by {}
    assert forall|i: int| 0 <= i < trace_id.len() implies #[trigger] trace_id[i] != '-' by {
        assert(('0' <= trace_id[i] <= '9') || ('a' <= trace_id[i] <= 'f'));
    }
    assert forall|i: int| 0 <= i < span_id.len() implies #[trigger] span_id[i] != '-' by {
        assert(('0' <= span_id[i] <= '9') || ('a' <= span_id[i] <= 'f'));
    }
    lemma_first_dash_concat(v, dash + r0);
    assert(v + dash + r0 =~= v + (dash + r0));
    assert(first_dash(dash + r0) == 0);
    assert(h.subrange(0, 2) =~= v);
    assert(h.subrange(3, h.len() as int) =~= r0);
    lemma_first_dash_concat(trace_id, dash + r1);
    assert(trace_id + dash + r1 =~= trace_id + (dash + r1));
    assert(first_dash(dash + r1) == 0);
    assert(r0.subrange(0, 32) =~= trace_id);
    assert(r0.subrange(33, r0.len() as int) =~= r1);
    lemma_first_dash_concat(span_id, dash + f);
    assert(span_id + dash + f =~= span_id + (dash + f));
    assert(first_dash(dash + f) == 0);
    assert(r1.subrange(0, 16) =~= span_id);
    assert(r1.subrange(17, r1.len() as int) =~= f);
    assert(traceparent_fields(h) == Some((v, trace_id, span_id, f)));
    assert(all_hex(v));
    assert(all_hex(f)) by {
        assert((flags as int) / 16 < 16);
    }
    assert forall|i: int| 0 <= i < trace_id.len() implies is_ascii_hex_digit(#[trigger] trace_id[i]) by {
        assert(('0' <= trace_id[i] <= '9') || ('a' <= trace_id[i] <= 'f'));
    }
    assert forall|i: int| 0 <= i < span_id.len() implies is_ascii_hex_digit(#[trigger] span_id[i]) by {
        assert(('0' <= span_id[i] <= '9') || ('a' <= span_id[i] <= 'f'));
    }
    lemma_hex2_parses(flags);
    assert(ascii_lower_seq(trace_id) =~= trace_id);
    assert(ascii_lower_seq(span_id) =~= span_id);
}

/// Identifiers drawn by `new_root` and `new_child_span` are lower-case hexadecimal.
pub proof fn law_generated_ids_lower_hex(a: u64, b: u64)
    ensures
        is_lower_hex(hex16(a) + hex16(b)),
        (hex16(a) + hex16(b)).len() == 32,
        is_lower_hex(hex16(a)),
        hex16(a).len() == 16,
{
    assert forall|v: u64, i: int| 0 <= i < 16 implies ('0' <= #[trigger] hex16(v)[i] <= '9') || (
    'a' <= hex16(v)[i] <= 'f') by {
        let sh: u64 = (60 - 4 * i) as u64;
        assert((v >> sh) & 15u64 < 16u64) by (bit_vector);
    }
    let s = hex16(a) + hex16(b);
    assert forall|i: int| 0 <= i < s.len() implies ('0' <= #[trigger] s[i] <= '9') || ('a' <= s[i]
        <= 'f') by {
        if i < 16 {
            assert(s[i] == hex16(a)[i]);
        } else {
            assert(s[i] == hex16(b)[i - 16]);
        }
    }
}

impl TraceContext {
    /// Parse a W3C `traceparent` header value.
    ///
    /// Returns `None` if the header does not conform to the
    /// `version-trace-id-parent-id-flags` format or if any segment has the
    /// wrong length / contains non-hex characters.
    #[verifier::spinoff_prover]
    #[verifier::rlimit(40)]
    pub fn from_header(header: &str) -> (ctx: Option<Self>)
        ensures
            match (ctx, parsed_traceparent(header@)) {
                (None, None) => true,
                (Some(c), Some((t, s, f))) => c.trace_id@ == t && c.span_id@ == s && c.flags == f,
                _ => false,
            },
    {
        let s = chars_of(header);
        let n = s.len();
        let d0 = first_dash_from(&s, 0);
        assert(s@.subrange(0, n as int) =~= s@);
        if d0 >= n {
            return None;
        }
        let d1 = first_dash_from(&s, d0 + 1);
        if d1 >= n {
            assert(s@.subrange(d0 + 1, n as int) =~= s@.subrange(d0 + 1, n as int));
            return None;
        }
        let d2 = first_dash_from(&s, d1 + 1);
        let ghost r0 = s@.subrange(d0 + 1, n as int);
        let ghost r1 = s@.subrange(d1 + 1, n as int);
        assert(r0.subrange(0, d1 - d0 - 1) =~= s@.subrange(d0 + 1, d1 as int));
        assert(r0.subrange(d1 - d0, r0.len() as int) =~= r1);
        if d2 >= n {
            return None;
        }
        assert(r1.subrange(0, d2 - d1 - 1) =~= s@.subrange(d1 + 1, d2 as int));
        assert(r1.subrange(d2 - d1, r1.len() as int) =~= s@.subrange(d2 + 1, n as int));
        let version = sub_chars(&s, 0, d0);
        let trace = sub_chars(&s, d0 + 1, d1);
        let span = sub_chars(&s, d1 + 1, d2);
        let flags_hex = sub_chars(&s, d2 + 1, n);
        if version.len() != 2 || !all_hex_exec(&version) {
            return None;
        }
        if flags_hex.len() != 2 || !all_hex_exec(&flags_hex) {
            return None;
        }
        if trace.len() != 32 || !all_hex_exec(&trace) {
            return None;
        }
        if span.len() != 16 || !all_hex_exec(&span) {
            return None;
        }
        let flags = match parse_hex_u8_exec(&flags_hex) {
            Some(f) => f,
            None => {
                return None;
            },
        };
        let trace_id = string_from_chars(&ascii_lower_chars(&trace));
        let span_id = string_from_chars(&ascii_lower_chars(&span));
        Some(TraceContext { trace_id, span_id, flags })
    }

    /// Serialise this context as a W3C `traceparent` header value.
    pub fn to_header(&self) -> (h: String)
        ensures
            h@ == traceparent_header(self.trace_id@, self.span_id@, self.flags),
    {
        let mut out: Vec<char> = Vec::new();
        push_str(&mut out, "00-");
        push_str(&mut out, self.trace_id.as_str());
        push_str(&mut out, "-");
        push_str(&mut out, self.span_id.as_str());
        push_str(&mut out, "-");
        push_hex2(&mut out, self.flags);
        string_from_chars(&out)
    }

    /// A new root trace context from three pseudo-random values: the trace-id is the
    /// first two as 32 hex digits, the span-id the third as 16; sampled.
    pub fn new_root(trace_hi: u64, trace_lo: u64, span: u64) -> (ctx: Self)
        ensures
            ctx.trace_id@ == hex16(trace_hi) + hex16(trace_lo),
            ctx.span_id@ == hex16(span),
            ctx.flags == 1,
    {
        let mut t: Vec<char> = Vec::new();
        push_hex16(&mut t, trace_hi);
        push_hex16(&mut t, trace_lo);
        let mut s: Vec<char> = Vec::new();
        push_hex16(&mut s, span);
        TraceContext { trace_id: string_from_chars(&t), span_id: string_from_chars(&s), flags: 0x01 }
    }

    /// A child span sharing this context's trace-id and flags, with the span-id
    /// taken from a fresh pseudo-random value.
    pub fn new_child_span(&self, span: u64) -> (ctx: Self)
        ensures
            ctx.trace_id@ == self.trace_id@,
            ctx.span_id@ == hex16(span),
            ctx.flags == self.flags,
    {
        let mut s: Vec<char> = Vec::new();
        push_hex16(&mut s, span);
        TraceContext {
            trace_id: string_from_chars(&chars_of(self.trace_id.as_str())),
            span_id: string_from_chars(&s),
            flags: self.flags,
        }
    }
}

} // verus!
