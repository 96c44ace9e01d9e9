//! Scalable Vector Graphics (SVG) QR code generator for offline pairing,
//! multi-device sync and mobile scanning.
//!
//! The symbol follows ISO/IEC 18004: byte mode, error-correction level L, mask
//! pattern 0 (`(row + column) % 2 == 0`), versions 1 to 8 chosen by payload length,
//! with finder patterns and their separators, timing patterns, alignment patterns,
//! version information (versions 7 and 8), both copies of the format information
//! and Reed-Solomon error correction, in two interleaved blocks from version 6 on.

use vstd::prelude::*;
use crate::text::{decimal, push_decimal, push_str, string_from_chars};
use vstd::utf8::encode_utf8;

verus! {

/// A rendered QR code: the SVG document, the same document as a `data:` URL,
/// the requested pixel size and the side length of the SVG view box in modules.
pub struct QrSvgResult {
    pub svg: String,
    pub data_url: String,
    pub size: usize,
    pub module_count: usize,
}

// ---------------------------------------------------------------------------
// Symbol parameters
// ---------------------------------------------------------------------------

/// `(version, data codewords, error-correction codewords per block)` of the level-L
/// symbol chosen for a payload of `n` bytes.
pub open spec fn qr_parameters(n: int) -> (int, int, int) {
    if n <= 14 {
        (1, 19, 7)
    } else if n <= 26 {
        (2, 34, 10)
    } else if n <= 42 {
        (3, 55, 15)
    } else if n <= 62 {
        (4, 80, 20)
    } else if n <= 84 {
        (5, 108, 26)
    } else if n <= 106 {
        (6, 136, 18)
    } else if n <= 122 {
        (7, 156, 20)
    } else {
        (8, 194, 24)
    }
}

/// Number of error-correction blocks, of equal size, for a payload of `n` bytes:
/// one up to version 5, two from version 6.
pub open spec fn qr_blocks(n: int) -> int {
    if n <= 84 {
        1
    } else {
        2
    }
}

/// Number of modules along one side of the symbol for a payload of `n` bytes.
pub open spec fn qr_side(n: int) -> int {
    qr_parameters(n).0 * 4 + 17
}

fn qr_parameters_exec(n: usize) -> (res: (usize, usize, usize))
    ensures
        res.0 as int == qr_parameters(n as int).0,
        res.1 as int == qr_parameters(n as int).1,
        res.2 as int == qr_parameters(n as int).2,
{
    if n <= 14 {
        (1, 19, 7)
    } else if n <= 26 {
        (2, 34, 10)
    } else if n <= 42 {
        (3, 55, 15)
    } else if n <= 62 {
        (4, 80, 20)
    } else if n <= 84 {
        (5, 108, 26)
    } else if n <= 106 {
        (6, 136, 18)
    } else if n <= 122 {
        (7, 156, 20)
    } else {
        (8, 194, 24)
    }
}

// ---------------------------------------------------------------------------
// Data bit stream
// ---------------------------------------------------------------------------

/// The lowest `count` bits of `val`, most significant first.
pub open spec fn bits_msb_first(val: u32, count: nat) -> Seq<bool> {
    Seq::new(count, |k: int| ((val >> ((count - 1 - k) as u32)) & 1u32) == 1u32)
}

/// The bits of a byte sequence, eight per byte, most significant first.
pub open spec fn bytes_bits(bs: Seq<u8>) -> Seq<bool>
    decreases bs.len(),
{
    if bs.len() == 0 {
        Seq::empty()
    } else {
        bytes_bits(bs.drop_last()) + bits_msb_first(bs.last() as u32, 8)
    }
}

pub open spec fn zero_bits(n: int) -> Seq<bool> {
    Seq::new(n as nat, |i: int| false)
}

/// The pad codeword at position `i` of the padding: 0xEC, 0x11, 0xEC, ...
pub open spec fn pad_codeword(i: int) -> u32 {
    if i % 2 == 0 {
        0xEC
    } else {
        0x11
    }
}

pub open spec fn pad_bits(k: nat) -> Seq<bool>
    decreases k,
{
    if k == 0 {
        Seq::empty()
    } else {
        pad_bits((k - 1) as nat) + bits_msb_first(pad_codeword(k - 1), 8)
    }
}

/// Byte-mode segment: mode indicator 0100, an 8-bit count, then the payload.
pub open spec fn segment_bits(bs: Seq<u8>) -> Seq<bool> {
    bits_msb_first(4, 4) + bits_msb_first(bs.len() as u32, 8) + bytes_bits(bs)
}

pub open spec fn min_int(a: int, b: int) -> int {
    if a <= b {
        a
    } else {
        b
    }
}

/// The full data bit stream for a symbol holding `capacity` data bits: the segment,
/// then up to four terminator zeros, zeros up to a byte boundary, and alternating pad
/// codewords. A segment at or over capacity is left as it is.
pub open spec fn data_bit_stream(bs: Seq<u8>, capacity: int) -> Seq<bool> {
    let b0 = segment_bits(bs);
    if b0.len() >= capacity {
        b0
    } else {
        let b1 = b0 + zero_bits(min_int(4, capacity - b0.len()));
        let b2 = b1 + zero_bits((8 - b1.len() % 8) % 8);
        b2 + pad_bits(((capacity - b2.len()) / 8) as nat)
    }
}

/// Value of a bit sequence read most significant bit first.
pub open spec fn bits_value(s: Seq<bool>) -> nat
    decreases s.len(),
{
    if s.len() == 0 {
        0
    } else {
        2 * bits_value(s.drop_last()) + if s.last() {
            1nat
        } else {
            0nat
        }
    }
}

/// Groups a bit stream into codewords of eight bits; a shorter final group keeps its value.
pub open spec fn group_codewords(bits: Seq<bool>) -> Seq<u8> {
    Seq::new(
        ((bits.len() + 7) / 8) as nat,
        |j: int| bits_value(bits.subrange(8 * j, min_int(8 * j + 8, bits.len() as int))) as u8,
    )
}

/// Data codewords of the symbol for payload `bs`.
pub open spec fn data_codewords(bs: Seq<u8>) -> Seq<u8> {
    group_codewords(data_bit_stream(bs, qr_parameters(bs.len() as int).1 * 8))
}

fn push_bits(stream: &mut Vec<bool>, val: u32, count: usize)
    requires
        count <= 32,
    ensures
        final(stream)@ == old(stream)@ + bits_msb_first(val, count as nat),
{
    let ghost start = stream@;
    let mut i: usize = count;
    while i > 0
        invariant
            i <= count <= 32,
            stream@ == start + bits_msb_first(val, count as nat).take(count - i),
        decreases i,
    {
        i = i - 1;
        stream.push(((val >> (i as u32)) & 1) == 1);
        assert(bits_msb_first(val, count as nat).take(count - i) =~= bits_msb_first(
            val,
            count as nat,
        ).take(count - i - 1).push(((val >> (i as u32)) & 1) == 1));
    }
    assert(bits_msb_first(val, count as nat).take(count as int) =~= bits_msb_first(
        val,
        count as nat,
    ));
}

proof fn lemma_bytes_bits_len(bs: Seq<u8>)
    ensures
        bytes_bits(bs).len() == 8 * bs.len(),
    decreases bs.len(),
{
    if bs.len() > 0 {
        lemma_bytes_bits_len(bs.drop_last());
    }
}

proof fn lemma_pad_bits_len(k: nat)
    ensures
        pad_bits(k).len() == 8 * k,
    decreases k,
{
    if k > 0 {
        lemma_pad_bits_len((k - 1) as nat);
    }
}

fn data_bit_stream_exec(bytes: &[u8], capacity: usize) -> (bits: Vec<bool>)
    requires
        capacity % 8 == 0,
        capacity <= 2000,
        bytes@.len() <= usize::MAX / 16,
    ensures
        bits@ == data_bit_stream(bytes@, capacity as int),
        bits@.len() <= 12 + 8 * bytes@.len() + capacity,
{
    let mut bits: Vec<bool> = Vec::new();
    push_bits(&mut bits, 0b0100, 4);
    push_bits(&mut bits, bytes.len() as u32, 8);
    let ghost head = bits@;
    let mut i: usize = 0;
    while i < bytes.len()
        invariant
            i <= bytes@.len() <= usize::MAX / 16,
            head.len() == 12,
            bits@ == head + bytes_bits(bytes@.take(i as int)),
        decreases bytes@.len() - i,
    {
        push_bits(&mut bits, bytes[i] as u32, 8);
        assert(bytes@.take(i + 1).drop_last() =~= bytes@.take(i as int));
        i = i + 1;
    }
    assert(bytes@.take(bytes@.len() as int) =~= bytes@);
    proof {
        lemma_bytes_bits_len(bytes@);
    }
    assert(bits@ =~= segment_bits(bytes@));
    if bits.len() >= capacity {
        return bits;
    }
    let ghost b0 = bits@;
    let term_len: usize = if capacity - bits.len() < 4 {
        capacity - bits.len()
    } else {
        4
    };
    push_bits(&mut bits, 0, term_len);
    assert(bits_msb_first(0, term_len as nat) =~= zero_bits(term_len as int)) by {
        assert forall|k: int| 0 <= k < term_len implies #[trigger] bits_msb_first(
            0,
            term_len as nat,
        )[k] == false by {
            let s: u32 = (term_len - 1 - k) as u32;
            assert((0u32 >> s) & 1u32 == 0u32) by (bit_vector);
        }
    }
    let ghost b1 = bits@;
    while bits.len() % 8 != 0 && bits.len() < capacity
        invariant
            b1.len() <= bits@.len() <= capacity,
            capacity % 8 == 0,
            capacity <= 2000,
            bits@ == b1 + zero_bits(bits@.len() - b1.len()),
            bits@.len() - b1.len() <= (8 - b1.len() % 8) % 8,
            bits@.len() < b1.len() + (8 - b1.len() % 8) % 8 ==> bits@.len() % 8 != 0,
        decreases capacity - bits@.len(),
    {
        bits.push(false);
        assert(bits@ =~= b1 + zero_bits(bits@.len() - b1.len()));
    }
    assert(bits@.len() - b1.len() == (8 - b1.len() % 8) % 8);
    let ghost b2 = bits@;
    let mut pad_idx: usize = 0;
    while bits.len() < capacity
        invariant
            capacity % 8 == 0,
            capacity <= 2000,
            b2.len() % 8 == 0,
            b2.len() <= bits@.len() <= capacity,
            bits@.len() == b2.len() + 8 * pad_idx,
            bits@ == b2 + pad_bits(pad_idx as nat),
        decreases capacity - bits@.len(),
    {
        let pad: u32 = if pad_idx % 2 == 0 {
            0xEC
        } else {
            0x11
        };
        push_bits(&mut bits, pad, 8);
        pad_idx = pad_idx + 1;
        assert(bits@ =~= b2 + pad_bits(pad_idx as nat));
    }
    proof {
        lemma_pad_bits_len(pad_idx as nat);
    }
    bits
}

spec fn two_pow(n: nat) -> nat
    decreases n,
{
    if n == 0 {
        1
    } else {
        2 * two_pow((n - 1) as nat)
    }
}

proof fn lemma_bits_value_bound_k(s: Seq<bool>)
    ensures
        bits_value(s) < two_pow(s.len()),
    decreases s.len(),
{
    if s.len() > 0 {
        lemma_bits_value_bound_k(s.drop_last());
    }
}

fn group_codewords_exec(bits: &Vec<bool>) -> (cw: Vec<u8>)
    requires
        bits@.len() <= usize::MAX / 2,
    ensures
        cw@ == group_codewords(bits@),
{
    let n = bits.len();
    let groups = (n + 7) / 8;
    let mut cw: Vec<u8> = Vec::new();
    let mut j: usize = 0;
    while j < groups
        invariant
            n == bits@.len(),
            n <= usize::MAX / 2,
            groups == (n + 7) / 8,
            j <= groups,
            cw@.len() == j,
            forall|k: int| 0 <= k < j ==> #[trigger] cw@[k] == group_codewords(bits@)[k],
        decreases groups - j,
    {
        let start = 8 * j;
        let end = if start + 8 < n {
            start + 8
        } else {
            n
        };
        let mut byte: u8 = 0;
        let mut k = start;
        while k < end
            invariant
                start <= k <= end <= n,
                end - start <= 8,
                end == min_int(8 * j + 8, n as int),
                start == 8 * j,
                n == bits@.len(),
                byte as nat == bits_value(bits@.subrange(start as int, k as int)),
            decreases end - k,
        {
            proof {
                lemma_bits_value_bound_k(bits@.subrange(start as int, k as int));
                reveal_with_fuel(two_pow, 8);
                assert(two_pow(7) == 128);
                if k - start <= 7 {
                    lemma_two_pow_mono((k - start) as nat, 7);
                }
            }
            let b: u8 = if bits[k] {
                1
            } else {
                0
            };
            byte = byte * 2 + b;
            assert(bits@.subrange(start as int, k + 1).drop_last() =~= bits@.subrange(
                start as int,
                k as int,
            ));
            k = k + 1;
        }
        cw.push(byte);
        j = j + 1;
    }
    assert(cw@ =~= group_codewords(bits@));
    cw
}

proof fn lemma_two_pow_mono(a: nat, b: nat)
    requires
        a <= b,
    ensures
        two_pow(a) <= two_pow(b),
    decreases b,
{
    if a < b {
        lemma_two_pow_mono(a, (b - 1) as nat);
    }
}


// ---------------------------------------------------------------------------
// Reed-Solomon error correction over GF(256) with primitive polynomial 0x11D
// ---------------------------------------------------------------------------

/// Multiplication by the generator `x` in GF(256) modulo 0x11D.
pub open spec fn gf_double(a: u8) -> u8 {
    (((a as u16 * 2) as u16) ^ (if a >= 128 { 0x11Du16 } else { 0u16 })) as u8
}

/// Horner evaluation of `a * b` over the top `k` bits of `b`.
pub open spec fn gf_mul_partial(a: u8, b: u8, k: nat) -> u8
    decreases k,
{
    if k == 0 {
        0
    } else {
        let r = gf_double(gf_mul_partial(a, b, (k - 1) as nat));
        if (b >> ((8 - k) as u8)) & 1u8 == 1u8 {
            r ^ a
        } else {
            r
        }
    }
}

/// Product of two elements of GF(256).
pub open spec fn gf_mul(a: u8, b: u8) -> u8 {
    gf_mul_partial(a, b, 8)
}

/// The `i`-th power of the generator `x`.
pub open spec fn gf_pow(i: nat) -> u8
    decreases i,
{
    if i == 0 {
        1
    } else {
        gf_double(gf_pow((i - 1) as nat))
    }
}

/// Coefficients, lowest degree first, of the product of `(X + x^i)` for `i < n`.
pub open spec fn rs_generator(n: nat) -> Seq<u8>
    decreases n,
{
    if n == 0 {
        seq![1u8]
    } else {
        let g = rs_generator((n - 1) as nat);
        let f = gf_pow((n - 1) as nat);
        Seq::new(
            g.len() + 1,
            |j: int|
                (if j < g.len() {
                    gf_mul(g[j], f)
                } else {
                    0u8
                }) ^ (if j > 0 {
                    g[j - 1]
                } else {
                    0u8
                }),
        )
    }
}

/// One step of polynomial long division at position `i`, where `m` holds
/// coefficients highest degree first and `g` lowest degree first: when `m[i]` is
/// non-zero, the monic `g` scaled by `m[i]` is subtracted with its leading term
/// aligned to `m[i]`, which clears `m[i]`.
pub open spec fn rs_step(m: Seq<u8>, g: Seq<u8>, i: int) -> Seq<u8> {
    let coef = m[i];
    if coef == 0 {
        m
    } else {
        Seq::new(
            m.len(),
            |k: int|
                if i <= k < i + g.len() {
                    m[k] ^ gf_mul(g[g.len() - 1 - (k - i)], coef)
                } else {
                    m[k]
                },
        )
    }
}

/// The elimination steps at positions `0 .. n`, in order.
pub open spec fn rs_divide(m: Seq<u8>, g: Seq<u8>, n: nat) -> Seq<u8>
    decreases n,
{
    if n == 0 {
        m
    } else {
        rs_step(rs_divide(m, g, (n - 1) as nat), g, n - 1)
    }
}

/// The `ec` Reed-Solomon error-correction codewords of `data`: the remainder of
/// `data(x) * x^ec` divided by the generator of degree `ec`, highest degree first.
pub open spec fn reed_solomon_ec(data: Seq<u8>, ec: nat) -> Seq<u8> {
    let m = data + Seq::new(ec, |i: int| 0u8);
    rs_divide(m, rs_generator(ec), data.len()).subrange(data.len() as int, data.len() + ec as int)
}

fn gf_double_exec(a: u8) -> (r: u8)
    ensures
        r == gf_double(a),
{
    ((a as u16 * 2) ^ (if a >= 128 { 0x11Du16 } else { 0u16 })) as u8
}

fn gf_mul_exec(a: u8, b: u8) -> (r: u8)
    ensures
        r == gf_mul(a, b),
{
    let mut r: u8 = 0;
    let mut k: u8 = 0;
    while k < 8
        invariant
            k <= 8,
            r == gf_mul_partial(a, b, k as nat),
        decreases 8 - k,
    {
        k = k + 1;
        r = gf_double_exec(r);
        if (b >> (8 - k)) & 1 == 1 {
            r = r ^ a;
        }
    }
    r
}

proof fn lemma_rs_generator_len(n: nat)
    ensures
        rs_generator(n).len() == n + 1,
    decreases n,
{
    if n > 0 {
        lemma_rs_generator_len((n - 1) as nat);
    }
}

fn rs_generator_exec(n: usize) -> (g: Vec<u8>)
    requires
        n < 1000,
    ensures
        g@ == rs_generator(n as nat),
{
    let mut g: Vec<u8> = Vec::new();
    g.push(1);
    let mut factor: u8 = 1;
    let mut i: usize = 0;
    while i < n
        invariant
            i <= n < 1000,
            g@ == rs_generator(i as nat),
            factor == gf_pow(i as nat),
        decreases n - i,
    {
        proof {
            lemma_rs_generator_len(i as nat);
        }
        let len = g.len();
        let mut next: Vec<u8> = Vec::new();
        let mut j: usize = 0;
        while j <= len
            invariant
                len == g@.len() == i + 1,
                i < n < 1000,
                j <= len + 1,
                next@.len() == j,
                forall|k: int| 0 <= k < j ==> #[trigger] next@[k] == rs_generator((i + 1) as nat)[k],
                g@ == rs_generator(i as nat),
                factor == gf_pow(i as nat),
            decreases len + 1 - j,
        {
            let lo: u8 = if j < len {
                gf_mul_exec(g[j], factor)
            } else {
                0
            };
            let hi: u8 = if j > 0 {
                g[j - 1]
            } else {
                0
            };
            next.push(lo ^ hi);
            j = j + 1;
        }
        assert(next@ =~= rs_generator((i + 1) as nat));
        g = next;
        factor = gf_double_exec(factor);
        i = i + 1;
    }
    g
}

/// Reed-Solomon error-correction codewords for `data`, `ec_count` of them.
pub fn generate_reed_solomon_ec(data: &[u8], ec_count: usize) -> (ec: Vec<u8>)
    requires
        ec_count < 1000,
        data@.len() + ec_count <= usize::MAX,
    ensures
        ec@ == reed_solomon_ec(data@, ec_count as nat),
        ec@.len() == ec_count,
{
    let gen = rs_generator_exec(ec_count);
    proof {
        lemma_rs_generator_len(ec_count as nat);
    }
    let n = data.len();
    let mut msg: Vec<u8> = Vec::new();
    let mut k: usize = 0;
    while k < n
        invariant
            k <= n == data@.len(),
            msg@ == data@.take(k as int),
        decreases n - k,
    {
        msg.push(data[k]);
        assert(msg@ =~= data@.take(k + 1));
        k = k + 1;
    }
    let mut k: usize = 0;
    while k < ec_count
        invariant
            k <= ec_count,
            n == data@.len(),
            n + ec_count <= usize::MAX,
            msg@ == data@ + Seq::new(k as nat, |i: int| 0u8),
        decreases ec_count - k,
    {
        msg.push(0);
        assert(msg@ =~= data@ + Seq::new((k + 1) as nat, |i: int| 0u8));
        k = k + 1;
    }
    let ghost m0 = msg@;
    assert(m0 =~= data@ + Seq::new(ec_count as nat, |i: int| 0u8));
    let mut i: usize = 0;
    while i < n
        invariant
            i <= n == data@.len(),
            n + ec_count <= usize::MAX,
            gen@ == rs_generator(ec_count as nat),
            gen@.len() == ec_count + 1,
            msg@ == rs_divide(m0, gen@, i as nat),
            msg@.len() == n + ec_count,
        decreases n - i,
    {
        let coef = msg[i];
        let ghost before = msg@;
        if coef != 0 {
            let glen = gen.len();
            let mut j: usize = 0;
            while j < glen
                invariant
                    glen == gen@.len() == ec_count + 1,
                    i < n,
                    n + ec_count <= usize::MAX,
                    j <= glen,
                    before.len() == n + ec_count,
                    coef == before[i as int],
                    msg@ == Seq::new(
                        before.len(),
                        |k: int|
                            if i <= k < i + j {
                                before[k] ^ gf_mul(gen@[gen@.len() - 1 - (k - i)], coef)
                            } else {
                                before[k]
                            },
                    ),
                decreases glen - j,
            {
                let cur = msg[i + j];
                let prod = gf_mul_exec(gen[glen - 1 - j], coef);
                msg.set(i + j, cur ^ prod);
                j = j + 1;
                assert(msg@ =~= Seq::new(
                    before.len(),
                    |k: int|
                        if i <= k < i + j {
                            before[k] ^ gf_mul(gen@[gen@.len() - 1 - (k - i)], coef)
                        } else {
                            before[k]
                        },
                ));
            }
        }
        assert(msg@ =~= rs_step(before, gen@, i as int));
        i = i + 1;
    }
    let mut ec: Vec<u8> = Vec::new();
    let mut k: usize = 0;
    while k < ec_count
        invariant
            k <= ec_count,
            msg@.len() == n + ec_count,
            n + ec_count <= usize::MAX,
            ec@ == msg@.subrange(n as int, (n + k) as int),
        decreases ec_count - k,
    {
        ec.push(msg[n + k]);
        assert(ec@ =~= msg@.subrange(n as int, (n + k + 1) as int));
        k = k + 1;
    }
    ec
}


// ---------------------------------------------------------------------------
// Module placement
// ---------------------------------------------------------------------------

/// Module `(r, c)` of a 7x7 finder pattern: the outer ring and the 3x3 centre are dark.
pub open spec fn finder_module(r: int, c: int) -> bool {
    r == 0 || r == 6 || c == 0 || c == 6 || (2 <= r <= 4 && 2 <= c <= 4)
}

/// Module `(r, c)` of a finder pattern with its light separator, in coordinates
/// local to the pattern: the pattern covers 0 to 6, the separator lies just outside.
pub open spec fn finder_area_module(r: int, c: int) -> bool {
    0 <= r <= 6 && 0 <= c <= 6 && finder_module(r, c)
}

/// The middle alignment coordinate of versions 7 (side 45) and 8 (side 49).
pub open spec fn align_mid(n: int) -> int {
    if n == 45 {
        22
    } else {
        24
    }
}

/// The alignment-pattern centre coordinate within two modules of `v`, or -1: versions
/// 2 to 6 have the coordinate `n - 7`, versions 7 and 8 also 6 and the middle one.
pub open spec fn align_near(n: int, v: int) -> int {
    if n >= 25 && n - 9 <= v <= n - 5 {
        n - 7
    } else if n >= 45 && 4 <= v <= 8 {
        6
    } else if n >= 45 && align_mid(n) - 2 <= v <= align_mid(n) + 2 {
        align_mid(n)
    } else {
        -1
    }
}

/// Distance between two integers.
pub open spec fn dist(a: int, b: int) -> int {
    if a >= b {
        a - b
    } else {
        b - a
    }
}

/// The module of an alignment pattern at `(r, c)`, if one covers it: each pair of
/// alignment coordinates is a centre, except the three at the finder patterns; the
/// pattern is dark on its outer ring and centre.
pub open spec fn alignment_module(n: int, r: int, c: int) -> Option<bool> {
    let y = align_near(n, r);
    let x = align_near(n, c);
    if y >= 0 && x >= 0 && !(y == 6 && x == 6) && !(y == 6 && x == n - 7) && !(y == n - 7 && x
        == 6) {
        Some(dist(r, y) != 1 && dist(c, x) != 1 || dist(r, y) == 2 || dist(c, x) == 2)
    } else {
        None
    }
}

/// The 18-bit version information word of versions 7 (side 45) and 8.
pub open spec fn version_word(n: int) -> u32 {
    if n == 45 {
        0x07C94
    } else {
        0x085BC
    }
}

/// Index of the version-information bit stored at `(r, c)`, or -1: versions 7 and 8
/// hold it in a 6x3 block above the bottom-left finder and its transpose left of the
/// top-right finder.
pub open spec fn version_position(n: int, r: int, c: int) -> int {
    if n >= 45 && 0 <= r <= 5 && n - 11 <= c <= n - 9 {
        3 * r + (c - (n - 11))
    } else if n >= 45 && 0 <= c <= 5 && n - 11 <= r <= n - 9 {
        3 * c + (r - (n - 11))
    } else {
        -1
    }
}

/// The function patterns of a symbol with side `n`: the three finder patterns with
/// their separators, the version information, the alignment patterns, the timing
/// patterns on row and column 6, the dark module at `(n - 8, 8)` and the format areas
/// along row and column 8 (reserved light here; the format bits are drawn over them).
/// `None` marks a module left for data.
#[verifier::opaque]
pub open spec fn function_module(n: int, r: int, c: int) -> Option<bool> {
    if r < 8 && c < 8 {
        Some(finder_area_module(r, c))
    } else if r < 8 && c >= n - 8 {
        Some(finder_area_module(r, c - (n - 7)))
    } else if r >= n - 8 && c < 8 {
        Some(finder_area_module(r - (n - 7), c))
    } else if version_position(n, r, c) >= 0 {
        Some((version_word(n) >> (version_position(n, r, c) as u32)) & 1u32 == 1u32)
    } else if alignment_module(n, r, c) is Some {
        alignment_module(n, r, c)
    } else if r == 6 && 8 <= c < n - 8 {
        Some(c % 2 == 0)
    } else if c == 6 && 8 <= r < n - 8 {
        Some(r % 2 == 0)
    } else if r == n - 8 && c == 8 {
        Some(true)
    } else if (r == 8 && (c <= 8 || c >= n - 8)) || (c == 8 && (r < 8 || r >= n - 8)) {
        Some(false)
    } else {
        None
    }
}

/// Right-hand column of the `p`-th column pair of the zigzag, which skips column 6.
pub open spec fn pair_right(n: int, p: int) -> int {
    if p < (n - 7) / 2 {
        n - 1 - 2 * p
    } else {
        5 - 2 * (p - (n - 7) / 2)
    }
}

/// Number of module visits of the zigzag: `(n - 1) / 2` column pairs of `2 n` modules.
pub open spec fn visit_total(n: int) -> int {
    (n - 1) * n
}

/// Row of the `t`-th visit: pairs alternate between upward and downward passes.
pub open spec fn visit_row(n: int, t: int) -> int {
    let q = (t % (2 * n)) / 2;
    if (t / (2 * n)) % 2 == 0 {
        n - 1 - q
    } else {
        q
    }
}

/// Column of the `t`-th visit: right column of the pair first, then the left one.
pub open spec fn visit_col(n: int, t: int) -> int {
    pair_right(n, t / (2 * n)) - (t % (2 * n)) % 2
}

/// The visit at which the zigzag reaches module `(r, c)`, for `c != 6`.
pub open spec fn visit_index(n: int, r: int, c: int) -> int {
    let right = if c >= 7 {
        if (n - 1 - c) % 2 == 0 {
            c
        } else {
            c + 1
        }
    } else {
        if c % 2 == 1 {
            c
        } else {
            c + 1
        }
    };
    let p = if c >= 7 {
        (n - 1 - right) / 2
    } else {
        (n - 7) / 2 + (5 - right) / 2
    };
    let q = if p % 2 == 0 {
        n - 1 - r
    } else {
        r
    };
    p * (2 * n) + 2 * q + (right - c)
}

/// How many of the first `t` visits reach a module left for data.
pub open spec fn free_before(n: int, t: nat) -> nat
    decreases t,
{
    if t == 0 {
        0
    } else {
        free_before(n, (t - 1) as nat) + if function_module(
            n,
            visit_row(n, t - 1),
            visit_col(n, t - 1),
        ) is None {
            1nat
        } else {
            0nat
        }
    }
}

/// The `k`-th bit of the codeword sequence, most significant bit of each codeword
/// first; positions past the end read as 0.
pub open spec fn codeword_bit(cw: Seq<u8>, k: int) -> bool {
    0 <= k < 8 * cw.len() && (cw[k / 8] >> ((7 - k % 8) as u8)) & 1u8 == 1u8
}

/// Bit `i` of the format word 0x77C4 (error-correction level L, mask 0).
pub open spec fn format_bit(i: int) -> bool {
    (0x77C4u16 >> (i as u16)) & 1u16 == 1u16
}

/// Index of the format bit stored at `(r, c)`, or -1. The first copy runs down
/// column 8 (bits 0 to 7, skipping the timing row) and then left along row 8 (bits 8
/// to 14); the second runs left along row 8 from the right edge (bits 0 to 7) and
/// down column 8 to the bottom edge (bits 8 to 14).
pub open spec fn format_position(n: int, r: int, c: int) -> int {
    if c == 8 && 0 <= r <= 5 {
        r
    } else if r == 7 && c == 8 {
        6
    } else if r == 8 && c == 8 {
        7
    } else if r == 8 && c == 7 {
        8
    } else if r == 8 && 0 <= c <= 5 {
        14 - c
    } else if r == 8 && n - 8 <= c <= n - 1 {
        n - 1 - c
    } else if c == 8 && n - 7 <= r <= n - 1 {
        r - n + 15
    } else {
        -1
    }
}

/// Final state of module `(r, c)` of a symbol with side `n` holding codewords `cw`:
/// format bits, then function patterns, then masked data bits in zigzag order.
/// Column 6 is never visited, so its free modules stay unset.
pub open spec fn qr_module(n: int, cw: Seq<u8>, r: int, c: int) -> Option<bool> {
    let f = format_position(n, r, c);
    if f >= 0 {
        Some(format_bit(f))
    } else {
        match function_module(n, r, c) {
            Some(b) => Some(b),
            None => if c == 6 {
                None
            } else {
                Some(
                    codeword_bit(cw, free_before(n, visit_index(n, r, c) as nat) as int) != ((r + c) % 2
                        == 0),
                )
            },
        }
    }
}

// ---------------------------------------------------------------------------
// SVG rendering
// ---------------------------------------------------------------------------

/// SVG path command drawing a unit square at `(x, y)`.
pub open spec fn module_command(x: int, y: int) -> Seq<char> {
    "M"@ + decimal(x as nat) + ","@ + decimal(y as nat) + "h1v1h-1z "@
}

/// Path commands for the dark modules among the first `k` modules of row `r`.
pub open spec fn row_path(n: int, cw: Seq<u8>, margin: int, r: int, k: nat) -> Seq<char>
    decreases k,
{
    if k == 0 {
        Seq::empty()
    } else {
        row_path(n, cw, margin, r, (k - 1) as nat) + if qr_module(n, cw, r, k - 1) == Some(true) {
            module_command(k - 1 + margin, r + margin)
        } else {
            Seq::empty()
        }
    }
}

/// Path commands for the dark modules of the first `k` rows, row by row.
pub open spec fn grid_path(n: int, cw: Seq<u8>, margin: int, k: nat) -> Seq<char>
    decreases k,
{
    if k == 0 {
        Seq::empty()
    } else {
        grid_path(n, cw, margin, (k - 1) as nat) + row_path(n, cw, margin, k - 1, n as nat)
    }
}

/// The path with its trailing separator removed.
pub open spec fn trim_path(p: Seq<char>) -> Seq<char> {
    if p.len() > 0 {
        p.drop_last()
    } else {
        p
    }
}

/// The SVG document with a white `total`-module square background and the given path.
pub open spec fn svg_document(total: int, size: int, path: Seq<char>) -> Seq<char> {
    "<svg xmlns=\"http://www.w3.org/2000/svg\" viewBox=\"0 0 "@ + decimal(total as nat) + " "@
        + decimal(total as nat) + "\" width=\""@ + decimal(size as nat) + "\" height=\""@
        + decimal(size as nat) + "\" shape-rendering=\"crispEdges\"><rect width=\""@ + decimal(
        total as nat,
    ) + "\" height=\""@ + decimal(total as nat) + "\" fill=\"#ffffff\"/><path d=\""@ + path
        + "\" fill=\"#000000\"/></svg>"@
}

/// Bytes a URL may carry unescaped.
pub open spec fn is_unreserved_byte(b: u8) -> bool {
    (65 <= b <= 90) || (97 <= b <= 122) || (48 <= b <= 57) || b == 45 || b == 95 || b == 46
        || b == 126
}

/// Upper-case hexadecimal digit for a value below sixteen.
pub open spec fn hex_upper(d: int) -> char {
    if d < 10 {
        ((d + 48) as u8) as char
    } else {
        ((d + 55) as u8) as char
    }
}

/// Percent-encoding of a byte string: unreserved bytes stay, others become `%XX`.
pub open spec fn percent_encode(bs: Seq<u8>) -> Seq<char>
    decreases bs.len(),
{
    if bs.len() == 0 {
        Seq::empty()
    } else {
        let b = bs.last();
        percent_encode(bs.drop_last()) + if is_unreserved_byte(b) {
            seq![b as char]
        } else {
            seq!['%', hex_upper(b as int / 16), hex_upper(b as int % 16)]
        }
    }
}

/// The bytes a QR code is generated for: the UTF-8 encoding of the input, or a single
/// space for empty input.
pub open spec fn qr_payload(data: Seq<char>) -> Seq<u8> {
    if data.len() == 0 {
        seq![32u8]
    } else {
        encode_utf8(data)
    }
}

/// Two blocks of equal length, interleaved codeword by codeword.
pub open spec fn interleave(a: Seq<u8>, b: Seq<u8>) -> Seq<u8> {
    Seq::new(
        2 * a.len(),
        |i: int|
            if i % 2 == 0 {
                a[i / 2]
            } else {
                b[i / 2]
            },
    )
}

/// The final codeword sequence from the data codewords `dc` of a symbol holding
/// `total` data codewords in `blocks` blocks with `ec` error-correction codewords
/// each: one block is followed by its error correction; two blocks of half the data
/// each are interleaved, then their error-correction codewords are interleaved. Data
/// that overflows the symbol is kept in one block.
pub open spec fn block_codewords(dc: Seq<u8>, total: int, ec: nat, blocks: int) -> Seq<u8> {
    if blocks == 1 || dc.len() != total {
        dc + reed_solomon_ec(dc, ec)
    } else {
        let h = total / 2;
        let b1 = dc.subrange(0, h);
        let b2 = dc.subrange(h, total);
        interleave(b1, b2) + interleave(reed_solomon_ec(b1, ec), reed_solomon_ec(b2, ec))
    }
}

/// All codewords of the symbol for payload `bs`.
pub open spec fn qr_codewords(bs: Seq<u8>) -> Seq<u8> {
    let p = qr_parameters(bs.len() as int);
    block_codewords(data_codewords(bs), p.1, p.2 as nat, qr_blocks(bs.len() as int))
}

/// The SVG document generated for `data`.
pub open spec fn qr_svg(data: Seq<char>, size: int, margin: int) -> Seq<char> {
    let bs = qr_payload(data);
    let n = qr_side(bs.len() as int);
    svg_document(n + 2 * margin, size, trim_path(grid_path(n, qr_codewords(bs), margin, n as nat)))
}


// ---------------------------------------------------------------------------
// Executable counterparts and the generator
// ---------------------------------------------------------------------------

fn finder_module_exec(r: usize, c: usize) -> (b: bool)
    ensures
        b == finder_module(r as int, c as int),
{
    r == 0 || r == 6 || c == 0 || c == 6 || (2 <= r && r <= 4 && 2 <= c && c <= 4)
}

fn finder_area_module_exec(r: usize, c: usize) -> (b: bool)
    requires
        r < 8,
        c < 8,
    ensures
        b == finder_area_module(r as int, c as int),
{
    r <= 6 && c <= 6 && finder_module_exec(r, c)
}

fn align_near_exec(n: usize, v: usize) -> (a: Option<usize>)
    requires
        21 <= n <= 49,
        n % 4 == 1,
        v < n,
    ensures
        match a {
            Some(x) => x as int == align_near(n as int, v as int) && x as int >= 0,
            None => align_near(n as int, v as int) < 0,
        },
{
    let mid: usize = if n == 45 {
        22
    } else {
        24
    };
    if n >= 25 && n - 9 <= v && v <= n - 5 {
        Some(n - 7)
    } else if n >= 45 && 4 <= v && v <= 8 {
        Some(6)
    } else if n >= 45 && mid - 2 <= v && v <= mid + 2 {
        Some(mid)
    } else {
        None
    }
}

fn dist_exec(a: usize, b: usize) -> (d: usize)
    ensures
        d as int == dist(a as int, b as int),
{
    if a >= b {
        a - b
    } else {
        b - a
    }
}

fn alignment_module_exec(n: usize, r: usize, c: usize) -> (m: Option<bool>)
    requires
        21 <= n <= 49,
        n % 4 == 1,
        r < n,
        c < n,
    ensures
        m == alignment_module(n as int, r as int, c as int),
{
    match (align_near_exec(n, r), align_near_exec(n, c)) {
        (Some(y), Some(x)) => {
            if !(y == 6 && x == 6) && !(y == 6 && x == n - 7) && !(y == n - 7 && x == 6) {
                let dr = dist_exec(r, y);
                let dc = dist_exec(c, x);
                Some(dr != 1 && dc != 1 || dr == 2 || dc == 2)
            } else {
                None
            }
        },
        _ => None,
    }
}

fn version_position_exec(n: usize, r: usize, c: usize) -> (f: Option<u32>)
    requires
        21 <= n <= 49,
        r < n,
        c < n,
    ensures
        f is None <==> version_position(n as int, r as int, c as int) < 0,
        f matches Some(i) ==> i as int == version_position(n as int, r as int, c as int) && i < 18,
{
    if n >= 45 && r <= 5 && n - 11 <= c && c <= n - 9 {
        Some((3 * r + (c - (n - 11))) as u32)
    } else if n >= 45 && c <= 5 && n - 11 <= r && r <= n - 9 {
        Some((3 * c + (r - (n - 11))) as u32)
    } else {
        None
    }
}

fn function_module_exec(n: usize, r: usize, c: usize) -> (m: Option<bool>)
    requires
        21 <= n <= 49,
        n % 4 == 1,
        r < n,
        c < n,
    ensures
        m == function_module(n as int, r as int, c as int),
{
    reveal(function_module);
    if r < 8 && c < 8 {
        Some(finder_area_module_exec(r, c))
    } else if r < 8 && c >= n - 8 {
        if c == n - 8 {
            Some(false)
        } else {
            Some(finder_area_module_exec(r, c - (n - 7)))
        }
    } else if r >= n - 8 && c < 8 {
        if r == n - 8 {
            Some(false)
        } else {
            Some(finder_area_module_exec(r - (n - 7), c))
        }
    } else if let Some(i) = version_position_exec(n, r, c) {
        let word: u32 = if n == 45 {
            0x07C94
        } else {
            0x085BC
        };
        Some((word >> i) & 1 == 1)
    } else if let Some(b) = alignment_module_exec(n, r, c) {
        Some(b)
    } else if r == 6 && 8 <= c && c < n - 8 {
        Some(c % 2 == 0)
    } else if c == 6 && 8 <= r && r < n - 8 {
        Some(r % 2 == 0)
    } else if r == n - 8 && c == 8 {
        Some(true)
    } else if (r == 8 && (c <= 8 || c >= n - 8)) || (c == 8 && (r < 8 || r >= n - 8)) {
        Some(false)
    } else {
        None
    }
}

fn format_position_exec(n: usize, r: usize, c: usize) -> (f: Option<usize>)
    requires
        21 <= n <= 49,
        r < n,
        c < n,
    ensures
        f is None <==> format_position(n as int, r as int, c as int) < 0,
        f matches Some(i) ==> i as int == format_position(n as int, r as int, c as int) && i < 15,
{
    if c == 8 && r <= 5 {
        Some(r)
    } else if r == 7 && c == 8 {
        Some(6)
    } else if r == 8 && c == 8 {
        Some(7)
    } else if r == 8 && c == 7 {
        Some(8)
    } else if r == 8 && c <= 5 {
        Some(14 - c)
    } else if r == 8 && n - 8 <= c {
        Some(n - 1 - c)
    } else if c == 8 && n - 7 <= r {
        Some(r + 15 - n)
    } else {
        None
    }
}

fn format_bit_exec(i: usize) -> (b: bool)
    requires
        i < 15,
    ensures
        b == format_bit(i as int),
{
    (0x77C4u16 >> (i as u16)) & 1 == 1
}

fn codeword_bit_exec(cw: &Vec<u8>, k: usize) -> (b: bool)
    requires
        cw@.len() < usize::MAX / 8,
    ensures
        b == codeword_bit(cw@, k as int),
{
    if k < 8 * cw.len() {
        (cw[k / 8] >> ((7 - k % 8) as u8)) & 1 == 1
    } else {
        false
    }
}

proof fn lemma_visit_range(n: int, t: int)
    requires
        21 <= n <= 49,
        n % 2 == 1,
        n % 4 == 1,
        0 <= t < visit_total(n),
    ensures
        0 <= visit_row(n, t) < n,
        0 <= visit_col(n, t) < n,
{
    let p = t / (2 * n);
    let w = t % (2 * n);
    assert(0 <= w < 2 * n);
    assert(0 <= p);
    assert(p < (n - 1) / 2) by {
        vstd::arithmetic::div_mod::lemma_fundamental_div_mod(t, 2 * n);
        assert(t == p * (2 * n) + w) by (nonlinear_arith)
            requires
                t == (2 * n) * p + w,
        ;
        if p >= (n - 1) / 2 {
            assert(p * (2 * n) >= ((n - 1) / 2) * (2 * n)) by (nonlinear_arith)
                requires
                    p >= (n - 1) / 2,
                    n > 0,
            ;
            assert(((n - 1) / 2) * (2 * n) == (n - 1) * n) by (nonlinear_arith)
                requires
                    n % 2 == 1,
                    n % 4 == 1,
            ;
        }
    }
}

proof fn lemma_visit_index(n: int, r: int, c: int)
    requires
        21 <= n <= 49,
        n % 2 == 1,
        n % 4 == 1,
        0 <= r < n,
        0 <= c < n,
        c != 6,
    ensures
        0 <= visit_index(n, r, c) < visit_total(n),
        visit_row(n, visit_index(n, r, c)) == r,
        visit_col(n, visit_index(n, r, c)) == c,
{
    let right = if c >= 7 {
        if (n - 1 - c) % 2 == 0 {
            c
        } else {
            c + 1
        }
    } else {
        if c % 2 == 1 {
            c
        } else {
            c + 1
        }
    };
    let p = if c >= 7 {
        (n - 1 - right) / 2
    } else {
        (n - 7) / 2 + (5 - right) / 2
    };
    let q = if p % 2 == 0 {
        n - 1 - r
    } else {
        r
    };
    let o = right - c;
    let w = 2 * q + o;
    let t = p * (2 * n) + w;
    assert(t == visit_index(n, r, c));
    assert(0 <= o <= 1);
    assert(0 <= q < n);
    assert(0 <= w < 2 * n);
    assert(0 <= p < (n - 1) / 2);
    assert(pair_right(n, p) == right);
    vstd::arithmetic::div_mod::lemma_fundamental_div_mod_converse(t, 2 * n, p, w);
    vstd::arithmetic::div_mod::lemma_fundamental_div_mod_converse(w, 2, q, o);
    assert(0 <= t < visit_total(n)) by {
        assert(p * (2 * n) + w < (p + 1) * (2 * n)) by (nonlinear_arith)
            requires
                w < 2 * n,
        ;
        assert((p + 1) * (2 * n) <= ((n - 1) / 2) * (2 * n)) by (nonlinear_arith)
            requires
                p + 1 <= (n - 1) / 2,
                n > 0,
        ;
        let k = (n - 1) / 2;
        assert(n - 1 == 2 * k);
        assert(k * (2 * n) == (n - 1) * n) by (nonlinear_arith)
            requires
                n - 1 == 2 * k,
        ;
        assert(p * (2 * n) >= 0) by (nonlinear_arith)
            requires
                p >= 0,
                n > 0,
        ;
    }
}

fn visit_exec(n: usize, t: usize) -> (rc: (usize, usize))
    requires
        21 <= n <= 49,
        n % 2 == 1,
        n % 4 == 1,
        t < visit_total(n as int),
    ensures
        rc.0 as int == visit_row(n as int, t as int),
        rc.1 as int == visit_col(n as int, t as int),
        rc.0 < n,
        rc.1 < n,
{
    proof {
        lemma_visit_range(n as int, t as int);
    }
    let p = t / (2 * n);
    let w = t % (2 * n);
    let q = w / 2;
    let r = if p % 2 == 0 {
        n - 1 - q
    } else {
        q
    };
    let half = (n - 7) / 2;
    let right = if p < half {
        n - 1 - 2 * p
    } else {
        5 - 2 * (p - half)
    };
    (r, right - w % 2)
}

fn visit_index_exec(n: usize, r: usize, c: usize) -> (t: usize)
    requires
        21 <= n <= 49,
        n % 2 == 1,
        n % 4 == 1,
        r < n,
        c < n,
        c != 6,
    ensures
        t as int == visit_index(n as int, r as int, c as int),
        t < visit_total(n as int),
{
    proof {
        lemma_visit_index(n as int, r as int, c as int);
    }
    let right = if c >= 7 {
        if (n - 1 - c) % 2 == 0 {
            c
        } else {
            c + 1
        }
    } else {
        if c % 2 == 1 {
            c
        } else {
            c + 1
        }
    };
    let p = if c >= 7 {
        (n - 1 - right) / 2
    } else {
        (n - 7) / 2 + (5 - right) / 2
    };
    let q = if p % 2 == 0 {
        n - 1 - r
    } else {
        r
    };
    assert(p < 25 && q < 49);
    assert(p * (2 * n) <= 24 * 98) by (nonlinear_arith)
        requires
            p < 25,
            n <= 49,
    ;
    assert(p < 25 && q < 49);
    assert(p * (2 * n) <= 24 * 98) by (nonlinear_arith)
        requires
            p < 25,
            n <= 49,
    ;
    p * (2 * n) + 2 * q + (right - c)
}

/// The module stored at `(r, c)`, given the masked bit placed at every data visit.
fn module_exec(n: usize, cw: &Vec<u8>, placed: &Vec<bool>, r: usize, c: usize) -> (m: Option<bool>)
    requires
        21 <= n <= 49,
        n % 2 == 1,
        n % 4 == 1,
        r < n,
        c < n,
        placed@.len() == visit_total(n as int),
        forall|s: int|
            0 <= s < visit_total(n as int) && function_module(
                n as int,
                visit_row(n as int, s),
                visit_col(n as int, s),
            ) is None ==> #[trigger] placed@[s] == (codeword_bit(
                cw@,
                free_before(n as int, s as nat) as int,
            ) != ((visit_row(n as int, s) + visit_col(n as int, s)) % 2 == 0)),
    ensures
        m == qr_module(n as int, cw@, r as int, c as int),
{
    match format_position_exec(n, r, c) {
        Some(f) => Some(format_bit_exec(f)),
        None => match function_module_exec(n, r, c) {
            Some(b) => Some(b),
            None => {
                if c == 6 {
                    None
                } else {
                    let t = visit_index_exec(n, r, c);
                    proof {
                        lemma_visit_index(n as int, r as int, c as int);
                    }
                    Some(placed[t])
                }
            },
        },
    }
}

/// Percent-encodes the UTF-8 bytes of `input`, keeping `A-Z a-z 0-9 - _ . ~`.
fn utf8_percent_encode(input: &str) -> (encoded: String)
    ensures
        encoded@ == percent_encode(encode_utf8(input@)),
{
    let bytes = input.as_bytes();
    let mut out: Vec<char> = Vec::new();
    let mut i: usize = 0;
    while i < bytes.len()
        invariant
            i <= bytes@.len(),
            bytes@ == encode_utf8(input@),
            out@ == percent_encode(bytes@.take(i as int)),
        decreases bytes@.len() - i,
    {
        let b = bytes[i];
        if (65 <= b && b <= 90) || (97 <= b && b <= 122) || (48 <= b && b <= 57) || b == 45 || b
            == 95 || b == 46 || b == 126 {
            out.push(b as char);
        } else {
            let hi = b / 16;
            let lo = b % 16;
            out.push('%');
            out.push(if hi < 10 { (hi + 48) as char } else { (hi + 55) as char });
            out.push(if lo < 10 { (lo + 48) as char } else { (lo + 55) as char });
        }
        assert(bytes@.take(i + 1).drop_last() =~= bytes@.take(i as int));
        i = i + 1;
    }
    assert(bytes@.take(bytes@.len() as int) =~= bytes@);
    string_from_chars(&out)
}

/// Appends the path commands of the dark modules of row `r`.
fn push_row_path(path: &mut Vec<char>, n: usize, cw: &Vec<u8>, placed: &Vec<bool>, margin: usize, r: usize)
    requires
        21 <= n <= 49,
        n % 2 == 1,
        n % 4 == 1,
        r < n,
        n + 2 * margin <= usize::MAX,
        placed@.len() == visit_total(n as int),
        forall|s: int|
            0 <= s < visit_total(n as int) && function_module(
                n as int,
                visit_row(n as int, s),
                visit_col(n as int, s),
            ) is None ==> #[trigger] placed@[s] == (codeword_bit(
                cw@,
                free_before(n as int, s as nat) as int,
            ) != ((visit_row(n as int, s) + visit_col(n as int, s)) % 2 == 0)),
    ensures
        final(path)@ == old(path)@ + row_path(n as int, cw@, margin as int, r as int, n as nat),
{
    let ghost start = path@;
    let mut c: usize = 0;
    while c < n
        invariant
            21 <= n <= 49,
            n % 2 == 1,
            n % 4 == 1,
            r < n,
            c <= n,
            n + 2 * margin <= usize::MAX,
            placed@.len() == visit_total(n as int),
            forall|s: int|
                0 <= s < visit_total(n as int) && function_module(
                    n as int,
                    visit_row(n as int, s),
                    visit_col(n as int, s),
                ) is None ==> #[trigger] placed@[s] == (codeword_bit(
                    cw@,
                    free_before(n as int, s as nat) as int,
                ) != ((visit_row(n as int, s) + visit_col(n as int, s)) % 2 == 0)),
            path@ == start + row_path(n as int, cw@, margin as int, r as int, c as nat),
        decreases n - c,
    {
        let m = module_exec(n, cw, placed, r, c);
        if m == Some(true) {
            push_str(path, "M");
            push_decimal(path, (c + margin) as u64);
            push_str(path, ",");
            push_decimal(path, (r + margin) as u64);
            push_str(path, "h1v1h-1z ");
        }
        c = c + 1;
    }
}

fn interleave_exec(a: &Vec<u8>, b: &Vec<u8>) -> (out: Vec<u8>)
    requires
        a@.len() == b@.len(),
        a@.len() <= usize::MAX / 4,
    ensures
        out@ == interleave(a@, b@),
{
    let mut out: Vec<u8> = Vec::new();
    let mut i: usize = 0;
    while i < a.len()
        invariant
            i <= a@.len() == b@.len(),
            a@.len() <= usize::MAX / 4,
            out@.len() == 2 * i,
            forall|j: int|
                0 <= j < 2 * i ==> #[trigger] out@[j] == (if j % 2 == 0 {
                    a@[j / 2]
                } else {
                    b@[j / 2]
                }),
        decreases a@.len() - i,
    {
        out.push(a[i]);
        out.push(b[i]);
        i = i + 1;
    }
    assert(out@ =~= interleave(a@, b@));
    out
}

/// Copies `s[a..b]` into a new vector.
fn copy_range(s: &Vec<u8>, a: usize, b: usize) -> (t: Vec<u8>)
    requires
        a <= b <= s@.len(),
    ensures
        t@ == s@.subrange(a as int, b as int),
{
    let mut t: Vec<u8> = Vec::new();
    let mut k = a;
    while k < b
        invariant
            a <= k <= b <= s@.len(),
            t@ == s@.subrange(a as int, k as int),
        decreases b - k,
    {
        t.push(s[k]);
        assert(t@ =~= s@.subrange(a as int, k + 1));
        k = k + 1;
    }
    t
}

/// Appends `b` to `a`.
fn concat_bytes(a: Vec<u8>, b: &Vec<u8>) -> (out: Vec<u8>)
    requires
        a@.len() + b@.len() <= usize::MAX,
    ensures
        out@ == a@ + b@,
{
    let ghost start = a@;
    let mut out = a;
    let mut k: usize = 0;
    while k < b.len()
        invariant
            k <= b@.len(),
            out@ == start + b@.take(k as int),
        decreases b@.len() - k,
    {
        out.push(b[k]);
        assert(out@ =~= start + b@.take(k + 1));
        k = k + 1;
    }
    assert(b@.take(b@.len() as int) =~= b@);
    out
}

/// The final codewords: see `block_codewords`.
fn assemble_codewords(dc: Vec<u8>, total: usize, ec: usize, blocks: usize) -> (cw: Vec<u8>)
    requires
        dc@.len() <= usize::MAX / 32,
        ec < 30,
        total <= 194,
        blocks == 1 || total % 2 == 0,
    ensures
        cw@ == block_codewords(dc@, total as int, ec as nat, blocks as int),
        cw@.len() <= dc@.len() + 2 * ec,
{
    if blocks == 1 || dc.len() != total {
        let e = generate_reed_solomon_ec(dc.as_slice(), ec);
        concat_bytes(dc, &e)
    } else {
        let h = total / 2;
        let b1 = copy_range(&dc, 0, h);
        let b2 = copy_range(&dc, h, total);
        let d = interleave_exec(&b1, &b2);
        let e1 = generate_reed_solomon_ec(b1.as_slice(), ec);
        let e2 = generate_reed_solomon_ec(b2.as_slice(), ec);
        let e = interleave_exec(&e1, &e2);
        concat_bytes(d, &e)
    }
}

/// Generates an SVG QR code for `data` and the same document as a `data:` URL.
///
/// `size` is written as the SVG width and height; `margin` is the quiet zone in
/// modules on each side. `module_count` is the side of the view box in modules,
/// margins included.
pub fn generate_qr_svg(data: &str, size: usize, margin: usize) -> (res: QrSvgResult)
    requires
        encode_utf8(data@).len() <= usize::MAX / 64,
        qr_side(qr_payload(data@).len() as int) + 2 * margin <= usize::MAX,
    ensures
        res.svg@ == qr_svg(data@, size as int, margin as int),
        res.data_url@ == "data:image/svg+xml;charset=utf-8,"@ + percent_encode(
            encode_utf8(res.svg@),
        ),
        res.size == size,
        res.module_count == qr_side(qr_payload(data@).len() as int) + 2 * margin,
{
    let space: [u8; 1] = [32u8];
    let bytes: &[u8] = if data.is_empty() {
        space.as_slice()
    } else {
        data.as_bytes()
    };
    assert(bytes@ =~= qr_payload(data@));
    let (version, total_data_bytes, ec_bytes) = qr_parameters_exec(bytes.len());
    let n = version * 4 + 17;
    let bits = data_bit_stream_exec(bytes, total_data_bytes * 8);
    let data_cw = group_codewords_exec(&bits);
    let blocks: usize = if bytes.len() <= 84 {
        1
    } else {
        2
    };
    let cw = assemble_codewords(data_cw, total_data_bytes, ec_bytes, blocks);
    assert(cw@ == qr_codewords(bytes@));
    // Masked data bit for every visit of the zigzag that reaches a free module.
    assert((n - 1) * n <= 48 * 49) by (nonlinear_arith)
        requires
            21 <= n <= 49,
    ;
    let t_total = (n - 1) * n;
    let mut placed: Vec<bool> = Vec::new();
    let mut bit_idx: usize = 0;
    let mut t: usize = 0;
    while t < t_total
        invariant
            21 <= n <= 49,
            n % 2 == 1,
            n % 4 == 1,
            t_total as int == visit_total(n as int),
            t <= t_total,
            cw@.len() < usize::MAX / 8,
            placed@.len() == t,
            bit_idx as nat == free_before(n as int, t as nat),
            bit_idx <= t,
            forall|s: int|
                0 <= s < t && function_module(
                    n as int,
                    visit_row(n as int, s),
                    visit_col(n as int, s),
                ) is None ==> #[trigger] placed@[s] == (codeword_bit(
                    cw@,
                    free_before(n as int, s as nat) as int,
                ) != ((visit_row(n as int, s) + visit_col(n as int, s)) % 2 == 0)),
        decreases t_total - t,
    {
        let (r, c) = visit_exec(n, t);
        if function_module_exec(n, r, c).is_none() {
            let bit = codeword_bit_exec(&cw, bit_idx);
            placed.push(bit != ((r + c) % 2 == 0));
            bit_idx = bit_idx + 1;
        } else {
            placed.push(false);
        }
        t = t + 1;
    }
    // Path commands for the dark modules, row by row.
    let mut path: Vec<char> = Vec::new();
    let mut r: usize = 0;
    while r < n
        invariant
            21 <= n <= 49,
            n % 2 == 1,
            n % 4 == 1,
            r <= n,
            n + 2 * margin <= usize::MAX,
            placed@.len() == visit_total(n as int),
            forall|s: int|
                0 <= s < visit_total(n as int) && function_module(
                    n as int,
                    visit_row(n as int, s),
                    visit_col(n as int, s),
                ) is None ==> #[trigger] placed@[s] == (codeword_bit(
                    cw@,
                    free_before(n as int, s as nat) as int,
                ) != ((visit_row(n as int, s) + visit_col(n as int, s)) % 2 == 0)),
            path@ == grid_path(n as int, cw@, margin as int, r as nat),
        decreases n - r,
    {
        push_row_path(&mut path, n, &cw, &placed, margin, r);
        r = r + 1;
    }
    if path.len() > 0 {
        path.pop();
    }
    let total_dim = n + margin * 2;
    let mut doc: Vec<char> = Vec::new();
    push_str(&mut doc, "<svg xmlns=\"http://www.w3.org/2000/svg\" viewBox=\"0 0 ");
    push_decimal(&mut doc, total_dim as u64);
    push_str(&mut doc, " ");
    push_decimal(&mut doc, total_dim as u64);
    push_str(&mut doc, "\" width=\"");
    push_decimal(&mut doc, size as u64);
    push_str(&mut doc, "\" height=\"");
    push_decimal(&mut doc, size as u64);
    push_str(&mut doc, "\" shape-rendering=\"crispEdges\"><rect width=\"");
    push_decimal(&mut doc, total_dim as u64);
    push_str(&mut doc, "\" height=\"");
    push_decimal(&mut doc, total_dim as u64);
    push_str(&mut doc, "\" fill=\"#ffffff\"/><path d=\"");
    let ghost before_path = doc@;
    let mut k: usize = 0;
    while k < path.len()
        invariant
            k <= path@.len(),
            doc@ == before_path + path@.take(k as int),
        decreases path@.len() - k,
    {
        doc.push(path[k]);
        assert(doc@ =~= before_path + path@.take(k + 1));
        k = k + 1;
    }
    assert(path@.take(path@.len() as int) =~= path@);
    push_str(&mut doc, "\" fill=\"#000000\"/></svg>");
    let svg = string_from_chars(&doc);
    assert(svg@ =~= qr_svg(data@, size as int, margin as int));
    let encoded = utf8_percent_encode(svg.as_str());
    let mut url: Vec<char> = Vec::new();
    push_str(&mut url, "data:image/svg+xml;charset=utf-8,");
    push_str(&mut url, encoded.as_str());
    let data_url = string_from_chars(&url);
    QrSvgResult { svg, data_url, size, module_count: total_dim }
}

/// Empty input is encoded as a single space: both give the same symbol and document.
pub proof fn law_empty_input_is_a_space(size: int, margin: int)
    ensures
        qr_payload(Seq::<char>::empty()) == qr_payload(seq![' ']),
        qr_svg(Seq::<char>::empty(), size, margin) == qr_svg(seq![' '], size, margin),
{
    let sp = seq![' '];
    assert(sp.drop_first() =~= Seq::<char>::empty());
    assert(encode_utf8(sp.drop_first()) =~= Seq::<u8>::empty());
    assert((' ' as u32) == 32);
    assert((32u32 & 0x7Fu32) as u8 == 32u8) by (bit_vector);
    assert(vstd::utf8::encode_scalar(32u32) =~= seq![32u8]);
    assert(encode_utf8(sp) =~= seq![32u8]);
}

} // verus!
