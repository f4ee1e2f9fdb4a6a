//! Conversion of one normalized sample, given as the bit pattern of an IEEE-754
//! single-precision value, into the bytes of an output encoding.
use vstd::prelude::*;

verus! {

/// Bit pattern of the single-precision value 1.0.
pub const ONE_BITS: u32 = 0x3F80_0000;

/// Bit pattern of positive infinity; every pattern above it is a NaN or negative.
pub const INFINITY_BITS: u32 = 0x7F80_0000;

/// Number of fraction bits of a single-precision value, as a power of two.
pub const FRACTION_SPAN: u32 = 0x80_0000;

/// The binary sample widths an output buffer can use.
#[derive(Clone, Copy, Debug, PartialEq, Eq, Structural)]
pub enum SampleEncoding {
    /// One byte per sample: the sample scaled to 0..=255.
    UInt8,
    /// Two little-endian bytes per sample: the sample scaled to 0..=65535.
    UInt16Le,
    /// Four little-endian bytes per sample: the clamped single-precision value itself.
    Float32Le,
}

/// Two to the power `k`.
pub open spec fn two_pow(k: nat) -> nat
    decreases k,
{
    if k == 0 {
        1
    } else {
        2 * two_pow((k - 1) as nat)
    }
}

/// The sample clamped to [0.0, 1.0]; NaN and every negative value (also -0.0) become +0.0.
pub open spec fn clamp_unit(b: u32) -> u32 {
    if b > INFINITY_BITS {
        0
    } else if b >= ONE_BITS {
        ONE_BITS
    } else {
        b
    }
}

/// Biased exponent field of a bit pattern.
pub open spec fn exponent_field(c: u32) -> nat {
    (c / FRACTION_SPAN) as nat
}

/// The integer significand `n` of a non-negative finite pattern, whose value is `n / 2^k`.
pub open spec fn significand(c: u32) -> nat {
    if exponent_field(c) == 0 {
        (c % FRACTION_SPAN) as nat
    } else {
        (c % FRACTION_SPAN) as nat + FRACTION_SPAN as nat
    }
}

/// The exponent `k` of a non-negative finite pattern, whose value is `n / 2^k`.
pub open spec fn scale_shift(c: u32) -> nat {
    if exponent_field(c) == 0 {
        149
    } else {
        (150 - exponent_field(c)) as nat
    }
}

/// The clamped sample times `max`, rounded to the nearest integer, halves rounded up.
pub open spec fn quantized(b: u32, max: nat) -> nat {
    let c = clamp_unit(b);
    (2 * significand(c) * max + two_pow(scale_shift(c))) / two_pow(scale_shift(c) + 1)
}

/// Number of bytes one sample takes in an encoding.
pub open spec fn sample_width(enc: SampleEncoding) -> nat {
    match enc {
        SampleEncoding::UInt8 => 1,
        SampleEncoding::UInt16Le => 2,
        SampleEncoding::Float32Le => 4,
    }
}

/// The bytes that encode one sample.
pub open spec fn sample_bytes(b: u32, enc: SampleEncoding) -> Seq<u8> {
    match enc {
        SampleEncoding::UInt8 => seq![quantized(b, 255) as u8],
        SampleEncoding::UInt16Le => {
            let q = quantized(b, 65535);
            seq![(q % 256) as u8, (q / 256) as u8]
        },
        SampleEncoding::Float32Le => {
            let c = clamp_unit(b);
            seq![
                (c % 256) as u8,
                ((c / 256) % 256) as u8,
                ((c / 65536) % 256) as u8,
                (c / 16777216) as u8,
            ]
        },
    }
}

/// The bytes of a fully opaque alpha sample in each encoding.
pub open spec fn opaque_bytes(enc: SampleEncoding) -> Seq<u8> {
    match enc {
        SampleEncoding::UInt8 => seq![255u8],
        SampleEncoding::UInt16Le => seq![255u8, 255u8],
        SampleEncoding::Float32Le => seq![0u8, 0u8, 0x80u8, 0x3Fu8],
    }
}

/// The number read from four little-endian bytes.
pub open spec fn le_word(s: Seq<u8>) -> nat {
    s[0] as nat + 256 * s[1] as nat + 65536 * s[2] as nat + 16777216 * s[3] as nat
}

proof fn lemma_two_pow_monotone(a: nat, b: nat)
    requires
        a <= b,
    ensures
        two_pow(a) <= two_pow(b),
        two_pow(a) >= 1,
    decreases b,
{
    reveal_with_fuel(two_pow, 2);
    if a < b {
        lemma_two_pow_monotone(a, (b - 1) as nat);
    } else if b > 0 {
        lemma_two_pow_monotone((b - 1) as nat, (b - 1) as nat);
    }
}

proof fn lemma_two_pow_41()
    ensures
        two_pow(41) == 0x200_0000_0000,
        two_pow(23) == 0x80_0000,
{
    reveal_with_fuel(two_pow, 42);
}

/// A clamped sample never exceeds 1.0: its significand is at most `2^k`.
proof fn lemma_significand_bounded(c: u32)
    requires
        c <= ONE_BITS,
    ensures
        significand(c) <= two_pow(scale_shift(c)),
        significand(c) < 0x100_0000,
        scale_shift(c) >= 23,
{
    lemma_two_pow_41();
    if exponent_field(c) == 0 {
        lemma_two_pow_monotone(23, 149);
    } else if exponent_field(c) == 127 {
        assert(c == ONE_BITS);
    } else {
        lemma_two_pow_monotone(24, scale_shift(c));
        reveal_with_fuel(two_pow, 2);
        assert(two_pow(24) == 2 * two_pow(23));
    }
}

/// Clamping keeps a pattern within the non-negative part of [0.0, 1.0].
pub fn clamp_unit_bits(b: u32) -> (r: u32)
    ensures
        r == clamp_unit(b),
        r <= ONE_BITS,
{
    if b > INFINITY_BITS {
        0
    } else if b >= ONE_BITS {
        ONE_BITS
    } else {
        b
    }
}

fn two_pow_u64(k: u32) -> (r: u64)
    requires
        k <= 42,
    ensures
        r == two_pow(k as nat),
{
    let mut r: u64 = 1;
    let mut i: u32 = 0;
    while i < k
        invariant
            i <= k <= 42,
            r == two_pow(i as nat),
        decreases k - i,
    {
        proof {
            lemma_two_pow_monotone(i as nat + 1, 42);
            reveal_with_fuel(two_pow, 43);
            assert(two_pow((i + 1) as nat) == 2 * two_pow(i as nat));
        }
        r = r * 2;
        i = i + 1;
    }
    r
}

/// Scales the clamped sample to `0..=max` and rounds it to the nearest integer.
pub fn quantize(b: u32, max: u32) -> (r: u32)
    requires
        max <= 65535,
    ensures
        r == quantized(b, max as nat),
        r <= max,
{
    let c = clamp_unit_bits(b);
    let e = c / FRACTION_SPAN;
    let m = c % FRACTION_SPAN;
    let n: u64 = if e == 0 { m as u64 } else { m as u64 + FRACTION_SPAN as u64 };
    let k: u32 = if e == 0 { 149 } else { 150 - e };
    proof {
        lemma_significand_bounded(c);
        assert(n == significand(c));
        assert(k == scale_shift(c));
        assert(2 * n * max < 0x200_0000_0000) by (nonlinear_arith)
            requires n < 0x100_0000, max <= 65535;
    }
    if k > 41 {
        proof {
            let p: int = two_pow(k as nat) as int;
            lemma_two_pow_41();
            lemma_two_pow_monotone(41, k as nat);
            reveal_with_fuel(two_pow, 2);
            assert(two_pow(k as nat + 1) == 2 * p);
            let num: int = 2 * n * max + p;
            assert(num < 2 * p);
            assert(num / (2 * p) == 0) by (nonlinear_arith)
                requires num < 2 * p, num >= 0, p > 0;
        }
        0
    } else {
        let p = two_pow_u64(k);
        proof {
            lemma_two_pow_41();
            lemma_two_pow_monotone(k as nat, 41);
            reveal_with_fuel(two_pow, 2);
            assert(two_pow(k as nat + 1) == 2 * p);
            let num: int = 2 * n * max + p;
            assert(num < 2 * p * (max + 1)) by (nonlinear_arith)
                requires num == 2 * n * max + p, n <= p, p >= 1;
            assert(num / (2 * p) <= max) by (nonlinear_arith)
                requires num < 2 * p * (max + 1), p >= 1, num >= 0;
        }
        ((2 * n * (max as u64) + p) / (2 * p)) as u32
    }
}

/// The opaque value 1.0 scales to the top of every range.
proof fn lemma_one_quantizes_to_max(max: nat)
    ensures
        quantized(ONE_BITS, max) == max,
{
    lemma_two_pow_41();
    reveal_with_fuel(two_pow, 2);
    assert(exponent_field(ONE_BITS) == 127);
    assert(significand(ONE_BITS) == 0x80_0000);
    assert(scale_shift(ONE_BITS) == 23);
    assert(two_pow(24) == 2 * 0x80_0000);
    let m: int = max as int;
    let num: int = 2 * 0x80_0000 * m + 0x80_0000;
    assert(num / 0x100_0000 == m) by (nonlinear_arith)
        requires num == 2 * 0x80_0000 * m + 0x80_0000, m >= 0;
}

/// Bit pattern of the single-precision value 0.5.
pub const HALF_BITS: u32 = 0x3F00_0000;

/// A sample of 0.5 encodes in two bytes as 32768.
pub proof fn lemma_half_is_mid_scale()
    ensures
        quantized(HALF_BITS, 65535) == 32768,
        sample_bytes(HALF_BITS, SampleEncoding::UInt16Le) == seq![0u8, 0x80u8],
{
    reveal_with_fuel(two_pow, 26);
    assert(exponent_field(HALF_BITS) == 126);
    assert(significand(HALF_BITS) == 0x80_0000);
    assert(scale_shift(HALF_BITS) == 24);
    assert(two_pow(24) == 0x100_0000);
    assert(two_pow(25) == 0x200_0000);
    assert((2 * 0x80_0000 * 65535 + 0x100_0000) / 0x200_0000 == 32768nat);
    assert(sample_bytes(HALF_BITS, SampleEncoding::UInt16Le) =~= seq![0u8, 0x80u8]);
}

/// A synthesized alpha sample of 1.0 encodes as full opacity.
pub proof fn lemma_one_is_opaque(enc: SampleEncoding)
    ensures
        sample_bytes(ONE_BITS, enc) == opaque_bytes(enc),
{
    lemma_one_quantizes_to_max(255);
    lemma_one_quantizes_to_max(65535);
    assert(sample_bytes(ONE_BITS, enc) =~= opaque_bytes(enc));
}

/// Every four-byte sample reads back as a value within [0.0, 1.0].
pub proof fn lemma_float_sample_in_unit(b: u32)
    ensures
        le_word(sample_bytes(b, SampleEncoding::Float32Le)) == clamp_unit(b) as nat,
        le_word(sample_bytes(b, SampleEncoding::Float32Le)) <= ONE_BITS,
{
    let c = clamp_unit(b);
    assert(c % 256 + 256 * ((c / 256) % 256) + 65536 * ((c / 65536) % 256) + 16777216 * (c / 16777216)
        == c) by (nonlinear_arith);
}

/// Appends the bytes of one sample.
pub fn push_sample(b: u32, enc: SampleEncoding, out: &mut Vec<u8>)
    ensures
        final(out)@ == old(out)@ + sample_bytes(b, enc),
{
    match enc {
        SampleEncoding::UInt8 => {
            let q = quantize(b, 255);
            out.push(q as u8);
        },
        SampleEncoding::UInt16Le => {
            let q = quantize(b, 65535);
            out.push((q % 256) as u8);
            out.push((q / 256) as u8);
        },
        SampleEncoding::Float32Le => {
            let c = clamp_unit_bits(b);
            out.push((c % 256) as u8);
            out.push(((c / 256) % 256) as u8);
            out.push(((c / 65536) % 256) as u8);
            out.push((c / 16777216) as u8);
        },
    }
    assert(final(out)@ =~= old(out)@ + sample_bytes(b, enc));
}

} // verus!
