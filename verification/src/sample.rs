//! Samples and their normalization.
//!
//! A normalized sample is an IEEE 754 single-precision number in the range
//! from -1 to 1, carried as its 32-bit pattern. This module says what
//! number a pattern stands for, and turns the native encodings of an input
//! device (singles, signed and unsigned 16-bit integers) into such patterns
//! with integer arithmetic only.

use vstd::prelude::*;
use vstd::arithmetic::power2::{
    pow2,
    lemma2_to64,
    lemma_pow2_adds,
    lemma_pow2_pos,
    lemma_pow2_strictly_increases,
};

verus! {

/// The sign of a pattern: set for negative numbers (and for negative zero).
pub open spec fn sign_bit(bits: u32) -> bool {
    bits >= 0x8000_0000
}

/// The eight exponent bits of a pattern.
pub open spec fn exponent_field(bits: u32) -> nat {
    ((bits / 0x80_0000) % 0x100) as nat
}

/// The twenty-three fraction bits of a pattern.
pub open spec fn fraction_field(bits: u32) -> nat {
    (bits % 0x80_0000) as nat
}

/// A pattern stands for a number, not for an infinity or a NaN.
pub open spec fn is_finite(bits: u32) -> bool {
    exponent_field(bits) != 0xff
}

/// The magnitude of the number that a finite pattern stands for, as a
/// multiple of 2^-149 (the smallest positive single): always a whole
/// number.
pub open spec fn scaled_magnitude(bits: u32) -> nat {
    if exponent_field(bits) == 0 {
        fraction_field(bits)
    } else {
        (0x80_0000 + fraction_field(bits)) * pow2((exponent_field(bits) - 1) as nat)
    }
}

/// The number that a finite pattern stands for, as a multiple of 2^-149.
pub open spec fn scaled_value(bits: u32) -> int {
    if sign_bit(bits) {
        -(scaled_magnitude(bits) as int)
    } else {
        scaled_magnitude(bits) as int
    }
}

/// The pattern stands for a number between -1 and 1, both included.
pub open spec fn is_normalized(bits: u32) -> bool {
    is_finite(bits) && scaled_magnitude(bits) <= pow2(149)
}

/// The pattern stands for the quotient `numerator / denominator`, exactly.
/// The quotient zero is written as positive zero.
pub open spec fn encodes(bits: u32, numerator: int, denominator: int) -> bool {
    &&& is_finite(bits)
    &&& scaled_value(bits) * denominator == numerator * pow2(149)
    &&& numerator == 0 ==> bits == 0
}

/// The position of the highest set bit of `m`, counted from zero.
pub open spec fn leading_bit(m: nat) -> nat
    decreases m,
{
    if m <= 1 {
        0
    } else {
        1 + leading_bit(m / 2)
    }
}

/// The pattern of the single `v / 32768`, for `v` from -32768 to 32768:
/// sign, then the exponent that puts the highest set bit of `|v|` in front
/// of the binary point, then the remaining bits of `|v|` as the fraction.
pub open spec fn fixed_point_bits(v: int) -> u32
    recommends
        -0x8000 <= v <= 0x8000,
{
    if v == 0 {
        0u32
    } else {
        let m: nat = if v < 0 { (-v) as nat } else { v as nat };
        let p: nat = leading_bit(m);
        let sign: int = if v < 0 { 0x8000_0000 } else { 0 };
        (sign + (112 + p) * 0x80_0000 + (m * pow2((23 - p) as nat) - 0x80_0000)) as u32
    }
}

/// The highest set bit brackets the number between two powers of two.
pub proof fn lemma_leading_bit_brackets(m: nat)
    requires
        m >= 1,
    ensures
        pow2(leading_bit(m)) <= m < pow2(leading_bit(m) + 1),
    decreases m,
{
    lemma2_to64();
    if m > 1 {
        let h: nat = m / 2;
        lemma_leading_bit_brackets(h);
        lemma_pow2_adds(leading_bit(h), 1);
        lemma_pow2_adds(leading_bit(h) + 1, 1);
    }
}

/// A number between two consecutive powers of two has its highest set bit
/// at the lower one.
pub proof fn lemma_leading_bit_unique(m: nat, p: nat)
    requires
        pow2(p) <= m < pow2(p + 1),
    ensures
        leading_bit(m) == p,
{
    lemma_pow2_pos(p);
    lemma_leading_bit_brackets(m);
    let q: nat = leading_bit(m);
    if q < p {
        if q + 1 < p {
            lemma_pow2_strictly_increases(q + 1, p);
        }
    } else if p < q {
        if p + 1 < q {
            lemma_pow2_strictly_increases(p + 1, q);
        }
    }
}

/// Builds the pattern of `magnitude / 32768` with the given sign.
fn encode_fixed_point(negative: bool, magnitude: u32) -> (bits: u32)
    requires
        1 <= magnitude <= 0x8000,
    ensures
        bits == fixed_point_bits(
            if negative {
                -(magnitude as int)
            } else {
                magnitude as int
            },
        ),
{
    let mut mantissa: u32 = magnitude;
    let mut exponent: u32 = 127;
    let ghost mut shift: nat = 0;
    proof {
        lemma2_to64();
    }
    while mantissa < 0x8000
        invariant
            1 <= magnitude <= 0x8000,
            1 <= mantissa < 0x1_0000,
            mantissa == magnitude * pow2(shift),
            exponent + shift == 127,
            shift <= 15,
        decreases 15 - shift,
    {
        proof {
            lemma_pow2_adds(shift, 1);
            lemma2_to64();
            assert(magnitude * pow2(shift + 1) == 2 * (magnitude * pow2(shift))) by (nonlinear_arith)
                requires
                    pow2(shift + 1) == pow2(shift) * 2,
            ;
            if shift >= 15 {
                if shift > 15 {
                    lemma_pow2_strictly_increases(15, shift);
                }
                assert(magnitude * pow2(shift) >= pow2(shift)) by (nonlinear_arith)
                    requires
                        magnitude >= 1,
                ;
            }
        }
        mantissa = mantissa * 2;
        exponent = exponent - 1;
        proof {
            shift = shift + 1;
        }
    }
    let sign: u32 = if negative { 0x8000_0000 } else { 0 };
    let bits: u32 = sign + exponent * 0x80_0000 + (mantissa - 0x8000) * 0x100;
    proof {
        let m: nat = magnitude as nat;
        let p: nat = leading_bit(m);
        lemma2_to64();
        lemma_leading_bit_brackets(m);
        lemma_pow2_adds(p, shift);
        lemma_pow2_adds(p + 1, shift);
        lemma_pow2_pos(shift);
        assert(pow2(p + shift) <= mantissa < pow2(p + shift + 1)) by (nonlinear_arith)
            requires
                pow2(p) <= m < pow2(p + 1),
                mantissa == m * pow2(shift),
                pow2(p + shift) == pow2(p) * pow2(shift),
                pow2(p + 1 + shift) == pow2(p + 1) * pow2(shift),
                pow2(shift) > 0,
        ;
        lemma_leading_bit_unique(mantissa as nat, p + shift);
        lemma_leading_bit_unique(mantissa as nat, 15);
        assert(p + shift == 15);
        lemma_pow2_adds(shift, 8);
        assert((23 - p) as nat == shift + 8);
        assert(m * pow2(shift + 8) == mantissa * 0x100) by (nonlinear_arith)
            requires
                mantissa == m * pow2(shift),
                pow2(shift + 8) == pow2(shift) * 0x100,
        ;
    }
    bits
}

/// The pattern that `fixed_point_bits` gives stands for `v / 32768`, which
/// lies between -1 and 1.
pub proof fn lemma_fixed_point_value(v: int)
    requires
        -0x8000 <= v <= 0x8000,
    ensures
        encodes(fixed_point_bits(v), v, 0x8000),
        is_normalized(fixed_point_bits(v)),
{
    lemma2_to64();
    lemma_pow2_pos(149);
    if v != 0 {
        let m: nat = if v < 0 { (-v) as nat } else { v as nat };
        let p: nat = leading_bit(m);
        lemma_leading_bit_brackets(m);
        if p > 15 {
            lemma_pow2_strictly_increases(15, p);
        }
        let t: nat = pow2((23 - p) as nat);
        let sign: int = if v < 0 { 0x8000_0000 } else { 0 };
        let exponent: int = 112 + (p as int);
        let fraction: int = m * t - 0x80_0000;
        lemma_pow2_adds(p, (23 - p) as nat);
        lemma_pow2_adds(p + 1, (23 - p) as nat);
        assert(0x80_0000 <= m * t < 0x100_0000) by (nonlinear_arith)
            requires
                pow2(p) <= m < pow2(p + 1),
                pow2(p) * t == 0x80_0000,
                pow2(p + 1) * t == 0x100_0000,
                t >= 0,
        ;
        let bits: u32 = fixed_point_bits(v);
        assert(bits == sign + exponent * 0x80_0000 + fraction);
        assert(exponent_field(bits) == exponent);
        assert(fraction_field(bits) == fraction);
        assert(sign_bit(bits) == (v < 0));
        let high: nat = pow2((exponent - 1) as nat);
        lemma_pow2_adds((23 - p) as nat, (exponent - 1) as nat);
        lemma_pow2_adds(134, 15);
        assert(scaled_magnitude(bits) == (m * t) * high);
        assert((m * t) * high * 0x8000 == m * pow2(149)) by (nonlinear_arith)
            requires
                t * high == pow2(134),
                pow2(149) == pow2(134) * 0x8000,
        ;
        assert(scaled_magnitude(bits) <= pow2(149)) by (nonlinear_arith)
            requires
                scaled_magnitude(bits) * 0x8000 == m * pow2(149),
                m <= 0x8000,
                pow2(149) > 0,
        ;
        assert(scaled_value(bits) * 0x8000 == v * pow2(149)) by (nonlinear_arith)
            requires
                scaled_magnitude(bits) * 0x8000 == m * pow2(149),
                scaled_value(bits) == (if v < 0 { -(scaled_magnitude(bits) as int) } else { scaled_magnitude(bits) as int }),
                m == (if v < 0 { -v } else { v }),
        ;
    }
}

/// A pattern is put together from its three fields.
proof fn lemma_fields_make_pattern(bits: u32)
    ensures
        bits == (if sign_bit(bits) { 0x8000_0000int } else { 0int }) + exponent_field(bits)
            * 0x80_0000 + fraction_field(bits),
        fraction_field(bits) < 0x80_0000,
        exponent_field(bits) < 0x100,
{
}

/// Among finite patterns a larger exponent means a larger magnitude.
proof fn lemma_magnitude_grows_with_exponent(a: u32, b: u32)
    requires
        exponent_field(a) < exponent_field(b),
    ensures
        scaled_magnitude(a) < scaled_magnitude(b),
{
    let ea: nat = exponent_field(a);
    let eb: nat = exponent_field(b);
    let fa: nat = fraction_field(a);
    let fb: nat = fraction_field(b);
    let high: nat = pow2((eb - 1) as nat);
    lemma_pow2_pos((eb - 1) as nat);
    assert((0x80_0000 + fb) * high >= 0x80_0000 * high) by (nonlinear_arith)
        requires
            fb >= 0,
            high > 0,
    ;
    if ea == 0 {
        assert(0x80_0000 * high >= 0x80_0000) by (nonlinear_arith)
            requires
                high > 0,
        ;
    } else {
        let low: nat = pow2((ea - 1) as nat);
        lemma2_to64();
        lemma_pow2_adds((ea - 1) as nat, 1);
        if ea < eb - 1 {
            lemma_pow2_strictly_increases(ea, (eb - 1) as nat);
        }
        assert(pow2(ea) == 2 * low);
        assert(2 * low <= high);
        lemma_pow2_pos((ea - 1) as nat);
        assert((0x80_0000 + fa) * low < 0x80_0000 * high) by (nonlinear_arith)
            requires
                fa < 0x80_0000,
                2 * low <= high,
                low > 0,
        ;
    }
}

/// A quotient has one pattern only: two finite patterns that stand for the
/// same quotient, zero written as positive zero, are the same pattern.
pub proof fn lemma_encoding_is_unique(a: u32, b: u32, numerator: int, denominator: int)
    requires
        denominator > 0,
        encodes(a, numerator, denominator),
        encodes(b, numerator, denominator),
    ensures
        a == b,
{
    if numerator != 0 {
        lemma_pow2_pos(149);
        let va: int = scaled_value(a);
        let vb: int = scaled_value(b);
        let scale: int = pow2(149) as int;
        assert(va == vb && va != 0) by (nonlinear_arith)
            requires
                va * denominator == numerator * scale,
                vb * denominator == numerator * scale,
                denominator > 0,
                scale > 0,
                numerator != 0,
        ;
        assert(sign_bit(a) == sign_bit(b));
        assert(scaled_magnitude(a) == scaled_magnitude(b));
        if exponent_field(a) < exponent_field(b) {
            lemma_magnitude_grows_with_exponent(a, b);
        }
        if exponent_field(b) < exponent_field(a) {
            lemma_magnitude_grows_with_exponent(b, a);
        }
        let e: nat = exponent_field(a);
        if e != 0 {
            let high: nat = pow2((e - 1) as nat);
            lemma_pow2_pos((e - 1) as nat);
            let fa: nat = fraction_field(a);
            let fb: nat = fraction_field(b);
            assert(fa == fb) by (nonlinear_arith)
                requires
                    (0x80_0000 + fa) * high == (0x80_0000 + fb) * high,
                    high > 0,
            ;
        }
        lemma_fields_make_pattern(a);
        lemma_fields_make_pattern(b);
    }
}

/// `fixed_point_bits(v)` is the one pattern that stands for `v / 32768`.
pub proof fn lemma_fixed_point_is_the_encoding(bits: u32, v: int)
    requires
        -0x8000 <= v <= 0x8000,
    ensures
        encodes(bits, v, 0x8000) <==> bits == fixed_point_bits(v),
{
    lemma_fixed_point_value(v);
    if encodes(bits, v, 0x8000) {
        lemma_encoding_is_unique(bits, fixed_point_bits(v), v, 0x8000);
    }
}

/// Normalizes a sample that the device delivers as a single: such a sample
/// is normalized already and passes through unchanged.
pub fn normalize_f32(raw: u32) -> (bits: u32)
    ensures
        bits == raw,
        is_normalized(raw) ==> is_normalized(bits),
{
    raw
}

/// Normalizes a signed 16-bit sample: `raw / 32768`.
pub fn normalize_i16(raw: i16) -> (bits: u32)
    ensures
        bits == fixed_point_bits(raw as int),
{
    if raw == 0 {
        0
    } else if raw < 0 {
        let magnitude: i32 = -(raw as i32);
        encode_fixed_point(true, magnitude as u32)
    } else {
        encode_fixed_point(false, raw as u32)
    }
}

/// Normalizes an unsigned 16-bit sample, whose midpoint 32768 is silence:
/// `(raw - 32768) / 32768`.
pub fn normalize_u16(raw: u16) -> (bits: u32)
    ensures
        bits == fixed_point_bits(raw as int - 0x8000),
{
    if raw == 0x8000 {
        0
    } else if raw < 0x8000 {
        encode_fixed_point(true, 0x8000 - (raw as u32))
    } else {
        encode_fixed_point(false, (raw as u32) - 0x8000)
    }
}

/// How a device encodes its samples.
#[derive(Clone, Copy, Debug, PartialEq, Eq, Structural)]
pub enum SampleEncoding {
    /// Singles, normalized by the device.
    F32,
    /// Signed 16-bit integers.
    I16,
    /// Unsigned 16-bit integers around the midpoint 32768.
    U16,
    /// Any other encoding: not analyzed.
    Other,
}

impl SampleEncoding {
    /// The encodings that have a normalization path.
    pub open spec fn supported(self) -> bool {
        self != SampleEncoding::Other
    }

    /// Tells whether the encoding has a normalization path.
    pub fn is_supported(self) -> (ok: bool)
        ensures
            ok == self.supported(),
    {
        match self {
            SampleEncoding::Other => false,
            _ => true,
        }
    }
}

/// One buffer as the device delivered it, tagged with its encoding. Singles
/// are carried as their bit patterns.
pub enum SampleBuffer {
    F32(Vec<u32>),
    I16(Vec<i16>),
    U16(Vec<u16>),
}

impl SampleBuffer {
    /// The samples of the buffer after normalization, in order.
    pub open spec fn normalized(&self) -> Seq<u32> {
        match self {
            SampleBuffer::F32(raw) => raw@,
            SampleBuffer::I16(raw) => Seq::new(
                raw@.len(),
                |i: int| fixed_point_bits(raw@[i] as int),
            ),
            SampleBuffer::U16(raw) => Seq::new(
                raw@.len(),
                |i: int| fixed_point_bits(raw@[i] as int - 0x8000),
            ),
        }
    }

    /// Normalizes every sample of the buffer, each by the path of the
    /// buffer's encoding.
    pub fn normalize(&self) -> (samples: Vec<u32>)
        ensures
            samples@ == self.normalized(),
    {
        let mut samples: Vec<u32> = Vec::new();
        match self {
            SampleBuffer::F32(raw) => {
                let mut i: usize = 0;
                while i < raw.len()
                    invariant
                        i <= raw@.len(),
                        samples@ == raw@.take(i as int),
                    decreases raw@.len() - i,
                {
                    samples.push(normalize_f32(raw[i]));
                    i = i + 1;
                    assert(samples@ =~= raw@.take(i as int));
                }
                assert(raw@.take(i as int) =~= raw@);
            },
            SampleBuffer::I16(raw) => {
                let mut i: usize = 0;
                while i < raw.len()
                    invariant
                        i <= raw@.len(),
                        samples@.len() == i,
                        forall|j: int|
                            0 <= j < i ==> samples@[j] == fixed_point_bits(raw@[j] as int),
                    decreases raw@.len() - i,
                {
                    samples.push(normalize_i16(raw[i]));
                    i = i + 1;
                }
                assert(samples@ =~= self.normalized());
            },
            SampleBuffer::U16(raw) => {
                let mut i: usize = 0;
                while i < raw.len()
                    invariant
                        i <= raw@.len(),
                        samples@.len() == i,
                        forall|j: int|
                            0 <= j < i ==> samples@[j] == fixed_point_bits(
                                raw@[j] as int - 0x8000,
                            ),
                    decreases raw@.len() - i,
                {
                    samples.push(normalize_u16(raw[i]));
                    i = i + 1;
                }
                assert(samples@ =~= self.normalized());
            },
        }
        samples
    }
}

} // verus!
