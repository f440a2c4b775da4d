//! Double-precision numbers by their encoding.
//!
//! A number is handled as the 64 bits of its IEEE 754 binary64 encoding: one
//! sign bit, eleven exponent bits, fifty-two fraction bits. Every finite
//! number of the format is a whole multiple of `2^-1074`, so its value is
//! modelled exactly by an integer, `scaled`, in that unit. All that this
//! module decides (order, sign, limits) is proved against that integer.

use vstd::arithmetic::power2::{
    lemma2_to64, lemma2_to64_rest, lemma_pow2_pos, lemma_pow2_strictly_increases,
    lemma_pow2_unfold, pow2,
};
use vstd::prelude::*;

verus! {

/// The sign of a number.
#[derive(Clone, Copy, Debug, PartialEq, Eq, Structural)]
pub enum Sign {
    Negative,
    Zero,
    Positive,
}

/// The encoding of zero.
pub const ZERO: u64 = 0;

/// The sign bit.
pub const SIGN_BIT: u64 = 0x8000_0000_0000_0000;

/// The encoding of positive infinity. Greater magnitudes encode no number.
pub const INFINITY: u64 = 0x7ff0_0000_0000_0000;

/// The weight of the implicit leading bit of a significand: `2^52`.
pub const HIDDEN_BIT: u64 = 0x10_0000_0000_0000;

/// The encoding of one.
pub const ONE: u64 = 0x3ff0_0000_0000_0000;

/// The encoding of the threshold below which a coordinate counts as zero:
/// the number of the format nearest to `10^-8`.
pub const TINY: u64 = 0x3e45_798e_e230_8c3a;

/// The integer that stands for one in a fixed-point number with 53
/// fraction bits: `2^53`.
pub const FIXED_ONE: i64 = 0x20_0000_0000_0000;

/// The number of units of `2^-1074` in one unit of `2^-53`, as a power of two.
pub const FIXED_SHIFT: u32 = 1021;

/// The encoding without its sign bit.
pub open spec fn magnitude(bits: u64) -> u64 {
    if bits >= SIGN_BIT {
        (bits - SIGN_BIT) as u64
    } else {
        bits
    }
}

/// The sign bit is set.
pub open spec fn is_negative(bits: u64) -> bool {
    bits >= SIGN_BIT
}

/// The encoding stands for no number.
pub open spec fn spec_is_nan(bits: u64) -> bool {
    magnitude(bits) > INFINITY
}

/// The exponent field.
pub open spec fn exponent(bits: u64) -> nat {
    (magnitude(bits) / HIDDEN_BIT) as nat
}

/// The fraction field.
pub open spec fn fraction(bits: u64) -> nat {
    (magnitude(bits) % HIDDEN_BIT) as nat
}

/// The significand as an integer: the fraction, with the implicit leading
/// bit unless the number is subnormal.
pub open spec fn significand(bits: u64) -> nat {
    if exponent(bits) == 0 {
        fraction(bits)
    } else {
        HIDDEN_BIT as nat + fraction(bits)
    }
}

/// The power of two by which the significand is multiplied, in units of
/// `2^-1074`.
pub open spec fn shift(bits: u64) -> nat {
    if exponent(bits) == 0 {
        0
    } else {
        (exponent(bits) - 1) as nat
    }
}

/// The absolute value of the encoded number, in units of `2^-1074`. For
/// infinity this is the number that the format would reach one step past
/// its greatest exponent, which is greater than every finite one.
pub open spec fn scaled_magnitude(bits: u64) -> nat {
    significand(bits) * pow2(shift(bits))
}

/// The encoded number, in units of `2^-1074`.
pub open spec fn scaled(bits: u64) -> int {
    if is_negative(bits) {
        -(scaled_magnitude(bits) as int)
    } else {
        scaled_magnitude(bits) as int
    }
}

/// An unsigned integer that is ordered as the encoded number is. Both zeros
/// share one key.
pub open spec fn spec_key(bits: u64) -> u64 {
    if is_negative(bits) {
        (SIGN_BIT - magnitude(bits)) as u64
    } else {
        (SIGN_BIT + magnitude(bits)) as u64
    }
}

/// The sign of the encoded number.
pub open spec fn spec_sign(bits: u64) -> Sign {
    if scaled(bits) < 0 {
        Sign::Negative
    } else if scaled(bits) == 0 {
        Sign::Zero
    } else {
        Sign::Positive
    }
}

/// The comparison `a < b` of the format: false where either side is no
/// number.
pub open spec fn spec_less(a: u64, b: u64) -> bool {
    !spec_is_nan(a) && !spec_is_nan(b) && scaled(a) < scaled(b)
}

/// A magnitude below one binade's end: the scaled magnitude is less than
/// `2^52 * 2^exponent`.
proof fn lemma_scaled_below(bits: u64)
    ensures
        scaled_magnitude(bits) < HIDDEN_BIT * pow2(exponent(bits)),
{
    let e = exponent(bits);
    let f = fraction(bits);
    if e == 0 {
        assert(pow2(0) == 1) by {
            lemma2_to64();
        }
        assert(f * 1 == f);
    } else {
        lemma_pow2_unfold(e);
        lemma_pow2_pos((e - 1) as nat);
        let p = pow2((e - 1) as nat);
        assert((HIDDEN_BIT + f) * p < HIDDEN_BIT * (2 * p)) by (nonlinear_arith)
            requires
                f < HIDDEN_BIT,
                p > 0,
        ;
    }
}

/// A normal magnitude reaches its binade's start: the scaled magnitude is at
/// least `2^52 * 2^(exponent - 1)`.
proof fn lemma_scaled_above(bits: u64)
    requires
        exponent(bits) >= 1,
    ensures
        scaled_magnitude(bits) >= HIDDEN_BIT * pow2((exponent(bits) - 1) as nat),
{
    let e = exponent(bits);
    let f = fraction(bits);
    let p = pow2((e - 1) as nat);
    assert((HIDDEN_BIT + f) * p >= HIDDEN_BIT * p) by (nonlinear_arith)
        requires
            f >= 0,
            p >= 0,
    ;
}

/// A smaller magnitude field encodes a smaller absolute value.
proof fn lemma_magnitude_increases(a: u64, b: u64)
    requires
        magnitude(a) < magnitude(b),
    ensures
        scaled_magnitude(a) < scaled_magnitude(b),
{
    let ea = exponent(a);
    let eb = exponent(b);
    let fa = fraction(a);
    let fb = fraction(b);
    assert(magnitude(a) == ea * HIDDEN_BIT + fa && fa < HIDDEN_BIT);
    assert(magnitude(b) == eb * HIDDEN_BIT + fb && fb < HIDDEN_BIT);
    assert(ea <= eb) by (nonlinear_arith)
        requires
            ea * HIDDEN_BIT + fa < eb * HIDDEN_BIT + fb,
            fa < HIDDEN_BIT,
            fb < HIDDEN_BIT,
            fa >= 0,
            fb >= 0,
    ;
    if ea == eb {
        assert(fa < fb);
        let p = pow2(shift(a));
        lemma_pow2_pos(shift(a));
        assert(significand(a) * p < significand(b) * p) by (nonlinear_arith)
            requires
                significand(a) < significand(b),
                p > 0,
        ;
    } else {
        lemma_scaled_below(a);
        lemma_scaled_above(b);
        if ea < eb - 1 {
            lemma_pow2_strictly_increases(ea, (eb - 1) as nat);
        }
        let pa = pow2(ea);
        let pb = pow2((eb - 1) as nat);
        assert(HIDDEN_BIT * pa <= HIDDEN_BIT * pb) by (nonlinear_arith)
            requires
                pa <= pb,
        ;
    }
}

/// The magnitude field is ordered as the absolute value it encodes.
pub proof fn lemma_magnitude_order(a: u64, b: u64)
    ensures
        magnitude(a) < magnitude(b) <==> scaled_magnitude(a) < scaled_magnitude(b),
        magnitude(a) == magnitude(b) <==> scaled_magnitude(a) == scaled_magnitude(b),
{
    if magnitude(a) < magnitude(b) {
        lemma_magnitude_increases(a, b);
    } else if magnitude(b) < magnitude(a) {
        lemma_magnitude_increases(b, a);
    }
}

/// Only the two zeros encode zero.
pub proof fn lemma_zero(bits: u64)
    ensures
        scaled(bits) == 0 <==> magnitude(bits) == 0,
{
    lemma_magnitude_order(bits, 0);
    assert(scaled_magnitude(0) == 0) by {
        assert(significand(0) == 0);
        assert(0 * pow2(shift(0)) == 0);
    }
}

/// Keys are ordered as the numbers are: of two encodings of numbers, the one
/// with the smaller key encodes the smaller number, and equal keys mean equal
/// numbers.
pub proof fn lemma_key_order(a: u64, b: u64)
    requires
        !spec_is_nan(a),
        !spec_is_nan(b),
    ensures
        spec_key(a) < spec_key(b) <==> scaled(a) < scaled(b),
        spec_key(a) == spec_key(b) <==> scaled(a) == scaled(b),
{
    lemma_magnitude_order(a, b);
    lemma_zero(a);
    lemma_zero(b);
}

/// Whether the encoding stands for no number.
pub fn is_nan(bits: u64) -> (b: bool)
    ensures
        b == spec_is_nan(bits),
{
    abs(bits) > INFINITY
}

/// The encoding of the absolute value: the sign bit cleared.
pub fn abs(bits: u64) -> (r: u64)
    ensures
        r == magnitude(bits),
        !is_negative(r),
        scaled(r) == scaled_magnitude(bits),
        spec_is_nan(r) == spec_is_nan(bits),
{
    if bits >= SIGN_BIT {
        bits - SIGN_BIT
    } else {
        bits
    }
}

/// The encoding of the negated number: the sign bit flipped.
pub open spec fn spec_negate(bits: u64) -> u64 {
    if bits >= SIGN_BIT {
        (bits - SIGN_BIT) as u64
    } else {
        (bits + SIGN_BIT) as u64
    }
}

/// The encoding of the negated number: the sign bit flipped.
pub fn negate(bits: u64) -> (r: u64)
    ensures
        r == spec_negate(bits),
        magnitude(r) == magnitude(bits),
        is_negative(r) != is_negative(bits),
        scaled(r) == -scaled(bits),
        spec_is_nan(r) == spec_is_nan(bits),
{
    if bits >= SIGN_BIT {
        bits - SIGN_BIT
    } else {
        bits + SIGN_BIT
    }
}

/// The key of an encoded number; `None` where the encoding stands for no
/// number.
pub fn key(bits: u64) -> (k: Option<u64>)
    ensures
        k == (if spec_is_nan(bits) {
            None
        } else {
            Some(spec_key(bits))
        }),
{
    let m: u64 = abs(bits);
    if m > INFINITY {
        None
    } else if bits >= SIGN_BIT {
        Some(SIGN_BIT - m)
    } else {
        Some(SIGN_BIT + m)
    }
}

/// The encoding of the number with a given key, with positive zero for the
/// key of the zeros; `None` where no number has the key.
pub fn from_key(key: u64) -> (bits: Option<u64>)
    ensures
        match bits {
            Some(b) => !spec_is_nan(b) && spec_key(b) == key && b != SIGN_BIT,
            None => forall|b: u64| !spec_is_nan(b) ==> spec_key(b) != key,
        },
{
    if key >= SIGN_BIT {
        if key - SIGN_BIT <= INFINITY {
            Some(key - SIGN_BIT)
        } else {
            None
        }
    } else if SIGN_BIT - key <= INFINITY {
        Some(SIGN_BIT + (SIGN_BIT - key))
    } else {
        None
    }
}

/// The comparison `a < b` of the format.
pub fn less(a: u64, b: u64) -> (r: bool)
    ensures
        r == spec_less(a, b),
{
    match (key(a), key(b)) {
        (Some(ka), Some(kb)) => {
            proof {
                lemma_key_order(a, b);
            }
            ka < kb
        },
        _ => false,
    }
}

/// The sign of an encoded number; `None` where the encoding stands for no
/// number. Both zeros have the sign `Zero`.
pub fn sign(bits: u64) -> (s: Option<Sign>)
    ensures
        s == (if spec_is_nan(bits) {
            None
        } else {
            Some(spec_sign(bits))
        }),
{
    proof {
        lemma_zero(bits);
    }
    let m: u64 = abs(bits);
    if m > INFINITY {
        None
    } else if m == 0 {
        Some(Sign::Zero)
    } else if bits >= SIGN_BIT {
        Some(Sign::Negative)
    } else {
        Some(Sign::Positive)
    }
}

/// The limit of `x` to the range from `min` to `max`, by the comparisons of
/// the format: `min` where `x < min`, else `max` where `max < x`, else `x`.
pub open spec fn spec_clamp(x: u64, min: u64, max: u64) -> u64 {
    if spec_less(x, min) {
        min
    } else if spec_less(max, x) {
        max
    } else {
        x
    }
}

/// The limit of `x` to the range from `min` to `max`, by the comparisons of
/// the format. An `x` that is no number passes through.
pub fn clamp(x: u64, min: u64, max: u64) -> (r: u64)
    ensures
        r == spec_clamp(x, min, max),
{
    if less(x, min) {
        min
    } else if less(max, x) {
        max
    } else {
        x
    }
}

/// The smaller of two encoded numbers. Where one side is no number the other
/// is returned; of two equal numbers the first is returned.
pub fn min(a: u64, b: u64) -> (r: u64)
    ensures
        r == (if spec_is_nan(a) {
            b
        } else if spec_less(b, a) {
            b
        } else {
            a
        }),
{
    if is_nan(a) {
        b
    } else if less(b, a) {
        b
    } else {
        a
    }
}

/// A number limited to a range lies in the range: where `min` does not
/// exceed `max` and `x` is a number, the result is neither below `min` nor
/// above `max`.
pub proof fn lemma_clamp_in_range(x: u64, min: u64, max: u64)
    requires
        !spec_is_nan(x),
        !spec_is_nan(min),
        !spec_is_nan(max),
        scaled(min) <= scaled(max),
    ensures
        scaled(min) <= scaled(spec_clamp(x, min, max)) <= scaled(max),
        scaled(min) <= scaled(x) <= scaled(max) ==> spec_clamp(x, min, max) == x,
{
}

/// Whether the absolute value of the encoded number is below `TINY`.
pub fn is_tiny(bits: u64) -> (b: bool)
    ensures
        b == spec_less(magnitude(bits), TINY),
        b ==> !spec_is_nan(bits),
{
    less(abs(bits), TINY)
}

/// Whether all three coordinates of a vector are below `TINY` in absolute
/// value.
pub fn near_zero(x: u64, y: u64, z: u64) -> (b: bool)
    ensures
        b == (spec_less(magnitude(x), TINY) && spec_less(magnitude(y), TINY) && spec_less(
            magnitude(z),
            TINY,
        )),
{
    is_tiny(x) && is_tiny(y) && is_tiny(z)
}

/// The encoding of the fixed-point number `n / 2^53`, which the format holds
/// exactly for `n` from `-2^53` to `2^53`; `None` for any other `n`. Zero is
/// encoded with a clear sign bit.
pub fn from_fixed(n: i64) -> (r: Option<u64>)
    ensures
        match r {
            Some(bits) => -FIXED_ONE <= n <= FIXED_ONE && !spec_is_nan(bits) && scaled(bits) == n
                * pow2(FIXED_SHIFT as nat) && (n == 0 ==> bits == 0),
            None => n < -FIXED_ONE || n > FIXED_ONE,
        },
{
    if n < -FIXED_ONE || n > FIXED_ONE {
        return None;
    }
    let m: u64 = if n < 0 {
        (-n) as u64
    } else {
        n as u64
    };
    let bits: u64 = encode_magnitude(m);
    if n < 0 {
        proof {
            let p = pow2(FIXED_SHIFT as nat);
            assert(-(m * p) == n * p) by (nonlinear_arith)
                requires
                    m == -n,
            ;
        }
        Some(bits + SIGN_BIT)
    } else {
        Some(bits)
    }
}

/// The encoding of `m / 2^53` for a magnitude `m` of at most `2^53`.
pub(crate) fn encode_magnitude(m: u64) -> (bits: u64)
    requires
        m <= FIXED_ONE,
    ensures
        bits <= ONE,
        !spec_is_nan(bits),
        !is_negative(bits),
        scaled(bits) == m * pow2(FIXED_SHIFT as nat),
        m == 0 <==> bits == 0,
{
    proof {
        lemma2_to64();
        lemma2_to64_rest();
    }
    if m == 0 {
        assert(significand(0) == 0);
        assert(0 * pow2(shift(0)) == 0 * pow2(FIXED_SHIFT as nat)) by (nonlinear_arith);
        return 0;
    }
    if m == 0x20_0000_0000_0000 {
        proof {
            lemma_pow2_unfold(1022);
            assert(exponent(ONE) == 1023);
            assert(fraction(ONE) == 0);
            let p = pow2(1021);
            assert(HIDDEN_BIT * (2 * p) == 0x20_0000_0000_0000 * p) by (nonlinear_arith);
        }
        return ONE;
    }
    let mut sig: u64 = m;
    let mut e: u64 = 1022;
    while sig < HIDDEN_BIT
        invariant
            0 < sig < 0x20_0000_0000_0000,
            970 <= e <= 1022,
            sig >= pow2((1022 - e) as nat),
            sig * pow2((e - 1) as nat) == m * pow2(FIXED_SHIFT as nat),
        decreases e,
    {
        proof {
            if e == 970 {
                assert(pow2(52) == HIDDEN_BIT) by {
                    lemma2_to64_rest();
                }
            }
            lemma_pow2_unfold((e - 1) as nat);
            lemma_pow2_unfold((1022 - e + 1) as nat);
            let p = pow2((e - 2) as nat);
            assert((2 * sig) * p == sig * (2 * p)) by (nonlinear_arith);
        }
        sig = 2 * sig;
        e = e - 1;
    }
    let bits: u64 = e * HIDDEN_BIT + (sig - HIDDEN_BIT);
    proof {
        assert(magnitude(bits) == bits);
        assert(exponent(bits) == e);
        assert(fraction(bits) == sig - HIDDEN_BIT);
        assert(significand(bits) == sig);
    }
    bits
}

} // verus!
