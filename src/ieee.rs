//! The IEEE 754 binary64 encoding, read from a value's 64-bit pattern.
//!
//! The library never does floating-point arithmetic itself: a double is carried as
//! its bit pattern (`f64::to_bits`), and everything the library decides about a
//! value (finite, zero, strictly positive, inside a range) is decided from those
//! bits.
use vstd::arithmetic::power2::*;
use vstd::prelude::*;

verus! {

/// Number of patterns that share one exponent: `2^52`.
pub const MANTISSA_SPAN: u64 = 0x10_0000_0000_0000;

/// The lowest pattern with the sign bit set: `2^63`.
pub const SIGN_MASK: u64 = 0x8000_0000_0000_0000;

/// The biased exponent that marks infinities and NaNs.
pub const EXPONENT_SPECIAL: u64 = 2047;

/// The pattern of the largest finite double.
pub const LARGEST_FINITE: u64 = 0x7FEF_FFFF_FFFF_FFFF;

/// The biased exponent field (11 bits).
pub open spec fn exponent_of(bits: u64) -> int {
    (bits as int / MANTISSA_SPAN as int) % 2048
}

/// The stored fraction field (52 bits).
pub open spec fn mantissa_of(bits: u64) -> int {
    bits as int % MANTISSA_SPAN as int
}

/// The sign bit is set (this includes `-0.0`).
pub open spec fn is_negative(bits: u64) -> bool {
    bits >= SIGN_MASK
}

/// Neither infinite nor NaN.
pub open spec fn is_finite(bits: u64) -> bool {
    exponent_of(bits) != EXPONENT_SPECIAL as int
}

/// `+0.0` or `-0.0`.
pub open spec fn is_zero(bits: u64) -> bool {
    bits == 0 || bits == SIGN_MASK
}

/// A finite double strictly greater than zero.
pub open spec fn is_positive(bits: u64) -> bool {
    !is_negative(bits) && is_finite(bits) && bits != 0
}

/// The absolute value of a finite double, scaled by `2^1074` so that it is an
/// integer: subnormals are `mantissa`, normals `(2^52 + mantissa) * 2^(exponent - 1)`.
pub open spec fn magnitude(bits: u64) -> nat {
    if exponent_of(bits) == 0 {
        mantissa_of(bits) as nat
    } else {
        ((MANTISSA_SPAN as int + mantissa_of(bits)) * pow2((exponent_of(bits) - 1) as nat)) as nat
    }
}

proof fn lemma_split(bits: u64)
    requires
        bits < SIGN_MASK,
    ensures
        exponent_of(bits) == bits as int / MANTISSA_SPAN as int,
        bits as int == exponent_of(bits) * MANTISSA_SPAN as int + mantissa_of(bits),
        0 <= mantissa_of(bits) < MANTISSA_SPAN as int,
{
    let k = MANTISSA_SPAN as int;
    let b = bits as int;
    assert(b / k < 2048) by (nonlinear_arith)
        requires b < 2048 * k, k > 0, b >= 0;
    assert(b / k >= 0) by (nonlinear_arith)
        requires b >= 0, k > 0;
    assert(b == (b / k) * k + b % k) by (nonlinear_arith)
        requires k > 0;
    assert(0 <= b % k < k) by (nonlinear_arith)
        requires k > 0;
}

/// Among non-negative finite doubles, the order of the bit patterns is the order of
/// the values: a larger pattern always encodes a strictly larger number.
pub proof fn lemma_bits_order_is_value_order(a: u64, b: u64)
    requires
        !is_negative(a),
        !is_negative(b),
        is_finite(a),
        is_finite(b),
        a < b,
    ensures
        magnitude(a) < magnitude(b),
{
    let k = MANTISSA_SPAN as int;
    lemma_split(a);
    lemma_split(b);
    let ea = exponent_of(a);
    let eb = exponent_of(b);
    let ma = mantissa_of(a);
    let mb = mantissa_of(b);
    assert(ea <= eb) by (nonlinear_arith)
        requires a as int == ea * k + ma, b as int == eb * k + mb, 0 <= ma < k, 0 <= mb < k,
            a < b, k > 0;
    if ea == eb {
        assert(ma < mb) by (nonlinear_arith)
            requires a as int == ea * k + ma, b as int == eb * k + mb, ea == eb, a < b;
        if ea != 0 {
            let p = pow2((ea - 1) as nat);
            lemma_pow2_pos((ea - 1) as nat);
            assert((k + ma) * p < (k + mb) * p) by (nonlinear_arith)
                requires ma < mb, p > 0;
        }
    } else {
        let q = pow2((eb - 1) as nat);
        lemma_pow2_pos((eb - 1) as nat);
        assert(k <= (k + mb) * q) by (nonlinear_arith)
            requires q >= 1, mb >= 0, k > 0;
        if ea != 0 {
            let p = pow2((ea - 1) as nat);
            lemma_pow2_pos((ea - 1) as nat);
            lemma_pow2_unfold(ea as nat);
            if ea < eb - 1 {
                lemma_pow2_strictly_increases(ea as nat, (eb - 1) as nat);
            }
            assert(pow2(ea as nat) <= q);
            assert((k + ma) * p < k * (2 * p)) by (nonlinear_arith)
                requires ma < k, p > 0;
            assert(k * pow2(ea as nat) <= k * q) by (nonlinear_arith)
                requires pow2(ea as nat) <= q, k > 0;
            assert(k * q <= (k + mb) * q) by (nonlinear_arith)
                requires q >= 1, mb >= 0;
        }
    }
}

/// Reports whether the double with these bits is finite.
pub fn bits_are_finite(bits: u64) -> (r: bool)
    ensures
        r == is_finite(bits),
{
    (bits / MANTISSA_SPAN) % 2048 != EXPONENT_SPECIAL
}

/// Reports whether the double with these bits is `+0.0` or `-0.0`.
pub fn bits_are_zero(bits: u64) -> (r: bool)
    ensures
        r == is_zero(bits),
{
    bits == 0 || bits == SIGN_MASK
}

/// Reports whether the double with these bits is finite and strictly positive.
pub fn bits_are_positive(bits: u64) -> (r: bool)
    ensures
        r == is_positive(bits),
{
    bits < SIGN_MASK && bits_are_finite(bits) && bits != 0
}

} // verus!
