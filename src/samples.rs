//! Checks on a batch of sampled masses before it is handed on: the batch has the
//! requested size, and every value is a finite double inside the sampler's limits.
use crate::ieee::{
    bits_are_finite, is_finite, is_negative, lemma_bits_order_is_value_order, magnitude,
    EXPONENT_SPECIAL, LARGEST_FINITE, MANTISSA_SPAN, SIGN_MASK, exponent_of, mantissa_of,
};
use vstd::prelude::*;

verus! {

/// Why a batch of samples was refused.
#[derive(Clone, Copy, Debug, PartialEq, Eq, Structural)]
pub enum SampleError {
    /// The batch does not hold the requested number of values.
    WrongCount { expected: usize, found: usize },
    /// The value at `index` is infinite or NaN.
    NonFinite { index: usize },
    /// The value at `index` is finite but outside the limits.
    OutOfRange { index: usize },
}

/// The lower limit moved down by `slack` representable doubles, stopping at zero.
pub open spec fn widened_low(lower: u64, slack: u64) -> u64 {
    if lower >= slack {
        (lower - slack) as u64
    } else {
        0
    }
}

/// The upper limit moved up by `slack` representable doubles, stopping at the
/// largest finite double.
pub open spec fn widened_high(upper: u64, slack: u64) -> u64 {
    if upper as int + slack as int <= LARGEST_FINITE as int {
        (upper + slack) as u64
    } else {
        LARGEST_FINITE
    }
}

/// The sample is a non-negative finite double whose value lies between the two
/// limits, each widened by `slack` representable doubles to absorb rounding.
pub open spec fn within_limits(sample: u64, lower: u64, upper: u64, slack: u64) -> bool {
    &&& is_finite(sample)
    &&& !is_negative(sample)
    &&& magnitude(widened_low(lower, slack)) <= magnitude(sample)
    &&& magnitude(sample) <= magnitude(widened_high(upper, slack))
}

/// First position of `s` that is not within the limits.
pub open spec fn first_outside(s: Seq<u64>, lower: u64, upper: u64, slack: u64) -> Option<int>
    decreases s.len(),
{
    if s.len() == 0 {
        None
    } else if !within_limits(s[0], lower, upper, slack) {
        Some(0)
    } else {
        match first_outside(s.drop_first(), lower, upper, slack) {
            Some(i) => Some(i + 1),
            None => None,
        }
    }
}

proof fn lemma_first_outside(s: Seq<u64>, lower: u64, upper: u64, slack: u64)
    ensures
        match first_outside(s, lower, upper, slack) {
            Some(i) => 0 <= i < s.len() && !within_limits(s[i], lower, upper, slack) && forall|j: int|
                0 <= j < i ==> within_limits(#[trigger] s[j], lower, upper, slack),
            None => forall|j: int| 0 <= j < s.len() ==> within_limits(#[trigger] s[j], lower, upper, slack),
        },
    decreases s.len(),
{
    if s.len() > 0 && within_limits(s[0], lower, upper, slack) {
        let rest = s.drop_first();
        lemma_first_outside(rest, lower, upper, slack);
        assert forall|j: int| 1 <= j < s.len() implies s[j] == rest[j - 1] by {}
    }
}

/// The verdict on a batch: its size first, then each value from the first on.
pub open spec fn batch_verdict(samples: Seq<u64>, count: usize, lower: u64, upper: u64, slack: u64) -> Result<
    (),
    SampleError,
> {
    if samples.len() != count {
        Err(SampleError::WrongCount { expected: count, found: samples.len() as usize })
    } else {
        match first_outside(samples, lower, upper, slack) {
            Some(i) => if is_finite(samples[i]) {
                Err(SampleError::OutOfRange { index: i as usize })
            } else {
                Err(SampleError::NonFinite { index: i as usize })
            },
            None => Ok(()),
        }
    }
}

proof fn lemma_below_is_finite(a: u64, b: u64)
    requires
        a <= b,
        b < SIGN_MASK,
        is_finite(b),
    ensures
        is_finite(a),
{
    let k = MANTISSA_SPAN as int;
    assert(b as int / k < 2048 && a as int / k <= b as int / k) by (nonlinear_arith)
        requires a <= b, b < 2048 * k, k > 0, a >= 0;
    assert(exponent_of(b) == b as int / k);
    assert(exponent_of(a) == a as int / k);
}

/// For non-negative finite doubles, comparing bit patterns compares values.
proof fn lemma_compare(a: u64, b: u64)
    requires
        !is_negative(a),
        !is_negative(b),
        is_finite(a),
        is_finite(b),
    ensures
        (a <= b) == (magnitude(a) <= magnitude(b)),
{
    if a < b {
        lemma_bits_order_is_value_order(a, b);
    } else if b < a {
        lemma_bits_order_is_value_order(b, a);
    }
}

/// Checks a batch of sampled values (bits of doubles): it must hold exactly `count`
/// values, each finite and between `lower` and `upper` widened by `slack`
/// representable doubles on each side.
pub fn check_samples(samples: &Vec<u64>, count: usize, lower: u64, upper: u64, slack: u64) -> (r:
    Result<(), SampleError>)
    requires
        !is_negative(lower) && is_finite(lower),
        !is_negative(upper) && is_finite(upper),
    ensures
        r == batch_verdict(samples@, count, lower, upper, slack),
{
    if samples.len() != count {
        return Err(SampleError::WrongCount { expected: count, found: samples.len() });
    }
    let low = if lower >= slack { lower - slack } else { 0 };
    let high = if upper <= LARGEST_FINITE && slack <= LARGEST_FINITE - upper {
        upper + slack
    } else {
        LARGEST_FINITE
    };
    proof {
        assert(LARGEST_FINITE as int / MANTISSA_SPAN as int == 2046);
        assert(is_finite(LARGEST_FINITE));
        lemma_below_is_finite(low, lower);
        lemma_below_is_finite(high, LARGEST_FINITE);
        lemma_first_outside(samples@, lower, upper, slack);
    }
    let mut i: usize = 0;
    while i < samples.len()
        invariant
            i <= samples.len(),
            samples.len() == count,
            low == widened_low(lower, slack),
            high == widened_high(upper, slack),
            !is_negative(low) && is_finite(low),
            !is_negative(high) && is_finite(high),
            forall|j: int| 0 <= j < i ==> within_limits(#[trigger] samples@[j], lower, upper, slack),
            match first_outside(samples@, lower, upper, slack) {
                Some(f) => 0 <= f < samples@.len() && !within_limits(samples@[f], lower, upper, slack)
                    && forall|j: int|
                    0 <= j < f ==> within_limits(#[trigger] samples@[j], lower, upper, slack),
                None => forall|j: int|
                    0 <= j < samples@.len() ==> within_limits(#[trigger] samples@[j], lower, upper, slack),
            },
        decreases samples.len() - i,
    {
        let x = samples[i];
        let finite = bits_are_finite(x);
        let inside = finite && x < SIGN_MASK && low <= x && x <= high;
        proof {
            if finite && x < SIGN_MASK {
                lemma_compare(low, x);
                lemma_compare(x, high);
            }
            assert(inside == within_limits(x, lower, upper, slack));
        }
        if !inside {
            proof {
                if let Some(f) = first_outside(samples@, lower, upper, slack) {
                    if f < i {
                        assert(within_limits(samples@[f], lower, upper, slack));
                    }
                    assert(!(f > i) || within_limits(samples@[i as int], lower, upper, slack));
                    assert(f == i);
                } else {
                    assert(within_limits(samples@[i as int], lower, upper, slack));
                }
            }
            if finite {
                return Err(SampleError::OutOfRange { index: i });
            } else {
                return Err(SampleError::NonFinite { index: i });
            }
        }
        i = i + 1;
    }
    Ok(())
}

/// An accepted batch holds exactly the requested number of values, and each is a
/// finite, non-negative double between the widened limits.
pub proof fn lemma_accepted_batch_in_limits(samples: Seq<u64>, count: usize, lower: u64, upper: u64, slack: u64)
    requires
        batch_verdict(samples, count, lower, upper, slack) is Ok,
    ensures
        samples.len() == count,
        forall|i: int|
            0 <= i < samples.len() ==> {
                &&& is_finite(#[trigger] samples[i])
                &&& !is_negative(samples[i])
                &&& magnitude(widened_low(lower, slack)) <= magnitude(samples[i])
                &&& magnitude(samples[i]) <= magnitude(widened_high(upper, slack))
            },
{
    lemma_first_outside(samples, lower, upper, slack);
    assert forall|i: int| 0 <= i < samples.len() implies within_limits(#[trigger] samples[i], lower, upper, slack) by {}
}

} // verus!
