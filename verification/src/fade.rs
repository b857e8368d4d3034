//! The fade-in envelope applied to the first samples of a stream.
//!
//! A stream that starts at full amplitude produces an audible click. The first
//! [`FADE_IN_SAMPLES`] samples are therefore scaled by a linear ramp that rises
//! from zero to one.

use vstd::prelude::*;

verus! {

/// Length of the fade-in ramp, in samples: 10 ms at 24 kHz.
pub const FADE_IN_SAMPLES: usize = 240;

/// The quotient `n / d` rounded to the nearest integer, a half rounded away
/// from zero. Meaningful for `d > 0`.
pub open spec fn round_div(n: int, d: int) -> int {
    if n >= 0 {
        (2 * n + d) / (2 * d)
    } else {
        -((2 * (-n) + d) / (2 * d))
    }
}

/// The sample that is emitted for input `sample` at position `index` of the
/// output: scaled by `index / FADE_IN_SAMPLES` and rounded while the ramp
/// lasts, unchanged afterwards.
pub open spec fn faded(sample: int, index: nat) -> int {
    if index < FADE_IN_SAMPLES {
        round_div(sample * index, FADE_IN_SAMPLES as int)
    } else {
        sample
    }
}

/// `round_div(n, d)` is an integer nearest to `n / d`: it differs from the
/// exact quotient by at most one half.
pub proof fn lemma_round_div_is_nearest(n: int, d: int)
    requires
        d > 0,
    ensures
        -d <= 2 * (d * round_div(n, d) - n) <= d,
{
    let m = if n >= 0 { n } else { -n };
    let q = (2 * m + d) / (2 * d);
    assert(0 <= (2 * m + d) - (2 * d) * q < 2 * d && (2 * d) * q == 2 * (d * q)) by (nonlinear_arith)
        requires
            d > 0,
            q == (2 * m + d) / (2 * d),
    ;
    if n < 0 {
        assert(d * (-q) == -(d * q)) by (nonlinear_arith);
    }
}

/// Rounding is symmetric about zero, so the envelope treats the two halves of
/// a wave alike.
pub proof fn lemma_faded_is_odd(sample: int, index: nat)
    ensures
        faded(-sample, index) == -faded(sample, index),
{
    if index < FADE_IN_SAMPLES {
        assert((-sample) * index == -(sample * index)) by (nonlinear_arith);
        if sample * index == 0 {
            assert((0 + 240) / 480 == 0int);
        }
    }
}

/// The envelope never amplifies and never flips the sign: the output lies
/// between zero and the input.
pub proof fn lemma_faded_is_bounded(sample: int, index: nat)
    ensures
        sample >= 0 ==> 0 <= faded(sample, index) <= sample,
        sample <= 0 ==> sample <= faded(sample, index) <= 0,
{
    if index < FADE_IN_SAMPLES {
        let n = sample * index;
        if sample >= 0 {
            assert(0 <= n <= sample * 239) by (nonlinear_arith)
                requires
                    n == sample * index,
                    sample >= 0,
                    index <= 239,
            ;
        } else {
            assert(0 <= -n <= (-sample) * 239) by (nonlinear_arith)
                requires
                    n == sample * index,
                    sample < 0,
                    index <= 239,
            ;
        }
    }
}

/// Applies the fade-in envelope to the sample emitted at position `index`.
pub fn fade_in(sample: i16, index: usize) -> (out: i16)
    ensures
        out == faded(sample as int, index as nat),
{
    if index < FADE_IN_SAMPLES {
        proof {
            lemma_faded_is_bounded(sample as int, index as nat);
        }
        let position: i32 = index as i32;
        assert(-32768 * 239 <= sample * position <= 32767 * 239) by (nonlinear_arith)
            requires
                -32768 <= sample <= 32767,
                0 <= position <= 239,
        ;
        let scaled: i32 = sample as i32 * position;
        if scaled >= 0 {
            ((2 * scaled + 240) / 480) as i16
        } else {
            (-((2 * (-scaled) + 240) / 480)) as i16
        }
    } else {
        sample
    }
}

} // verus!
