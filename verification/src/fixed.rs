//! Fixed-point units shared by the whole crate.
//!
//! Audio values are scaled integers: `FRAC_ONE` steps stand for 1.0. A phase
//! lives in `[0, FRAC_ONE)` and describes how far into one waveform cycle
//! playback currently is; table samples and amplitudes use the same unit,
//! with headroom above it bounded by `SAMPLE_LIMIT` and `AMP_LIMIT`.

use vstd::prelude::*;

verus! {

use vstd::arithmetic::div_mod::lemma_fundamental_div_mod;
use vstd::arithmetic::div_mod::lemma_fundamental_div_mod_converse;
use vstd::arithmetic::div_mod::lemma_mod_bound;

/// The fixed-point unit: this many integer steps stand for 1.0 (2^24).
pub const FRAC_ONE: i64 = 0x100_0000;

/// Largest magnitude a stored table sample may have: 128 times unity (2^31).
pub const SAMPLE_LIMIT: i64 = 0x8000_0000;

/// Largest magnitude an oscillator amplitude may have: 64 times unity (2^30).
pub const AMP_LIMIT: i64 = 0x4000_0000;

/// Largest magnitude of a phase step per tick: 65536 cycles per sample (2^40).
pub const STEP_LIMIT: i64 = 0x100_0000_0000;

/// Bound on one oscillator's output: `SAMPLE_LIMIT * AMP_LIMIT / FRAC_ONE` (2^37).
pub const OUT_LIMIT: i64 = 0x20_0000_0000;

/// Longest table the crate accepts (2^24); keeps `phase * length` within `i64`.
pub const MAX_TABLE_LEN: usize = 0x100_0000;

/// Euclidean remainder by `FRAC_ONE`: the canonical phase in `[0, FRAC_ONE)`
/// reached after adding any (possibly negative) step.
pub open spec fn wrapped(x: int) -> int {
    x % (FRAC_ONE as int)
}

/// Amplitude scaling in fixed point: multiply, then drop the extra
/// `FRAC_ONE` factor, rounding toward minus infinity.
pub open spec fn scaled(v: int, a: int) -> int {
    (v * a) / (FRAC_ONE as int)
}

/// Scaling a bounded sample by a bounded gain stays within `OUT_LIMIT`.
pub proof fn lemma_scaled_bound(v: int, a: int)
    requires
        -SAMPLE_LIMIT <= v <= SAMPLE_LIMIT,
        -AMP_LIMIT <= a <= AMP_LIMIT,
    ensures
        -OUT_LIMIT <= scaled(v, a) <= OUT_LIMIT,
{
    let f = FRAC_ONE as int;
    assert(-OUT_LIMIT * f <= v * a <= OUT_LIMIT * f) by (nonlinear_arith)
        requires
            -SAMPLE_LIMIT <= v <= SAMPLE_LIMIT,
            -AMP_LIMIT <= a <= AMP_LIMIT,
            SAMPLE_LIMIT == 0x8000_0000,
            AMP_LIMIT == 0x4000_0000,
            OUT_LIMIT == 0x20_0000_0000,
            f == 0x100_0000,
    ;
    lemma_fundamental_div_mod_converse(-OUT_LIMIT * f, f, -OUT_LIMIT as int, 0);
    lemma_fundamental_div_mod_converse(OUT_LIMIT * f, f, OUT_LIMIT as int, 0);
    vstd::arithmetic::div_mod::lemma_div_is_ordered(-OUT_LIMIT * f, v * a, f);
    vstd::arithmetic::div_mod::lemma_div_is_ordered(v * a, OUT_LIMIT * f, f);
}

/// Scaling a value by `count` voices' worth of gain at once differs from
/// summing `count` individually scaled copies only by the rounding lost in
/// each copy: the single loud voice is never quieter, and never more than
/// `count - 1` fixed-point steps louder.
pub proof fn lemma_scaled_gain_sums(v: int, a: int, count: int)
    requires
        1 <= count <= FRAC_ONE,
    ensures
        0 <= scaled(v, count * a) - count * scaled(v, a) <= count - 1,
{
    let f = FRAC_ONE as int;
    let y = v * a;
    assert(v * (count * a) == count * y) by (nonlinear_arith)
        requires
            y == v * a,
    ;
    lemma_fundamental_div_mod(y, f);
    lemma_mod_bound(y, f);
    let q = y / f;
    let r = y % f;
    assert(count * y == f * (count * q) + count * r) by (nonlinear_arith)
        requires
            y == f * q + r,
    ;
    lemma_fundamental_div_mod(count * r, f);
    lemma_mod_bound(count * r, f);
    assert(count * y == f * (count * q + (count * r) / f) + (count * r) % f)
        by (nonlinear_arith)
        requires
            count * y == f * (count * q) + count * r,
            count * r == f * ((count * r) / f) + (count * r) % f,
    ;
    lemma_fundamental_div_mod_converse(
        count * y,
        f,
        count * q + (count * r) / f,
        (count * r) % f,
    );
    assert(0 <= count * r <= count * (f - 1)) by (nonlinear_arith)
        requires
            1 <= count,
            0 <= r < f,
    ;
    assert(count * (f - 1) == f * (count - 1) + (f - count));
    lemma_fundamental_div_mod_converse(count * (f - 1), f, count - 1, f - count);
    vstd::arithmetic::div_mod::lemma_div_is_ordered(count * r, count * (f - 1), f);
    vstd::arithmetic::div_mod::lemma_div_pos_is_pos(count * r, f);
}

/// Divides `num` by `FRAC_ONE`, rounding toward minus infinity, by shifting
/// the numerator into nonnegative range first so that only unsigned division
/// is needed.
pub(crate) fn div_frac_floor(num: i64, off: i64) -> (r: i64)
    requires
        0 < off <= OUT_LIMIT,
        -off * FRAC_ONE <= num <= off * FRAC_ONE,
    ensures
        r == num as int / (FRAC_ONE as int),
        -off <= r <= off,
{
    let shifted: u64 = (num + off * FRAC_ONE) as u64;
    let q: u64 = shifted / (FRAC_ONE as u64);
    proof {
        let f = FRAC_ONE as int;
        lemma_fundamental_div_mod(num as int, f);
        lemma_mod_bound(num as int, f);
        lemma_fundamental_div_mod_converse(
            num + off * f,
            f,
            num as int / f + off,
            num as int % f,
        );
        lemma_fundamental_div_mod_converse(-off * f, f, -off as int, 0);
        lemma_fundamental_div_mod_converse(off * f, f, off as int, 0);
        vstd::arithmetic::div_mod::lemma_div_is_ordered(-off * f, num as int, f);
        vstd::arithmetic::div_mod::lemma_div_is_ordered(num as int, off * f, f);
    }
    (q as i64) - off
}

} // verus!
