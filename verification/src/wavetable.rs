//! An immutable, fixed-length buffer holding one full cycle of a periodic
//! signal, queryable by a fixed-point phase in `[0, FRAC_ONE)`.
//!
//! The buffer length is always a power of two no longer than
//! `MAX_TABLE_LEN`; a requested size that is not a power of two is rounded
//! up to the next one, so the stored length never disagrees with the
//! buffer's actual size.

use vstd::prelude::*;

verus! {

use crate::fixed::{div_frac_floor, FRAC_ONE, MAX_TABLE_LEN, SAMPLE_LIMIT};
use vstd::arithmetic::div_mod::lemma_fundamental_div_mod;
use vstd::arithmetic::div_mod::lemma_fundamental_div_mod_converse;
use vstd::arithmetic::div_mod::lemma_mod_bound;
use vstd::arithmetic::div_mod::lemma_small_mod;

/// True exactly when `n` is 1, 2, 4, 8, ...
pub open spec fn is_pow2(n: int) -> bool
    decreases n,
{
    if n <= 0 {
        false
    } else if n == 1 {
        true
    } else if n % 2 != 0 {
        false
    } else {
        is_pow2(n / 2)
    }
}

/// What it means for a sample buffer to back a valid wavetable: a power-of-two
/// length within range, and every sample within the crate's fixed-point range.
pub open spec fn table_wf(t: Seq<i64>) -> bool {
    &&& is_pow2(t.len() as int)
    &&& t.len() <= MAX_TABLE_LEN
    &&& forall|i: int| 0 <= i < t.len() ==> -SAMPLE_LIMIT <= #[trigger] t[i] <= SAMPLE_LIMIT
}

/// The fractional table index a phase points at, scaled by `FRAC_ONE`.
pub open spec fn frac_index(t: Seq<i64>, phase: int) -> int {
    phase * t.len()
}

/// The integer cell a phase falls in.
pub open spec fn cell_of(t: Seq<i64>, phase: int) -> int {
    frac_index(t, phase) / (FRAC_ONE as int)
}

/// How far into that cell the phase points, in `[0, FRAC_ONE)`.
pub open spec fn mix_of(t: Seq<i64>, phase: int) -> int {
    frac_index(t, phase) % (FRAC_ONE as int)
}

/// Linear interpolation between the two samples around a phase, with the
/// upper neighbour wrapped to index 0 at the end of the table. Division
/// rounds toward minus infinity.
pub open spec fn interp_at(t: Seq<i64>, phase: int) -> int {
    let cell = cell_of(t, phase);
    let mix = mix_of(t, phase);
    (t[cell] * (FRAC_ONE - mix) + t[(cell + 1) % (t.len() as int)] * mix) / (FRAC_ONE as int)
}

/// The sample a phase points at with no interpolation: the fractional index
/// truncated down to its cell.
pub open spec fn nearest_at(t: Seq<i64>, phase: int) -> int {
    t[cell_of(t, phase)] as int
}

#[derive(Debug)]
pub struct Wavetable {
    samples: Vec<i64>,
}

impl View for Wavetable {
    type V = Seq<i64>;

    closed spec fn view(&self) -> Seq<i64> {
        self.samples@
    }
}

/// Reports whether `num` is a power of two, as the arena's tables require.
pub fn is_power_of_2(num: usize) -> (r: bool)
    ensures
        r == is_pow2(num as int),
{
    if num == 0 {
        return false;
    }
    let mut n: usize = num;
    while n % 2 == 0
        invariant
            n >= 1,
            is_pow2(num as int) == is_pow2(n as int),
        decreases n,
    {
        n = n / 2;
    }
    n == 1
}

/// The least power of two that is at least `n`.
fn next_pow2(n: usize) -> (r: usize)
    requires
        1 <= n <= MAX_TABLE_LEN,
    ensures
        is_pow2(r as int),
        n <= r < 2 * n,
        r <= MAX_TABLE_LEN,
{
    proof {
        lemma_max_table_len_pow2();
    }
    let mut p: usize = 1;
    while p < n
        invariant
            1 <= p,
            is_pow2(p as int),
            n <= MAX_TABLE_LEN,
            p >= n ==> p < 2 * n,
            p <= MAX_TABLE_LEN,
            p < 2 * n,
        decreases 2 * n - p,
    {
        proof {
            lemma_max_table_len_pow2();
            lemma_pow2_strict_double(p as int, MAX_TABLE_LEN as int);
        }
        p = p * 2;
    }
    p
}

/// `MAX_TABLE_LEN` itself is a power of two.
proof fn lemma_max_table_len_pow2()
    ensures
        is_pow2(MAX_TABLE_LEN as int),
{
    reveal_with_fuel(is_pow2, 32);
}

/// Two powers of two with `a < b` satisfy `2 * a <= b`.
proof fn lemma_pow2_strict_double(a: int, b: int)
    requires
        is_pow2(a),
        is_pow2(b),
        a < b,
    ensures
        2 * a <= b,
    decreases b,
{
    lemma_fundamental_div_mod(b, 2);
    if a > 1 {
        lemma_fundamental_div_mod(a, 2);
        lemma_pow2_strict_double(a / 2, b / 2);
    }
}

impl Wavetable {
    /// A silent table: `wavetable_size` rounded up to the next power of two,
    /// all samples zero.
    pub fn new(wavetable_size: usize) -> (r: Wavetable)
        requires
            1 <= wavetable_size <= MAX_TABLE_LEN,
        ensures
            r.wf(),
            is_pow2(r@.len() as int),
            wavetable_size <= r@.len() < 2 * wavetable_size,
            forall|i: int| 0 <= i < r@.len() ==> r@[i] == 0i64,
    {
        let size = next_pow2(wavetable_size);
        let mut samples: Vec<i64> = Vec::new();
        let mut i: usize = 0;
        while i < size
            invariant
                samples@.len() == i,
                i <= size,
                forall|j: int| 0 <= j < i ==> samples@[j] == 0i64,
            decreases size - i,
        {
            samples.push(0i64);
            i = i + 1;
        }
        Wavetable { samples }
    }

    /// Wraps a caller-supplied buffer, accepted exactly when it already
    /// satisfies the table invariant.
    pub fn from_samples(samples: Vec<i64>) -> (r: Option<Wavetable>)
        ensures
            r is Some <==> table_wf(samples@),
            r matches Some(wt) ==> wt@ == samples@,
    {
        if !is_power_of_2(samples.len()) {
            return None;
        }
        if samples.len() > MAX_TABLE_LEN {
            return None;
        }
        let mut i: usize = 0;
        while i < samples.len()
            invariant
                i <= samples@.len(),
                forall|j: int| 0 <= j < i ==> -SAMPLE_LIMIT <= #[trigger] samples@[j] <= SAMPLE_LIMIT,
            decreases samples@.len() - i,
        {
            let s = samples[i];
            if s < -SAMPLE_LIMIT || s > SAMPLE_LIMIT {
                return None;
            }
            i = i + 1;
        }
        Some(Wavetable { samples })
    }

    pub open spec fn wf(&self) -> bool {
        table_wf(self@)
    }

    /// Number of samples in the table.
    pub fn len(&self) -> (r: usize)
        ensures
            r == self@.len(),
    {
        self.samples.len()
    }

    /// The stored sample at an index.
    pub fn sample_at(&self, i: usize) -> (r: i64)
        requires
            i < self@.len(),
        ensures
            r == self@[i as int],
    {
        self.samples[i]
    }

    /// Overwrites one sample; used while a table is being prepared, off the
    /// playback path.
    pub fn set_sample(&mut self, i: usize, value: i64)
        requires
            old(self).wf(),
            i < old(self)@.len(),
            -SAMPLE_LIMIT <= value <= SAMPLE_LIMIT,
        ensures
            final(self).wf(),
            final(self)@ == old(self)@.update(i as int, value),
    {
        self.samples[i] = value;
    }

    /// Linearly interpolates between the two samples the phase lies between,
    /// wrapping the upper neighbour back to index 0 at the table's end.
    pub fn sample_interpolated(&self, phase: i64) -> (r: i64)
        requires
            self.wf(),
            0 <= phase < FRAC_ONE,
        ensures
            r == interp_at(self@, phase as int),
            -SAMPLE_LIMIT <= r <= SAMPLE_LIMIT,
    {
        let len = self.samples.len();
        proof {
            lemma_cell_in_range(self@, phase as int);
        }
        let fidx: u64 = (phase as u64) * (len as u64);
        let cell: usize = (fidx / (FRAC_ONE as u64)) as usize;
        let mix: i64 = (fidx % (FRAC_ONE as u64)) as i64;
        proof {
            lemma_mod_bound(fidx as int, FRAC_ONE as int);
        }
        let upper: usize = if cell + 1 == len {
            0
        } else {
            cell + 1
        };
        proof {
            if cell + 1 == len {
                vstd::arithmetic::div_mod::lemma_mod_self_0(len as int);
            } else {
                lemma_small_mod((cell + 1) as nat, len as nat);
            }
        }
        let s0 = self.samples[cell];
        let s1 = self.samples[upper];
        assert({
            &&& -SAMPLE_LIMIT * FRAC_ONE <= s0 * (FRAC_ONE - mix) <= SAMPLE_LIMIT * FRAC_ONE
            &&& -SAMPLE_LIMIT * FRAC_ONE <= s1 * mix <= SAMPLE_LIMIT * FRAC_ONE
            &&& s0 * (FRAC_ONE - mix) + s1 * mix <= SAMPLE_LIMIT * FRAC_ONE
            &&& -SAMPLE_LIMIT * FRAC_ONE <= s0 * (FRAC_ONE - mix) + s1 * mix
        }) by (nonlinear_arith)
            requires
                -SAMPLE_LIMIT <= s0 <= SAMPLE_LIMIT,
                -SAMPLE_LIMIT <= s1 <= SAMPLE_LIMIT,
                0 <= mix < FRAC_ONE,
        ;
        let num: i64 = s0 * (FRAC_ONE - mix) + s1 * mix;
        div_frac_floor(num, SAMPLE_LIMIT)
    }

    /// The sample whose cell the phase falls in, with no interpolation:
    /// cheaper, lower quality.
    pub fn sample_nearest(&self, phase: i64) -> (r: i64)
        requires
            self.wf(),
            0 <= phase < FRAC_ONE,
        ensures
            r == nearest_at(self@, phase as int),
            -SAMPLE_LIMIT <= r <= SAMPLE_LIMIT,
    {
        let len = self.samples.len();
        proof {
            lemma_cell_in_range(self@, phase as int);
        }
        let fidx: u64 = (phase as u64) * (len as u64);
        let cell: usize = (fidx / (FRAC_ONE as u64)) as usize;
        self.samples[cell]
    }
}

/// The interpolated value stays within the samples' own bound: it is a
/// convex combination of two in-range samples, rounded down.
pub proof fn lemma_interp_bound(t: Seq<i64>, phase: int)
    requires
        table_wf(t),
        0 <= phase < FRAC_ONE,
    ensures
        -SAMPLE_LIMIT <= interp_at(t, phase) <= SAMPLE_LIMIT,
{
    let f = FRAC_ONE as int;
    let len = t.len() as int;
    lemma_cell_in_range(t, phase);
    let cell = cell_of(t, phase);
    let mix = mix_of(t, phase);
    lemma_mod_bound(phase * len, f);
    lemma_mod_bound(cell + 1, len);
    let s0 = t[cell] as int;
    let s1 = t[(cell + 1) % len] as int;
    let num = s0 * (f - mix) + s1 * mix;
    assert(-SAMPLE_LIMIT * f <= num <= SAMPLE_LIMIT * f) by (nonlinear_arith)
        requires
            -SAMPLE_LIMIT <= s0 <= SAMPLE_LIMIT,
            -SAMPLE_LIMIT <= s1 <= SAMPLE_LIMIT,
            0 <= mix < f,
            num == s0 * (f - mix) + s1 * mix,
    ;
    lemma_fundamental_div_mod_converse(-SAMPLE_LIMIT * f, f, -SAMPLE_LIMIT as int, 0);
    lemma_fundamental_div_mod_converse(SAMPLE_LIMIT * f, f, SAMPLE_LIMIT as int, 0);
    vstd::arithmetic::div_mod::lemma_div_is_ordered(-SAMPLE_LIMIT * f, num, f);
    vstd::arithmetic::div_mod::lemma_div_is_ordered(num, SAMPLE_LIMIT * f, f);
}

/// Wrap-around continuity: inside the table's last cell the interpolated
/// value is the sample at index 0 plus a blend of the last sample that
/// shrinks linearly as the phase approaches 1 — so the value at a phase
/// just below 1 approaches the value at phase 0, and their distance is
/// bounded by the remaining blend weight (plus one step of rounding).
pub proof fn lemma_wraparound_continuity(t: Seq<i64>, phase: int)
    requires
        table_wf(t),
        0 <= phase < FRAC_ONE,
        cell_of(t, phase) == t.len() - 1,
    ensures
        interp_at(t, phase) == t[0] + ((t[t.len() - 1] - t[0]) * (FRAC_ONE - mix_of(t, phase)))
            / (FRAC_ONE as int),
        interp_at(t, phase) - t[0] <= (2 * SAMPLE_LIMIT * (FRAC_ONE - mix_of(t, phase)))
            / (FRAC_ONE as int),
        -((2 * SAMPLE_LIMIT * (FRAC_ONE - mix_of(t, phase))) / (FRAC_ONE as int)) - 1
            <= interp_at(t, phase) - t[0],
{
    let f = FRAC_ONE as int;
    let len = t.len() as int;
    let m = mix_of(t, phase);
    let s0 = t[len - 1] as int;
    let t0 = t[0] as int;
    lemma_mod_bound(phase * len, f);
    vstd::arithmetic::div_mod::lemma_mod_self_0(len);
    assert(t[(cell_of(t, phase) + 1) % len] == t[0]);
    let rest = (s0 - t0) * (f - m);
    assert(s0 * (f - m) + t0 * m == t0 * f + rest) by (nonlinear_arith)
        requires
            rest == (s0 - t0) * (f - m),
    ;
    vstd::arithmetic::div_mod::lemma_hoist_over_denominator(rest, t0, FRAC_ONE as nat);
    assert(-(2 * SAMPLE_LIMIT) * (f - m) <= rest <= (2 * SAMPLE_LIMIT) * (f - m))
        by (nonlinear_arith)
        requires
            rest == (s0 - t0) * (f - m),
            -SAMPLE_LIMIT <= s0 <= SAMPLE_LIMIT,
            -SAMPLE_LIMIT <= t0 <= SAMPLE_LIMIT,
            0 <= m < f,
    ;
    let cap = 2 * SAMPLE_LIMIT * (f - m);
    assert((-(2 * SAMPLE_LIMIT)) * (f - m) == -cap) by (nonlinear_arith)
        requires
            cap == 2 * SAMPLE_LIMIT * (f - m),
    ;
    vstd::arithmetic::div_mod::lemma_div_is_ordered(rest, cap, f);
    vstd::arithmetic::div_mod::lemma_div_is_ordered(-cap, rest, f);
    lemma_neg_div_floor(cap, f);
    assert(-(cap / f) - 1 <= (-cap) / f <= rest / f);
}

/// Euclidean division of a negated nonnegative value: `(-y) / d` is at
/// least `-(y / d) - 1`.
proof fn lemma_neg_div_floor(y: int, d: int)
    requires
        0 <= y,
        0 < d,
    ensures
        -(y / d) - 1 <= (-y) / d,
{
    lemma_fundamental_div_mod(y, d);
    lemma_mod_bound(y, d);
    if y % d == 0 {
        assert(-y == (-(y / d)) * d + 0) by (nonlinear_arith)
            requires
                y == d * (y / d) + y % d,
                y % d == 0,
        ;
        lemma_fundamental_div_mod_converse(-y, d, -(y / d), 0);
    } else {
        assert(-y == (-(y / d) - 1) * d + (d - y % d)) by (nonlinear_arith)
            requires
                y == d * (y / d) + y % d,
        ;
        lemma_fundamental_div_mod_converse(-y, d, -(y / d) - 1, d - y % d);
    }
}

/// A phase below `FRAC_ONE` always lands in a cell below the table's length.
proof fn lemma_cell_in_range(t: Seq<i64>, phase: int)
    requires
        table_wf(t),
        0 <= phase < FRAC_ONE,
    ensures
        0 <= cell_of(t, phase) < t.len(),
        0 <= phase * t.len() < 0x1_0000_0000_0000,
{
    let f = FRAC_ONE as int;
    let len = t.len() as int;
    assert(phase * len <= (f - 1) * len && 0 <= phase * len) by (nonlinear_arith)
        requires
            0 <= phase <= f - 1,
            len >= 1,
    ;
    assert((f - 1) * len == f * (len - 1) + (f - len));
    lemma_fundamental_div_mod_converse((f - 1) * len, f, len - 1, f - len);
    vstd::arithmetic::div_mod::lemma_div_is_ordered(phase * len, (f - 1) * len, f);
    vstd::arithmetic::div_mod::lemma_div_pos_is_pos(phase * len, f);
    assert(phase * len < 0x1_0000_0000_0000) by (nonlinear_arith)
        requires
            0 <= phase < f,
            1 <= len <= MAX_TABLE_LEN,
            f == 0x100_0000,
    ;
}

} // verus!
