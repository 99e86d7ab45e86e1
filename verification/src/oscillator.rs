//! A per-voice phase accumulator.
//!
//! An oscillator owns no table: it holds a handle into the arena, a phase
//! step derived from its frequency, and a gain. Each tick advances the
//! phase, wraps it back into `[0, FRAC_ONE)`, samples the referenced table
//! and scales the result. A handle that resolves to nothing yields silence,
//! never an error: real-time playback must not stop.

use vstd::prelude::*;

verus! {

use crate::arena::{slot_at, WavetableArena};
use crate::fixed::{scaled, wrapped, AMP_LIMIT, FRAC_ONE, OUT_LIMIT, SAMPLE_LIMIT, STEP_LIMIT};
use crate::wavetable::interp_at;
use vstd::arithmetic::div_mod::lemma_mod_bound;
use vstd::arithmetic::div_mod::lemma_mod_multiples_vanish;
use vstd::arithmetic::div_mod::lemma_small_mod;

#[derive(Clone, Copy)]
pub struct Oscillator {
    /// Phase increment per tick: frequency divided by sample rate, in
    /// fixed-point cycles. Negative for reverse playback, zero for frozen.
    pub step: i64,
    /// Current position inside the waveform cycle, in `[0, FRAC_ONE)`.
    pub phase: i64,
    /// Arena handle of the table this voice reads.
    pub wavetable: usize,
    /// Static per-voice gain, `FRAC_ONE` meaning unity.
    pub amp: i64,
}

/// The step a frequency maps to at a sample rate: `freq / sample_rate`,
/// truncated toward zero as the host's real-number division would round.
pub open spec fn step_for(freq: int, sample_rate: int) -> int {
    if freq >= 0 {
        freq / sample_rate
    } else {
        -((-freq) / sample_rate)
    }
}

/// The value a voice contributes to the mix on its next tick, given the
/// arena's slots: the advanced phase sampled from its table and scaled by
/// its gain, or silence if the handle resolves to nothing.
pub open spec fn osc_output(o: Oscillator, slots: Seq<Option<Seq<i64>>>) -> int {
    match slot_at(slots, o.wavetable as int) {
        Some(t) => scaled(interp_at(t, wrapped(o.phase + o.step)), o.amp as int),
        None => 0,
    }
}

/// An oscillator one tick later: same step, gain and handle, phase advanced
/// and wrapped.
pub open spec fn advanced(o: Oscillator) -> Oscillator {
    Oscillator { phase: wrapped(o.phase + o.step) as i64, ..o }
}

/// The phase reached from `phase` after `n` ticks of size `step`.
pub open spec fn phase_after(phase: int, step: int, n: nat) -> int
    decreases n,
{
    if n == 0 {
        phase
    } else {
        wrapped(phase_after(phase, step, (n - 1) as nat) + step)
    }
}

/// A frozen voice stays frozen: with step 0 the phase is the same after any
/// number of ticks.
pub proof fn lemma_zero_step_freezes_phase(phase: int, n: nat)
    requires
        0 <= phase < FRAC_ONE,
    ensures
        phase_after(phase, 0, n) == phase,
    decreases n,
{
    if n > 0 {
        lemma_zero_step_freezes_phase(phase, (n - 1) as nat);
        lemma_small_mod(phase as nat, FRAC_ONE as nat);
    }
}

/// Scales a table sample by a gain in fixed point, rounding toward minus
/// infinity.
pub(crate) fn apply_amp(value: i64, amp: i64) -> (r: i64)
    requires
        -SAMPLE_LIMIT <= value <= SAMPLE_LIMIT,
        -AMP_LIMIT <= amp <= AMP_LIMIT,
    ensures
        r == scaled(value as int, amp as int),
        -OUT_LIMIT <= r <= OUT_LIMIT,
{
    assert({
        &&& -OUT_LIMIT * FRAC_ONE <= value * amp <= OUT_LIMIT * FRAC_ONE
    }) by (nonlinear_arith)
        requires
            -SAMPLE_LIMIT <= value <= SAMPLE_LIMIT,
            -AMP_LIMIT <= amp <= AMP_LIMIT,
            SAMPLE_LIMIT == 0x8000_0000,
            AMP_LIMIT == 0x4000_0000,
            OUT_LIMIT == 0x20_0000_0000,
            FRAC_ONE == 0x100_0000,
    ;
    let product: i64 = value * amp;
    crate::fixed::div_frac_floor(product, OUT_LIMIT)
}

impl Oscillator {
    pub open spec fn wf(&self) -> bool {
        &&& 0 <= self.phase < FRAC_ONE
        &&& -STEP_LIMIT <= self.step <= STEP_LIMIT
        &&& -AMP_LIMIT <= self.amp <= AMP_LIMIT
    }

    /// A silent, frozen voice bound to a table handle: zero step, zero
    /// phase, unity gain.
    pub fn new(wavetable: usize) -> (r: Oscillator)
        ensures
            r.wf(),
            r == (Oscillator { step: 0i64, phase: 0i64, wavetable, amp: FRAC_ONE as i64 }),
    {
        Oscillator { step: 0, phase: 0, wavetable, amp: FRAC_ONE }
    }

    /// A voice playing `freq` at `sample_rate`, bound to a table handle with
    /// a fixed gain. `freq` is in fixed-point cycles per second, so the step
    /// is simply their quotient, truncated toward zero.
    pub fn from_freq(freq: i64, sample_rate: u32, wavetable: usize, amp: i64) -> (r: Oscillator)
        requires
            1 <= sample_rate,
            -STEP_LIMIT <= freq <= STEP_LIMIT,
            -AMP_LIMIT <= amp <= AMP_LIMIT,
        ensures
            r.wf(),
            r.step == step_for(freq as int, sample_rate as int),
            r.phase == 0,
            r.wavetable == wavetable,
            r.amp == amp,
    {
        let step: i64 = if freq >= 0 {
            proof {
                vstd::arithmetic::div_mod::lemma_div_nonincreasing(freq as int, sample_rate as int);
                vstd::arithmetic::div_mod::lemma_div_pos_is_pos(freq as int, sample_rate as int);
            }
            ((freq as u64) / (sample_rate as u64)) as i64
        } else {
            proof {
                vstd::arithmetic::div_mod::lemma_div_nonincreasing(
                    -freq as int,
                    sample_rate as int,
                );
                vstd::arithmetic::div_mod::lemma_div_pos_is_pos(-freq as int, sample_rate as int);
            }
            -((((-freq) as u64) / (sample_rate as u64)) as i64)
        };
        Oscillator { step, phase: 0, wavetable, amp }
    }

    /// One tick: advance and wrap the phase, then sample the referenced
    /// table at the new phase, scaled by this voice's gain. A handle that
    /// resolves to no table yields exactly 0. Constant time, no allocation.
    pub fn next(&mut self, wavetable_arena: &WavetableArena) -> (r: i64)
        requires
            old(self).wf(),
            wavetable_arena.wf(),
        ensures
            final(self).wf(),
            *final(self) == advanced(*old(self)),
            final(self).phase == phase_after(old(self).phase as int, old(self).step as int, 1),
            old(self).step == 0 ==> final(self).phase == old(self).phase,
            r == osc_output(*old(self), wavetable_arena.slots()),
            slot_at(wavetable_arena.slots(), old(self).wavetable as int) is None ==> r == 0,
            -OUT_LIMIT <= r <= OUT_LIMIT,
    {
        let moved: i64 = self.phase + self.step;
        let shifted: u64 = (moved + STEP_LIMIT) as u64;
        let new_phase: i64 = (shifted % (FRAC_ONE as u64)) as i64;
        proof {
            let f = FRAC_ONE as int;
            lemma_mod_multiples_vanish(0x1_0000, moved as int, f);
            assert(STEP_LIMIT as int == f * 0x1_0000);
            assert(shifted as int % f == wrapped(moved as int));
            lemma_mod_bound(shifted as int, f);
            if self.step == 0 {
                lemma_small_mod(old(self).phase as nat, FRAC_ONE as nat);
            }
            assert(phase_after(old(self).phase as int, old(self).step as int, 1) == wrapped(
                old(self).phase + old(self).step,
            )) by {
                reveal_with_fuel(phase_after, 2);
            }
        }
        self.phase = new_phase;
        match wavetable_arena.get(self.wavetable) {
            Some(wt) => {
                let value = wt.sample_interpolated(self.phase);
                apply_amp(value, self.amp)
            },
            None => 0,
        }
    }
}

} // verus!
