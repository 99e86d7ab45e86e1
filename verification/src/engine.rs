//! The assembly: one arena, an ordered bank of oscillators, and a mixer.
//!
//! Construction happens once, off the real-time path: the arena is filled
//! with a base table and every voice is bound to it. After that each call
//! to [`SynthesisEngine::next`] advances every voice once and returns the
//! sum of their outputs — the next mixed output sample. Nothing on that
//! path allocates, locks or fails.

use vstd::prelude::*;

verus! {

use crate::arena::{slot_at, WavetableArena};
use crate::fixed::{AMP_LIMIT, OUT_LIMIT, STEP_LIMIT};
use crate::oscillator::{advanced, osc_output, step_for, Oscillator};
use crate::wavetable::Wavetable;

/// Most voices an engine will hold; keeps the running mix within `i64`.
pub const MAX_VOICES: usize = 0x10_0000;

/// The sum of the outputs all voices contribute on their next tick, first
/// voice first. Floating-point mixing would make this order audible only
/// far below the audio bit depth; in fixed point the sum is exact and the
/// order does not matter at all.
pub open spec fn mix_sum(oscs: Seq<Oscillator>, slots: Seq<Option<Seq<i64>>>) -> int
    decreases oscs.len(),
{
    if oscs.len() == 0 {
        0
    } else {
        mix_sum(oscs.drop_last(), slots) + osc_output(oscs.last(), slots)
    }
}

/// Every well-formed voice contributes at most `OUT_LIMIT` in magnitude, so
/// a bank of `n` voices mixes to at most `n * OUT_LIMIT`.
pub proof fn lemma_mix_sum_bound(oscs: Seq<Oscillator>, slots: Seq<Option<Seq<i64>>>)
    requires
        forall|i: int| 0 <= i < oscs.len() ==> #[trigger] oscs[i].wf(),
        forall|i: int|
            0 <= i < slots.len() && #[trigger] slots[i] is Some ==> crate::wavetable::table_wf(
                slots[i].unwrap(),
            ),
    ensures
        -(oscs.len() as int) * OUT_LIMIT <= mix_sum(oscs, slots) <= (oscs.len() as int)
            * OUT_LIMIT,
    decreases oscs.len(),
{
    if oscs.len() == 0 {
    } else {
        let prefix = oscs.drop_last();
        assert(forall|i: int| 0 <= i < prefix.len() ==> #[trigger] prefix[i].wf());
        lemma_mix_sum_bound(prefix, slots);
        lemma_osc_output_bound(oscs.last(), slots);
        assert((oscs.len() as int) * OUT_LIMIT == (prefix.len() as int) * OUT_LIMIT + OUT_LIMIT)
            by (nonlinear_arith)
            requires
                oscs.len() == prefix.len() + 1,
        ;
    }
}

/// One voice's output is bounded by `OUT_LIMIT`.
pub proof fn lemma_osc_output_bound(o: Oscillator, slots: Seq<Option<Seq<i64>>>)
    requires
        o.wf(),
        forall|i: int|
            0 <= i < slots.len() && #[trigger] slots[i] is Some ==> crate::wavetable::table_wf(
                slots[i].unwrap(),
            ),
    ensures
        -OUT_LIMIT <= osc_output(o, slots) <= OUT_LIMIT,
{
    match slot_at(slots, o.wavetable as int) {
        Some(t) => {
            let p = crate::fixed::wrapped(o.phase + o.step);
            vstd::arithmetic::div_mod::lemma_mod_bound(
                o.phase + o.step,
                crate::fixed::FRAC_ONE as int,
            );
            crate::wavetable::lemma_interp_bound(t, p);
            crate::fixed::lemma_scaled_bound(crate::wavetable::interp_at(t, p), o.amp as int);
        },
        None => {},
    }
}

/// A bank of identical voices mixes to exactly `count` times one voice's
/// output.
pub proof fn lemma_unison_mix(
    oscs: Seq<Oscillator>,
    slots: Seq<Option<Seq<i64>>>,
    voice: Oscillator,
)
    requires
        forall|i: int| 0 <= i < oscs.len() ==> #[trigger] oscs[i] == voice,
    ensures
        mix_sum(oscs, slots) == oscs.len() * osc_output(voice, slots),
    decreases oscs.len(),
{
    if oscs.len() == 0 {
    } else {
        let prefix = oscs.drop_last();
        assert(forall|i: int| 0 <= i < prefix.len() ==> #[trigger] prefix[i] == voice);
        lemma_unison_mix(prefix, slots, voice);
        assert((oscs.len() as int) * osc_output(voice, slots) == (prefix.len() as int)
            * osc_output(voice, slots) + osc_output(voice, slots)) by (nonlinear_arith)
            requires
                oscs.len() == prefix.len() + 1,
        ;
    }
}

/// The additive-dampening invariant: a bank of `count` equal voices, each
/// dampened to a `count`-th of a single voice's gain, mixes to the single
/// voice's output up to the fixed-point rounding lost per copy — the mix is
/// never louder, and quieter by less than `count` steps.
pub proof fn lemma_additive_dampening(
    oscs: Seq<Oscillator>,
    slots: Seq<Option<Seq<i64>>>,
    voice: Oscillator,
    solo: Oscillator,
)
    requires
        1 <= oscs.len() <= MAX_VOICES,
        forall|i: int| 0 <= i < oscs.len() ==> #[trigger] oscs[i] == voice,
        solo.step == voice.step,
        solo.phase == voice.phase,
        solo.wavetable == voice.wavetable,
        solo.amp == oscs.len() * voice.amp,
    ensures
        0 <= osc_output(solo, slots) - mix_sum(oscs, slots) < oscs.len(),
{
    let count = oscs.len() as int;
    lemma_unison_mix(oscs, slots, voice);
    match slot_at(slots, voice.wavetable as int) {
        Some(t) => {
            let value = crate::wavetable::interp_at(
                t,
                crate::fixed::wrapped(voice.phase + voice.step),
            );
            crate::fixed::lemma_scaled_gain_sums(value, voice.amp as int, count);
        },
        None => {
            assert(osc_output(voice, slots) == 0);
            assert(osc_output(solo, slots) == 0);
        },
    }
}

pub struct SynthesisEngine {
    pub wavetable_arena: WavetableArena,
    pub oscillators: Vec<Oscillator>,
}

impl SynthesisEngine {
    pub open spec fn wf(&self) -> bool {
        &&& self.wavetable_arena.wf()
        &&& self.oscillators@.len() <= MAX_VOICES
        &&& forall|i: int| 0 <= i < self.oscillators@.len() ==> #[trigger] self.oscillators@[i].wf()
    }

    /// Builds an engine ready to run: an arena of `arena_capacity` slots
    /// with `wavetable` installed in slot 0, and `num_oscillators` voices
    /// all bound to it, playing `freq` (fixed-point cycles per second) at
    /// `sample_rate` with per-voice gain `amp` — uniform dampening such as
    /// `FRAC_ONE / num_oscillators` keeps the mix within range when all
    /// voices line up in phase.
    pub fn new(
        sample_rate: u32,
        wavetable: Wavetable,
        arena_capacity: usize,
        num_oscillators: usize,
        freq: i64,
        amp: i64,
    ) -> (r: SynthesisEngine)
        requires
            1 <= sample_rate,
            wavetable.wf(),
            1 <= arena_capacity,
            num_oscillators <= MAX_VOICES,
            -STEP_LIMIT <= freq <= STEP_LIMIT,
            -AMP_LIMIT <= amp <= AMP_LIMIT,
        ensures
            r.wf(),
            r.oscillators@.len() == num_oscillators,
            forall|i: int|
                0 <= i < num_oscillators ==> #[trigger] r.oscillators@[i] == (Oscillator {
                    step: step_for(freq as int, sample_rate as int) as i64,
                    phase: 0i64,
                    wavetable: 0usize,
                    amp,
                }),
            r.wavetable_arena.slots().len() == arena_capacity,
            slot_at(r.wavetable_arena.slots(), 0) == Some(wavetable@),
            forall|h: int|
                1 <= h < arena_capacity ==> #[trigger] r.wavetable_arena.slots()[h] is None,
    {
        let mut wavetable_arena = WavetableArena::new(arena_capacity);
        let added = wavetable_arena.add(wavetable);
        proof {
            assert(added is Ok && added.unwrap() == 0);
        }
        let mut oscillators: Vec<Oscillator> = Vec::new();
        let mut n: usize = 0;
        while n < num_oscillators
            invariant
                n <= num_oscillators,
                oscillators@.len() == n,
                1 <= sample_rate,
                -STEP_LIMIT <= freq <= STEP_LIMIT,
                -AMP_LIMIT <= amp <= AMP_LIMIT,
                forall|i: int|
                    0 <= i < n ==> #[trigger] oscillators@[i] == (Oscillator {
                        step: step_for(freq as int, sample_rate as int) as i64,
                        phase: 0i64,
                        wavetable: 0usize,
                        amp,
                    }),
                forall|i: int| 0 <= i < n ==> #[trigger] oscillators@[i].wf(),
            decreases num_oscillators - n,
        {
            let osc = Oscillator::from_freq(freq, sample_rate, 0, amp);
            oscillators.push(osc);
            n = n + 1;
        }
        SynthesisEngine { wavetable_arena, oscillators }
    }

    /// One output frame: advances every voice once, in bank order, and
    /// returns the sum of their contributions. Only phases change; the
    /// arena, the bank's order and every voice's step, gain and handle stay
    /// as they were.
    pub fn next(&mut self) -> (r: i64)
        requires
            old(self).wf(),
        ensures
            final(self).wf(),
            final(self).wavetable_arena == old(self).wavetable_arena,
            final(self).oscillators@.len() == old(self).oscillators@.len(),
            forall|i: int|
                0 <= i < old(self).oscillators@.len() ==> #[trigger] final(self).oscillators@[i]
                    == advanced(old(self).oscillators@[i]),
            r == mix_sum(old(self).oscillators@, old(self).wavetable_arena.slots()),
            -(old(self).oscillators@.len() as int) * OUT_LIMIT <= r <= (old(
                self,
            ).oscillators@.len() as int) * OUT_LIMIT,
    {
        let count = self.oscillators.len();
        let mut amp_sum: i64 = 0;
        let mut n: usize = 0;
        while n < count
            invariant
                n <= count,
                count == old(self).oscillators@.len() <= MAX_VOICES,
                self.oscillators@.len() == count,
                self.wavetable_arena == old(self).wavetable_arena,
                old(self).wf(),
                forall|i: int|
                    0 <= i < n ==> #[trigger] self.oscillators@[i] == advanced(
                        old(self).oscillators@[i],
                    ),
                forall|i: int| 0 <= i < n ==> #[trigger] self.oscillators@[i].wf(),
                forall|i: int|
                    n <= i < count ==> #[trigger] self.oscillators@[i] == old(
                        self,
                    ).oscillators@[i],
                amp_sum == mix_sum(
                    old(self).oscillators@.take(n as int),
                    old(self).wavetable_arena.slots(),
                ),
                -(n as int) * OUT_LIMIT <= amp_sum <= (n as int) * OUT_LIMIT,
            decreases count - n,
        {
            let mut osc = self.oscillators[n];
            let contribution = osc.next(&self.wavetable_arena);
            self.oscillators[n] = osc;
            proof {
                let prev = old(self).oscillators@.take(n as int);
                let here = old(self).oscillators@.take(n as int + 1);
                assert(here.drop_last() =~= prev);
                assert(here.last() == old(self).oscillators@[n as int]);
                assert((n as int + 1) * OUT_LIMIT == (n as int) * OUT_LIMIT + OUT_LIMIT)
                    by (nonlinear_arith)
                ;
            }
            amp_sum = amp_sum + contribution;
            n = n + 1;
        }
        proof {
            assert(old(self).oscillators@.take(count as int) =~= old(self).oscillators@);
        }
        amp_sum
    }
}

} // verus!
