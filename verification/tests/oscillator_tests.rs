use wavetable_synth::{Oscillator, Wavetable, WavetableArena, FRAC_ONE};

fn arena_with_ramp() -> WavetableArena {
    let mut arena = WavetableArena::new(4);
    // A simple ramp: easy to predict interpolated values exactly.
    arena
        .add(Wavetable::from_samples(vec![0, 100, 200, 300]).unwrap())
        .unwrap();
    arena
}

#[test]
fn from_freq_derives_the_step_exactly() {
    let freq = 200 * FRAC_ONE; // 200 Hz in fixed point
    let osc = Oscillator::from_freq(freq, 44100, 0, FRAC_ONE);
    assert_eq!(osc.step, freq / 44100);
    assert_eq!(osc.phase, 0);
    assert_eq!(osc.amp, FRAC_ONE);
    let reverse = Oscillator::from_freq(-freq, 44100, 0, FRAC_ONE);
    assert_eq!(reverse.step, -(freq / 44100));
}

#[test]
fn zero_step_freezes_the_phase() {
    let arena = arena_with_ramp();
    let mut osc = Oscillator::new(0); // step 0, phase 0, unity gain
    let first = osc.next(&arena);
    for _ in 0..1000 {
        assert_eq!(osc.phase, 0);
        assert_eq!(osc.next(&arena), first);
    }
    assert_eq!(osc.phase, 0);
}

#[test]
fn unpopulated_handle_is_always_silent() {
    let arena = arena_with_ramp();
    // Slot 3 exists but was never populated; slot 100 is out of range.
    for handle in [3usize, 100usize] {
        let mut osc = Oscillator::from_freq(123 * FRAC_ONE, 44100, handle, FRAC_ONE);
        for _ in 0..500 {
            assert_eq!(osc.next(&arena), 0);
        }
    }
}

#[test]
fn phase_advances_and_wraps_into_the_unit_cycle() {
    let arena = arena_with_ramp();
    let step = FRAC_ONE / 4;
    let mut osc = Oscillator {
        step,
        phase: 0,
        wavetable: 0,
        amp: FRAC_ONE,
    };
    // Quarter steps over a 4-sample ramp land exactly on the samples.
    assert_eq!(osc.next(&arena), 100);
    assert_eq!(osc.phase, FRAC_ONE / 4);
    assert_eq!(osc.next(&arena), 200);
    assert_eq!(osc.next(&arena), 300);
    assert_eq!(osc.next(&arena), 0); // wrapped back to phase 0
    assert_eq!(osc.phase, 0);
}

#[test]
fn negative_step_plays_in_reverse() {
    let arena = arena_with_ramp();
    let mut osc = Oscillator {
        step: -(FRAC_ONE / 4),
        phase: 0,
        wavetable: 0,
        amp: FRAC_ONE,
    };
    assert_eq!(osc.next(&arena), 300);
    assert_eq!(osc.phase, 3 * (FRAC_ONE / 4));
    assert_eq!(osc.next(&arena), 200);
    assert_eq!(osc.next(&arena), 100);
    assert_eq!(osc.next(&arena), 0);
    assert_eq!(osc.phase, 0);
}

#[test]
fn amplitude_scales_the_sample() {
    let arena = arena_with_ramp();
    let mut osc = Oscillator {
        step: FRAC_ONE / 4,
        phase: 0,
        wavetable: 0,
        amp: FRAC_ONE / 2,
    };
    assert_eq!(osc.next(&arena), 50);
    assert_eq!(osc.next(&arena), 100);
}
