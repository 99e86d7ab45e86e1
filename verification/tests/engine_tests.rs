use wavetable_synth::{Oscillator, SynthesisEngine, Wavetable, FRAC_ONE};

/// One cycle of a sine, scaled so that 1.0 is `FRAC_ONE`.
fn sine_wavetable(size: usize) -> Wavetable {
    let mut samples: Vec<i64> = Vec::new();
    for i in 0..size {
        let x = (i as f64 / size as f64) * std::f64::consts::PI * 2.0;
        samples.push((x.sin() * FRAC_ONE as f64).round() as i64);
    }
    Wavetable::from_samples(samples).unwrap()
}

#[test]
fn engine_mixes_the_sum_of_its_voices() {
    let ramp = Wavetable::from_samples(vec![0, 100, 200, 300]).unwrap();
    let mut engine = SynthesisEngine::new(4, ramp, 8, 3, FRAC_ONE, FRAC_ONE);
    // Three identical voices, each stepping a quarter cycle per tick.
    assert_eq!(engine.next(), 3 * 100);
    assert_eq!(engine.next(), 3 * 200);
    assert_eq!(engine.next(), 3 * 300);
    assert_eq!(engine.next(), 0);
}

#[test]
fn equal_voices_with_equal_dampening_match_a_single_voice() {
    let voices: usize = 4;
    let table = sine_wavetable(4096);
    let single_table = sine_wavetable(4096);
    let freq = 200 * FRAC_ONE;
    let dampening = FRAC_ONE / voices as i64;
    let mut engine = SynthesisEngine::new(44100, table, 4, voices, freq, dampening);

    let mut solo_arena = wavetable_synth::WavetableArena::new(1);
    solo_arena.add(single_table).unwrap();
    let mut solo = Oscillator::from_freq(freq, 44100, 0, voices as i64 * dampening);

    for _ in 0..2000 {
        let mixed = engine.next();
        let alone = solo.next(&solo_arena);
        // The mix loses at most one fixed-point step of rounding per voice,
        // and is never louder than the single dampened-equivalent voice.
        let difference = alone - mixed;
        assert!(
            (0..voices as i64).contains(&difference),
            "mix {mixed} vs solo {alone}"
        );
    }
}

#[test]
fn engine_output_returns_after_a_whole_number_of_periods() {
    // 400 unison voices at 200 Hz and 44100 Hz sample rate: one period is
    // 220.5 ticks, so after 441 ticks the bank is back where it started,
    // up to the tiny fixed-point drift of the step quantization.
    let table = sine_wavetable(4096);
    let voices: usize = 400;
    let mut engine = SynthesisEngine::new(
        44100,
        table,
        4,
        voices,
        200 * FRAC_ONE,
        FRAC_ONE / voices as i64,
    );
    let first = engine.next();
    for _ in 0..440 {
        engine.next();
    }
    let after_period = engine.next();
    assert!(
        (after_period - first).abs() < 5000,
        "not periodic: {first} vs {after_period}"
    );
}

#[test]
fn engine_keeps_its_bank_size_and_handles() {
    let table = sine_wavetable(64);
    let mut engine = SynthesisEngine::new(48000, table, 2, 5, 440 * FRAC_ONE, FRAC_ONE / 5);
    assert_eq!(engine.oscillators.len(), 5);
    for osc in &engine.oscillators {
        assert_eq!(osc.wavetable, 0);
        assert_eq!(osc.phase, 0);
        assert_eq!(osc.step, (440 * FRAC_ONE) / 48000);
    }
    engine.next();
    for osc in &engine.oscillators {
        assert_eq!(osc.phase, (440 * FRAC_ONE) / 48000);
    }
}
