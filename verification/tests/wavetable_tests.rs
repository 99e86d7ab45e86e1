use wavetable_synth::{is_power_of_2, Wavetable, FRAC_ONE, MAX_TABLE_LEN, SAMPLE_LIMIT};

/// One cycle of a sine, scaled so that 1.0 is `FRAC_ONE`.
fn sine_table(size: usize) -> Wavetable {
    let mut samples: Vec<i64> = Vec::new();
    for i in 0..size {
        let x = (i as f64 / size as f64) * std::f64::consts::PI * 2.0;
        samples.push((x.sin() * FRAC_ONE as f64).round() as i64);
    }
    Wavetable::from_samples(samples).unwrap()
}

#[test]
fn power_of_two_recognition() {
    assert!(!is_power_of_2(0));
    assert!(is_power_of_2(1));
    assert!(is_power_of_2(2));
    assert!(!is_power_of_2(3));
    assert!(is_power_of_2(4096));
    assert!(!is_power_of_2(4097));
    assert!(is_power_of_2(MAX_TABLE_LEN));
}

#[test]
fn new_rounds_size_up_to_next_power_of_two() {
    assert_eq!(Wavetable::new(1).len(), 1);
    assert_eq!(Wavetable::new(2).len(), 2);
    assert_eq!(Wavetable::new(3).len(), 4);
    assert_eq!(Wavetable::new(1000).len(), 1024);
    assert_eq!(Wavetable::new(1024).len(), 1024);
    assert_eq!(Wavetable::new(4096).len(), 4096);
    assert_eq!(Wavetable::new(MAX_TABLE_LEN).len(), MAX_TABLE_LEN);
}

#[test]
fn new_table_is_silent() {
    let wt = Wavetable::new(8);
    for i in 0..8 {
        assert_eq!(wt.sample_at(i), 0);
    }
    assert_eq!(wt.sample_interpolated(FRAC_ONE / 3), 0);
}

#[test]
fn from_samples_validates_length_and_range() {
    assert!(Wavetable::from_samples(vec![0, 1, 2, 3]).is_some());
    assert!(Wavetable::from_samples(vec![0, 1, 2]).is_none());
    assert!(Wavetable::from_samples(vec![]).is_none());
    assert!(Wavetable::from_samples(vec![0, SAMPLE_LIMIT + 1]).is_none());
    assert!(Wavetable::from_samples(vec![0, -SAMPLE_LIMIT - 1]).is_none());
    assert!(Wavetable::from_samples(vec![SAMPLE_LIMIT, -SAMPLE_LIMIT]).is_some());
}

#[test]
fn interpolation_blends_exactly() {
    let wt = Wavetable::from_samples(vec![0, 100]).unwrap();
    // A quarter of the cycle points halfway between samples 0 and 1.
    assert_eq!(wt.sample_interpolated(FRAC_ONE / 4), 50);
    // Half of the cycle points exactly at sample 1.
    assert_eq!(wt.sample_interpolated(FRAC_ONE / 2), 100);
    // Phase 0 points exactly at sample 0.
    assert_eq!(wt.sample_interpolated(0), 0);
    // Three quarters blends sample 1 back toward sample 0 (wrapped).
    assert_eq!(wt.sample_interpolated(3 * (FRAC_ONE / 4)), 50);
}

#[test]
fn nearest_truncates_to_the_cell() {
    let wt = Wavetable::from_samples(vec![10, 20, 30, 40]).unwrap();
    assert_eq!(wt.sample_nearest(0), 10);
    assert_eq!(wt.sample_nearest(FRAC_ONE / 4 - 1), 10);
    assert_eq!(wt.sample_nearest(FRAC_ONE / 4), 20);
    assert_eq!(wt.sample_nearest(FRAC_ONE - 1), 40);
}

#[test]
fn set_sample_overwrites_one_entry() {
    let mut wt = Wavetable::new(4);
    wt.set_sample(2, 77);
    assert_eq!(wt.sample_at(2), 77);
    assert_eq!(wt.sample_at(1), 0);
    assert_eq!(wt.sample_at(3), 0);
}

#[test]
fn wraparound_continuity_of_interpolation() {
    // The value just below phase 1 must come back to the value at phase 0.
    let wt = sine_table(4096);
    let near_one = wt.sample_interpolated(FRAC_ONE - 1);
    let at_zero = wt.sample_interpolated(0);
    assert!(
        (near_one - at_zero).abs() < 1000,
        "wrap-around discontinuity: {near_one} vs {at_zero}"
    );
}

#[test]
fn sine_peaks_at_quarter_phases() {
    let size = 4096;
    let wt = sine_table(size);
    let tolerance = 4 * FRAC_ONE / size as i64; // O(1/S) interpolation error
    let peak = wt.sample_interpolated(FRAC_ONE / 4);
    let trough = wt.sample_interpolated(3 * (FRAC_ONE / 4));
    assert!((peak - FRAC_ONE).abs() <= tolerance, "peak {peak}");
    assert!((trough + FRAC_ONE).abs() <= tolerance, "trough {trough}");
}
