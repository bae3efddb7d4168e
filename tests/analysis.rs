use aiff_tempo::{
    calculate_bpm_energy_dynamic_threshold, calculate_bpm_energy_manual_threshold, detect_peaks,
    dynamic_threshold, estimate_tempo, normalize_energies, reference_signal, window_energies, AiffData,
    AiffError, Bpm, Threshold, UNIT,
};

fn mono(samples: Vec<i16>, rate: u32) -> AiffData {
    AiffData {
        file_size_bytes: 0,
        num_channels: 1,
        num_sample_frames: samples.len() as u32,
        bit_depth: 16,
        sample_rate_hz: rate,
        track_name: String::new(),
        track_length_s: 0,
        sound_offset_bytes: 0,
        sound_block_size_bytes: 0,
        right_channel_audio: samples.clone(),
        interleaved_audio: samples.clone(),
        left_channel_audio: samples,
    }
}

/// Windows of `w` samples; window `j` is loud when `j % period == phase`.
fn bursts(windows: usize, w: usize, period: usize, phase: usize) -> Vec<i16> {
    (0..windows * w)
        .map(|i| if (i / w) % period == phase { 10000 } else { 100 })
        .collect()
}

fn value(b: Bpm) -> f64 {
    b.num as f64 / b.den as f64
}

#[test]
fn reference_of_stereo_is_channel_sum() {
    let a = AiffData {
        num_channels: 2,
        left_channel_audio: vec![100, -32768],
        right_channel_audio: vec![300, -32768],
        interleaved_audio: vec![100, 300, -32768, -32768],
        ..mono(vec![], 8000)
    };
    assert_eq!(reference_signal(&a), vec![400, -65536]);
    assert_eq!(reference_signal(&mono(vec![3, -4], 8000)), vec![3, -4]);
}

#[test]
fn window_energies_sum_squares() {
    assert_eq!(window_energies(&vec![1, -2, 3, 4, 5], 2), vec![5, 25, 25]);
    assert_eq!(window_energies(&vec![1, 2, 3, 4], 2), vec![5, 25]);
    assert_eq!(window_energies(&vec![], 3), Vec::<u128>::new());
    assert_eq!(window_energies(&vec![i32::MIN, i32::MIN], 2), vec![1u128 << 63]);
}

#[test]
fn normalized_energies_peak_at_unit() {
    let n = normalize_energies(&vec![1, 4, 2, 0]).unwrap();
    assert_eq!(n, vec![UNIT / 4, UNIT, UNIT / 2, 0]);
    assert_eq!(*n.iter().max().unwrap(), UNIT);
    let n = normalize_energies(&vec![1, 3]).unwrap();
    assert_eq!(n, vec![UNIT / 3, UNIT]);
    let n = normalize_energies(&vec![u128::MAX - 1, u128::MAX]).unwrap();
    assert_eq!(n, vec![UNIT - 1, UNIT]);
    assert!(n.iter().all(|&x| x <= UNIT));
}

#[test]
fn degenerate_energies_are_rejected() {
    assert_eq!(normalize_energies(&vec![]), Err(AiffError::EmptyOrDegenerateSignal));
    assert_eq!(normalize_energies(&vec![0, 0]), Err(AiffError::EmptyOrDegenerateSignal));
    let silent = mono(vec![0; 400], 8000);
    assert_eq!(calculate_bpm_energy_manual_threshold(&silent, 100, 0), Err(AiffError::EmptyOrDegenerateSignal));
    assert_eq!(calculate_bpm_energy_dynamic_threshold(&silent, 100, 0), Err(AiffError::EmptyOrDegenerateSignal));
    let empty = mono(vec![], 8000);
    assert_eq!(calculate_bpm_energy_manual_threshold(&empty, 100, 0), Err(AiffError::EmptyOrDegenerateSignal));
}

#[test]
fn peaks_of_synthetic_sequence() {
    // 0.1, 0.9, 0.2, 0.1, 0.95, 0.15 against 0.5, in hundredths
    let e = vec![10, 90, 20, 10, 95, 15];
    assert_eq!(detect_peaks(&e, Threshold::fixed(50)), vec![1, 4]);
    assert_eq!(detect_peaks(&e, Threshold::fixed(92)), vec![4]);
    assert_eq!(detect_peaks(&e, Threshold::fixed(95)), Vec::<usize>::new());
    assert_eq!(detect_peaks(&vec![1, 5], Threshold::fixed(0)), Vec::<usize>::new());
    // equal neighbours are no peak
    assert_eq!(detect_peaks(&vec![1, 5, 5, 1], Threshold::fixed(0)), Vec::<usize>::new());
}

#[test]
fn dynamic_threshold_statistics() {
    // mean 2, deviations 1,0,1,4 -> variance 6/4 = 1, stddev 1
    let e = vec![1, 2, 3, 4];
    let t = dynamic_threshold(&e, 2 * UNIT as i64);
    assert_eq!(t, Threshold { num: 4 * UNIT as i128, den: UNIT });
    let t = dynamic_threshold(&e, -(UNIT as i64));
    assert_eq!(t, Threshold { num: UNIT as i128, den: UNIT });
    // a single value: mean is the value, stddev 0
    let t = dynamic_threshold(&vec![UNIT], 5);
    assert_eq!(t.num, UNIT as i128 * UNIT as i128);
}

#[test]
fn dynamic_peaks_are_a_subset_of_lower_fixed_peaks() {
    let e = normalize_energies(&vec![1, 9, 2, 1, 10, 3, 5, 2, 8, 1]).unwrap();
    let k = UNIT as i64 / 2;
    let t = dynamic_threshold(&e, k);
    let dynamic = detect_peaks(&e, t);
    let mean = e.iter().sum::<u64>() / e.len() as u64;
    for f in [0, mean, mean + 1000] {
        let fixed = detect_peaks(&e, Threshold::fixed(f));
        assert!(t.num >= (f as i128) * UNIT as i128);
        assert!(dynamic.iter().all(|p| fixed.contains(p)));
    }
    assert!(!dynamic.is_empty());
}

#[test]
fn tempo_of_half_second_peaks_is_120() {
    // 1000 Hz, windows of 100 samples (0.1 s), a burst every 5 windows
    let a = mono(bursts(22, 100, 5, 2), 1000);
    let b = calculate_bpm_energy_manual_threshold(&a, 100, UNIT / 2).unwrap();
    assert_eq!(b.num, 120 * b.den);
    assert!((value(b) - 120.0).abs() < 1e-9);
    let b = calculate_bpm_energy_dynamic_threshold(&a, 100, UNIT as i64).unwrap();
    assert_eq!(b.num, 120 * b.den);
}

#[test]
fn tempo_of_stereo_signal() {
    // 8000 Hz, windows of 400 samples (0.05 s), a burst every 10 windows: 0.5 s
    let left = bursts(35, 400, 10, 3);
    let right: Vec<i16> = left.iter().map(|&x| x / 2).collect();
    let interleaved = left.iter().zip(right.iter()).flat_map(|(&l, &r)| [l, r]).collect();
    let a = AiffData {
        num_channels: 2,
        left_channel_audio: left,
        right_channel_audio: right,
        interleaved_audio: interleaved,
        ..mono(vec![], 8000)
    };
    let b = calculate_bpm_energy_manual_threshold(&a, 400, UNIT / 2).unwrap();
    assert_eq!(b.num, 120 * b.den);
}

#[test]
fn tempo_formula() {
    // peaks 2, 7, 12 of 100-sample windows at 1000 Hz: mean gap 0.5 s
    let b = estimate_tempo(&vec![2, 7, 12], 100, 1000).unwrap();
    assert_eq!(b, Bpm { num: 60 * 1000 * 2, den: 10 * 100 });
    let b = estimate_tempo(&vec![0, 3, 4], 441, 44100).unwrap();
    assert_eq!(b, Bpm { num: 60 * 44100 * 2, den: 4 * 441 });
}

#[test]
fn fewer_than_two_peaks_is_an_error() {
    assert_eq!(estimate_tempo(&vec![], 100, 1000), Err(AiffError::InsufficientPeaks));
    assert_eq!(estimate_tempo(&vec![5], 100, 1000), Err(AiffError::InsufficientPeaks));
    // a single burst gives one peak
    let a = mono(bursts(10, 100, 100, 4), 1000);
    assert_eq!(calculate_bpm_energy_dynamic_threshold(&a, 100, 0), Err(AiffError::InsufficientPeaks));
    assert_eq!(calculate_bpm_energy_manual_threshold(&a, 100, 0), Err(AiffError::InsufficientPeaks));
    // a steady signal gives none
    let flat = mono(vec![500; 1000], 1000);
    assert_eq!(calculate_bpm_energy_dynamic_threshold(&flat, 100, UNIT as i64), Err(AiffError::InsufficientPeaks));
}
