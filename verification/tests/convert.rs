use hammertalk::convert::resampled_size;
use hammertalk::{needs_resample, resample, try_resample, SAMPLE_RATE};

#[test]
fn test_resample_same_rate() {
    let samples: Vec<f32> = vec![0.1, 0.2, 0.3, 0.4, 0.5];
    let resampled = resample(&samples, 16000, 16000);

    assert_eq!(resampled, samples);
}

#[test]
fn test_resample_downsample_2x() {
    let samples: Vec<f32> = vec![0.0, 0.1, 0.2, 0.3, 0.4, 0.5, 0.6, 0.7];
    let resampled = resample(&samples, 32000, 16000);

    // Downsampling 2x should roughly halve the samples
    assert_eq!(resampled.len(), 4);
    assert!((resampled[0] - 0.0).abs() < 0.001);
    assert!((resampled[1] - 0.2).abs() < 0.001);
    assert!((resampled[2] - 0.4).abs() < 0.001);
    assert!((resampled[3] - 0.6).abs() < 0.001);
}

#[test]
fn test_resample_upsample_2x() {
    let samples: Vec<f32> = vec![0.0, 0.4, 0.8, 1.0];
    let resampled = resample(&samples, 8000, 16000);

    // Upsampling 2x should roughly double the samples
    assert_eq!(resampled.len(), 8);
}

#[test]
fn test_resample_empty() {
    let empty: Vec<f32> = vec![];
    let resampled = resample(&empty, 44100, 16000);

    assert!(resampled.is_empty());
}

#[test]
fn test_resample_single_sample() {
    let samples: Vec<f32> = vec![0.5];
    let resampled = resample(&samples, 16000, 16000);
    assert_eq!(resampled, vec![0.5]);
}

#[test]
fn test_resample_48k_to_16k() {
    // Common scenario: 48kHz to 16kHz (3x downsampling)
    let samples: Vec<f32> = (0..48).map(|i| i as f32 / 48.0).collect();
    let resampled = resample(&samples, 48000, 16000);

    // Should be roughly 1/3 the length
    assert!(resampled.len() >= 15 && resampled.len() <= 17);
}

#[test]
fn test_resample_44100_to_16000() {
    // Common scenario: 44.1kHz to 16kHz
    let samples: Vec<f32> = (0..441).map(|i| (i as f32 / 441.0).sin()).collect();
    let resampled = resample(&samples, 44100, 16000);

    // 441 samples at 44100Hz = 0.01s
    // Should produce ~160 samples at 16000Hz
    let expected_approx = (441.0 * 16000.0 / 44100.0) as usize;
    assert!(resampled.len() >= expected_approx - 2 && resampled.len() <= expected_approx + 2);
}

#[test]
fn test_resample_preserves_first_and_last() {
    let samples: Vec<f32> = vec![0.1, 0.2, 0.3, 0.4, 0.5, 0.6, 0.7, 0.8];
    let resampled = resample(&samples, 16000, 16000);

    // Same rate should preserve exactly
    assert!((resampled[0] - 0.1).abs() < 0.001);
    assert!((resampled[resampled.len() - 1] - 0.8).abs() < 0.001);
}

#[test]
fn test_needs_resample() {
    assert!(!needs_resample(16000, 16000));
    assert!(needs_resample(44100, 16000));
    assert!(needs_resample(48000, 16000));
    assert!(needs_resample(8000, 16000));
    // Very close rates should not need resampling
    assert!(!needs_resample(16001, 16000));
}

#[test]
fn test_sample_rate_constant() {
    assert_eq!(SAMPLE_RATE, 16000);
}

#[test]
fn test_needs_resample_common_rates() {
    // Common audio sample rates
    assert!(needs_resample(44100, 16000));
    assert!(needs_resample(48000, 16000));
    assert!(needs_resample(22050, 16000));
    assert!(needs_resample(8000, 16000));
    assert!(!needs_resample(16000, 16000));
}

#[test]
fn test_needs_resample_boundary() {
    // Tolerance is 0.001 (0.1%) - values within this range don't need resampling
    // 16001/16000 = 1.0000625, |1.0000625 - 1.0| = 0.0000625 < 0.001
    assert!(!needs_resample(16001, 16000));
    // 16016/16000 = 1.001, |1.001 - 1.0| = 0.001 - at boundary
    assert!(!needs_resample(16015, 16000)); // Just under threshold
    assert!(needs_resample(16017, 16000)); // Just over threshold
}

#[test]
fn needs_resample_is_false_on_equal_rates() {
    for rate in [0u32, 1, 999, 1000, 1001, 8000, 16000, 44100, 48000, 192000, u32::MAX] {
        assert!(!needs_resample(rate, rate));
    }
}

#[test]
fn needs_resample_at_the_edge_of_the_band() {
    // exactly one part in a thousand off, on either side, still matches
    assert!(!needs_resample(16016, 16000));
    assert!(!needs_resample(15984, 16000));
    assert!(needs_resample(15983, 16000));
    assert!(!needs_resample(1001, 1000));
    assert!(!needs_resample(999, 1000));
    assert!(needs_resample(1002, 1000));
    assert!(needs_resample(998, 1000));
    // below a thousand hertz any difference is more than a thousandth
    assert!(needs_resample(998, 999));
    assert!(needs_resample(1, 0));
    assert!(needs_resample(0, 1));
    assert!(needs_resample(0, u32::MAX));
    assert!(needs_resample(u32::MAX, 0));
}

#[test]
fn resample_takes_floor_positions() {
    let samples: Vec<u32> = (0..10).collect();
    // 3 -> 2: output i comes from floor(i * 3 / 2); length ceil(10 * 2 / 3) = 7
    assert_eq!(resample(&samples, 3, 2), vec![0, 1, 3, 4, 6, 7, 9]);
    // 2 -> 3: output i comes from floor(i * 2 / 3); length ceil(10 * 3 / 2) = 15
    assert_eq!(
        resample(&samples, 2, 3),
        vec![0, 0, 1, 2, 2, 3, 4, 4, 5, 6, 6, 7, 8, 8, 9]
    );
}

#[test]
fn resample_by_whole_factors() {
    let samples: Vec<u32> = (0..7).collect();
    assert_eq!(resample(&samples, 48000, 16000), vec![0, 3, 6]);
    assert_eq!(resample(&samples, 64000, 16000), vec![0, 4]);
    let up = resample(&samples, 16000, 48000);
    assert_eq!(up.len(), 21);
    for (i, v) in up.iter().enumerate() {
        assert_eq!(*v as usize, i / 3);
    }
}

#[test]
fn resample_48_samples_to_a_third() {
    let samples: Vec<u32> = (0..48).collect();
    let out = resample(&samples, 48000, 16000);
    assert_eq!(out.len(), 16);
    assert_eq!(out[15], 45);
}

#[test]
fn resample_441_samples_gives_160() {
    let samples: Vec<u32> = (0..441).collect();
    let out = resample(&samples, 44100, 16000);
    assert_eq!(out.len(), 160);
    assert_eq!(out[0], 0);
    assert_eq!(out[1], 2);
    assert_eq!(out[159], 438);
}

#[test]
fn resample_empty_for_any_rates() {
    let empty: Vec<f32> = vec![];
    for (source, target) in [(0u32, 0u32), (0, 16000), (16000, 0), (44100, 16000), (1, u32::MAX)] {
        assert!(resample(&empty, source, target).is_empty());
    }
}

#[test]
fn resample_to_rate_zero_is_empty() {
    let samples = vec![1u8, 2, 3];
    assert!(resample(&samples, 16000, 0).is_empty());
}

#[test]
fn resample_equal_rates_zero_is_identity() {
    let samples = vec![1u8, 2, 3];
    assert_eq!(resample(&samples, 0, 0), samples);
}

#[test]
fn try_resample_refuses_source_rate_zero() {
    let samples = vec![1u8, 2, 3];
    assert_eq!(try_resample(&samples, 0, 16000), None);
    assert_eq!(try_resample(&samples, 32000, 16000), Some(vec![1, 3]));
    let empty: Vec<u8> = vec![];
    assert_eq!(try_resample(&empty, 0, 16000), Some(vec![]));
}

#[test]
fn resampled_size_formula() {
    assert_eq!(resampled_size(8, 32000, 16000), Some(4));
    assert_eq!(resampled_size(48, 48000, 16000), Some(16));
    assert_eq!(resampled_size(441, 44100, 16000), Some(160));
    assert_eq!(resampled_size(10, 3, 2), Some(7));
    assert_eq!(resampled_size(4, 8000, 16000), Some(8));
    assert_eq!(resampled_size(5, 7, 7), Some(5));
    assert_eq!(resampled_size(0, 0, 5), Some(0));
    assert_eq!(resampled_size(3, 0, 5), None);
    assert_eq!(resampled_size(usize::MAX, 1, 2), None);
    assert_eq!(resampled_size(usize::MAX, 2, 1), Some(usize::MAX / 2 + 1));
    assert_eq!(resampled_size(usize::MAX, u32::MAX, u32::MAX - 1), Some(usize::MAX - usize::MAX / (u32::MAX as usize)));
}
