use hammertalk::downmix::{count_frames, frame_at};
use hammertalk::{downmix, to_mono};

fn mean(channels: usize) -> impl Fn(&[f32]) -> f32 {
    move |frame: &[f32]| frame.iter().sum::<f32>() / channels as f32
}

#[test]
fn test_to_mono_stereo() {
    let stereo = vec![0.5, 0.3, 0.8, 0.2, 1.0, 0.0];
    let mono = to_mono(&stereo, 2, &mean(2));

    assert_eq!(mono.len(), 3);
    assert!((mono[0] - 0.4).abs() < 0.001); // (0.5 + 0.3) / 2
    assert!((mono[1] - 0.5).abs() < 0.001); // (0.8 + 0.2) / 2
    assert!((mono[2] - 0.5).abs() < 0.001); // (1.0 + 0.0) / 2
}

#[test]
fn test_to_mono_already_mono() {
    let mono_input = vec![0.1, 0.2, 0.3, 0.4];
    let mono = to_mono(&mono_input, 1, &mean(1));

    assert_eq!(mono, mono_input);
}

#[test]
fn test_to_mono_quad() {
    let quad = vec![0.4, 0.4, 0.4, 0.4, 0.8, 0.8, 0.8, 0.8];
    let mono = to_mono(&quad, 4, &mean(4));

    assert_eq!(mono.len(), 2);
    assert!((mono[0] - 0.4).abs() < 0.001);
    assert!((mono[1] - 0.8).abs() < 0.001);
}

#[test]
fn test_to_mono_empty() {
    let empty: Vec<f32> = vec![];
    let mono = to_mono(&empty, 2, &mean(2));

    assert!(mono.is_empty());
}

#[test]
fn test_to_mono_single_sample() {
    let single = vec![0.5];
    let mono = to_mono(&single, 1, &mean(1));
    assert_eq!(mono, vec![0.5]);
}

#[test]
fn test_to_mono_stereo_single_frame() {
    let stereo = vec![0.2, 0.8];
    let mono = to_mono(&stereo, 2, &mean(2));
    assert_eq!(mono.len(), 1);
    assert!((mono[0] - 0.5).abs() < 0.001);
}

#[test]
fn test_to_mono_preserves_silence() {
    let silence = vec![0.0, 0.0, 0.0, 0.0];
    let mono = to_mono(&silence, 2, &mean(2));
    assert!(mono.iter().all(|&s| s == 0.0));
}

#[test]
fn test_to_mono_extreme_values() {
    let extreme = vec![1.0, -1.0, -1.0, 1.0];
    let mono = to_mono(&extreme, 2, &mean(2));
    assert_eq!(mono.len(), 2);
    assert!((mono[0] - 0.0).abs() < 0.001); // (1.0 + -1.0) / 2
    assert!((mono[1] - 0.0).abs() < 0.001); // (-1.0 + 1.0) / 2
}

#[test]
fn test_to_mono_with_6_channels() {
    // 5.1 surround sound
    let surround = vec![0.1, 0.2, 0.3, 0.4, 0.5, 0.6];
    let mono = to_mono(&surround, 6, &mean(6));

    assert_eq!(mono.len(), 1);
    let expected = (0.1 + 0.2 + 0.3 + 0.4 + 0.5 + 0.6) / 6.0;
    assert!((mono[0] - expected).abs() < 0.001);
}

#[test]
fn to_mono_length_divides_by_channels() {
    for channels in 1..=8usize {
        for frames in 0..=5usize {
            let samples: Vec<f32> = (0..frames * channels).map(|i| i as f32).collect();
            let mono = to_mono(&samples, channels, &mean(channels));
            assert_eq!(mono.len(), frames);
        }
    }
}

#[test]
fn to_mono_one_channel_never_calls_the_mixer() {
    let samples = vec![7i32, -3, 0, 12];
    let mono = to_mono(&samples, 1, &|_: &[i32]| -> i32 { panic!("mixer called") });
    assert_eq!(mono, samples);
}

#[test]
fn to_mono_trailing_partial_frame_is_mixed_too() {
    let samples = vec![1i32, 2, 3, 4, 5];
    let seen = to_mono(&samples, 2, &|frame: &[i32]| frame.iter().sum::<i32>() * 10 + frame.len() as i32);
    assert_eq!(seen, vec![32, 72, 51]);
}

#[test]
fn to_mono_trailing_partial_frame_divides_by_channel_count() {
    let samples = vec![0.2f32, 0.4, 0.6];
    let mono = to_mono(&samples, 2, &mean(2));
    assert_eq!(mono.len(), 2);
    assert!((mono[0] - 0.3).abs() < 0.001);
    assert!((mono[1] - 0.3).abs() < 0.001);
}

#[test]
fn count_frames_rounds_up() {
    assert_eq!(count_frames(0, 3), 0);
    assert_eq!(count_frames(1, 3), 1);
    assert_eq!(count_frames(3, 3), 1);
    assert_eq!(count_frames(4, 3), 2);
    assert_eq!(count_frames(6, 3), 2);
    assert_eq!(count_frames(7, 1), 7);
    assert_eq!(count_frames(usize::MAX, 1), usize::MAX);
    assert_eq!(count_frames(usize::MAX, 2), usize::MAX / 2 + 1);
}

#[test]
fn frame_at_cuts_whole_and_partial_frames() {
    let samples = [10u8, 11, 12, 13, 14, 15, 16];
    assert_eq!(frame_at(&samples, 3, 0), &[10, 11, 12]);
    assert_eq!(frame_at(&samples, 3, 1), &[13, 14, 15]);
    assert_eq!(frame_at(&samples, 3, 2), &[16]);
}

#[test]
fn downmix_is_identity_on_one_channel_and_mixes_otherwise() {
    assert_eq!(downmix(&[0.25f32], 1, &mean(1)), 0.25);
    assert!((downmix(&[0.5f32, 0.3], 2, &mean(2)) - 0.4).abs() < 0.001);
    assert!((downmix(&[0.6f32], 2, &mean(2)) - 0.3).abs() < 0.001);
}
