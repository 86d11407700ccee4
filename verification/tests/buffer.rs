use std::sync::{Arc, Mutex};

use hammertalk::{CaptureConfig, RecordingState, SampleBuffer};

fn mean(channels: usize) -> impl Fn(&[f32]) -> f32 {
    move |frame: &[f32]| frame.iter().sum::<f32>() / channels as f32
}

fn first(frame: &[u32]) -> u32 {
    frame[0]
}

fn config(sample_rate: u32, channels: u16, resample: bool) -> CaptureConfig {
    CaptureConfig { sample_rate, channels, target_rate: 16000, resample }
}

#[test]
fn a_new_buffer_is_empty() {
    let buffer: SampleBuffer<f32> = SampleBuffer::new();
    assert!(buffer.is_empty());
    assert_eq!(buffer.len(), 0);
    assert_eq!(buffer.snapshot(), Vec::<f32>::new());
}

#[test]
fn matching_rates_append_every_frame() {
    let mut buffer = SampleBuffer::new();
    buffer.append_batch(&[0.5, 0.3, 0.8, 0.2, 1.0, 0.0], &config(16000, 2, false), &mean(2));
    let held = buffer.snapshot();
    assert_eq!(held.len(), 3);
    assert!((held[0] - 0.4).abs() < 0.001);
    assert!((held[1] - 0.5).abs() < 0.001);
    assert!((held[2] - 0.5).abs() < 0.001);
}

#[test]
fn batches_append_in_arrival_order() {
    let mut buffer = SampleBuffer::new();
    let mono = config(16000, 1, false);
    buffer.append_batch(&[1, 2, 3], &mono, &first);
    buffer.append_batch(&[], &mono, &first);
    buffer.append_batch(&[4, 5], &mono, &first);
    assert_eq!(buffer.snapshot(), vec![1, 2, 3, 4, 5]);
    assert_eq!(buffer.len(), 5);
}

#[test]
fn thinning_by_three_keeps_every_third_frame() {
    let mut buffer = SampleBuffer::new();
    let data: Vec<u32> = (0..12).collect();
    buffer.append_batch(&data, &config(48000, 1, true), &first);
    assert_eq!(buffer.snapshot(), vec![0, 3, 6, 9]);
}

#[test]
fn thinning_keeps_the_first_frame_on_each_target_position() {
    let mut buffer = SampleBuffer::new();
    let data: Vec<u32> = (0..12).collect();
    // 44100 -> 16000: frame i falls on floor(i * 16000 / 44100)
    // i:      0 1 2 3 4 5 6 7 8 9 10 11
    // target: 0 0 0 1 1 1 2 2 2 3 3  3
    buffer.append_batch(&data, &config(44100, 1, true), &first);
    assert_eq!(buffer.snapshot(), vec![0, 3, 6, 9]);

    let mut other = SampleBuffer::new();
    // 24000 -> 16000: targets 0 0 1 2 2 3 4 4 5 6 6 7
    other.append_batch(&data, &config(24000, 1, true), &first);
    assert_eq!(other.snapshot(), vec![0, 2, 3, 5, 6, 8, 9, 11]);
}

#[test]
fn a_slower_device_keeps_every_frame() {
    let mut buffer = SampleBuffer::new();
    let data: Vec<u32> = (0..6).collect();
    buffer.append_batch(&data, &config(8000, 1, true), &first);
    assert_eq!(buffer.snapshot(), data);
}

#[test]
fn every_batch_starts_its_own_count() {
    let mut buffer = SampleBuffer::new();
    let thin = config(48000, 1, true);
    buffer.append_batch(&[0, 1, 2, 3, 4], &thin, &first);
    buffer.append_batch(&[10, 11, 12, 13], &thin, &first);
    assert_eq!(buffer.snapshot(), vec![0, 3, 10, 13]);
}

#[test]
fn a_batch_of_480_frames_at_48k_gives_160_samples() {
    let mut buffer = SampleBuffer::new();
    let data: Vec<f32> = (0..960).map(|i| (i / 2) as f32).collect();
    buffer.append_batch(&data, &config(48000, 2, true), &mean(2));
    let held = buffer.snapshot();
    assert_eq!(held.len(), 160);
    for (k, sample) in held.iter().enumerate() {
        assert_eq!(*sample, (3 * k) as f32);
    }
}

#[test]
fn thinning_downmixes_before_it_keeps() {
    let mut buffer = SampleBuffer::new();
    // stereo frames (0,10) (1,11) (2,12) (3,13); kept: frames 0 and 3
    buffer.append_batch(&[0.0, 10.0, 1.0, 11.0, 2.0, 12.0, 3.0, 13.0], &config(48000, 2, true), &mean(2));
    assert_eq!(buffer.snapshot(), vec![5.0, 8.0]);
}

#[test]
fn clear_empties_and_snapshot_copies() {
    let mut buffer = SampleBuffer::new();
    let mono = config(16000, 1, false);
    buffer.append_batch(&[1, 2, 3], &mono, &first);
    let copy = buffer.snapshot();
    buffer.append_batch(&[4], &mono, &first);
    assert_eq!(copy, vec![1, 2, 3]);
    assert_eq!(buffer.snapshot(), vec![1, 2, 3, 4]);
    buffer.clear();
    assert!(buffer.is_empty());
    assert_eq!(copy, vec![1, 2, 3]);
    buffer.append_batch(&[9], &mono, &first);
    assert_eq!(buffer.snapshot(), vec![9]);
}

#[test]
fn appends_and_clears_under_one_lock_keep_the_length_consistent() {
    let shared = Arc::new(Mutex::new(SampleBuffer::new()));
    let mono = config(16000, 1, false);
    let mut expected = 0usize;
    for round in 0..200u32 {
        {
            let mut buffer = shared.lock().unwrap();
            let before = buffer.len();
            buffer.append_batch(&[round, round + 1, round + 2], &mono, &first);
            assert_eq!(buffer.len(), before + 3);
            expected += 3;
        }
        if round % 7 == 6 {
            let mut buffer = shared.lock().unwrap();
            buffer.clear();
            assert_eq!(buffer.len(), 0);
            expected = 0;
        }
        let buffer = shared.lock().unwrap();
        assert_eq!(buffer.len(), expected);
        assert_eq!(buffer.snapshot().len(), expected);
    }
}

#[test]
fn capture_does_nothing_while_idle() {
    let mut buffer = SampleBuffer::new();
    let mono = config(16000, 1, false);
    buffer.capture(RecordingState::Idle, &[1, 2, 3], &mono, &first);
    assert!(buffer.is_empty());
    buffer.capture(RecordingState::Recording, &[1, 2, 3], &mono, &first);
    assert_eq!(buffer.snapshot(), vec![1, 2, 3]);
    buffer.capture(RecordingState::Idle, &[4, 5], &mono, &first);
    assert_eq!(buffer.snapshot(), vec![1, 2, 3]);
}

#[test]
fn capture_while_recording_thins_like_append_batch() {
    let mut buffer = SampleBuffer::new();
    let data: Vec<u32> = (0..9).collect();
    buffer.capture(RecordingState::Recording, &data, &config(32000, 1, true), &first);
    assert_eq!(buffer.snapshot(), vec![0, 2, 4, 6, 8]);
}

#[test]
fn a_thinned_batch_gives_one_sample_per_target_position() {
    // 441 frames at 44100 Hz reach the positions 0..=159 of the 16000 Hz stream
    let mut buffer = SampleBuffer::new();
    let data: Vec<u32> = (0..441).collect();
    buffer.append_batch(&data, &config(44100, 1, true), &first);
    let held = buffer.snapshot();
    assert_eq!(held.len(), 160);
    for (position, frame) in held.iter().enumerate() {
        assert_eq!((*frame as u64 * 16000 / 44100) as usize, position);
        assert!(*frame == 0 || ((*frame - 1) as u64 * 16000 / 44100) as usize == position - 1);
    }
}
