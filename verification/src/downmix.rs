//! Folding interleaved channels into one.
//!
//! The library never computes with sample values: it cuts the input into
//! frames and hands each frame to a mixer that the caller supplies. What the
//! mixer returns for a frame is known only through the mixer's own contract.

use vstd::prelude::*;
use vstd::arithmetic::mul::lemma_mul_is_commutative;
use vstd::slice::slice_subrange;
use crate::arith::{lemma_ceil_bounds, lemma_ceil_is, lemma_floor_bounds, lemma_floor_is,
    lemma_next_multiple, lemma_scale_le};

verus! {

/// The number of frames in `len` interleaved samples of `channels` channels;
/// a trailing partial frame counts.
pub open spec fn frame_count(len: int, channels: int) -> int {
    (len + channels - 1) / channels
}

/// Where frame `index` ends: one frame's length after its start, or at the
/// end of the input where that comes first.
pub open spec fn frame_end(len: int, channels: int, index: int) -> int {
    if index * channels + channels <= len {
        index * channels + channels
    } else {
        len
    }
}

/// The samples of frame `index`.
pub open spec fn frame<T>(samples: Seq<T>, channels: int, index: int) -> Seq<T> {
    samples.subrange(index * channels, frame_end(samples.len() as int, channels, index))
}

/// The mixer accepts a frame that holds `values`.
pub open spec fn mixable<T, F: Fn(&[T]) -> T>(mix: &F, values: Seq<T>) -> bool {
    forall|s: &[T]| s@ == values ==> call_requires(*mix, (s,))
}

/// The mixer accepts every frame of `samples`.
pub open spec fn mixable_frames<T, F: Fn(&[T]) -> T>(
    mix: &F,
    samples: Seq<T>,
    channels: int,
) -> bool {
    forall|index: int|
        0 <= index < frame_count(samples.len() as int, channels) ==> mixable(
            mix,
            #[trigger] frame(samples, channels, index),
        )
}

/// `sample` is a downmix of a frame that holds `values`: the one value of
/// the frame where there is one channel, else a result of the mixer on the
/// frame.
pub open spec fn downmixed<T, F: Fn(&[T]) -> T>(
    mix: &F,
    values: Seq<T>,
    channels: int,
    sample: T,
) -> bool {
    if channels == 1 {
        sample == values[0]
    } else {
        exists|s: &[T]| s@ == values && call_ensures(*mix, (s,), sample)
    }
}

/// Counts the frames of an input of `len` samples.
pub fn count_frames(len: usize, channels: usize) -> (count: usize)
    requires
        channels >= 1,
    ensures
        count == frame_count(len as int, channels as int),
{
    proof {
        lemma_frame_count_exact(len as int, channels as int);
        lemma_floor_bounds(len as int, channels as int);
        if len as int % channels as int != 0 {
            let whole = len as int / channels as int;
            lemma_floor_is(len as int, channels as int, whole);
            lemma_next_multiple(whole, channels as int);
            lemma_ceil_is(len as int, channels as int, whole + 1);
        }
    }
    if len % channels == 0 {
        len / channels
    } else {
        len / channels + 1
    }
}

/// Borrows frame `index` of `samples`.
pub fn frame_at<T>(samples: &[T], channels: usize, index: usize) -> (values: &[T])
    requires
        channels >= 1,
        index < frame_count(samples@.len() as int, channels as int),
    ensures
        values@ == frame(samples@, channels as int, index as int),
        values@.len() >= 1,
{
    let len = samples.len();
    proof {
        lemma_frame_bounds(len as int, channels as int, index as int);
    }
    let start = index * channels;
    let end = if channels <= len - start {
        start + channels
    } else {
        len
    };
    slice_subrange(samples, start, end)
}

/// Folds one frame into one sample: with one channel the value itself, with
/// more whatever the mixer makes of the frame.
pub fn downmix<T: Copy, F: Fn(&[T]) -> T>(values: &[T], channels: usize, mix: &F) -> (sample: T)
    requires
        channels == 1 ==> values@.len() >= 1,
        channels != 1 ==> call_requires(*mix, (values,)),
    ensures
        downmixed(mix, values@, channels as int, sample),
{
    if channels == 1 {
        values[0]
    } else {
        mix(values)
    }
}

/// Folds interleaved samples of `channels` channels into one channel, frame
/// by frame and in order.
pub fn to_mono<T: Copy, F: Fn(&[T]) -> T>(samples: &[T], channels: usize, mix: &F) -> (mono: Vec<T>)
    requires
        channels >= 1,
        channels != 1 ==> mixable_frames(mix, samples@, channels as int),
    ensures
        mono@.len() == frame_count(samples@.len() as int, channels as int),
        forall|index: int|
            0 <= index < mono@.len() ==> downmixed(
                mix,
                frame(samples@, channels as int, index),
                channels as int,
                #[trigger] mono@[index],
            ),
        samples@.len() as int % channels as int == 0 ==> mono@.len() == samples@.len() as int
            / channels as int,
        channels == 1 ==> mono@ == samples@,
{
    let count = count_frames(samples.len(), channels);
    let mut mono: Vec<T> = Vec::new();
    let mut index: usize = 0;
    while index < count
        invariant
            channels >= 1,
            channels != 1 ==> mixable_frames(mix, samples@, channels as int),
            count == frame_count(samples@.len() as int, channels as int),
            index <= count,
            mono@.len() == index,
            forall|k: int|
                0 <= k < index ==> downmixed(
                    mix,
                    frame(samples@, channels as int, k),
                    channels as int,
                    #[trigger] mono@[k],
                ),
        decreases count - index,
    {
        let values = frame_at(samples, channels, index);
        proof {
            if channels != 1 {
                assert(mixable(mix, frame(samples@, channels as int, index as int)));
            }
        }
        let sample = downmix(values, channels, mix);
        mono.push(sample);
        index += 1;
    }
    proof {
        lemma_frame_count_exact(samples@.len() as int, channels as int);
        if channels == 1 {
            assert forall|k: int| 0 <= k < mono@.len() implies mono@[k] == samples@[k] by {
                lemma_frame_bounds(samples@.len() as int, 1, k);
                assert(frame(samples@, 1, k)[0] == samples@[k]);
            }
            assert(mono@ =~= samples@);
        }
    }
    mono
}

/// Every full or partial frame starts inside the input and is not empty,
/// and only the last frame ends where the input ends.
pub proof fn lemma_frame_bounds(len: int, channels: int, index: int)
    requires
        channels >= 1,
        len >= 0,
        0 <= index < frame_count(len, channels),
    ensures
        0 <= index * channels < frame_end(len, channels, index) <= len,
        index + 1 == frame_count(len, channels) <==> frame_end(len, channels, index) == len,
{
    let count = frame_count(len, channels);
    lemma_ceil_bounds(len, channels);
    lemma_scale_le(0, index, channels);
    lemma_scale_le(index + 1, count, channels);
    lemma_next_multiple(index, channels);
    if index + 1 < count {
        lemma_scale_le(index + 2, count, channels);
        lemma_next_multiple(index + 1, channels);
    }
}

/// An input whose length is a multiple of the channel count has exactly
/// `len / channels` frames; an empty input has none; no input has more
/// frames than samples.
pub proof fn lemma_frame_count_exact(len: int, channels: int)
    requires
        channels >= 1,
        len >= 0,
    ensures
        len % channels == 0 ==> frame_count(len, channels) == len / channels,
        channels == 1 ==> frame_count(len, channels) == len,
        len == 0 ==> frame_count(len, channels) == 0,
        0 <= frame_count(len, channels) <= len,
{
    let count = frame_count(len, channels);
    lemma_ceil_bounds(len, channels);
    if count < 0 {
        lemma_scale_le(count, -1, channels);
    }
    if count > len {
        lemma_scale_le(len + 1, count, channels);
        lemma_next_multiple(len, channels);
        lemma_scale_le(1, channels, len);
        lemma_mul_is_commutative(channels, len);
    }
    if len == 0 && count >= 1 {
        lemma_scale_le(1, count, channels);
    }
    if len % channels == 0 {
        lemma_floor_bounds(len, channels);
        lemma_floor_is(len, channels, len / channels);
        lemma_ceil_is(len, channels, len / channels);
    }
}

} // verus!
