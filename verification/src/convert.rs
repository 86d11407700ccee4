//! Sample-rate conversion by nearest neighbour, in exact integer arithmetic.
//!
//! Samples are carried, never computed with, so the functions here are
//! generic in the sample type.

use vstd::prelude::*;
use vstd::slice::slice_to_vec;
use crate::arith::{lemma_ceil_bounds, lemma_ceil_is, lemma_floor_bounds, lemma_floor_is,
    lemma_next_multiple, lemma_product_fits, lemma_regroup, lemma_scale_le, lemma_scale_lt};

verus! {

/// The rate, in hertz, at which captured audio is handed on.
pub const SAMPLE_RATE: u32 = 16000;

/// Whether two rates differ by more than one part in a thousand of the
/// target rate: `|source / target - 1| > 1/1000`, cleared of the division.
pub open spec fn rates_differ(source_rate: int, target_rate: int) -> bool {
    let gap = if source_rate >= target_rate {
        source_rate - target_rate
    } else {
        target_rate - source_rate
    };
    gap * 1000 > target_rate
}

/// The length of `len` samples after conversion from `source_rate` to
/// `target_rate`: unchanged for equal rates, else `len * target / source`
/// rounded up.
pub open spec fn resampled_len(len: int, source_rate: int, target_rate: int) -> int {
    if source_rate == target_rate {
        len
    } else if len == 0 {
        0
    } else {
        (len * target_rate + source_rate - 1) / source_rate
    }
}

/// The input position that output position `index` is taken from:
/// `index * source / target` rounded down.
pub open spec fn source_index(index: int, source_rate: int, target_rate: int) -> int {
    index * source_rate / target_rate
}

/// `samples` converted from `source_rate` to `target_rate`.
pub open spec fn resampled<T>(samples: Seq<T>, source_rate: int, target_rate: int) -> Seq<T> {
    if source_rate == target_rate {
        samples
    } else {
        Seq::new(
            resampled_len(samples.len() as int, source_rate, target_rate) as nat,
            |index: int| samples[source_index(index, source_rate, target_rate)],
        )
    }
}

/// The conversion is defined: the rates are equal, or there is nothing to
/// convert, or the source rate is not zero.
pub open spec fn convertible(len: int, source_rate: int, target_rate: int) -> bool {
    source_rate == target_rate || len == 0 || source_rate >= 1
}

/// Decides whether audio at `source_rate` has to be converted before it can
/// pass as audio at `target_rate`.
pub fn needs_resample(source_rate: u32, target_rate: u32) -> (needed: bool)
    ensures
        needed == rates_differ(source_rate as int, target_rate as int),
{
    let gap: u64 = if source_rate >= target_rate {
        (source_rate - target_rate) as u64
    } else {
        (target_rate - source_rate) as u64
    };
    gap * 1000 > target_rate as u64
}

/// Computes the length of a conversion between different rates of an input
/// that is not empty.
fn scaled_len(len: usize, source_rate: u32, target_rate: u32) -> (size: u128)
    requires
        len >= 1,
        source_rate >= 1,
        source_rate != target_rate,
    ensures
        size == resampled_len(len as int, source_rate as int, target_rate as int),
{
    proof {
        lemma_product_fits(len as int, target_rate as int);
    }
    let scaled: u128 = len as u128 * target_rate as u128;
    (scaled + (source_rate as u128 - 1)) / source_rate as u128
}

/// Computes the length that `resample` would return, or `None` where the
/// conversion is undefined or its result is too long to be held.
pub fn resampled_size(len: usize, source_rate: u32, target_rate: u32) -> (size: Option<usize>)
    ensures
        match size {
            Some(n) => convertible(len as int, source_rate as int, target_rate as int) && n
                == resampled_len(len as int, source_rate as int, target_rate as int),
            None => !convertible(len as int, source_rate as int, target_rate as int)
                || resampled_len(len as int, source_rate as int, target_rate as int) > usize::MAX,
        },
{
    if source_rate == target_rate || len == 0 {
        Some(len)
    } else if source_rate == 0 {
        None
    } else {
        let size = scaled_len(len, source_rate, target_rate);
        if size > usize::MAX as u128 {
            None
        } else {
            Some(size as usize)
        }
    }
}

/// Copies out the samples of a conversion between different rates.
fn pick<T: Copy>(samples: &[T], source_rate: u32, target_rate: u32, size: usize) -> (out: Vec<T>)
    requires
        samples@.len() >= 1,
        source_rate >= 1,
        source_rate != target_rate,
        size == resampled_len(samples@.len() as int, source_rate as int, target_rate as int),
    ensures
        out@ == resampled(samples@, source_rate as int, target_rate as int),
{
    let len = samples.len();
    let mut out: Vec<T> = Vec::new();
    let mut index: usize = 0;
    while index < size
        invariant
            len == samples@.len(),
            len >= 1,
            source_rate >= 1,
            source_rate != target_rate,
            size == resampled_len(len as int, source_rate as int, target_rate as int),
            index <= size,
            out@.len() == index,
            forall|k: int|
                0 <= k < index ==> out@[k] == samples@[source_index(
                    k,
                    source_rate as int,
                    target_rate as int,
                )],
        decreases size - index,
    {
        proof {
            lemma_source_index_in_range(
                len as int,
                source_rate as int,
                target_rate as int,
                index as int,
            );
            lemma_product_fits(index as int, source_rate as int);
        }
        let from: u128 = (index as u128 * source_rate as u128) / target_rate as u128;
        out.push(samples[from as usize]);
        index += 1;
    }
    out
}

/// Converts `samples` from `source_rate` to `target_rate` by nearest
/// neighbour: output sample `i` is the input sample at `i * source / target`
/// rounded down. Equal rates give the input back.
pub fn resample<T: Copy>(samples: &[T], source_rate: u32, target_rate: u32) -> (out: Vec<T>)
    requires
        convertible(samples@.len() as int, source_rate as int, target_rate as int),
        resampled_len(samples@.len() as int, source_rate as int, target_rate as int) <= usize::MAX,
    ensures
        out@ == resampled(samples@, source_rate as int, target_rate as int),
{
    if source_rate == target_rate {
        slice_to_vec(samples)
    } else if samples.len() == 0 {
        let out: Vec<T> = Vec::new();
        assert(out@ =~= resampled(samples@, source_rate as int, target_rate as int));
        out
    } else {
        let size = scaled_len(samples.len(), source_rate, target_rate);
        pick(samples, source_rate, target_rate, size as usize)
    }
}

/// Like `resample`, for any input: `None` where the conversion is undefined
/// or its result would be too long to be held.
pub fn try_resample<T: Copy>(samples: &[T], source_rate: u32, target_rate: u32) -> (out: Option<
    Vec<T>,
>)
    ensures
        match out {
            Some(converted) => convertible(
                samples@.len() as int,
                source_rate as int,
                target_rate as int,
            ) && converted@ == resampled(samples@, source_rate as int, target_rate as int),
            None => !convertible(samples@.len() as int, source_rate as int, target_rate as int)
                || resampled_len(samples@.len() as int, source_rate as int, target_rate as int)
                > usize::MAX,
        },
{
    match resampled_size(samples.len(), source_rate, target_rate) {
        Some(_) => Some(resample(samples, source_rate, target_rate)),
        None => None,
    }
}

/// Every output position of a conversion between different rates is taken
/// from inside the input, so no output sample is ever made up.
pub proof fn lemma_source_index_in_range(len: int, source_rate: int, target_rate: int, index: int)
    requires
        len >= 1,
        source_rate >= 1,
        target_rate >= 0,
        source_rate != target_rate,
        0 <= index < resampled_len(len, source_rate, target_rate),
    ensures
        target_rate >= 1,
        0 <= source_index(index, source_rate, target_rate) < len,
{
    let size = resampled_len(len, source_rate, target_rate);
    // index * source < len * target
    lemma_ceil_bounds(len * target_rate, source_rate);
    lemma_scale_le(index + 1, size, source_rate);
    lemma_next_multiple(index, source_rate);
    lemma_scale_le(0, index, source_rate);
    assert(0 <= index * source_rate < len * target_rate);
    if target_rate == 0 {
        assert(len * target_rate == 0) by (nonlinear_arith)
            requires
                target_rate == 0,
        ;
    }
    // hence the quotient by the target lies below len
    let from = index * source_rate / target_rate;
    lemma_floor_bounds(index * source_rate, target_rate);
    if from >= len {
        lemma_scale_le(len, from, target_rate);
    }
    if from < 0 {
        lemma_scale_le(from + 1, 0, target_rate);
        lemma_next_multiple(from, target_rate);
    }
}

/// A rate never differs from itself.
pub proof fn lemma_equal_rates_match(rate: u32)
    ensures
        !rates_differ(rate as int, rate as int),
{
}

/// For a positive target, two rates match exactly when the source lies in
/// the band from 999 to 1001 thousandths of the target.
pub proof fn lemma_tolerance_band(source_rate: int, target_rate: int)
    requires
        target_rate >= 1,
    ensures
        !rates_differ(source_rate, target_rate) <==> 999 * target_rate <= 1000 * source_rate
            <= 1001 * target_rate,
{
}

/// Conversion between equal rates gives the input back, and with it its
/// first and last sample.
pub proof fn lemma_resample_same_rate<T>(samples: Seq<T>, rate: int)
    ensures
        resampled(samples, rate, rate) == samples,
        samples.len() > 0 ==> resampled(samples, rate, rate).first() == samples.first()
            && resampled(samples, rate, rate).last() == samples.last(),
{
}

/// Conversion of nothing gives nothing, whatever the rates.
pub proof fn lemma_resample_empty<T>(source_rate: int, target_rate: int)
    ensures
        resampled(Seq::<T>::empty(), source_rate, target_rate) == Seq::<T>::empty(),
{
    assert(resampled(Seq::<T>::empty(), source_rate, target_rate) =~= Seq::<T>::empty());
}

/// Conversion down by a whole factor `factor` keeps every `factor`-th
/// sample, the first one included: the length is `len / factor` rounded up.
pub proof fn lemma_downsample_by_factor<T>(samples: Seq<T>, target_rate: int, factor: int)
    requires
        target_rate >= 1,
        factor >= 1,
    ensures
        resampled_len(samples.len() as int, factor * target_rate, target_rate) == (samples.len()
            + factor - 1) / factor,
        resampled(samples, factor * target_rate, target_rate).len() == (samples.len() + factor
            - 1) / factor,
        forall|index: int|
            0 <= index < (samples.len() + factor - 1) / factor ==> #[trigger] resampled(
                samples,
                factor * target_rate,
                target_rate,
            )[index] == samples[index * factor],
{
    let len = samples.len() as int;
    let source_rate = factor * target_rate;
    let short = (len + factor - 1) / factor;
    lemma_ceil_bounds(len, factor);
    if factor == 1 {
        assert(source_rate == target_rate);
        assert(short == len);
    } else {
        lemma_scale_le(2, factor, target_rate);
        assert(source_rate != target_rate);
        if len == 0 {
            lemma_floor_is(factor - 1, factor, 0);
        } else {
            // short * factor - factor < len <= short * factor, times the target rate
            lemma_scale_le(len, short * factor, target_rate);
            lemma_scale_le(short * factor - factor + 1, len, target_rate);
            lemma_next_multiple(short * factor - factor, target_rate);
            lemma_next_multiple(short, factor);
            lemma_regroup(short, factor, target_rate);
            lemma_regroup(short - 1, factor, target_rate);
            lemma_next_multiple(short, source_rate);
            lemma_ceil_is(len * target_rate, source_rate, short);
        }
    }
    assert forall|index: int| 0 <= index < short implies #[trigger] resampled(
        samples,
        source_rate,
        target_rate,
    )[index] == samples[index * factor] by {
        lemma_regroup(index, factor, target_rate);
        lemma_floor_is(index * source_rate, target_rate, index * factor);
    }
}

/// Conversion up by a whole factor `factor` repeats every sample `factor`
/// times: the length is `len * factor`.
pub proof fn lemma_upsample_by_factor<T>(samples: Seq<T>, source_rate: int, factor: int)
    requires
        source_rate >= 1,
        factor >= 1,
    ensures
        resampled_len(samples.len() as int, source_rate, factor * source_rate) == samples.len()
            * factor,
        resampled(samples, source_rate, factor * source_rate).len() == samples.len() * factor,
        forall|index: int|
            0 <= index < samples.len() * factor ==> #[trigger] resampled(
                samples,
                source_rate,
                factor * source_rate,
            )[index] == samples[index / factor],
{
    let len = samples.len() as int;
    let target_rate = factor * source_rate;
    lemma_scale_le(0, len, factor);
    if factor == 1 {
        assert(source_rate == target_rate);
    } else {
        lemma_scale_le(2, factor, source_rate);
        assert(source_rate != target_rate);
        if len != 0 {
            lemma_regroup(len, factor, source_rate);
            lemma_floor_is(len * target_rate + source_rate - 1, source_rate, len * factor);
        }
    }
    assert forall|index: int| 0 <= index < len * factor implies #[trigger] resampled(
        samples,
        source_rate,
        target_rate,
    )[index] == samples[index / factor] by {
        let from = index / factor;
        lemma_floor_bounds(index, factor);
        // from * factor <= index < from * factor + factor, times the source rate
        lemma_scale_le(from * factor, index, source_rate);
        lemma_scale_lt(index, from * factor + factor, source_rate);
        lemma_next_multiple(from, factor);
        lemma_regroup(from, factor, source_rate);
        lemma_regroup(from + 1, factor, source_rate);
        lemma_next_multiple(from, target_rate);
        lemma_floor_is(index * source_rate, target_rate, from);
    }
}

} // verus!
