//! The capture buffer and the rule by which a batch of frames enters it.
//!
//! The buffer is plain data. Whoever shares it between the audio callback
//! and the control thread wraps it in a lock and calls these methods while
//! holding it.

use vstd::prelude::*;
use vstd::arithmetic::div_mod::{lemma_div_is_ordered, lemma_div_pos_is_pos};
use vstd::slice::slice_to_vec;
use crate::arith::{lemma_ceil_is, lemma_floor_bounds, lemma_floor_is, lemma_next_multiple,
    lemma_product_fits, lemma_regroup, lemma_scale_le, lemma_scale_lt};
use crate::downmix::{count_frames, downmix, downmixed, frame, frame_at, frame_count,
    lemma_frame_count_exact, mixable, mixable_frames};
use crate::machine::RecordingState;
use crate::negotiate::CaptureConfig;

verus! {

/// The position in the target-rate stream that frame `index` of a batch
/// falls on: `index * target / source` rounded down.
#[verifier::opaque]
pub open spec fn target_index(index: int, source_rate: int, target_rate: int) -> int {
    index * target_rate / source_rate
}

/// Frame `index` is the first of its batch to fall on its target position.
pub open spec fn starts_target(index: int, source_rate: int, target_rate: int) -> bool {
    index == 0 || target_index(index, source_rate, target_rate) != target_index(
        index - 1,
        source_rate,
        target_rate,
    )
}

/// Frame `index` of a batch enters the buffer: every frame where the rates
/// match, else only the first frame on each target position.
pub open spec fn keeps(config: CaptureConfig, index: int) -> bool {
    !config.resample || starts_target(
        index,
        config.sample_rate as int,
        config.target_rate as int,
    )
}

/// The frames among the first `count` of a batch that enter the buffer, in
/// order.
pub open spec fn kept_frames(config: CaptureConfig, count: int) -> Seq<int>
    decreases count,
{
    if count <= 0 {
        Seq::empty()
    } else if keeps(config, count - 1) {
        kept_frames(config, count - 1).push(count - 1)
    } else {
        kept_frames(config, count - 1)
    }
}

/// `after` is `before` with the kept frames of `data` appended, each
/// downmixed to one sample.
pub open spec fn appended<T, F: Fn(&[T]) -> T>(
    mix: &F,
    data: Seq<T>,
    config: CaptureConfig,
    before: Seq<T>,
    after: Seq<T>,
) -> bool {
    let kept = kept_frames(config, frame_count(data.len() as int, config.channels as int));
    &&& after.len() == before.len() + kept.len()
    &&& after.subrange(0, before.len() as int) == before
    &&& forall|k: int|
        0 <= k < kept.len() ==> downmixed(
            mix,
            frame(data, config.channels as int, #[trigger] kept[k]),
            config.channels as int,
            after[before.len() + k],
        )
}

/// One of the kept frames falls on the target position of frame `index`
/// and is not after it.
pub open spec fn represented(config: CaptureConfig, count: int, index: int) -> bool {
    exists|k: int|
        0 <= k < kept_frames(config, count).len() && #[trigger] kept_frames(config, count)[k]
            <= index && target_index(
            kept_frames(config, count)[k],
            config.sample_rate as int,
            config.target_rate as int,
        ) == target_index(index, config.sample_rate as int, config.target_rate as int)
}

/// An ordered, growable store of mono samples at the target rate.
pub struct SampleBuffer<T> {
    samples: Vec<T>,
}

impl<T> View for SampleBuffer<T> {
    type V = Seq<T>;

    closed spec fn view(&self) -> Seq<T> {
        self.samples@
    }
}

impl<T: Copy> SampleBuffer<T> {
    /// An empty buffer.
    pub fn new() -> (buffer: Self)
        ensures
            buffer@ == Seq::<T>::empty(),
    {
        SampleBuffer { samples: Vec::new() }
    }

    /// The number of samples held.
    pub fn len(&self) -> (len: usize)
        ensures
            len == self@.len(),
    {
        self.samples.len()
    }

    /// Tells whether nothing is held.
    pub fn is_empty(&self) -> (empty: bool)
        ensures
            empty == (self@.len() == 0),
    {
        self.samples.len() == 0
    }

    /// Drops everything captured so far.
    pub fn clear(&mut self)
        ensures
            final(self)@ == Seq::<T>::empty(),
    {
        self.samples.clear();
    }

    /// Copies the contents out; the buffer stays as it is.
    pub fn snapshot(&self) -> (copy: Vec<T>)
        ensures
            copy@ == self@,
    {
        slice_to_vec(self.samples.as_slice())
    }

    /// Takes one batch of interleaved frames from the device: each frame is
    /// downmixed, and enters the buffer if the configuration keeps it.
    pub fn append_batch<F: Fn(&[T]) -> T>(&mut self, data: &[T], config: &CaptureConfig, mix: &F)
        requires
            config.channels >= 1,
            config.sample_rate >= 1,
            config.channels != 1 ==> mixable_frames(mix, data@, config.channels as int),
        ensures
            appended(mix, data@, *config, old(self)@, final(self)@),
    {
        let channels = config.channels as usize;
        let count = count_frames(data.len(), channels);
        let ghost before = self.samples@;
        let mut previous: u128 = 0;
        let mut index: usize = 0;
        while index < count
            invariant
                config.channels >= 1,
                config.sample_rate >= 1,
                channels == config.channels,
                channels != 1 ==> mixable_frames(mix, data@, channels as int),
                count == frame_count(data@.len() as int, channels as int),
                index <= count,
                config.resample && index > 0 ==> previous == target_index(
                    index - 1,
                    config.sample_rate as int,
                    config.target_rate as int,
                ),
                self.samples@.len() == before.len() + kept_frames(*config, index as int).len(),
                self.samples@.subrange(0, before.len() as int) == before,
                forall|k: int|
                    0 <= k < kept_frames(*config, index as int).len() ==> downmixed(
                        mix,
                        frame(data@, channels as int, #[trigger] kept_frames(*config, index as int)[k]),
                        channels as int,
                        self.samples@[before.len() + k],
                    ),
            decreases count - index,
        {
            let values = frame_at(data, channels, index);
            proof {
                if channels != 1 {
                    assert(mixable(mix, frame(data@, channels as int, index as int)));
                }
            }
            let sample = downmix(values, channels, mix);
            let keep = if config.resample {
                proof {
                    reveal(target_index);
                    lemma_product_fits(index as int, config.target_rate as int);
                }
                let target: u128 = (index as u128 * config.target_rate as u128)
                    / config.sample_rate as u128;
                let first = index == 0 || target != previous;
                previous = target;
                first
            } else {
                true
            };
            let ghost kept = kept_frames(*config, index as int);
            let ghost held = self.samples@;
            if keep {
                self.samples.push(sample);
                proof {
                    let next = kept_frames(*config, index + 1);
                    assert(next == kept.push(index as int));
                    assert forall|k: int| 0 <= k < next.len() implies downmixed(
                        mix,
                        frame(data@, channels as int, #[trigger] next[k]),
                        channels as int,
                        self.samples@[before.len() + k],
                    ) by {
                        if k < kept.len() {
                            assert(next[k] == kept[k]);
                            assert(self.samples@[before.len() + k] == held[before.len() + k]);
                        }
                    }
                    assert(self.samples@.subrange(0, before.len() as int) =~= before);
                }
            }
            index += 1;
        }
    }

    /// What the audio callback does with a batch: nothing unless recording
    /// is on, else what `append_batch` does.
    pub fn capture<F: Fn(&[T]) -> T>(
        &mut self,
        state: RecordingState,
        data: &[T],
        config: &CaptureConfig,
        mix: &F,
    )
        requires
            config.channels >= 1,
            config.sample_rate >= 1,
            config.channels != 1 ==> mixable_frames(mix, data@, config.channels as int),
        ensures
            state == RecordingState::Recording ==> appended(
                mix,
                data@,
                *config,
                old(self)@,
                final(self)@,
            ),
            state != RecordingState::Recording ==> final(self)@ == old(self)@,
    {
        if state.accepts_audio() {
            self.append_batch(data, config, mix);
        }
    }
}

/// A batch never shortens the buffer nor touches what it held: what was
/// there stays first, in its order, and at most one sample per frame of the
/// batch comes after it.
pub proof fn lemma_append_keeps_order<T, F: Fn(&[T]) -> T>(
    mix: &F,
    data: Seq<T>,
    config: CaptureConfig,
    before: Seq<T>,
    after: Seq<T>,
)
    requires
        config.channels >= 1,
        appended(mix, data, config, before, after),
    ensures
        before.len() <= after.len() <= before.len() + frame_count(
            data.len() as int,
            config.channels as int,
        ),
        before.is_prefix_of(after),
        forall|i: int| 0 <= i < before.len() ==> after[i] == before[i],
{
    lemma_frame_count_exact(data.len() as int, config.channels as int);
    lemma_kept_frames(config, frame_count(data.len() as int, config.channels as int));
    assert forall|i: int| 0 <= i < before.len() implies after[i] == before[i] by {
        assert(after.subrange(0, before.len() as int)[i] == after[i]);
    }
}

/// A later frame never falls on an earlier target position.
pub proof fn lemma_target_index_monotone(
    earlier: int,
    later: int,
    source_rate: int,
    target_rate: int,
)
    requires
        0 <= earlier <= later,
        source_rate >= 1,
        target_rate >= 0,
    ensures
        0 <= target_index(earlier, source_rate, target_rate) <= target_index(
            later,
            source_rate,
            target_rate,
        ),
{
    reveal(target_index);
    lemma_scale_le(0, earlier, target_rate);
    lemma_scale_le(earlier, later, target_rate);
    lemma_div_pos_is_pos(earlier * target_rate, source_rate);
    lemma_div_is_ordered(earlier * target_rate, later * target_rate, source_rate);
}

/// The kept frames are exactly the frames of the batch that the
/// configuration keeps, each once and in the order of arrival.
pub proof fn lemma_kept_frames(config: CaptureConfig, count: int)
    requires
        count >= 0,
    ensures
        kept_frames(config, count).len() <= count,
        forall|k: int|
            0 <= k < kept_frames(config, count).len() ==> 0 <= #[trigger] kept_frames(
                config,
                count,
            )[k] < count && keeps(config, kept_frames(config, count)[k]),
        forall|a: int, b: int|
            0 <= a < b < kept_frames(config, count).len() ==> #[trigger] kept_frames(
                config,
                count,
            )[a] < #[trigger] kept_frames(config, count)[b],
        forall|index: int|
            0 <= index < count && keeps(config, index) ==> #[trigger] kept_frames(
                config,
                count,
            ).contains(index),
    decreases count,
{
    if count > 0 {
        lemma_kept_frames(config, count - 1);
        let before = kept_frames(config, count - 1);
        let kept = kept_frames(config, count);
        if keeps(config, count - 1) {
            assert(kept == before.push(count - 1));
            assert(kept[kept.len() - 1] == count - 1);
            assert forall|index: int| 0 <= index < count && keeps(config, index) implies kept.contains(
                index,
            ) by {
                if index < count - 1 {
                    assert(before.contains(index));
                    let k = choose|k: int| 0 <= k < before.len() && before[k] == index;
                    assert(kept[k] == index);
                } else {
                    assert(kept[kept.len() - 1] == index);
                }
            }
        }
    }
}

/// Where the rates match, every frame of the batch is kept.
pub proof fn lemma_matching_rates_keep_all(config: CaptureConfig, count: int)
    requires
        count >= 0,
        !config.resample,
    ensures
        kept_frames(config, count) == Seq::new(count as nat, |index: int| index),
    decreases count,
{
    if count > 0 {
        lemma_matching_rates_keep_all(config, count - 1);
    }
    assert(kept_frames(config, count) =~= Seq::new(count as nat, |index: int| index));
}

/// Where the stream is thinned, no two kept frames fall on the same target
/// position: a target position gets at most one sample.
pub proof fn lemma_kept_targets_distinct(config: CaptureConfig, count: int, a: int, b: int)
    requires
        config.sample_rate >= 1,
        config.resample,
        0 <= a < b < kept_frames(config, count).len(),
    ensures
        target_index(
            kept_frames(config, count)[a],
            config.sample_rate as int,
            config.target_rate as int,
        ) < target_index(
            kept_frames(config, count)[b],
            config.sample_rate as int,
            config.target_rate as int,
        ),
{
    let source_rate = config.sample_rate as int;
    let target_rate = config.target_rate as int;
    let kept = kept_frames(config, count);
    if count > 0 {
        lemma_kept_frames(config, count);
        let first = kept[a];
        let second = kept[b];
        assert(0 <= first < second);
        assert(keeps(config, second));
        lemma_target_index_monotone(first, second - 1, source_rate, target_rate);
        lemma_target_index_monotone(second - 1, second, source_rate, target_rate);
    }
}

/// Where the stream is thinned, every frame of the batch falls on the
/// target position of a kept frame: a target position that the batch
/// reaches gets at least one sample.
pub proof fn lemma_every_target_kept(config: CaptureConfig, count: int, index: int)
    requires
        config.resample,
        0 <= index < count,
    ensures
        represented(config, count, index),
    decreases count,
{
    let source_rate = config.sample_rate as int;
    let target_rate = config.target_rate as int;
    let kept = kept_frames(config, count);
    let before = kept_frames(config, count - 1);
    if keeps(config, count - 1) {
        assert(kept == before.push(count - 1));
    } else {
        assert(kept == before);
    }
    if index == count - 1 && keeps(config, index) {
        assert(kept[kept.len() - 1] == index);
    } else {
        let near = if index == count - 1 {
            index - 1
        } else {
            index
        };
        assert(target_index(near, source_rate, target_rate) == target_index(
            index,
            source_rate,
            target_rate,
        ));
        lemma_every_target_kept(config, count - 1, near);
        let k = choose|k: int|
            0 <= k < before.len() && #[trigger] before[k] <= near && target_index(
                before[k],
                source_rate,
                target_rate,
            ) == target_index(near, source_rate, target_rate);
        assert(kept[k] == before[k]);
    }
}

/// On a device that runs at least as fast as the target, the kept frames of
/// a batch fall on the target positions 0, 1, 2 and so on without a gap:
/// the sample for position `k` is kept frame `k`, and a batch that is not
/// empty gives one sample more than the position of its last frame.
pub proof fn lemma_thinned_positions(config: CaptureConfig, count: int)
    requires
        config.resample,
        1 <= config.target_rate <= config.sample_rate,
        count >= 1,
    ensures
        kept_frames(config, count).len() == target_index(
            count - 1,
            config.sample_rate as int,
            config.target_rate as int,
        ) + 1,
        forall|k: int|
            0 <= k < kept_frames(config, count).len() ==> target_index(
                #[trigger] kept_frames(config, count)[k],
                config.sample_rate as int,
                config.target_rate as int,
            ) == k,
    decreases count,
{
    let source_rate = config.sample_rate as int;
    let target_rate = config.target_rate as int;
    let last = count - 1;
    let kept = kept_frames(config, count);
    if count == 1 {
        reveal(target_index);
        lemma_floor_is(0 * target_rate, source_rate, 0);
        assert(kept_frames(config, 0) =~= Seq::<int>::empty());
        assert(kept =~= seq![0int]);
    } else {
        lemma_thinned_positions(config, count - 1);
        let before = kept_frames(config, count - 1);
        let on = target_index(last - 1, source_rate, target_rate);
        assert(on <= target_index(last, source_rate, target_rate) <= on + 1) by {
            reveal(target_index);
            lemma_target_index_monotone(last - 1, last, source_rate, target_rate);
            // this frame lies less than a whole source rate past the one
            // before, so at most one position further
            lemma_floor_bounds((last - 1) * target_rate, source_rate);
            lemma_next_multiple(last, target_rate);
            lemma_next_multiple(on + 1, source_rate);
            lemma_next_multiple(on, source_rate);
            lemma_floor_bounds(last * target_rate, source_rate);
            let here = last * target_rate / source_rate;
            if here >= on + 2 {
                lemma_scale_le(on + 2, here, source_rate);
            }
        }
        if keeps(config, last) {
            assert(kept == before.push(last));
            assert forall|k: int| 0 <= k < kept.len() implies target_index(
                #[trigger] kept[k],
                source_rate,
                target_rate,
            ) == k by {
                if k < before.len() {
                    assert(kept[k] == before[k]);
                }
            }
        } else {
            assert(kept == before);
        }
    }
}

/// On a device that runs `factor` times as fast as the target, frame
/// `index` falls on target position `index / factor`.
proof fn lemma_target_of_multiple(index: int, target_rate: int, factor: int)
    requires
        index >= 0,
        target_rate >= 1,
        factor >= 1,
    ensures
        target_index(index, factor * target_rate, target_rate) == index / factor,
{
    reveal(target_index);
    let source_rate = factor * target_rate;
    let on = index / factor;
    lemma_floor_bounds(index, factor);
    // on * factor <= index < on * factor + factor, times the target rate
    lemma_scale_le(on * factor, index, target_rate);
    lemma_scale_lt(index, on * factor + factor, target_rate);
    lemma_next_multiple(on, factor);
    lemma_regroup(on, factor, target_rate);
    lemma_regroup(on + 1, factor, target_rate);
    lemma_next_multiple(on, source_rate);
    lemma_scale_le(1, factor, target_rate);
    lemma_floor_is(index * target_rate, source_rate, on);
}

/// A device that runs a whole number of times faster than the target has
/// every `factor`-th frame kept, the first one included.
pub proof fn lemma_thinning_by_factor(config: CaptureConfig, factor: int, count: int)
    requires
        config.resample,
        config.target_rate >= 1,
        factor >= 1,
        config.sample_rate == factor * config.target_rate,
        count >= 0,
    ensures
        forall|index: int| 0 <= index ==> (#[trigger] keeps(config, index) <==> index % factor == 0),
        kept_frames(config, count) == Seq::new(
            ((count + factor - 1) / factor) as nat,
            |k: int| k * factor,
        ),
    decreases count,
{
    let target_rate = config.target_rate as int;
    assert forall|index: int| 0 <= index implies (#[trigger] keeps(config, index) <==> index
        % factor == 0) by {
        let on = index / factor;
        lemma_floor_bounds(index, factor);
        lemma_floor_is(index, factor, on);
        lemma_target_of_multiple(index, target_rate, factor);
        if index >= 1 {
            lemma_target_of_multiple(index - 1, target_rate, factor);
            if index % factor == 0 {
                lemma_next_multiple(on, factor);
                lemma_floor_is(index - 1, factor, on - 1);
            } else {
                lemma_floor_is(index - 1, factor, on);
            }
        }
    }
    if count == 0 {
        lemma_floor_is(factor - 1, factor, 0);
    } else {
        lemma_thinning_by_factor(config, factor, count - 1);
        let last = count - 1;
        let on = last / factor;
        assert(keeps(config, last) <==> last % factor == 0);
        lemma_floor_bounds(last, factor);
        lemma_floor_is(last, factor, on);
        lemma_next_multiple(on, factor);
        if last % factor == 0 {
            lemma_ceil_is(last, factor, on);
        } else {
            lemma_ceil_is(last, factor, on + 1);
        }
        lemma_ceil_is(count, factor, on + 1);
    }
    assert(kept_frames(config, count) =~= Seq::new(
        ((count + factor - 1) / factor) as nat,
        |k: int| k * factor,
    ));
}

/// A device that runs no faster than the target has every frame kept.
pub proof fn lemma_slower_device_keeps_all(config: CaptureConfig, count: int)
    requires
        config.resample,
        1 <= config.sample_rate <= config.target_rate,
        count >= 0,
    ensures
        kept_frames(config, count) == Seq::new(count as nat, |index: int| index),
    decreases count,
{
    if count > 0 {
        lemma_slower_device_keeps_all(config, count - 1);
        let last = count - 1;
        let source_rate = config.sample_rate as int;
        let target_rate = config.target_rate as int;
        if last >= 1 {
            reveal(target_index);
            // the frame before falls on `on`; this one at least a whole
            // source rate further, so past `on`
            let on = (last - 1) * target_rate / source_rate;
            lemma_floor_bounds((last - 1) * target_rate, source_rate);
            lemma_next_multiple(last, target_rate);
            lemma_next_multiple(on, source_rate);
            lemma_floor_is((on + 1) * source_rate, source_rate, on + 1);
            lemma_div_is_ordered((on + 1) * source_rate, last * target_rate, source_rate);
        }
        assert(keeps(config, last));
    }
    assert(kept_frames(config, count) =~= Seq::new(count as nat, |index: int| index));
}

} // verus!
