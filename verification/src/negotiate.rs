//! Choosing a capture format among those an input device offers.

use vstd::prelude::*;
use vstd::string::StringExecFns;
use crate::convert::{needs_resample, rates_differ, SAMPLE_RATE};

verus! {

/// How a device encodes one sample. Only 32-bit floating point can be
/// captured; every other encoding is `Other`.
#[derive(Clone, Copy, Debug, PartialEq, Eq)]
pub enum SampleFormat {
    Float32,
    Other,
}

/// One entry of a device's list of supported input formats: a channel
/// count, an encoding and a span of sample rates in hertz.
#[derive(Clone, Copy, Debug, PartialEq, Eq)]
pub struct SupportedRange {
    pub channels: u16,
    pub min_sample_rate: u32,
    pub max_sample_rate: u32,
    pub format: SampleFormat,
}

impl SupportedRange {
    /// The span of rates contains `rate`.
    pub open spec fn covers(self, rate: u32) -> bool {
        self.min_sample_rate <= rate <= self.max_sample_rate
    }

    /// How far the range is from `target`: nothing if it covers the target,
    /// else the gap between the target and the range's maximum rate.
    pub open spec fn distance(self, target: u32) -> int {
        if self.covers(target) {
            0
        } else if target >= self.max_sample_rate {
            target - self.max_sample_rate
        } else {
            self.max_sample_rate - target
        }
    }

    /// The rate to capture at: the target where the range covers it, else
    /// the range's maximum.
    pub open spec fn rate_for(self, target: u32) -> u32 {
        if self.covers(target) {
            target
        } else {
            self.max_sample_rate
        }
    }

    /// The range can be captured from: it has a channel, its span is not
    /// empty and reaches a positive rate.
    pub open spec fn usable(self) -> bool {
        &&& self.channels >= 1
        &&& self.min_sample_rate <= self.max_sample_rate
        &&& self.max_sample_rate >= 1
    }

    /// The range is captured as 32-bit floating point.
    pub open spec fn is_float(self) -> bool {
        self.format == SampleFormat::Float32
    }

    /// Tells whether the span of rates contains `rate`.
    pub fn covers_rate(&self, rate: u32) -> (covered: bool)
        ensures
            covered == self.covers(rate),
    {
        self.min_sample_rate <= rate && rate <= self.max_sample_rate
    }

    /// Measures how far the range is from `target`.
    pub fn rate_distance(&self, target: u32) -> (gap: u32)
        ensures
            gap == self.distance(target),
    {
        if self.covers_rate(target) {
            0
        } else if target >= self.max_sample_rate {
            target - self.max_sample_rate
        } else {
            self.max_sample_rate - target
        }
    }

    /// Picks the rate to capture at.
    pub fn capture_rate(&self, target: u32) -> (rate: u32)
        ensures
            rate == self.rate_for(target),
    {
        if self.covers_rate(target) {
            target
        } else {
            self.max_sample_rate
        }
    }

    /// Tells whether the range can be captured from.
    pub fn is_usable(&self) -> (usable: bool)
        ensures
            usable == self.usable(),
    {
        self.channels >= 1 && self.min_sample_rate <= self.max_sample_rate
            && self.max_sample_rate >= 1
    }

    /// Tells whether the range is captured as 32-bit floating point.
    pub fn captures_float(&self) -> (float: bool)
        ensures
            float == self.is_float(),
    {
        match self.format {
            SampleFormat::Float32 => true,
            SampleFormat::Other => false,
        }
    }
}

/// `index` is the entry that capture settles on for `target` among the
/// first `seen` entries of `ranges`: a floating-point entry, strictly nearer
/// to the target than every floating-point entry before it and at least as
/// near as every one after.
pub open spec fn is_choice_among(
    ranges: Seq<SupportedRange>,
    target: u32,
    index: int,
    seen: int,
) -> bool {
    &&& 0 <= index < seen <= ranges.len()
    &&& ranges[index].is_float()
    &&& forall|j: int|
        0 <= j < index && (#[trigger] ranges[j]).is_float() ==> ranges[j].distance(target)
            > ranges[index].distance(target)
    &&& forall|j: int|
        index < j < seen && (#[trigger] ranges[j]).is_float() ==> ranges[j].distance(target)
            >= ranges[index].distance(target)
}

/// `index` is the entry of `ranges` that capture settles on for `target`.
pub open spec fn is_choice(ranges: Seq<SupportedRange>, target: u32, index: int) -> bool {
    is_choice_among(ranges, target, index, ranges.len() as int)
}

/// None of the first `seen` entries of `ranges` is captured as floating
/// point.
pub open spec fn no_float_among(ranges: Seq<SupportedRange>, seen: int) -> bool {
    forall|j: int| 0 <= j < seen && j < ranges.len() ==> !(#[trigger] ranges[j]).is_float()
}

/// No entry of `ranges` is captured as floating point.
pub open spec fn no_float(ranges: Seq<SupportedRange>) -> bool {
    no_float_among(ranges, ranges.len() as int)
}

/// Picks the floating-point entry nearest to `target`, the first of them
/// where several are equally near.
pub fn choose_range(ranges: &[SupportedRange], target: u32) -> (choice: Option<usize>)
    ensures
        match choice {
            Some(index) => is_choice(ranges@, target, index as int),
            None => no_float(ranges@),
        },
{
    let mut best: Option<usize> = None;
    let mut best_gap: u32 = 0;
    let mut i: usize = 0;
    while i < ranges.len()
        invariant
            i <= ranges.len(),
            match best {
                Some(index) => {
                    &&& is_choice_among(ranges@, target, index as int, i as int)
                    &&& best_gap == ranges[index as int].distance(target)
                },
                None => no_float_among(ranges@, i as int),
            },
        decreases ranges.len() - i,
    {
        let range = &ranges[i];
        if range.captures_float() {
            let gap = range.rate_distance(target);
            let closer = match best {
                Some(_) => gap < best_gap,
                None => true,
            };
            if closer {
                best = Some(i);
                best_gap = gap;
            }
        }
        i += 1;
    }
    best
}

/// What capture runs with once a format is settled: the rate and channel
/// count of the device's stream, the rate that captured audio is handed on
/// at, and whether the stream has to be thinned to reach it.
#[derive(Clone, Copy, Debug, PartialEq, Eq)]
pub struct CaptureConfig {
    pub sample_rate: u32,
    pub channels: u16,
    pub target_rate: u32,
    pub resample: bool,
}

impl CaptureConfig {
    /// The stream has a channel and a positive rate, the target is the
    /// hand-on rate, and `resample` says whether the two rates differ.
    pub open spec fn wf(self) -> bool {
        &&& self.channels >= 1
        &&& self.sample_rate >= 1
        &&& self.target_rate == SAMPLE_RATE
        &&& self.resample == rates_differ(self.sample_rate as int, self.target_rate as int)
    }

    /// The configuration that capturing from `range` gives.
    pub open spec fn of(range: SupportedRange) -> CaptureConfig {
        CaptureConfig {
            sample_rate: range.rate_for(SAMPLE_RATE),
            channels: range.channels,
            target_rate: SAMPLE_RATE,
            resample: rates_differ(range.rate_for(SAMPLE_RATE) as int, SAMPLE_RATE as int),
        }
    }

    /// Settles rate and channel count for a usable range, and decides once
    /// whether the stream will need thinning.
    pub fn for_range(range: &SupportedRange) -> (config: CaptureConfig)
        requires
            range.usable(),
        ensures
            config == CaptureConfig::of(*range),
            config.wf(),
            range.covers(config.sample_rate),
    {
        let sample_rate = range.capture_rate(SAMPLE_RATE);
        CaptureConfig {
            sample_rate,
            channels: range.channels,
            target_rate: SAMPLE_RATE,
            resample: needs_resample(sample_rate, SAMPLE_RATE),
        }
    }
}

/// Why no capture format could be settled.
#[derive(Clone, Copy, Debug, PartialEq, Eq)]
pub enum CaptureError {
    /// The device offers no floating-point format.
    NoSuitableConfig,
    /// The nearest format, at this position of the list, names no channel,
    /// an empty span of rates or no positive rate.
    UnusableConfig { index: usize },
}

impl CaptureError {
    /// What a log line says of the error.
    pub open spec fn message_text(self) -> Seq<char> {
        match self {
            CaptureError::NoSuitableConfig => "No suitable audio config"@,
            CaptureError::UnusableConfig { .. } => "Unusable audio config"@,
        }
    }

    /// Words the error for a log line.
    pub fn message(&self) -> (text: String)
        ensures
            text@ == self.message_text(),
    {
        match self {
            CaptureError::NoSuitableConfig => String::from_str("No suitable audio config"),
            CaptureError::UnusableConfig { .. } => String::from_str("Unusable audio config"),
        }
    }
}

/// A settled capture format: the position of the chosen range in the
/// device's list, and the configuration to capture with.
#[derive(Clone, Copy, Debug, PartialEq, Eq)]
pub struct Negotiated {
    pub index: usize,
    pub config: CaptureConfig,
}

/// Settles the capture format for a device that supports `ranges`, listed in
/// the device's order.
pub fn negotiate(ranges: &[SupportedRange]) -> (result: Result<Negotiated, CaptureError>)
    ensures
        match result {
            Ok(settled) => {
                &&& is_choice(ranges@, SAMPLE_RATE, settled.index as int)
                &&& ranges@[settled.index as int].usable()
                &&& settled.config == CaptureConfig::of(ranges@[settled.index as int])
                &&& settled.config.wf()
                &&& ranges@[settled.index as int].covers(settled.config.sample_rate)
            },
            Err(CaptureError::NoSuitableConfig) => no_float(ranges@),
            Err(CaptureError::UnusableConfig { index }) => {
                &&& is_choice(ranges@, SAMPLE_RATE, index as int)
                &&& !ranges@[index as int].usable()
            },
        },
{
    match choose_range(ranges, SAMPLE_RATE) {
        None => Err(CaptureError::NoSuitableConfig),
        Some(index) => {
            let range = &ranges[index];
            if range.is_usable() {
                Ok(Negotiated { index, config: CaptureConfig::for_range(range) })
            } else {
                Err(CaptureError::UnusableConfig { index })
            }
        },
    }
}

/// At most one entry is the choice.
pub proof fn lemma_choice_unique(ranges: Seq<SupportedRange>, target: u32, a: int, b: int)
    requires
        is_choice(ranges, target, a),
        is_choice(ranges, target, b),
    ensures
        a == b,
{
    if a < b {
        assert(ranges[a].is_float());
    } else if b < a {
        assert(ranges[b].is_float());
    }
}

/// A floating-point entry that covers the target wins outright: a usable
/// choice then covers the target too, is captured at the target rate, and
/// is not listed after that entry.
pub proof fn lemma_covering_range_wins(
    ranges: Seq<SupportedRange>,
    target: u32,
    index: int,
    covering: int,
)
    requires
        is_choice(ranges, target, index),
        ranges[index].usable(),
        0 <= covering < ranges.len(),
        ranges[covering].is_float(),
        ranges[covering].covers(target),
    ensures
        ranges[index].covers(target),
        ranges[index].rate_for(target) == target,
        index <= covering,
{
    assert(ranges[covering].distance(target) == 0);
}

} // verus!
