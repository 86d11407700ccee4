//! Verified core of a push-to-talk dictation daemon: sample conversion,
//! capture-format negotiation, the per-callback capture rule, the recording
//! state machine and what a stop does with the audio it finds.
//!
//! Samples pass through this library untouched, so it is generic in their
//! type; the one computation on sample values, the mixing of a frame's
//! channels, is a function that the caller supplies.

mod arith;
pub mod buffer;
pub mod convert;
pub mod dispatch;
pub mod downmix;
pub mod lifecycle;
pub mod machine;
pub mod negotiate;
pub mod text;

pub use buffer::SampleBuffer;
pub use convert::{needs_resample, resample, try_resample, SAMPLE_RATE};
pub use dispatch::{finish_recording, outcome_of, should_transcribe, StopOutcome};
pub use downmix::{downmix, to_mono};
pub use lifecycle::{exit_steps, get_model_path, get_pid_path, pid_file_contents};
pub use machine::{
    classify_with, signal_numbers, step, Action, RecordingState, Signal, Transition,
};
pub use negotiate::{negotiate, CaptureConfig, CaptureError, SampleFormat, SupportedRange};
pub use text::{injectable_text, typing_command};
