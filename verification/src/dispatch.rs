//! What a stop does with the audio it finds: whether the engine is asked at
//! all, and what becomes of its answer.

use vstd::prelude::*;
use crate::text::{injectable_text, is_blank, trimmed};

verus! {

/// How a stop ended.
#[derive(Debug, PartialEq, Eq)]
pub enum StopOutcome<E> {
    /// Nothing was captured; the engine was not asked.
    NoAudio,
    /// The engine gave text worth typing: the trimmed transcription.
    Inject(String),
    /// The engine gave no text, or only white space.
    EmptyText,
    /// The engine failed.
    Failed(E),
}

/// The outcome that goes with the engine's answer `answer`.
pub open spec fn answers<E>(answer: Result<String, E>, outcome: StopOutcome<E>) -> bool {
    match answer {
        Ok(raw) => if is_blank(raw@) {
            outcome == StopOutcome::<E>::EmptyText
        } else {
            outcome matches StopOutcome::Inject(words) && words@ == trimmed(raw@)
        },
        Err(error) => outcome == StopOutcome::Failed(error),
    }
}

/// Whether a snapshot of `sample_count` samples is handed to the engine:
/// only if it holds any.
pub fn should_transcribe(sample_count: usize) -> (dispatch: bool)
    ensures
        dispatch == (sample_count > 0),
{
    sample_count > 0
}

/// Turns the engine's answer into the outcome of the stop.
pub fn outcome_of<E>(answer: Result<String, E>) -> (outcome: StopOutcome<E>)
    ensures
        answers(answer, outcome),
{
    match answer {
        Ok(raw) => match injectable_text(raw.as_str()) {
            Some(words) => StopOutcome::Inject(words),
            None => StopOutcome::EmptyText,
        },
        Err(error) => StopOutcome::Failed(error),
    }
}

/// Carries a stop through once the buffer has been copied out: an empty
/// snapshot ends it there, any other is handed to `transcribe` and the
/// answer decides.
pub fn finish_recording<T, E, X: FnOnce(Vec<T>) -> Result<String, E>>(
    snapshot: Vec<T>,
    transcribe: X,
) -> (outcome: StopOutcome<E>)
    requires
        snapshot@.len() > 0 ==> call_requires(transcribe, (snapshot,)),
    ensures
        snapshot@.len() == 0 <==> outcome == StopOutcome::<E>::NoAudio,
        snapshot@.len() > 0 ==> exists|answer: Result<String, E>|
            call_ensures(transcribe, (snapshot,), answer) && answers(answer, outcome),
{
    if !should_transcribe(snapshot.len()) {
        return StopOutcome::NoAudio;
    }
    let answer = transcribe(snapshot);
    let outcome = outcome_of(answer);
    outcome
}

} // verus!
