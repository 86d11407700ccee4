//! The recording state machine: what each control signal does in each state.
//!
//! The machine decides; it performs nothing. The control loop feeds it one
//! signal at a time and carries out the action it names before it reads the
//! next signal.

use vstd::prelude::*;

verus! {

/// How long, in milliseconds, the control loop waits after a stop before it
/// reads the buffer, so that a callback already running can finish.
pub const DRAIN_INTERVAL_MS: u64 = 50;

/// Whether audio is being captured.
#[derive(Clone, Copy, Debug, PartialEq, Eq)]
pub enum RecordingState {
    Idle,
    Recording,
}

/// What a delivered signal asks for.
#[derive(Clone, Copy, Debug, PartialEq, Eq)]
pub enum Signal {
    Start,
    Stop,
    Terminate,
    /// A signal the daemon has no use for.
    Other,
}

/// What the control loop does in answer to a signal.
#[derive(Clone, Copy, Debug, PartialEq, Eq)]
pub enum Action {
    /// Nothing.
    Ignore,
    /// Clear the buffer, then raise the recording flag.
    BeginRecording,
    /// Lower the recording flag, wait the drain interval, copy the buffer
    /// out and hand the copy on.
    FinishRecording,
    /// Leave the control loop.
    Shutdown,
}

/// The state after a signal, and the action that goes with it.
#[derive(Clone, Copy, Debug, PartialEq, Eq)]
pub struct Transition {
    pub next: RecordingState,
    pub action: Action,
}

/// The numbers under which the platform delivers the four signals that the
/// daemon listens to.
#[derive(Clone, Copy, Debug, PartialEq, Eq)]
pub struct SignalNumbers {
    pub start: i32,
    pub stop: i32,
    pub terminate: i32,
    pub interrupt: i32,
}

/// A number that the first user signal has on some platform.
pub open spec fn is_first_user_number(number: i32) -> bool {
    number == 10 || number == 16 || number == 18 || number == 25 || number == 30
}

/// A number that the second user signal has on some platform.
pub open spec fn is_second_user_number(number: i32) -> bool {
    number == 12 || number == 17 || number == 19 || number == 26 || number == 31
}

impl SignalNumbers {
    /// No two of the four numbers are the same.
    pub open spec fn distinct(self) -> bool {
        &&& self.start != self.stop
        &&& self.start != self.terminate
        &&& self.start != self.interrupt
        &&& self.stop != self.terminate
        &&& self.stop != self.interrupt
        &&& self.terminate != self.interrupt
    }
}

/// The transition table.
pub open spec fn transition(state: RecordingState, signal: Signal) -> Transition {
    match (state, signal) {
        (RecordingState::Idle, Signal::Start) => Transition {
            next: RecordingState::Recording,
            action: Action::BeginRecording,
        },
        (RecordingState::Recording, Signal::Stop) => Transition {
            next: RecordingState::Idle,
            action: Action::FinishRecording,
        },
        (_, Signal::Terminate) => Transition { next: state, action: Action::Shutdown },
        _ => Transition { next: state, action: Action::Ignore },
    }
}

/// What a raw signal number means under `numbers`. Where two of the numbers
/// coincide, start goes before stop and stop before termination.
pub open spec fn meaning(raw: i32, numbers: SignalNumbers) -> Signal {
    if raw == numbers.start {
        Signal::Start
    } else if raw == numbers.stop {
        Signal::Stop
    } else if raw == numbers.terminate || raw == numbers.interrupt {
        Signal::Terminate
    } else {
        Signal::Other
    }
}

impl RecordingState {
    /// The audio callback appends only while this holds; otherwise it
    /// returns at once.
    pub fn accepts_audio(self) -> (accepts: bool)
        ensures
            accepts == (self == RecordingState::Recording),
    {
        match self {
            RecordingState::Recording => true,
            RecordingState::Idle => false,
        }
    }
}

/// Answers one signal.
pub fn step(state: RecordingState, signal: Signal) -> (taken: Transition)
    ensures
        taken == transition(state, signal),
{
    match signal {
        Signal::Start => match state {
            RecordingState::Idle => Transition {
                next: RecordingState::Recording,
                action: Action::BeginRecording,
            },
            RecordingState::Recording => Transition { next: state, action: Action::Ignore },
        },
        Signal::Stop => match state {
            RecordingState::Recording => Transition {
                next: RecordingState::Idle,
                action: Action::FinishRecording,
            },
            RecordingState::Idle => Transition { next: state, action: Action::Ignore },
        },
        Signal::Terminate => Transition { next: state, action: Action::Shutdown },
        Signal::Other => Transition { next: state, action: Action::Ignore },
    }
}

/// Reads a raw signal number against the given numbers.
pub fn classify_with(raw: i32, numbers: &SignalNumbers) -> (signal: Signal)
    ensures
        signal == meaning(raw, *numbers),
{
    if raw == numbers.start {
        Signal::Start
    } else if raw == numbers.stop {
        Signal::Stop
    } else if raw == numbers.terminate || raw == numbers.interrupt {
        Signal::Terminate
    } else {
        Signal::Other
    }
}

/// `signal_hook::consts::SIGUSR1`, which is `libc::SIGUSR1`: the number of
/// the first user signal. It differs between platforms; libc gives it as 10,
/// 16, 18, 25 or 30.
#[verifier::external_body]
fn sigusr1() -> (number: i32)
    ensures
        is_first_user_number(number),
{
    signal_hook::consts::SIGUSR1
}

/// `signal_hook::consts::SIGUSR2`, which is `libc::SIGUSR2`: the number of
/// the second user signal. It differs between platforms; libc gives it as
/// 12, 17, 19, 26 or 31.
#[verifier::external_body]
fn sigusr2() -> (number: i32)
    ensures
        is_second_user_number(number),
{
    signal_hook::consts::SIGUSR2
}

/// `signal_hook::consts::SIGTERM`, which is `libc::SIGTERM`: the number of
/// the termination request, 15 on every platform that libc knows.
#[verifier::external_body]
fn sigterm() -> (number: i32)
    ensures
        number == 15,
{
    signal_hook::consts::SIGTERM
}

/// `signal_hook::consts::SIGINT`, which is `libc::SIGINT`: the number of the
/// keyboard interrupt, 2 on every platform that libc knows.
#[verifier::external_body]
fn sigint() -> (number: i32)
    ensures
        number == 2,
{
    signal_hook::consts::SIGINT
}

/// The numbers of the signals that the daemon listens to on this platform:
/// the first user signal starts, the second stops, the termination request
/// and the keyboard interrupt terminate. Which numbers the two user signals
/// have is known only when the program runs, but on every platform the four
/// numbers differ, so that `classify_with` reads each of them as the signal
/// it is listened to for.
pub fn signal_numbers() -> (numbers: SignalNumbers)
    ensures
        is_first_user_number(numbers.start),
        is_second_user_number(numbers.stop),
        numbers.terminate == 15,
        numbers.interrupt == 2,
        numbers.distinct(),
        meaning(numbers.start, numbers) == Signal::Start,
        meaning(numbers.stop, numbers) == Signal::Stop,
        meaning(numbers.terminate, numbers) == Signal::Terminate,
        meaning(numbers.interrupt, numbers) == Signal::Terminate,
{
    SignalNumbers { start: sigusr1(), stop: sigusr2(), terminate: sigterm(), interrupt: sigint() }
}

/// The state changes exactly on a start while idle and on a stop while
/// recording; every other signal leaves it as it was.
pub proof fn lemma_state_changes(state: RecordingState, signal: Signal)
    ensures
        transition(state, signal).next != state <==> (state == RecordingState::Idle && signal
            == Signal::Start) || (state == RecordingState::Recording && signal == Signal::Stop),
        transition(state, signal).action == Action::BeginRecording <==> state
            == RecordingState::Idle && signal == Signal::Start,
        transition(state, signal).action == Action::FinishRecording <==> state
            == RecordingState::Recording && signal == Signal::Stop,
        transition(state, signal).action == Action::Shutdown <==> signal == Signal::Terminate,
{
}

/// Where the four numbers differ, each of them is read as the signal it
/// stands for, and every other number as none of them.
pub proof fn lemma_distinct_numbers_classified(raw: i32, numbers: SignalNumbers)
    requires
        numbers.distinct(),
    ensures
        meaning(raw, numbers) == Signal::Start <==> raw == numbers.start,
        meaning(raw, numbers) == Signal::Stop <==> raw == numbers.stop,
        meaning(raw, numbers) == Signal::Terminate <==> raw == numbers.terminate || raw
            == numbers.interrupt,
{
}

} // verus!
