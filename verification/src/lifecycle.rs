//! The daemon's marker file, the place of its model, and the order of its
//! last steps.
//!
//! Nothing here touches the file system or the environment: the caller
//! reads the variables and the process id, and writes what it is given.

use vstd::prelude::*;
use vstd::string::StringExecFns;

verus! {

/// `name` placed under the directory `base`: one separator goes between the
/// two unless `base` is empty or already ends in one.
pub open spec fn joined(base: Seq<char>, name: Seq<char>) -> Seq<char> {
    if base.len() == 0 || base.last() == '/' {
        base + name
    } else {
        base + seq!['/'] + name
    }
}

/// Where the marker file lies: under the runtime directory, or under `/tmp`
/// where none is set.
pub open spec fn pid_path(runtime_dir: Option<Seq<char>>) -> Seq<char> {
    let base = match runtime_dir {
        Some(dir) => dir,
        None => "/tmp"@,
    };
    joined(base, "hammertalk.pid"@)
}

/// The data directory: the one that is set, else `.local/share` under the
/// home directory, else under the current directory.
pub open spec fn data_dir(data_home: Option<Seq<char>>, home: Option<Seq<char>>) -> Seq<char> {
    match data_home {
        Some(dir) => dir,
        None => joined(
            match home {
                Some(dir) => dir,
                None => "."@,
            },
            ".local/share"@,
        ),
    }
}

/// Where the speech model lies, under the data directory.
pub open spec fn model_path(data_home: Option<Seq<char>>, home: Option<Seq<char>>) -> Seq<char> {
    joined(data_dir(data_home, home), "hammertalk/models/moonshine-tiny"@)
}

/// The character of a decimal digit.
pub open spec fn digit(d: int) -> char {
    if d == 0 {
        '0'
    } else if d == 1 {
        '1'
    } else if d == 2 {
        '2'
    } else if d == 3 {
        '3'
    } else if d == 4 {
        '4'
    } else if d == 5 {
        '5'
    } else if d == 6 {
        '6'
    } else if d == 7 {
        '7'
    } else if d == 8 {
        '8'
    } else {
        '9'
    }
}

/// `n` written in decimal, without leading zeros.
pub open spec fn decimal(n: nat) -> Seq<char>
    decreases n,
{
    if n < 10 {
        seq![digit(n as int)]
    } else {
        decimal(n / 10).push(digit((n % 10) as int))
    }
}

/// The digit that a character stands for; a character that is no digit
/// stands for none below ten.
pub open spec fn digit_value(c: char) -> int {
    if c == '0' {
        0
    } else if c == '1' {
        1
    } else if c == '2' {
        2
    } else if c == '3' {
        3
    } else if c == '4' {
        4
    } else if c == '5' {
        5
    } else if c == '6' {
        6
    } else if c == '7' {
        7
    } else if c == '8' {
        8
    } else if c == '9' {
        9
    } else {
        10
    }
}

/// The number that a run of decimal digits stands for.
pub open spec fn decimal_value(digits: Seq<char>) -> int
    decreases digits.len(),
{
    if digits.len() == 0 {
        0
    } else {
        decimal_value(digits.drop_last()) * 10 + digit_value(digits.last())
    }
}

/// What the marker file holds: the process id in decimal on a line of its
/// own.
pub open spec fn marker_contents(pid: u32) -> Seq<char> {
    decimal(pid as nat).push('\n')
}

/// Why the daemon could not start.
#[derive(Clone, Copy, Debug, PartialEq, Eq)]
pub enum StartupFailure {
    MarkerWrite,
    EngineLoad,
    CaptureSetup,
    StreamStart,
}

/// Why the daemon ends.
#[derive(Clone, Copy, Debug, PartialEq, Eq)]
pub enum ExitCause {
    /// A terminating signal arrived.
    Terminated,
    /// Startup failed.
    Failed(StartupFailure),
}

/// One of the daemon's last steps.
#[derive(Clone, Copy, Debug, PartialEq, Eq)]
pub enum ExitStep {
    /// Stop the audio stream, so that its callback fires no more.
    StopStream,
    /// Remove the marker file; a failure to do so is only a warning.
    RemoveMarker,
    /// End the process with this status.
    Exit(i32),
}

/// The last steps, in order. A terminated daemon stops its stream before it
/// removes the marker and ends with status 0; every failed start takes the
/// same way out, removing the marker and ending with status 1.
pub open spec fn exit_sequence(cause: ExitCause) -> Seq<ExitStep> {
    match cause {
        ExitCause::Terminated => seq![
            ExitStep::StopStream,
            ExitStep::RemoveMarker,
            ExitStep::Exit(0),
        ],
        ExitCause::Failed(_) => seq![ExitStep::RemoveMarker, ExitStep::Exit(1)],
    }
}

/// Places `name` under `base`.
pub fn join_path(base: &str, name: &str) -> (path: String)
    ensures
        path@ == joined(base@, name@),
{
    let len = base.unicode_len();
    let mut path = String::from_str(base);
    if len > 0 && base.get_char(len - 1) != '/' {
        proof {
            reveal_strlit("/");
        }
        path.append("/");
        assert("/"@ =~= seq!['/']);
    }
    path.append(name);
    path
}

/// The path of the marker file, given the runtime directory if one is set.
pub fn get_pid_path(runtime_dir: Option<&str>) -> (path: String)
    ensures
        path@ == pid_path(
            match runtime_dir {
                Some(dir) => Some(dir@),
                None => None,
            },
        ),
{
    let base = match runtime_dir {
        Some(dir) => dir,
        None => "/tmp",
    };
    join_path(base, "hammertalk.pid")
}

/// The path of the speech model, given the data directory and the home
/// directory where they are set.
pub fn get_model_path(data_home: Option<&str>, home: Option<&str>) -> (path: String)
    ensures
        path@ == model_path(
            match data_home {
                Some(dir) => Some(dir@),
                None => None,
            },
            match home {
                Some(dir) => Some(dir@),
                None => None,
            },
        ),
{
    let base = match data_home {
        Some(dir) => String::from_str(dir),
        None => {
            let home = match home {
                Some(dir) => dir,
                None => ".",
            };
            join_path(home, ".local/share")
        },
    };
    join_path(base.as_str(), "hammertalk/models/moonshine-tiny")
}

fn digit_text(d: u32) -> (text: &'static str)
    requires
        d < 10,
    ensures
        text@ == seq![digit(d as int)],
{
    proof {
        reveal_strlit("0");
        reveal_strlit("1");
        reveal_strlit("2");
        reveal_strlit("3");
        reveal_strlit("4");
        reveal_strlit("5");
        reveal_strlit("6");
        reveal_strlit("7");
        reveal_strlit("8");
        reveal_strlit("9");
    }
    let text = if d == 0 {
        "0"
    } else if d == 1 {
        "1"
    } else if d == 2 {
        "2"
    } else if d == 3 {
        "3"
    } else if d == 4 {
        "4"
    } else if d == 5 {
        "5"
    } else if d == 6 {
        "6"
    } else if d == 7 {
        "7"
    } else if d == 8 {
        "8"
    } else {
        "9"
    };
    assert(text@ =~= seq![digit(d as int)]);
    text
}

/// Writes `n` in decimal.
pub fn decimal_text(n: u32) -> (text: String)
    ensures
        text@ == decimal(n as nat),
    decreases n,
{
    if n < 10 {
        String::from_str(digit_text(n))
    } else {
        let mut text = decimal_text(n / 10);
        text.append(digit_text(n % 10));
        text
    }
}

/// The contents of the marker file for process `pid`.
pub fn pid_file_contents(pid: u32) -> (contents: String)
    ensures
        contents@ == marker_contents(pid),
{
    let mut contents = decimal_text(pid);
    proof {
        reveal_strlit("\n");
    }
    contents.append("\n");
    assert("\n"@ =~= seq!['\n']);
    contents
}

/// The daemon's last steps for `cause`, in the order to take them.
pub fn exit_steps(cause: ExitCause) -> (steps: Vec<ExitStep>)
    ensures
        steps@ == exit_sequence(cause),
{
    let mut steps: Vec<ExitStep> = Vec::new();
    match cause {
        ExitCause::Terminated => {
            steps.push(ExitStep::StopStream);
            steps.push(ExitStep::RemoveMarker);
            steps.push(ExitStep::Exit(0));
        },
        ExitCause::Failed(_) => {
            steps.push(ExitStep::RemoveMarker);
            steps.push(ExitStep::Exit(1));
        },
    }
    assert(steps@ =~= exit_sequence(cause));
    steps
}

/// On every way out the marker is removed before the process ends, the
/// process ends last, and only a terminated daemon reports success.
pub proof fn lemma_exit_removes_marker(cause: ExitCause)
    ensures
        exists|i: int|
            0 <= i < exit_sequence(cause).len() - 1 && exit_sequence(cause)[i]
                == ExitStep::RemoveMarker,
        exit_sequence(cause).last() == ExitStep::Exit(
            if cause == ExitCause::Terminated {
                0i32
            } else {
                1i32
            },
        ),
        forall|i: int, j: int|
            0 <= i < exit_sequence(cause).len() && 0 <= j < exit_sequence(cause).len()
                && exit_sequence(cause)[i] == ExitStep::StopStream && exit_sequence(cause)[j]
                == ExitStep::RemoveMarker ==> i < j,
{
    match cause {
        ExitCause::Terminated => {
            assert(exit_sequence(cause)[1] == ExitStep::RemoveMarker);
        },
        ExitCause::Failed(_) => {
            assert(exit_sequence(cause)[0] == ExitStep::RemoveMarker);
        },
    }
}

/// A number's decimal form is made of digits only, at least one of them,
/// and reads back as the number.
pub proof fn lemma_decimal_reads_back(n: nat)
    ensures
        decimal(n).len() >= 1,
        forall|i: int| 0 <= i < decimal(n).len() ==> 0 <= digit_value(#[trigger] decimal(n)[i]) <= 9,
        decimal_value(decimal(n)) == n,
    decreases n,
{
    if n < 10 {
        assert(decimal(n).drop_last() =~= Seq::<char>::empty());
        assert(decimal_value(decimal(n).drop_last()) == 0);
    } else {
        lemma_decimal_reads_back(n / 10);
        assert(decimal(n).drop_last() =~= decimal(n / 10));
        assert(decimal(n).last() == digit((n % 10) as int));
    }
}

/// The marker file holds one line: the process id, read back by
/// `decimal_value`, and the line's end as its last character and nowhere
/// else.
pub proof fn lemma_marker_is_one_line(pid: u32)
    ensures
        marker_contents(pid).last() == '\n',
        forall|i: int|
            0 <= i < marker_contents(pid).len() - 1 ==> #[trigger] marker_contents(pid)[i] != '\n',
        decimal_value(marker_contents(pid).drop_last()) == pid,
{
    lemma_decimal_reads_back(pid as nat);
    assert(marker_contents(pid).drop_last() =~= decimal(pid as nat));
    assert forall|i: int| 0 <= i < marker_contents(pid).len() - 1 implies #[trigger] marker_contents(
        pid,
    )[i] != '\n' by {
        assert(marker_contents(pid)[i] == decimal(pid as nat)[i]);
        assert(0 <= digit_value(decimal(pid as nat)[i]) <= 9);
    }
}

} // verus!
