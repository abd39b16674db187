//! What the run of one script in the interpreter amounts to: its output as text,
//! or the failure that ends the render.

use vstd::prelude::*;
use vstd::slice::slice_subrange;
use vstd::string::StringExecFns;
use vstd::utf8::{decode_utf8, valid_utf8};

verus! {

/// One of the two streams that the interpreter writes to.
#[derive(Debug, PartialEq, Eq, Clone, Copy, Structural)]
pub enum Stream {
    Output,
    Error,
}

/// What is wrong with the settings of a render, found before any work is done.
#[derive(Debug, PartialEq, Eq, Clone, Copy, Structural)]
pub enum ConfigurationError {
    /// The shell specification names no program.
    EmptyShell,
    /// The begin or the end delimiter is the empty string.
    EmptyDelimiter,
}

/// Why a render was given up. Each of these is final: nothing is rendered past it.
#[derive(Debug, PartialEq, Eq)]
pub enum ExecutionError {
    Configuration(ConfigurationError),
    /// The interpreter could not be started.
    SpawnFailure { shell_name: String, os_error: String },
    /// The interpreter ran the script and did not exit with status zero.
    /// `exit_code` is `None` where the process ended without one (by a signal).
    NonZeroExit { script: String, shell_name: String, exit_code: Option<i32>, stderr: String },
    /// What the interpreter wrote to `stream` is not UTF-8.
    InvalidEncoding { stream: Stream },
}

/// An [`ExecutionError`] with its texts as sequences of characters.
pub enum Failure {
    Configuration(ConfigurationError),
    SpawnFailure { shell_name: Seq<char>, os_error: Seq<char> },
    NonZeroExit { script: Seq<char>, shell_name: Seq<char>, exit_code: Option<i32>, stderr: Seq<char> },
    InvalidEncoding { stream: Stream },
}

impl View for ExecutionError {
    type V = Failure;

    open spec fn view(&self) -> Failure {
        match *self {
            ExecutionError::Configuration(c) => Failure::Configuration(c),
            ExecutionError::SpawnFailure { shell_name, os_error } => Failure::SpawnFailure {
                shell_name: shell_name@,
                os_error: os_error@,
            },
            ExecutionError::NonZeroExit { script, shell_name, exit_code, stderr } => Failure::NonZeroExit {
                script: script@,
                shell_name: shell_name@,
                exit_code,
                stderr: stderr@,
            },
            ExecutionError::InvalidEncoding { stream } => Failure::InvalidEncoding { stream },
        }
    }
}

/// What came of running one script: the caller spawns the interpreter, feeds it
/// the script, waits for it, and reports here what it saw.
#[derive(Debug, PartialEq, Eq)]
pub enum ProcessOutcome {
    /// The interpreter could not be started; `os_error` is the system's reason.
    NotSpawned { os_error: String },
    /// The interpreter ran and ended. `exit_code` is `None` where the process
    /// ended without one.
    Exited { exit_code: Option<i32>, stdout: Vec<u8>, stderr: Vec<u8> },
}

/// The result of a script, given what its run came to: the decoded output of a
/// run that exited with status zero, and else the failure.
pub open spec fn verdict(script: Seq<char>, shell_name: Seq<char>, outcome: ProcessOutcome) -> Result<
    Seq<char>,
    Failure,
> {
    match outcome {
        ProcessOutcome::NotSpawned { os_error } => Err(
            Failure::SpawnFailure { shell_name, os_error: os_error@ },
        ),
        ProcessOutcome::Exited { exit_code, stdout, stderr } => if exit_code != Some(0i32) {
            if valid_utf8(stderr@) {
                Err(
                    Failure::NonZeroExit {
                        script,
                        shell_name,
                        exit_code,
                        stderr: decode_utf8(stderr@),
                    },
                )
            } else {
                Err(Failure::InvalidEncoding { stream: Stream::Error })
            }
        } else if valid_utf8(stdout@) {
            Ok(decode_utf8(stdout@))
        } else {
            Err(Failure::InvalidEncoding { stream: Stream::Output })
        },
    }
}

/// `std::string::FromUtf8Error`, the error of `String::from_utf8`. Nothing is
/// said of what it holds.
#[verifier::external_type_specification]
#[verifier::external_body]
pub struct ExFromUtf8Error(std::string::FromUtf8Error);

/// `String::from_utf8`: the bytes as a string where they are valid UTF-8, the
/// string's characters being those that the bytes encode; an error where they
/// are not.
#[verifier::external_body]
fn from_utf8(bytes: Vec<u8>) -> (r: Result<String, std::string::FromUtf8Error>)
    ensures
        match r {
            Ok(s) => valid_utf8(bytes@) && s@ == decode_utf8(bytes@),
            Err(_) => !valid_utf8(bytes@),
        },
{
    String::from_utf8(bytes)
}

/// Judges the run of `script` in the interpreter `shell_name`.
pub(crate) fn conclude(script: &str, shell_name: &str, outcome: ProcessOutcome) -> (r: Result<
    String,
    ExecutionError,
>)
    ensures
        match verdict(script@, shell_name@, outcome) {
            Ok(text) => r matches Ok(s) && s@ == text,
            Err(failure) => r matches Err(e) && e@ == failure,
        },
{
    match outcome {
        ProcessOutcome::NotSpawned { os_error } => Err(
            ExecutionError::SpawnFailure { shell_name: shell_name.to_owned(), os_error },
        ),
        ProcessOutcome::Exited { exit_code, stdout, stderr } => {
            let success = match exit_code {
                Some(code) => code == 0,
                None => false,
            };
            if !success {
                match from_utf8(stderr) {
                    Ok(text) => Err(
                        ExecutionError::NonZeroExit {
                            script: script.to_owned(),
                            shell_name: shell_name.to_owned(),
                            exit_code,
                            stderr: text,
                        },
                    ),
                    Err(_) => Err(ExecutionError::InvalidEncoding { stream: Stream::Error }),
                }
            } else {
                match from_utf8(stdout) {
                    Ok(text) => Ok(text),
                    Err(_) => Err(ExecutionError::InvalidEncoding { stream: Stream::Output }),
                }
            }
        },
    }
}

/// Judges the run of `text` as a script in `shell`, given what came of it: the
/// text that the script printed, or the failure. A shell specification that
/// names no program is refused whatever the outcome says.
pub fn execute(text: &str, shell: &[&str], outcome: ProcessOutcome) -> (r: Result<
    String,
    ExecutionError,
>)
    ensures
        shell@.len() == 0 ==> (r matches Err(e) && e@ == Failure::Configuration(
            ConfigurationError::EmptyShell,
        )),
        shell@.len() > 0 ==> match verdict(text@, shell@[0]@, outcome) {
            Ok(output) => r matches Ok(s) && s@ == output,
            Err(failure) => r matches Err(e) && e@ == failure,
        },
{
    match interpreter(shell) {
        Ok((program, _)) => conclude(text, program, outcome),
        Err(e) => Err(ExecutionError::Configuration(e)),
    }
}

/// Splits a shell specification into the program that it names and the
/// arguments that the program is started with. An empty one names no program.
pub fn interpreter<'s, 'd>(shell: &'s [&'d str]) -> (r: Result<
    (&'d str, &'s [&'d str]),
    ConfigurationError,
>)
    ensures
        match r {
            Ok((program, arguments)) => shell@.len() > 0 && program == shell@[0] && arguments@
                == shell@.skip(1),
            Err(e) => shell@.len() == 0 && e == ConfigurationError::EmptyShell,
        },
{
    if shell.len() == 0 {
        Err(ConfigurationError::EmptyShell)
    } else {
        Ok((shell[0], slice_subrange(shell, 1, shell.len())))
    }
}

/// The decimal digit that stands for `d`.
pub open spec fn digit(d: nat) -> char
    recommends
        d < 10,
{
    if d == 0 {
        '0'
    } else if d == 1 {
        '1'
    } else if d == 2 {
        '2'
    } else if d == 3 {
        '3'
    } else if d == 4 {
        '4'
    } else if d == 5 {
        '5'
    } else if d == 6 {
        '6'
    } else if d == 7 {
        '7'
    } else if d == 8 {
        '8'
    } else {
        '9'
    }
}

/// `n` in decimal digits, without leading zeros.
pub open spec fn digits(n: nat) -> Seq<char>
    decreases n,
{
    if n < 10 {
        seq![digit(n)]
    } else {
        digits(n / 10).push(digit(n % 10))
    }
}

/// `code` in decimal, with a minus sign where it is negative.
pub open spec fn decimal(code: int) -> Seq<char> {
    if code < 0 {
        seq!['-'] + digits((-code) as nat)
    } else {
        digits(code as nat)
    }
}

/// How a report names the way in which the interpreter ended.
pub open spec fn status(exit_code: Option<i32>) -> Seq<char> {
    match exit_code {
        Some(code) => decimal(code as int),
        None => "none"@,
    }
}

/// The report of a failure. That of a script which failed holds the script, the
/// name of the interpreter, the exit code and what the interpreter wrote to its
/// error stream.
pub open spec fn report(failure: Failure) -> Seq<char> {
    match failure {
        Failure::Configuration(ConfigurationError::EmptyShell) => "must specify a shell"@,
        Failure::Configuration(ConfigurationError::EmptyDelimiter) => "must specify delimiters that are not empty"@,
        Failure::SpawnFailure { shell_name, os_error } => "failed to spawn process in shell "@
            + shell_name + ": "@ + os_error,
        Failure::NonZeroExit { script, shell_name, exit_code, stderr } => "error executing command `"@
            + script + "` in shell "@ + shell_name + ".\nProcess terminated with exit code "@
            + status(exit_code) + ".\nProgram output:\n"@ + stderr,
        Failure::InvalidEncoding { stream: Stream::Output } => "program output was not valid utf-8"@,
        Failure::InvalidEncoding { stream: Stream::Error } => "program error output was not valid utf-8"@,
    }
}

fn digit_text(d: u64) -> (r: &'static str)
    requires
        d < 10,
    ensures
        r@ == seq![digit(d as nat)],
{
    proof {
        reveal_strlit("0");
        reveal_strlit("1");
        reveal_strlit("2");
        reveal_strlit("3");
        reveal_strlit("4");
        reveal_strlit("5");
        reveal_strlit("6");
        reveal_strlit("7");
        reveal_strlit("8");
        reveal_strlit("9");
    }
    if d == 0 {
        "0"
    } else if d == 1 {
        "1"
    } else if d == 2 {
        "2"
    } else if d == 3 {
        "3"
    } else if d == 4 {
        "4"
    } else if d == 5 {
        "5"
    } else if d == 6 {
        "6"
    } else if d == 7 {
        "7"
    } else if d == 8 {
        "8"
    } else {
        "9"
    }
}

fn append_digits(text: &mut String, n: u64)
    ensures
        final(text)@ == old(text)@ + digits(n as nat),
    decreases n,
{
    if n >= 10 {
        append_digits(text, n / 10);
    }
    text.append(digit_text(n % 10));
}

fn append_status(text: &mut String, exit_code: Option<i32>)
    ensures
        final(text)@ == old(text)@ + status(exit_code),
{
    match exit_code {
        Some(code) => {
            if code < 0 {
                proof {
                    reveal_strlit("-");
                }
                text.append("-");
                let positive: u64 = (-(code as i64)) as u64;
                append_digits(text, positive);
            } else {
                append_digits(text, code as u64);
            }
        },
        None => {
            text.append("none");
        },
    }
}

impl ExecutionError {
    /// The report of this failure, to be shown where errors are shown.
    pub fn message(&self) -> (r: String)
        ensures
            r@ == report(self@),
    {
        let mut text = String::new();
        match self {
            ExecutionError::Configuration(ConfigurationError::EmptyShell) => {
                text.append("must specify a shell");
            },
            ExecutionError::Configuration(ConfigurationError::EmptyDelimiter) => {
                text.append("must specify delimiters that are not empty");
            },
            ExecutionError::SpawnFailure { shell_name, os_error } => {
                text.append("failed to spawn process in shell ");
                text.append(shell_name.as_str());
                text.append(": ");
                text.append(os_error.as_str());
            },
            ExecutionError::NonZeroExit { script, shell_name, exit_code, stderr } => {
                text.append("error executing command `");
                text.append(script.as_str());
                text.append("` in shell ");
                text.append(shell_name.as_str());
                text.append(".\nProcess terminated with exit code ");
                append_status(&mut text, *exit_code);
                text.append(".\nProgram output:\n");
                text.append(stderr.as_str());
            },
            ExecutionError::InvalidEncoding { stream: Stream::Output } => {
                text.append("program output was not valid utf-8");
            },
            ExecutionError::InvalidEncoding { stream: Stream::Error } => {
                text.append("program error output was not valid utf-8");
            },
        }
        text
    }
}

} // verus!
