use crate::text::{chars_of, push_all, push_str, string_of, trim, trimmed};
use vstd::prelude::*;

verus! {

/// Why a command could not be run. The text is that of the failure.
#[derive(Debug)]
pub enum ExecutorError {
    ExecutionError(String),
}

impl ExecutorError {
    /// The error in words.
    pub open spec fn spec_message(self) -> Seq<char> {
        match self {
            ExecutorError::ExecutionError(cause) => "Failed to execute command: "@ + cause@,
        }
    }

    /// The error in words.
    pub fn message(&self) -> (r: String)
        ensures
            r@ == self.spec_message(),
    {
        match self {
            ExecutorError::ExecutionError(cause) => {
                let mut out = chars_of("Failed to execute command: ");
                push_str(&mut out, cause.as_str());
                string_of(&out)
            },
        }
    }
}

/// How a command ended and what it wrote.
pub struct ExecutionResult {
    pub exit_code: i32,
    pub stdout: String,
    pub stderr: String,
    pub combined_output: String,
}

/// What a command wrote, as one text: the standard output, and behind it,
/// after a line feed, the standard error where there is any.
pub open spec fn combined_of(stdout: Seq<char>, stderr: Seq<char>) -> Seq<char> {
    if stderr.len() == 0 {
        stdout
    } else {
        stdout + seq!['\n'] + stderr
    }
}

/// Whether a command line holds nothing but white space.
pub open spec fn is_blank(command: Seq<char>) -> bool {
    trim(command).len() == 0
}

impl ExecutionResult {
    /// The result of a run that ended with `code` (`None` where it ended
    /// without an exit code, which is recorded as -1) and wrote `stdout` and
    /// `stderr`.
    pub fn from_output(code: Option<i32>, stdout: String, stderr: String) -> (r: Self)
        ensures
            r.exit_code == (match code {
                Some(c) => c,
                None => -1i32,
            }),
            r.stdout@ == stdout@,
            r.stderr@ == stderr@,
            r.combined_output@ == combined_of(stdout@, stderr@),
    {
        let out = chars_of(stdout.as_str());
        let err = chars_of(stderr.as_str());
        let combined_output = if err.len() == 0 {
            string_of(&out)
        } else {
            let mut both = chars_of(stdout.as_str());
            both.push('\n');
            push_all(&mut both, &err);
            string_of(&both)
        };
        ExecutionResult {
            exit_code: match code {
                Some(c) => c,
                None => -1,
            },
            stdout,
            stderr,
            combined_output,
        }
    }

    /// Whether the command ended with exit code 0.
    pub fn is_success(&self) -> (b: bool)
        ensures
            b == (self.exit_code == 0),
    {
        self.exit_code == 0
    }
}

/// Whether `command_str` may be run: a command line that holds nothing but
/// white space is refused, before anything is started.
pub fn check_command_string(command_str: &str) -> (r: Result<(), ExecutorError>)
    ensures
        r is Err <==> is_blank(command_str@),
        r matches Err(e) ==> e.spec_message() == "Failed to execute command: "@
            + "Empty command"@,
{
    let v = chars_of(command_str);
    if trimmed(&v).len() == 0 {
        Err(ExecutorError::ExecutionError("Empty command".to_string()))
    } else {
        Ok(())
    }
}

} // verus!
