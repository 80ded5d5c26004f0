//! External commands: what running one gives back.
use vstd::prelude::*;

verus! {

/// The captured result of running a command.
#[derive(Debug, PartialEq, Eq)]
pub struct CommandOutput {
    /// Exit code, or `None` if the process was killed by a signal.
    pub code: Option<i32>,
    /// Captured standard output.
    pub stdout: String,
    /// Captured standard error.
    pub stderr: String,
}

/// A [`CommandOutput`] with its texts as sequences of characters.
pub struct CommandOutputView {
    /// Exit code, or `None` if the process was killed by a signal.
    pub code: Option<i32>,
    /// Captured standard output.
    pub stdout: Seq<char>,
    /// Captured standard error.
    pub stderr: Seq<char>,
}

impl DeepView for CommandOutput {
    type V = CommandOutputView;

    open spec fn deep_view(&self) -> CommandOutputView {
        CommandOutputView { code: self.code, stdout: self.stdout@, stderr: self.stderr@ }
    }
}

impl CommandOutputView {
    /// Whether the command exited with code `0`.
    pub open spec fn success(self) -> bool {
        self.code == Some(0i32)
    }
}

impl CommandOutput {
    /// Whether the command exited with code `0`.
    pub fn success(&self) -> (r: bool)
        ensures
            r == self.deep_view().success(),
    {
        match self.code {
            Some(code) => code == 0,
            None => false,
        }
    }
}

impl Clone for CommandOutput {
    fn clone(&self) -> (r: Self)
        ensures
            r.deep_view() == self.deep_view(),
    {
        CommandOutput {
            code: self.code,
            stdout: self.stdout.clone(),
            stderr: self.stderr.clone(),
        }
    }
}

/// Launches an external program.
pub trait CommandRunner {
    /// Run `program` with `args`, waiting for it to finish.
    ///
    /// Returns `Err` (what the operating system said) only when the process
    /// could not be launched; a program that runs and exits non-zero is still
    /// `Ok` with a non-zero [`CommandOutput::code`].
    fn run(&self, program: &str, args: &Vec<String>) -> Result<CommandOutput, String>;

    /// Run `program` with `args` with stdio inherited from this process, so
    /// its output streams directly to the user (used by `vpn exec`).
    ///
    /// Returns the exit code, or `None` if the process was killed by a signal.
    /// `Err` only when the process could not be launched.
    fn run_passthrough(&self, program: &str, args: &Vec<String>) -> Result<Option<i32>, String>;
}

} // verus!
