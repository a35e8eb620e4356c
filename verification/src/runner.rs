//! The parts of a test run that compute: the printable form of a command,
//! the text handed to an adapter's parser, and the suite's duration.

use std::time::Duration;
use vstd::prelude::*;
use crate::adapters::TestCommand;
use crate::results::{SuiteView, TestSuite};
use crate::text::{join, join_strings, push_str, string_views};

verus! {

/// Output from a test run, before adapter-specific parsing.
#[derive(Debug, Clone)]
pub struct RawOutput {
    /// Combined stdout.
    pub stdout: String,
    /// Combined stderr.
    pub stderr: String,
    /// Process exit code.
    pub exit_code: Option<i32>,
    /// Wall-clock duration of the run.
    pub duration: Duration,
}

impl RawOutput {
    /// The text an adapter parses: stdout, a newline, stderr (some
    /// frameworks print their results to stderr).
    pub fn combined(&self) -> (r: String)
        ensures
            r@ == self.stdout@ + "\n"@ + self.stderr@,
    {
        let mut s = self.stdout.clone();
        push_str(&mut s, "\n");
        push_str(&mut s, self.stderr.as_str());
        s
    }

    /// The suite with the run's wall-clock time as its duration when the
    /// adapter found none in the output.
    pub fn fill_duration(&self, suite: TestSuite) -> (r: TestSuite)
        ensures
            r@ == (SuiteView {
                duration: match suite@.duration {
                    Some(d) => Some(d),
                    None => Some(self.duration),
                },
                ..suite@
            }),
    {
        let mut s = suite;
        if s.duration.is_none() {
            s.duration = Some(self.duration);
        }
        s
    }
}

/// The printable form of a command: the program and its arguments joined by
/// spaces.
pub open spec fn command_text(program: Seq<char>, args: Seq<Seq<char>>) -> Seq<char> {
    join(seq![program] + args, " "@)
}

/// Format a [`TestCommand`] as a shell-printable string (for debugging/display).
pub fn format_command(cmd: &TestCommand) -> (r: String)
    ensures
        r@ == command_text(cmd@.program, cmd@.args),
{
    let mut parts: Vec<String> = Vec::new();
    parts.push(cmd.program.clone());
    let mut i: usize = 0;
    assert(string_views(parts@) =~= seq![cmd@.program] + cmd@.args.take(0));
    while i < cmd.args.len()
        invariant
            i <= cmd@.args.len(),
            cmd@.args.len() == cmd.args@.len(),
            string_views(parts@) == seq![cmd@.program] + cmd@.args.take(i as int),
        decreases cmd.args@.len() - i,
    {
        let ghost before = string_views(parts@);
        assert(cmd@.args[i as int] == cmd.args@[i as int]@);
        parts.push(cmd.args[i].clone());
        assert(string_views(parts@) =~= before.push(cmd@.args[i as int]));
        assert(string_views(parts@) =~= seq![cmd@.program] + cmd@.args.take(i + 1));
        i = i + 1;
    }
    assert(cmd@.args.take(cmd@.args.len() as int) =~= cmd@.args);
    join_strings(&parts, " ")
}

} // verus!
