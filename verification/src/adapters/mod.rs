//! Test framework adapters.
//!
//! Each adapter knows how to:
//! - Detect whether it applies to a given file type
//! - Find test functions in source code
//! - Build a shell command to run tests
//! - Parse the output into [`TestResult`](crate::results::TestResult)s

pub mod cargo;
pub mod jest;
pub mod pytest;

use vstd::prelude::*;
use vstd::string::StringExecFns;
use crate::text::push_str;

verus! {

/// Describes a test found in source code.
#[derive(Debug, Clone, PartialEq, Eq)]
pub struct FoundTest {
    /// The test function/method name.
    pub name: String,
    /// Line number in the source file (0-indexed).
    pub line: usize,
    /// The module path prefix, if any (e.g., `tests` for `mod tests { ... }`).
    pub module: Option<String>,
}

/// The mathematical value of a [`FoundTest`].
pub struct FoundView {
    pub name: Seq<char>,
    pub line: usize,
    pub module: Option<Seq<char>>,
}

impl View for FoundTest {
    type V = FoundView;

    open spec fn view(&self) -> FoundView {
        FoundView { name: self.name@, line: self.line, module: self.module.deep_view() }
    }
}

/// The views of a sequence of found tests.
pub open spec fn found_views(v: Seq<FoundTest>) -> Seq<FoundView> {
    v.map_values(|t: FoundTest| t@)
}

/// The fully-qualified name of a test: `module::name`, or the bare name.
pub open spec fn full_name_text(t: FoundView) -> Seq<char> {
    match t.module {
        Some(m) => m + "::"@ + t.name,
        None => t.name,
    }
}

impl FoundTest {
    /// Fully-qualified name including module prefix.
    pub fn full_name(&self) -> (r: String)
        ensures
            r@ == full_name_text(self@),
    {
        match &self.module {
            Some(module) => {
                let mut s = String::from_str(module.as_str());
                push_str(&mut s, "::");
                push_str(&mut s, self.name.as_str());
                s
            },
            None => self.name.clone(),
        }
    }
}

/// A command to execute for running tests.
#[derive(Debug, Clone)]
pub struct TestCommand {
    /// The program to run (e.g., `"cargo"`, `"npx"`, `"pytest"`).
    pub program: String,
    /// Arguments to pass.
    pub args: Vec<String>,
    /// Working directory (project root).
    pub cwd: Option<String>,
    /// Environment variables to set.
    pub env: Vec<(String, String)>,
}

/// The mathematical value of a [`TestCommand`].
pub struct CommandView {
    pub program: Seq<char>,
    pub args: Seq<Seq<char>>,
    pub cwd: Option<Seq<char>>,
    pub env: Seq<(Seq<char>, Seq<char>)>,
}

impl View for TestCommand {
    type V = CommandView;

    open spec fn view(&self) -> CommandView {
        CommandView {
            program: self.program@,
            args: self.args@.map_values(|a: String| a@),
            cwd: self.cwd.deep_view(),
            env: self.env@.map_values(|kv: (String, String)| (kv.0@, kv.1@)),
        }
    }
}

/// A command with the given program and arguments, no working directory and
/// no environment variables.
pub open spec fn plain_command(program: Seq<char>, args: Seq<Seq<char>>) -> CommandView {
    CommandView { program, args, cwd: None, env: seq![] }
}

/// A command running `program` with `args`, in the current directory and
/// environment.
pub fn make_command(program: &str, args: Vec<String>) -> (c: TestCommand)
    ensures
        c@ == plain_command(program@, args@.map_values(|a: String| a@)),
{
    let c = TestCommand { program: String::from_str(program), args, cwd: None, env: Vec::new() };
    assert(c@.env =~= Seq::<(Seq<char>, Seq<char>)>::empty());
    c
}

/// Whether `i` is the index of the test nearest to `cursor` from above: its
/// line is at or before the cursor, no such test has a greater line, and no
/// later test has the same line.
pub open spec fn is_nearest(ts: Seq<FoundView>, cursor: usize, i: int) -> bool {
    &&& 0 <= i < ts.len()
    &&& ts[i].line <= cursor
    &&& forall|j: int| 0 <= j < ts.len() && ts[j].line <= cursor ==> ts[j].line <= ts[i].line
    &&& forall|j: int| i < j < ts.len() && ts[j].line <= cursor ==> ts[j].line != ts[i].line
}

/// Find the nearest test to a given line number.
///
/// Returns the test whose line number is closest to `cursor_line` without
/// going past it (prefers the test definition above the cursor).
pub fn nearest_test(tests: &[FoundTest], cursor_line: usize) -> (r: Option<&FoundTest>)
    ensures
        match r {
            Some(t) => exists|i: int|
                is_nearest(found_views(tests@), cursor_line, i) && *t == tests@[i],
            None => forall|j: int| 0 <= j < tests@.len() ==> tests@[j].line > cursor_line,
        },
{
    let ghost ts = found_views(tests@);
    let mut best: Option<usize> = None;
    let mut i: usize = 0;
    while i < tests.len()
        invariant
            ts == found_views(tests@),
            i <= tests@.len(),
            match best {
                Some(b) => b < i && is_nearest(ts.take(i as int), cursor_line, b as int),
                None => forall|j: int| 0 <= j < i ==> tests@[j].line > cursor_line,
            },
        decreases tests@.len() - i,
    {
        let line = tests[i].line;
        if line <= cursor_line {
            match best {
                Some(b) => {
                    if tests[b].line <= line {
                        best = Some(i);
                    }
                },
                None => {
                    best = Some(i);
                },
            }
        }
        i = i + 1;
        assert(forall|j: int| 0 <= j < i ==> #[trigger] ts.take(i as int)[j] == ts[j]);
        assert(forall|j: int| 0 <= j < i - 1 ==> #[trigger] ts.take(i - 1)[j] == ts[j]);
    }
    assert(ts.take(i as int) =~= ts);
    match best {
        Some(b) => Some(&tests[b]),
        None => None,
    }
}

} // verus!
