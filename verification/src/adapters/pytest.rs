//! Pytest adapter for Python projects.
//!
//! Detects `def test_*` functions and `class Test*` classes, runs `pytest`,
//! and parses the standard pytest output format.

use vstd::prelude::*;
use vstd::string::StringExecFns;
use crate::adapters::{found_views, make_command, plain_command, FoundTest, FoundView, TestCommand};
use crate::adapters::cargo::{arg_views, nonempty_ident};
use crate::results::{
    all_finished, failed_of, fresh_result, lemma_all_finished_append, law_counts_partition, passed_of,
    skipped_of, ResultView, StatusView, SuiteView, TestResult, TestSuite,
};
use crate::text::{
    chars_of, copy_range, ends_with, find, find_chars, has_prefix, ident_prefix, is_whitespace,
    is_ws, lines, lines_of, occurs_at, opt_chars, push_str, rfind, rfind_chars, starts_with_str,
    string_of, strip_prefix, strip_prefix_str, strip_suffix, strip_suffix_str, take_ident, trim,
    trim_chars, trim_end_char, trim_end_char_chars, views, has_suffix, split_lines, strip_cr,
    lemma_lines_of_joined, lemma_trim_strip_cr, lemma_split_lines_count, lemma_find_from,
};

verus! {

/// Adapter for Python projects using pytest.
pub struct PytestAdapter;

// ---------------------------------------------------------------------------
// Declarations

/// The class name declared by `class Test<more>...`: a name that begins
/// with `Test` and is longer than it.
pub open spec fn test_class_decl(line: Seq<char>) -> Option<Seq<char>> {
    match strip_prefix(line, "class "@) {
        Some(rest) => {
            let name = ident_prefix(rest);
            if has_prefix(name, "Test"@) && name.len() > 4 {
                Some(name)
            } else {
                None
            }
        },
        None => None,
    }
}

/// The function name declared by `def test_...` or `async def test_...`.
pub open spec fn test_fn_decl(line: Seq<char>) -> Option<Seq<char>> {
    let rest = match strip_prefix(line, "def "@) {
        Some(r) => Some(r),
        None => strip_prefix(line, "async def "@),
    };
    match rest {
        Some(r) => {
            let name = ident_prefix(r);
            if has_prefix(name, "test_"@) {
                Some(name)
            } else {
                None
            }
        },
        None => None,
    }
}

/// The test class declared by a trimmed line.
fn test_class_chars(line: &[char]) -> (r: Option<Vec<char>>)
    ensures
        opt_chars(r) == test_class_decl(line@),
{
    match strip_prefix_str(line, "class ") {
        Some(rest) => {
            let name = take_ident(&rest);
            if starts_with_str(&name, "Test") && name.len() > 4 {
                Some(name)
            } else {
                None
            }
        },
        None => None,
    }
}

/// The test function declared by a trimmed line.
fn test_fn_chars(line: &[char]) -> (r: Option<Vec<char>>)
    ensures
        opt_chars(r) == test_fn_decl(line@),
{
    let rest = match strip_prefix_str(line, "def ") {
        Some(r) => r,
        None => match strip_prefix_str(line, "async def ") {
            Some(r) => r,
            None => {
                return None;
            },
        },
    };
    let name = take_ident(&rest);
    if starts_with_str(&name, "test_") {
        Some(name)
    } else {
        None
    }
}

/// Parse a test class declaration like `class TestFoo:` or `class TestFoo(Base):`.
pub fn parse_test_class(line: &str) -> (r: Option<String>)
    ensures
        r.deep_view() == test_class_decl(line@),
{
    let l = chars_of(line);
    match test_class_chars(&l) {
        Some(n) => Some(string_of(&n)),
        None => None,
    }
}

/// Parse a test function declaration like `def test_foo(...):`
/// or `async def test_foo(...):`.
pub fn parse_test_function(line: &str) -> (r: Option<String>)
    ensures
        r.deep_view() == test_fn_decl(line@),
{
    let l = chars_of(line);
    match test_fn_chars(&l) {
        Some(n) => Some(string_of(&n)),
        None => None,
    }
}

// ---------------------------------------------------------------------------
// Finding tests in Python source

/// The UTF-8 length of a character.
pub open spec fn utf8_len(c: char) -> nat {
    if (c as u32) < 0x80 {
        1
    } else if (c as u32) < 0x800 {
        2
    } else if (c as u32) < 0x10000 {
        3
    } else {
        4
    }
}

/// The indentation of a line: the UTF-8 length of its leading white space.
pub open spec fn indent_of(line: Seq<char>) -> nat
    decreases line.len(),
{
    if line.len() > 0 && is_ws(line[0]) {
        utf8_len(line[0]) + indent_of(line.drop_first())
    } else {
        0
    }
}

/// The state of the scan over a Python source file.
pub struct PyScan {
    /// The test class the current line belongs to.
    pub class: Option<Seq<char>>,
    /// The indentation of that class's declaration.
    pub class_indent: nat,
    /// The tests found so far.
    pub tests: Seq<FoundView>,
}

/// One line of the scan: a test class declaration opens a class; a
/// non-empty line indented no deeper than the class, other than another
/// `class`, closes it; a test function is recorded with the open class.
pub open spec fn py_line_step(st: PyScan, idx: usize, line: Seq<char>) -> PyScan {
    let t = trim(line);
    let indent = indent_of(line);
    match test_class_decl(t) {
        Some(c) => PyScan { class: Some(c), class_indent: indent, ..st },
        None => {
            let s = if st.class is Some && t.len() > 0 && indent <= st.class_indent && !has_prefix(
                t,
                "class "@,
            ) {
                PyScan { class: None, ..st }
            } else {
                st
            };
            match test_fn_decl(t) {
                Some(f) => PyScan {
                    tests: s.tests.push(FoundView { name: f, line: idx, module: s.class }),
                    ..s
                },
                None => s,
            }
        },
    }
}

/// The scan state after the given lines.
pub open spec fn py_scan(lines: Seq<Seq<char>>) -> PyScan
    decreases lines.len(),
{
    if lines.len() == 0 {
        PyScan { class: None, class_indent: 0, tests: seq![] }
    } else {
        py_line_step(py_scan(lines.drop_last()), (lines.len() - 1) as usize, lines.last())
    }
}

/// The tests found in Python source text.
pub open spec fn python_tests(content: Seq<char>) -> Seq<FoundView> {
    py_scan(lines_of(content)).tests
}

/// The UTF-8 length of a character.
fn utf8_len_exec(c: char) -> (n: u128)
    ensures
        n == utf8_len(c),
{
    let u = c as u32;
    if u < 0x80 {
        1
    } else if u < 0x800 {
        2
    } else if u < 0x10000 {
        3
    } else {
        4
    }
}

/// The indentation of a line in UTF-8 bytes.
fn indent_exec(line: &[char]) -> (n: u128)
    ensures
        n == indent_of(line@),
{
    let mut n: u128 = 0;
    let mut i: usize = 0;
    assert(line@.skip(0) =~= line@);
    while i < line.len() && is_whitespace(line[i])
        invariant
            i <= line@.len(),
            n <= 4 * i,
            n + indent_of(line@.skip(i as int)) == indent_of(line@),
        decreases line@.len() - i,
    {
        assert(line@.skip(i as int).drop_first() =~= line@.skip(i + 1));
        n = n + utf8_len_exec(line[i]);
        i = i + 1;
    }
    n
}

/// The executable scan state.
struct PyScanState {
    class: Option<Vec<char>>,
    class_indent: u128,
    tests: Vec<FoundTest>,
}

impl View for PyScanState {
    type V = PyScan;

    closed spec fn view(&self) -> PyScan {
        PyScan {
            class: opt_chars(self.class),
            class_indent: self.class_indent as nat,
            tests: found_views(self.tests@),
        }
    }
}

/// Applies one line to the scan state.
fn py_line_exec(st: &mut PyScanState, idx: usize, line: &[char])
    ensures
        final(st)@ == py_line_step(old(st)@, idx, line@),
{
    let t = trim_chars(line);
    let indent = indent_exec(line);
    match test_class_chars(&t) {
        Some(c) => {
            st.class = Some(c);
            st.class_indent = indent;
            return;
        },
        None => {},
    }
    if st.class.is_some() && t.len() > 0 && indent <= st.class_indent {
        if !starts_with_str(&t, "class ") {
            st.class = None;
        }
    }
    match test_fn_chars(&t) {
        Some(f) => {
            let module = match &st.class {
                Some(c) => Some(string_of(c)),
                None => None,
            };
            let found = FoundTest { name: string_of(&f), line: idx, module };
            let ghost before = found_views(st.tests@);
            st.tests.push(found);
            assert(found_views(st.tests@) =~= before.push(found@));
        },
        None => {},
    }
}

/// Find test functions and methods in Python source code.
///
/// Recognizes:
/// - `def test_*(...):` — standalone test functions
/// - `class Test*:` — test classes
/// - `def test_*(self, ...):` — test methods inside classes
/// - `async def test_*(...):` — async test functions
pub fn find_python_tests(content: &str) -> (r: Vec<FoundTest>)
    ensures
        found_views(r@) == python_tests(content@),
{
    let text = chars_of(content);
    let ls = lines(&text);
    let ghost lv = views(ls@);
    let mut st = PyScanState { class: None, class_indent: 0, tests: Vec::new() };
    assert(found_views(st.tests@) =~= Seq::<FoundView>::empty());
    let mut i: usize = 0;
    assert(lv.take(0) =~= Seq::<Seq<char>>::empty());
    while i < ls.len()
        invariant
            lv == views(ls@),
            lv == lines_of(content@),
            i <= ls@.len(),
            st@ == py_scan(lv.take(i as int)),
        decreases ls@.len() - i,
    {
        assert(lv.take(i + 1).drop_last() =~= lv.take(i as int));
        assert(lv[i as int] == ls@[i as int]@);
        py_line_exec(&mut st, i, &ls[i]);
        i = i + 1;
    }
    assert(lv.take(ls@.len() as int) =~= lv);
    st.tests
}

// ---------------------------------------------------------------------------
// Parsing pytest output

/// How a pytest status word counts.
pub enum PyOutcome {
    Passed,
    Failed,
    Skipped,
}

/// The test part and outcome of a `<test> <STATUS>` line: `PASSED` and
/// `XFAIL` pass, `FAILED`, `ERROR` and `XPASS` fail, `SKIPPED` skips.
pub open spec fn pytest_status(line: Seq<char>) -> Option<(Seq<char>, PyOutcome)> {
    match strip_suffix(line, " PASSED"@) {
        Some(n) => Some((n, PyOutcome::Passed)),
        None => match strip_suffix(line, " FAILED"@) {
            Some(n) => Some((n, PyOutcome::Failed)),
            None => match strip_suffix(line, " SKIPPED"@) {
                Some(n) => Some((n, PyOutcome::Skipped)),
                None => match strip_suffix(line, " ERROR"@) {
                    Some(n) => Some((n, PyOutcome::Failed)),
                    None => match strip_suffix(line, " XFAIL"@) {
                        Some(n) => Some((n, PyOutcome::Passed)),
                        None => match strip_suffix(line, " XPASS"@) {
                            Some(n) => Some((n, PyOutcome::Failed)),
                            None => None,
                        },
                    },
                },
            },
        },
    }
}

/// The result a pytest `-v` line reports: the test's name is what follows
/// the first `::` (the whole text when there is none), and the file is what
/// precedes it.
pub open spec fn pytest_line_result(line: Seq<char>) -> Option<ResultView> {
    match pytest_status(line) {
        None => None,
        Some((name_part, outcome)) => {
            let status = match outcome {
                PyOutcome::Passed => StatusView::Pass,
                PyOutcome::Failed => StatusView::Fail(None),
                PyOutcome::Skipped => StatusView::Skip,
            };
            match find(name_part, "::"@) {
                Some(i) => Some(
                    ResultView {
                        file: Some(trim(name_part.take(i as int))),
                        ..fresh_result(name_part.skip((i + 2) as int), status)
                    },
                ),
                None => Some(fresh_result(name_part, status)),
            }
        },
    }
}

/// The results reported by the given lines of pytest output, in order.
pub open spec fn pytest_results(lines: Seq<Seq<char>>) -> Seq<ResultView>
    decreases lines.len(),
{
    if lines.len() == 0 {
        seq![]
    } else {
        pytest_results(lines.drop_last()) + match pytest_line_result(trim(lines.last())) {
            Some(r) => seq![r],
            None => seq![],
        }
    }
}

/// The result a pytest `-v` line reports.
fn pytest_line_result_exec(line: &[char]) -> (r: Option<TestResult>)
    ensures
        match r {
            Some(x) => pytest_line_result(line@) == Some(x@),
            None => pytest_line_result(line@) is None,
        },
{
    let (name_part, outcome) = match strip_suffix_str(line, " PASSED") {
        Some(n) => (n, PyOutcome::Passed),
        None => match strip_suffix_str(line, " FAILED") {
            Some(n) => (n, PyOutcome::Failed),
            None => match strip_suffix_str(line, " SKIPPED") {
                Some(n) => (n, PyOutcome::Skipped),
                None => match strip_suffix_str(line, " ERROR") {
                    Some(n) => (n, PyOutcome::Failed),
                    None => match strip_suffix_str(line, " XFAIL") {
                        Some(n) => (n, PyOutcome::Passed),
                        None => match strip_suffix_str(line, " XPASS") {
                            Some(n) => (n, PyOutcome::Failed),
                            None => {
                                return None;
                            },
                        },
                    },
                },
            },
        },
    };
    let sep = chars_of("::");
    proof {
        reveal_strlit("::");
    }
    match find_chars(&name_part, &sep) {
        Some(i) => {
            let n = name_part.len();
            assert(i + 2 <= n);
            let full = copy_range(&name_part, i + 2, n);
            let file = copy_range(&name_part, 0, i);
            let file_t = trim_chars(&file);
            let f = string_of(&full);
            let res = match outcome {
                PyOutcome::Passed => TestResult::pass(f.as_str()),
                PyOutcome::Failed => TestResult::fail(f.as_str(), None),
                PyOutcome::Skipped => TestResult::skip(f.as_str()),
            };
            let fs = string_of(&file_t);
            Some(res.with_file(fs.as_str()))
        },
        None => {
            let f = string_of(&name_part);
            match outcome {
                PyOutcome::Passed => Some(TestResult::pass(f.as_str())),
                PyOutcome::Failed => Some(TestResult::fail(f.as_str(), None)),
                PyOutcome::Skipped => Some(TestResult::skip(f.as_str())),
            }
        },
    }
}

/// Parse a single pytest result line.
///
/// Input: `"tests/test_math.py::test_add PASSED"` -> a passing result named
/// `test_add` in file `tests/test_math.py`.
pub fn parse_pytest_result_line(line: &str) -> (r: Option<TestResult>)
    ensures
        match r {
            Some(x) => pytest_line_result(line@) == Some(x@),
            None => pytest_line_result(line@) is None,
        },
{
    let l = chars_of(line);
    pytest_line_result_exec(&l)
}

/// Parse pytest verbose output into structured results.
///
/// Pytest `-v` format:
/// ```text
/// tests/test_math.py::test_add PASSED
/// tests/test_math.py::TestCalc::test_sub FAILED
/// tests/test_math.py::test_skip SKIPPED
/// ```
///
/// The suite's duration is not set here: the `in <secs>s` timing is a
/// decimal fraction, read by the caller from [`pytest_duration_texts`].
pub fn parse_pytest_output(output: &str) -> (r: TestSuite)
    ensures
        r@ == (SuiteView { results: pytest_results(lines_of(output@)), duration: None }),
{
    let text = chars_of(output);
    let ls = lines(&text);
    let ghost lv = views(ls@);
    let mut suite = TestSuite::new();
    let mut i: usize = 0;
    assert(lv.take(0) =~= Seq::<Seq<char>>::empty());
    while i < ls.len()
        invariant
            lv == views(ls@),
            lv == lines_of(output@),
            i <= ls@.len(),
            suite@.results == pytest_results(lv.take(i as int)),
            suite@.duration is None,
        decreases ls@.len() - i,
    {
        assert(lv.take(i + 1).drop_last() =~= lv.take(i as int));
        assert(lv[i as int] == ls@[i as int]@);
        let t = trim_chars(&ls[i]);
        match pytest_line_result_exec(&t) {
            Some(res) => {
                suite.push(res);
            },
            None => {},
        }
        i = i + 1;
    }
    assert(lv.take(ls@.len() as int) =~= lv);
    suite
}

/// A character that a pytest summary line is framed with: `=` or white space.
pub open spec fn is_frame(c: char) -> bool {
    c == '=' || is_ws(c)
}

/// `s` without leading `=` and white space.
pub open spec fn trim_start_frame(s: Seq<char>) -> Seq<char>
    decreases s.len(),
{
    if s.len() > 0 && is_frame(s[0]) {
        trim_start_frame(s.drop_first())
    } else {
        s
    }
}

/// `s` without trailing `=` and white space.
pub open spec fn trim_end_frame(s: Seq<char>) -> Seq<char>
    decreases s.len(),
{
    if s.len() > 0 && is_frame(s.last()) {
        trim_end_frame(s.drop_last())
    } else {
        s
    }
}

/// The seconds text of a summary line `===== 3 passed in 1.23s =====`:
/// what follows its last ` in `, trimmed and without trailing `s`.
pub open spec fn pytest_duration_candidate(line: Seq<char>) -> Option<Seq<char>> {
    let stripped = trim_end_frame(trim_start_frame(line));
    match rfind(stripped, " in "@) {
        Some(i) => Some(trim_end_char(trim(stripped.skip((i + 4) as int)), 's')),
        None => None,
    }
}

/// The seconds texts of the summary lines, from the last line to the first.
pub open spec fn pytest_duration_candidates(lines: Seq<Seq<char>>) -> Seq<Seq<char>>
    decreases lines.len(),
{
    if lines.len() == 0 {
        seq![]
    } else {
        (match pytest_duration_candidate(trim(lines.last())) {
            Some(t) => seq![t],
            None => seq![],
        }) + pytest_duration_candidates(lines.drop_last())
    }
}

/// `s` without leading and trailing `=` and white space.
fn trim_frame_chars(s: &[char]) -> (r: Vec<char>)
    ensures
        r@ == trim_end_frame(trim_start_frame(s@)),
{
    let mut lo: usize = 0;
    assert(s@.skip(0) =~= s@);
    while lo < s.len() && (s[lo] == '=' || is_whitespace(s[lo]))
        invariant
            lo <= s@.len(),
            trim_start_frame(s@) == trim_start_frame(s@.skip(lo as int)),
        decreases s@.len() - lo,
    {
        assert(s@.skip(lo as int).drop_first() =~= s@.skip(lo + 1));
        lo = lo + 1;
    }
    let ghost t = s@.skip(lo as int);
    let mut hi: usize = s.len();
    assert(s@.subrange(lo as int, hi as int) =~= t);
    while hi > lo && (s[hi - 1] == '=' || is_whitespace(s[hi - 1]))
        invariant
            lo <= hi <= s@.len(),
            t == s@.skip(lo as int),
            trim_start_frame(s@) == t,
            trim_end_frame(t) == trim_end_frame(s@.subrange(lo as int, hi as int)),
        decreases hi,
    {
        assert(s@.subrange(lo as int, hi as int).drop_last() =~= s@.subrange(lo as int, hi - 1));
        hi = hi - 1;
    }
    copy_range(s, lo, hi)
}

/// The seconds text of a pytest summary line, if it has ` in `.
fn pytest_duration_candidate_exec(line: &[char]) -> (r: Option<Vec<char>>)
    ensures
        opt_chars(r) == pytest_duration_candidate(line@),
{
    let stripped = trim_frame_chars(line);
    let pat = chars_of(" in ");
    proof {
        reveal_strlit(" in ");
    }
    match rfind_chars(&stripped, &pat) {
        Some(i) => {
            let n = stripped.len();
            assert(i + 4 <= n);
            let after = copy_range(&stripped, i + 4, n);
            assert(after@ =~= stripped@.skip(i + 4));
            let a = trim_chars(&after);
            Some(trim_end_char_chars(&a, 's'))
        },
        None => None,
    }
}

/// The seconds texts of the summary lines of pytest output, from the last
/// line to the first: the suite's duration is the first of them that reads
/// as a number of seconds.
pub fn pytest_duration_texts(output: &str) -> (r: Vec<String>)
    ensures
        arg_views(r@) == pytest_duration_candidates(lines_of(output@)),
{
    let text = chars_of(output);
    let ls = lines(&text);
    let ghost lv = views(ls@);
    let mut r: Vec<String> = Vec::new();
    let mut i: usize = ls.len();
    assert(lv.take(ls@.len() as int) =~= lv);
    assert(arg_views(r@) =~= Seq::<Seq<char>>::empty());
    while i > 0
        invariant
            lv == views(ls@),
            lv == lines_of(output@),
            i <= ls@.len(),
            arg_views(r@) + pytest_duration_candidates(lv.take(i as int))
                == pytest_duration_candidates(lv),
        decreases i,
    {
        let ghost before = arg_views(r@);
        assert(lv.take(i as int).drop_last() =~= lv.take(i - 1));
        assert(lv.take(i as int).last() == ls@[i - 1]@);
        let t = trim_chars(&ls[i - 1]);
        match pytest_duration_candidate_exec(&t) {
            Some(b) => {
                r.push(string_of(&b));
                assert(arg_views(r@) =~= before.push(b@));
                assert(before + pytest_duration_candidates(lv.take(i as int)) =~= arg_views(r@)
                    + pytest_duration_candidates(lv.take(i - 1)));
            },
            None => {},
        }
        i = i - 1;
    }
    assert(lv.take(0) =~= Seq::<Seq<char>>::empty());
    assert(arg_views(r@) =~= pytest_duration_candidates(lv));
    r
}

// ---------------------------------------------------------------------------
// The adapter

impl PytestAdapter {
    /// Whether this adapter handles the given file type: `python`.
    pub fn detect(&self, filetype: &str) -> (r: bool)
        ensures
            r == (filetype@ == "python"@),
    {
        crate::text::str_eq(filetype, "python")
    }

    /// Scan source code and return all test functions and methods found.
    pub fn find_tests(&self, content: &str) -> (r: Vec<FoundTest>)
        ensures
            found_views(r@) == python_tests(content@),
    {
        find_python_tests(content)
    }

    /// `pytest -v --tb=short <file>::<name>`.
    pub fn build_command(&self, test_name: &str, file: &str) -> (c: TestCommand)
        ensures
            c@ == plain_command(
                "pytest"@,
                seq!["-v"@, "--tb=short"@, file@ + "::"@ + test_name@],
            ),
    {
        let mut selector = String::from_str(file);
        push_str(&mut selector, "::");
        push_str(&mut selector, test_name);
        let mut args = Vec::new();
        args.push(String::from_str("-v"));
        args.push(String::from_str("--tb=short"));
        let ghost sv = selector@;
        args.push(selector);
        assert(arg_views(args@) =~= seq!["-v"@, "--tb=short"@, sv]);
        make_command("pytest", args)
    }

    /// `pytest -v --tb=short <file>`.
    pub fn build_file_command(&self, file: &str) -> (c: TestCommand)
        ensures
            c@ == plain_command("pytest"@, seq!["-v"@, "--tb=short"@, file@]),
    {
        let mut args = Vec::new();
        args.push(String::from_str("-v"));
        args.push(String::from_str("--tb=short"));
        args.push(String::from_str(file));
        assert(arg_views(args@) =~= seq!["-v"@, "--tb=short"@, file@]);
        make_command("pytest", args)
    }

    /// `pytest -v --tb=short`.
    pub fn build_suite_command(&self) -> (c: TestCommand)
        ensures
            c@ == plain_command("pytest"@, seq!["-v"@, "--tb=short"@]),
    {
        let mut args = Vec::new();
        args.push(String::from_str("-v"));
        args.push(String::from_str("--tb=short"));
        assert(arg_views(args@) =~= seq!["-v"@, "--tb=short"@]);
        make_command("pytest", args)
    }
}


// ---------------------------------------------------------------------------
// Laws

/// One line of the scan keeps the tests found so far, and adds at most the
/// test function declared on that line, under that line's index.
pub proof fn lemma_py_line_step_tests(st: PyScan, idx: usize, line: Seq<char>)
    ensures
        ({
            let r = py_line_step(st, idx, line).tests;
            ||| r == st.tests
            ||| {
                &&& r.len() == st.tests.len() + 1
                &&& r.drop_last() == st.tests
                &&& r.last().line == idx
                &&& test_fn_decl(trim(line)) == Some(r.last().name)
            }
        }),
{
    let r = py_line_step(st, idx, line).tests;
    if r != st.tests {
        assert(r.drop_last() =~= st.tests);
    }
}

/// Every test the Python scan finds is a test function declared on its own
/// line; the tests come in strictly increasing line order.
pub proof fn lemma_py_scan_sound(ls: Seq<Seq<char>>)
    requires
        ls.len() <= usize::MAX,
    ensures
        forall|k: int|
            0 <= k < py_scan(ls).tests.len() ==> {
                let t = #[trigger] py_scan(ls).tests[k];
                &&& t.line < ls.len()
                &&& test_fn_decl(trim(ls[t.line as int])) == Some(t.name)
            },
        forall|j: int, k: int|
            0 <= j < k < py_scan(ls).tests.len() ==> #[trigger] py_scan(ls).tests[j].line
                < #[trigger] py_scan(ls).tests[k].line,
    decreases ls.len(),
{
    if ls.len() > 0 {
        let prev = ls.drop_last();
        lemma_py_scan_sound(prev);
        lemma_py_line_step_tests(py_scan(prev), (ls.len() - 1) as usize, ls.last());
        let old_tests = py_scan(prev).tests;
        let new_tests = py_scan(ls).tests;
        assert(forall|i: int| 0 <= i < prev.len() ==> prev[i] == ls[i]);
        assert forall|k: int| 0 <= k < old_tests.len() implies old_tests[k].line < prev.len()
            by {
            assert(old_tests[k] == old_tests[k]);
        }
        if new_tests != old_tests {
            assert forall|k: int| 0 <= k < new_tests.len() implies {
                let t = #[trigger] new_tests[k];
                &&& t.line < ls.len()
                &&& test_fn_decl(trim(ls[t.line as int])) == Some(t.name)
            } by {
                if k < old_tests.len() {
                    assert(new_tests[k] == old_tests[k]);
                }
            }
            assert forall|j: int, k: int| 0 <= j < k < new_tests.len() implies #[trigger] new_tests[j].line
                < #[trigger] new_tests[k].line by {
                assert(new_tests[j] == old_tests[j]);
                assert(old_tests[j].line < prev.len());
                if k < old_tests.len() {
                    assert(new_tests[k] == old_tests[k]);
                }
            }
        }
    }
}

/// Every test that `find_python_tests` reports is a `def test_*` function
/// declared on the reported line (0-based) of the source, and the reported
/// lines strictly increase.
pub proof fn law_python_tests_declared(content: Seq<char>)
    requires
        content.len() <= usize::MAX,
    ensures
        forall|k: int|
            0 <= k < python_tests(content).len() ==> {
                let t = #[trigger] python_tests(content)[k];
                &&& t.line < lines_of(content).len()
                &&& test_fn_decl(trim(lines_of(content)[t.line as int])) == Some(t.name)
            },
        forall|j: int, k: int|
            0 <= j < k < python_tests(content).len() ==> #[trigger] python_tests(content)[j].line
                < #[trigger] python_tests(content)[k].line,
{
    lemma_split_lines_count(content);
    lemma_py_scan_sound(lines_of(content));
}

/// The results of two runs of lines are those of the first then those of
/// the second.
pub proof fn lemma_pytest_results_append(x: Seq<Seq<char>>, y: Seq<Seq<char>>)
    ensures
        pytest_results(x + y) == pytest_results(x) + pytest_results(y),
    decreases y.len(),
{
    if y.len() == 0 {
        assert(x + y =~= x);
        assert(pytest_results(x) + Seq::<ResultView>::empty() =~= pytest_results(x));
    } else {
        lemma_pytest_results_append(x, y.drop_last());
        assert((x + y).drop_last() =~= x + y.drop_last());
        assert((x + y).last() == y.last());
    }
}

/// The output of a run is its stdout, a newline and its stderr: the results
/// read from it are those of stdout followed by those of stderr.
pub proof fn law_pytest_results_of_joined_output(stdout: Seq<char>, stderr: Seq<char>)
    ensures
        pytest_results(lines_of(stdout + "\n"@ + stderr)) == pytest_results(lines_of(stdout))
            + pytest_results(lines_of(stderr)),
{
    reveal_strlit("\n");
    assert("\n"@ =~= seq!['\n']);
    lemma_lines_of_joined(stdout, stderr);
    let (d, c) = split_lines(stdout);
    lemma_pytest_results_append(d.push(strip_cr(c)), lines_of(stderr));
    lemma_trim_strip_cr(c);
    assert(d.push(strip_cr(c)).drop_last() =~= d);
    if c.len() > 0 {
        assert(d.push(c).drop_last() =~= d);
    } else {
        assert(strip_cr(c) =~= Seq::<char>::empty());
        assert(trim(Seq::<char>::empty()) =~= Seq::<char>::empty());
        let e = Seq::<char>::empty();
        assert(!has_suffix(e, " PASSED"@)) by { reveal_strlit(" PASSED"); }
        assert(!has_suffix(e, " FAILED"@)) by { reveal_strlit(" FAILED"); }
        assert(!has_suffix(e, " SKIPPED"@)) by { reveal_strlit(" SKIPPED"); }
        assert(!has_suffix(e, " ERROR"@)) by { reveal_strlit(" ERROR"); }
        assert(!has_suffix(e, " XFAIL"@)) by { reveal_strlit(" XFAIL"); }
        assert(!has_suffix(e, " XPASS"@)) by { reveal_strlit(" XPASS"); }
    }
}


/// Every result read from pytest's output has finished: it passed, failed
/// or was skipped, so the suite's three counts add up to its total.
pub proof fn law_pytest_results_finished(lines: Seq<Seq<char>>)
    ensures
        all_finished(pytest_results(lines)),
        passed_of(pytest_results(lines)).len() + failed_of(pytest_results(lines)).len()
            + skipped_of(pytest_results(lines)).len() == pytest_results(lines).len(),
    decreases lines.len(),
{
    if lines.len() > 0 {
        law_pytest_results_finished(lines.drop_last());
        let tail = match pytest_line_result(trim(lines.last())) {
            Some(r) => seq![r],
            None => seq![],
        };
        lemma_all_finished_append(pytest_results(lines.drop_last()), tail);
    }
    law_counts_partition(pytest_results(lines));
}

/// A text that ends with a suffix of at least three characters ends with
/// that suffix's last three characters.
proof fn lemma_suffix_tail(t: Seq<char>, p: Seq<char>)
    requires
        p.len() >= 3,
        has_suffix(t, p),
    ensures
        t[t.len() - 1] == p[p.len() - 1],
        t[t.len() - 2] == p[p.len() - 2],
        t[t.len() - 3] == p[p.len() - 3],
{
    let k = t.len() - p.len();
    assert(t.skip(k)[p.len() - 1] == t[t.len() - 1]);
    assert(t.skip(k)[p.len() - 2] == t[t.len() - 2]);
    assert(t.skip(k)[p.len() - 3] == t[t.len() - 3]);
}

/// A line `<np> <W>` with `W` one of the six status words has `<np>` as its
/// test part: no other word is mistaken for `W`.
proof fn lemma_status_word(np: Seq<char>, w: Seq<char>)
    requires
        w == "PASSED"@ || w == "FAILED"@ || w == "SKIPPED"@ || w == "ERROR"@ || w == "XFAIL"@
            || w == "XPASS"@,
    ensures
        pytest_status(np + " "@ + w) matches Some((part, _)) && part == np,
        pytest_status(np + " "@ + w) matches Some((_, o)) && (o == PyOutcome::Passed <==> (w
            == "PASSED"@ || w == "XFAIL"@)) && (o == PyOutcome::Skipped <==> w == "SKIPPED"@),
{
    reveal_strlit(" ");
    reveal_strlit("PASSED");
    reveal_strlit("FAILED");
    reveal_strlit("SKIPPED");
    reveal_strlit("ERROR");
    reveal_strlit("XFAIL");
    reveal_strlit("XPASS");
    reveal_strlit(" PASSED");
    reveal_strlit(" FAILED");
    reveal_strlit(" SKIPPED");
    reveal_strlit(" ERROR");
    reveal_strlit(" XFAIL");
    reveal_strlit(" XPASS");
    let sfx = " "@ + w;
    let t = np + sfx;
    assert(t =~= np + " "@ + w);
    assert(has_suffix(t, sfx)) by {
        assert(t.skip(t.len() - sfx.len()) =~= sfx);
    }
    lemma_suffix_tail(t, sfx);
    assert(t.take(t.len() - sfx.len()) =~= np);
    let words = seq![" PASSED"@, " FAILED"@, " SKIPPED"@, " ERROR"@, " XFAIL"@, " XPASS"@];
    assert forall|i: int| 0 <= i < 6 && #[trigger] words[i] != sfx implies !has_suffix(t, words[i]) by {
        if has_suffix(t, words[i]) {
            lemma_suffix_tail(t, words[i]);
        }
    }
    assert(words[0] == " PASSED"@ && words[1] == " FAILED"@ && words[2] == " SKIPPED"@);
    assert(words[3] == " ERROR"@ && words[4] == " XFAIL"@ && words[5] == " XPASS"@);
    assert(" PASSED"@ =~= " "@ + "PASSED"@);
    assert(" FAILED"@ =~= " "@ + "FAILED"@);
    assert(" SKIPPED"@ =~= " "@ + "SKIPPED"@);
    assert(" ERROR"@ =~= " "@ + "ERROR"@);
    assert(" XFAIL"@ =~= " "@ + "XFAIL"@);
    assert(" XPASS"@ =~= " "@ + "XPASS"@);
}

/// A pytest `-v` line `<file>::<name> <W>` reports the test `<name>` of the
/// file `<file>` (trimmed), with the outcome that `W` names: `PASSED` and
/// `XFAIL` pass, `SKIPPED` skips, `FAILED`, `ERROR` and `XPASS` fail. The
/// status word never stays in the name; the file part is everything before
/// the first `::`.
pub proof fn law_pytest_line_result(p: Seq<char>, n: Seq<char>, w: Seq<char>)
    requires
        find(p, "::"@) is None,
        !(p.len() > 0 && p.last() == ':'),
        w == "PASSED"@ || w == "FAILED"@ || w == "SKIPPED"@ || w == "ERROR"@ || w == "XFAIL"@
            || w == "XPASS"@,
    ensures
        pytest_line_result(p + "::"@ + n + " "@ + w) == Some(
            ResultView {
                name: n,
                file: Some(trim(p)),
                line: None,
                status: if w == "PASSED"@ || w == "XFAIL"@ {
                    StatusView::Pass
                } else if w == "SKIPPED"@ {
                    StatusView::Skip
                } else {
                    StatusView::Fail(None)
                },
                duration: None,
                output: None,
            },
        ),
{
    reveal_strlit("::");
    let np = p + "::"@ + n;
    lemma_status_word(np, w);
    assert(p + "::"@ + n + " "@ + w =~= np + " "@ + w);
    lemma_find_from(p, "::"@, 0);
    lemma_find_from(np, "::"@, 0);
    assert(occurs_at(np, "::"@, p.len() as int)) by {
        assert(np.subrange(p.len() as int, (p.len() + 2) as int) =~= "::"@);
    }
    assert forall|i: int| 0 <= i < p.len() implies !#[trigger] occurs_at(np, "::"@, i) by {
        if occurs_at(np, "::"@, i) {
            if i + 1 < p.len() {
                assert(p.subrange(i, i + 2) =~= np.subrange(i, i + 2));
                assert(occurs_at(p, "::"@, i));
            } else {
                assert(np.subrange(i, i + 2)[0] == p.last());
            }
        }
    }
    assert(find(np, "::"@) == Some(p.len()));
    assert(np.take(p.len() as int) =~= p);
    assert(np.skip((p.len() + 2) as int) =~= n);
}

} // verus!
