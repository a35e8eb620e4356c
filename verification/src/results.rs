//! Test outcomes: the status of one test, a test's result with its metadata,
//! and the suite of results of one run with its summary line.

use std::time::Duration;
use vstd::prelude::*;
use vstd::string::StringExecFns;
use crate::text::{decimal, join, push_decimal, push_str, join_strings, string_views};

verus! {

/// The outcome of a single test.
#[derive(Debug, Clone, PartialEq, Eq)]
pub enum TestStatus {
    /// Test passed.
    Pass,
    /// Test failed with an optional message.
    Fail(Option<String>),
    /// Test was skipped or ignored.
    Skip,
    /// Test is currently running.
    Running,
}

/// The mathematical value of a [`TestStatus`].
pub enum StatusView {
    Pass,
    Fail(Option<Seq<char>>),
    Skip,
    Running,
}

impl View for TestStatus {
    type V = StatusView;

    open spec fn view(&self) -> StatusView {
        match self {
            TestStatus::Pass => StatusView::Pass,
            TestStatus::Fail(m) => StatusView::Fail(m.deep_view()),
            TestStatus::Skip => StatusView::Skip,
            TestStatus::Running => StatusView::Running,
        }
    }
}

/// The short label of a status.
pub open spec fn sign_text(s: StatusView) -> Seq<char> {
    match s {
        StatusView::Pass => "ok"@,
        StatusView::Fail(_) => "FAIL"@,
        StatusView::Skip => "skip"@,
        StatusView::Running => "..."@,
    }
}

/// The highlight group of a status.
pub open spec fn highlight_text(s: StatusView) -> Seq<char> {
    match s {
        StatusView::Pass => "ShirenPass"@,
        StatusView::Fail(_) => "ShirenFail"@,
        StatusView::Skip => "ShirenSkip"@,
        StatusView::Running => "ShirenRunning"@,
    }
}

/// The display text of a status.
pub open spec fn status_text(s: StatusView) -> Seq<char> {
    match s {
        StatusView::Pass => "PASS"@,
        StatusView::Fail(Some(m)) => "FAIL: "@ + m,
        StatusView::Fail(None) => "FAIL"@,
        StatusView::Skip => "SKIP"@,
        StatusView::Running => "RUNNING"@,
    }
}

impl TestStatus {
    /// Short label for sign/virtual text display.
    pub fn sign(&self) -> (r: &'static str)
        ensures
            r@ == sign_text(self@),
    {
        match self {
            TestStatus::Pass => "ok",
            TestStatus::Fail(_) => "FAIL",
            TestStatus::Skip => "skip",
            TestStatus::Running => "...",
        }
    }

    /// Neovim highlight group name for this status.
    pub fn highlight(&self) -> (r: &'static str)
        ensures
            r@ == highlight_text(self@),
    {
        match self {
            TestStatus::Pass => "ShirenPass",
            TestStatus::Fail(_) => "ShirenFail",
            TestStatus::Skip => "ShirenSkip",
            TestStatus::Running => "ShirenRunning",
        }
    }

    /// Whether this status represents a completed test.
    pub fn is_finished(&self) -> (r: bool)
        ensures
            r == !(self@ is Running),
    {
        match self {
            TestStatus::Running => false,
            _ => true,
        }
    }

    /// The status as display text: `PASS`, `FAIL`, `FAIL: <message>`, `SKIP`
    /// or `RUNNING`.
    pub fn display_string(&self) -> (r: String)
        ensures
            r@ == status_text(self@),
    {
        match self {
            TestStatus::Pass => String::from_str("PASS"),
            TestStatus::Fail(Some(m)) => {
                let mut s = String::from_str("FAIL: ");
                push_str(&mut s, m.as_str());
                s
            },
            TestStatus::Fail(None) => String::from_str("FAIL"),
            TestStatus::Skip => String::from_str("SKIP"),
            TestStatus::Running => String::from_str("RUNNING"),
        }
    }
}

/// `Duration` is `Copy`: its `clone` gives the same duration.
pub assume_specification[ <Duration as Clone>::clone ](d: &Duration) -> (r: Duration)
    ensures
        r == *d,
;

/// The text `{:.2?}` gives for a duration (for example `150.00ms`).
pub uninterp spec fn duration_label(d: Duration) -> Seq<char>;

/// Formats a duration with `format!("{:.2?}")`, the `Debug` rendering of
/// `std::time::Duration` with two decimals; the contract names that text.
#[verifier::external_body]
fn duration_text(d: Duration) -> (s: String)
    ensures
        s@ == duration_label(d),
{
    format!("{d:.2?}")
}

/// A single test result with metadata.
#[derive(Debug, Clone)]
pub struct TestResult {
    /// Fully-qualified test name (e.g., `tests::it_works`).
    pub name: String,
    /// The file containing this test, if known.
    pub file: Option<String>,
    /// Line number in the source file (0-indexed).
    pub line: Option<usize>,
    /// Test outcome.
    pub status: TestStatus,
    /// How long the test took to run.
    pub duration: Option<Duration>,
    /// Raw output captured from the test.
    pub output: Option<String>,
}

/// The mathematical value of a [`TestResult`].
pub struct ResultView {
    pub name: Seq<char>,
    pub file: Option<Seq<char>>,
    pub line: Option<usize>,
    pub status: StatusView,
    pub duration: Option<Duration>,
    pub output: Option<Seq<char>>,
}

impl View for TestResult {
    type V = ResultView;

    open spec fn view(&self) -> ResultView {
        ResultView {
            name: self.name@,
            file: self.file.deep_view(),
            line: self.line,
            status: self.status@,
            duration: self.duration,
            output: self.output.deep_view(),
        }
    }
}

/// A fresh result with the given name and status and no other metadata.
pub open spec fn fresh_result(name: Seq<char>, status: StatusView) -> ResultView {
    ResultView { name, file: None, line: None, status, duration: None, output: None }
}

/// The display line of a result: sign, name, status and, if known, duration.
pub open spec fn result_text(r: ResultView) -> Seq<char> {
    let base = sign_text(r.status) + " "@ + r.name + " "@ + status_text(r.status);
    match r.duration {
        Some(d) => base + " ("@ + duration_label(d) + ")"@,
        None => base,
    }
}

impl TestResult {
    /// Create a new passing test result.
    pub fn pass(name: &str) -> (r: Self)
        ensures
            r@ == fresh_result(name@, StatusView::Pass),
    {
        TestResult {
            name: String::from_str(name),
            file: None,
            line: None,
            status: TestStatus::Pass,
            duration: None,
            output: None,
        }
    }

    /// Create a new failing test result.
    pub fn fail(name: &str, message: Option<&str>) -> (r: Self)
        ensures
            r@ == fresh_result(
                name@,
                StatusView::Fail(
                    match message {
                        Some(m) => Some(m@),
                        None => None,
                    },
                ),
            ),
    {
        let msg = match message {
            Some(m) => Some(String::from_str(m)),
            None => None,
        };
        TestResult {
            name: String::from_str(name),
            file: None,
            line: None,
            status: TestStatus::Fail(msg),
            duration: None,
            output: None,
        }
    }

    /// Create a new skipped test result.
    pub fn skip(name: &str) -> (r: Self)
        ensures
            r@ == fresh_result(name@, StatusView::Skip),
    {
        TestResult {
            name: String::from_str(name),
            file: None,
            line: None,
            status: TestStatus::Skip,
            duration: None,
            output: None,
        }
    }

    /// Set the file path.
    pub fn with_file(self, file: &str) -> (r: Self)
        ensures
            r@ == (ResultView { file: Some(file@), ..self@ }),
    {
        let mut s = self;
        s.file = Some(String::from_str(file));
        s
    }

    /// Set the line number.
    pub fn with_line(self, line: usize) -> (r: Self)
        ensures
            r@ == (ResultView { line: Some(line), ..self@ }),
    {
        let mut s = self;
        s.line = Some(line);
        s
    }

    /// Set the duration.
    pub fn with_duration(self, duration: Duration) -> (r: Self)
        ensures
            r@ == (ResultView { duration: Some(duration), ..self@ }),
    {
        let mut s = self;
        s.duration = Some(duration);
        s
    }

    /// Set the raw output.
    pub fn with_output(self, output: &str) -> (r: Self)
        ensures
            r@ == (ResultView { output: Some(output@), ..self@ }),
    {
        let mut s = self;
        s.output = Some(String::from_str(output));
        s
    }

    /// The result as one display line, e.g. `ok basic PASS (10.00ms)`.
    pub fn display_string(&self) -> (r: String)
        ensures
            r@ == result_text(self@),
    {
        let mut s = String::from_str(self.status.sign());
        push_str(&mut s, " ");
        push_str(&mut s, self.name.as_str());
        push_str(&mut s, " ");
        let st = self.status.display_string();
        push_str(&mut s, st.as_str());
        match self.duration {
            Some(d) => {
                push_str(&mut s, " (");
                let t = duration_text(d);
                push_str(&mut s, t.as_str());
                push_str(&mut s, ")");
            },
            None => {},
        }
        s
    }
}


/// A collection of test results from a single run.
#[derive(Debug, Clone)]
pub struct TestSuite {
    /// Individual test results.
    pub results: Vec<TestResult>,
    /// Total wall-clock time for the suite.
    pub duration: Option<Duration>,
}

/// The mathematical value of a [`TestSuite`].
pub struct SuiteView {
    pub results: Seq<ResultView>,
    pub duration: Option<Duration>,
}

/// The views of a sequence of results.
pub open spec fn result_views(v: Seq<TestResult>) -> Seq<ResultView> {
    v.map_values(|r: TestResult| r@)
}

impl View for TestSuite {
    type V = SuiteView;

    open spec fn view(&self) -> SuiteView {
        SuiteView { results: result_views(self.results@), duration: self.duration }
    }
}

/// Whether a result passed.
pub open spec fn is_passed(r: ResultView) -> bool {
    r.status is Pass
}

/// Whether a result failed.
pub open spec fn is_failed(r: ResultView) -> bool {
    r.status is Fail
}

/// Whether a result was skipped.
pub open spec fn is_skipped(r: ResultView) -> bool {
    r.status is Skip
}

/// The passed results, in order.
pub open spec fn passed_of(rs: Seq<ResultView>) -> Seq<ResultView> {
    rs.filter(|r: ResultView| is_passed(r))
}

/// The failed results, in order.
pub open spec fn failed_of(rs: Seq<ResultView>) -> Seq<ResultView> {
    rs.filter(|r: ResultView| is_failed(r))
}

/// The skipped results, in order.
pub open spec fn skipped_of(rs: Seq<ResultView>) -> Seq<ResultView> {
    rs.filter(|r: ResultView| is_skipped(r))
}

/// `"<n> <word>"` as the one piece of a summary, or nothing when `n` is zero.
pub open spec fn count_phrase(n: nat, word: Seq<char>) -> Seq<Seq<char>> {
    if n > 0 {
        seq![decimal(n) + " "@ + word]
    } else {
        seq![]
    }
}

/// The summary line of a suite: the nonzero counts joined by `, `, then the
/// duration in parentheses when it is known.
pub open spec fn summary_text(s: SuiteView) -> Seq<char> {
    let parts = count_phrase(passed_of(s.results).len(), "passed"@) + count_phrase(
        failed_of(s.results).len(),
        "failed"@,
    ) + count_phrase(skipped_of(s.results).len(), "skipped"@);
    let body = join(parts, ", "@);
    match s.duration {
        Some(d) => body + " ("@ + duration_label(d) + ")"@,
        None => body,
    }
}

/// The display lines of the results, each ended by a newline.
pub open spec fn results_block(rs: Seq<ResultView>) -> Seq<char>
    decreases rs.len(),
{
    if rs.len() == 0 {
        seq![]
    } else {
        results_block(rs.drop_last()) + result_text(rs.last()) + "\n"@
    }
}

/// The display text of a suite: one line per result, `---`, the summary.
pub open spec fn suite_text(s: SuiteView) -> Seq<char> {
    results_block(s.results) + "---\n"@ + summary_text(s)
}

/// Filtering the first `i + 1` elements adds the `i`-th one when it passes
/// the predicate.
pub proof fn lemma_filter_take_step<A>(s: Seq<A>, pred: spec_fn(A) -> bool, i: int)
    requires
        0 <= i < s.len(),
    ensures
        s.take(i + 1).filter(pred) == (if pred(s[i]) {
            s.take(i).filter(pred).push(s[i])
        } else {
            s.take(i).filter(pred)
        }),
{
    reveal(Seq::filter);
    assert(s.take(i + 1).drop_last() =~= s.take(i));
}

/// The views of a sequence of references to results.
pub open spec fn ref_views(v: Seq<&TestResult>) -> Seq<ResultView> {
    v.map_values(|r: &TestResult| r@)
}

impl TestSuite {
    /// Create an empty test suite.
    pub fn new() -> (r: Self)
        ensures
            r@.results == Seq::<ResultView>::empty(),
            r@.duration is None,
    {
        let r = TestSuite { results: Vec::new(), duration: None };
        assert(r@.results =~= Seq::<ResultView>::empty());
        r
    }

    /// Add a test result.
    pub fn push(&mut self, result: TestResult)
        ensures
            final(self)@.results == old(self)@.results.push(result@),
            final(self)@.duration == old(self)@.duration,
    {
        let ghost r = result@;
        self.results.push(result);
        assert(final(self)@.results =~= old(self)@.results.push(r));
    }

    /// Number of tests that passed.
    pub fn passed(&self) -> (n: usize)
        ensures
            n == passed_of(self@.results).len(),
    {
        let ghost rs = self@.results;
        let mut n: usize = 0;
        let mut i: usize = 0;
        assert(rs.take(0).filter(|r: ResultView| is_passed(r)) =~= Seq::<ResultView>::empty())
            by {
            reveal(Seq::filter);
        }
        while i < self.results.len()
            invariant
                rs == self@.results,
                i <= rs.len(),
                n == rs.take(i as int).filter(|r: ResultView| is_passed(r)).len(),
                n <= i,
            decreases rs.len() - i,
        {
            proof {
                lemma_filter_take_step(rs, |r: ResultView| is_passed(r), i as int);
            }
            match self.results[i].status {
                TestStatus::Pass => {
                    n = n + 1;
                },
                _ => {},
            }
            i = i + 1;
        }
        assert(rs.take(rs.len() as int) =~= rs);
        n
    }

    /// Number of tests that failed.
    pub fn failed(&self) -> (n: usize)
        ensures
            n == failed_of(self@.results).len(),
    {
        let ghost rs = self@.results;
        let mut n: usize = 0;
        let mut i: usize = 0;
        assert(rs.take(0).filter(|r: ResultView| is_failed(r)) =~= Seq::<ResultView>::empty())
            by {
            reveal(Seq::filter);
        }
        while i < self.results.len()
            invariant
                rs == self@.results,
                i <= rs.len(),
                n == rs.take(i as int).filter(|r: ResultView| is_failed(r)).len(),
                n <= i,
            decreases rs.len() - i,
        {
            proof {
                lemma_filter_take_step(rs, |r: ResultView| is_failed(r), i as int);
            }
            match self.results[i].status {
                TestStatus::Fail(_) => {
                    n = n + 1;
                },
                _ => {},
            }
            i = i + 1;
        }
        assert(rs.take(rs.len() as int) =~= rs);
        n
    }

    /// Number of tests that were skipped.
    pub fn skipped(&self) -> (n: usize)
        ensures
            n == skipped_of(self@.results).len(),
    {
        let ghost rs = self@.results;
        let mut n: usize = 0;
        let mut i: usize = 0;
        assert(rs.take(0).filter(|r: ResultView| is_skipped(r)) =~= Seq::<ResultView>::empty())
            by {
            reveal(Seq::filter);
        }
        while i < self.results.len()
            invariant
                rs == self@.results,
                i <= rs.len(),
                n == rs.take(i as int).filter(|r: ResultView| is_skipped(r)).len(),
                n <= i,
            decreases rs.len() - i,
        {
            proof {
                lemma_filter_take_step(rs, |r: ResultView| is_skipped(r), i as int);
            }
            match self.results[i].status {
                TestStatus::Skip => {
                    n = n + 1;
                },
                _ => {},
            }
            i = i + 1;
        }
        assert(rs.take(rs.len() as int) =~= rs);
        n
    }

    /// Total number of tests.
    pub fn total(&self) -> (n: usize)
        ensures
            n == self@.results.len(),
    {
        self.results.len()
    }

    /// Whether all tests passed (no failures).
    pub fn all_passed(&self) -> (r: bool)
        ensures
            r == (failed_of(self@.results).len() == 0),
    {
        self.failed() == 0
    }

    /// Get only the failed results.
    pub fn failures(&self) -> (r: Vec<&TestResult>)
        ensures
            ref_views(r@) == failed_of(self@.results),
    {
        let ghost rs = self@.results;
        let mut r: Vec<&TestResult> = Vec::new();
        let mut i: usize = 0;
        assert(rs.take(0).filter(|r: ResultView| is_failed(r)) =~= Seq::<ResultView>::empty())
            by {
            reveal(Seq::filter);
        }
        assert(ref_views(r@) =~= Seq::<ResultView>::empty());
        while i < self.results.len()
            invariant
                rs == self@.results,
                i <= rs.len(),
                ref_views(r@) == rs.take(i as int).filter(|r: ResultView| is_failed(r)),
            decreases rs.len() - i,
        {
            proof {
                lemma_filter_take_step(rs, |r: ResultView| is_failed(r), i as int);
            }
            let item = &self.results[i];
            match item.status {
                TestStatus::Fail(_) => {
                    let ghost before = ref_views(r@);
                    r.push(item);
                    assert(ref_views(r@) =~= before.push(rs[i as int]));
                },
                _ => {},
            }
            i = i + 1;
        }
        assert(rs.take(rs.len() as int) =~= rs);
        r
    }

    /// Summary line suitable for display in a status bar or notification.
    pub fn summary(&self) -> (r: String)
        ensures
            r@ == summary_text(self@),
    {
        let mut parts: Vec<String> = Vec::new();
        let passed = self.passed();
        let failed = self.failed();
        let skipped = self.skipped();
        let ghost p0 = string_views(parts@);
        assert(p0 =~= Seq::<Seq<char>>::empty());
        if passed > 0 {
            let mut s = String::new();
            push_decimal(&mut s, passed);
            push_str(&mut s, " ");
            push_str(&mut s, "passed");
            let ghost sv = s@;
            parts.push(s);
            assert(string_views(parts@) =~= p0.push(sv));
        }
        let ghost p1 = string_views(parts@);
        assert(p1 =~= count_phrase(passed as nat, "passed"@));
        if failed > 0 {
            let mut s = String::new();
            push_decimal(&mut s, failed);
            push_str(&mut s, " ");
            push_str(&mut s, "failed");
            let ghost sv = s@;
            parts.push(s);
            assert(string_views(parts@) =~= p1.push(sv));
        }
        let ghost p2 = string_views(parts@);
        assert(p2 =~= p1 + count_phrase(failed as nat, "failed"@));
        if skipped > 0 {
            let mut s = String::new();
            push_decimal(&mut s, skipped);
            push_str(&mut s, " ");
            push_str(&mut s, "skipped");
            let ghost sv = s@;
            parts.push(s);
            assert(string_views(parts@) =~= p2.push(sv));
        }
        assert(string_views(parts@) =~= p2 + count_phrase(skipped as nat, "skipped"@));
        let mut summary = join_strings(&parts, ", ");
        match self.duration {
            Some(d) => {
                push_str(&mut summary, " (");
                let t = duration_text(d);
                push_str(&mut summary, t.as_str());
                push_str(&mut summary, ")");
            },
            None => {},
        }
        summary
    }

    /// The suite as display text: a line per result, a `---` line, and the
    /// summary.
    pub fn display_string(&self) -> (r: String)
        ensures
            r@ == suite_text(self@),
    {
        let ghost rs = self@.results;
        let mut s = String::new();
        let mut i: usize = 0;
        assert(rs.take(0) =~= Seq::<ResultView>::empty());
        while i < self.results.len()
            invariant
                rs == self@.results,
                i <= rs.len(),
                s@ == results_block(rs.take(i as int)),
            decreases rs.len() - i,
        {
            assert(rs.take(i + 1).drop_last() =~= rs.take(i as int));
            let line = self.results[i].display_string();
            push_str(&mut s, line.as_str());
            push_str(&mut s, "\n");
            i = i + 1;
        }
        assert(rs.take(rs.len() as int) =~= rs);
        push_str(&mut s, "---\n");
        let summary = self.summary();
        push_str(&mut s, summary.as_str());
        s
    }
}

impl Default for TestSuite {
    fn default() -> (r: Self)
        ensures
            r@.results == Seq::<ResultView>::empty(),
            r@.duration is None,
    {
        TestSuite::new()
    }
}


/// No result is still running.
pub open spec fn all_finished(rs: Seq<ResultView>) -> bool {
    forall|i: int| 0 <= i < rs.len() ==> !(#[trigger] rs[i].status is Running)
}

/// Results that are all finished stay so when more finished ones follow.
pub proof fn lemma_all_finished_append(a: Seq<ResultView>, b: Seq<ResultView>)
    requires
        all_finished(a),
        all_finished(b),
    ensures
        all_finished(a + b),
{
    assert forall|i: int| 0 <= i < (a + b).len() implies !(#[trigger] (a + b)[i].status is Running) by {
        if i >= a.len() {
            assert((a + b)[i] == b[i - a.len()]);
        }
    }
}

/// Every result is counted at most once: the passed, failed and skipped
/// counts add up to at most the total, and to exactly the total when no
/// result is still running.
pub proof fn law_counts_partition(rs: Seq<ResultView>)
    ensures
        passed_of(rs).len() + failed_of(rs).len() + skipped_of(rs).len() <= rs.len(),
        (forall|i: int| 0 <= i < rs.len() ==> !(#[trigger] rs[i].status is Running)) ==> passed_of(
            rs,
        ).len() + failed_of(rs).len() + skipped_of(rs).len() == rs.len(),
    decreases rs.len(),
{
    reveal(Seq::filter);
    if rs.len() > 0 {
        law_counts_partition(rs.drop_last());
        assert forall|i: int| 0 <= i < rs.drop_last().len() implies rs.drop_last()[i] == rs[i] by {}
    }
}

/// Adding a result to a suite appends it to the results of its own status
/// and leaves the other two unchanged.
pub proof fn law_push_counts(rs: Seq<ResultView>, r: ResultView)
    ensures
        passed_of(rs.push(r)) == (if is_passed(r) {
            passed_of(rs).push(r)
        } else {
            passed_of(rs)
        }),
        failed_of(rs.push(r)) == (if is_failed(r) {
            failed_of(rs).push(r)
        } else {
            failed_of(rs)
        }),
        skipped_of(rs.push(r)) == (if is_skipped(r) {
            skipped_of(rs).push(r)
        } else {
            skipped_of(rs)
        }),
{
    reveal(Seq::filter);
    assert(rs.push(r).drop_last() =~= rs);
}

} // verus!
