//! Jest/Vitest adapter for JavaScript and TypeScript projects.
//!
//! Detects `test(`, `it(`, and `describe(` blocks, runs tests via
//! `npx jest --json`, and parses the structured JSON output.

use vstd::prelude::*;
use vstd::string::StringExecFns;
use crate::adapters::{found_views, make_command, plain_command, FoundTest, FoundView, TestCommand};
use crate::adapters::cargo::arg_views;
use crate::json::{
    json_array, json_get, json_number, json_parse, json_str, json_view, parse_json, JsonValue,
    JsonView,
};
use crate::results::{
    all_finished, failed_of, fresh_result, lemma_all_finished_append, law_counts_partition, passed_of,
    skipped_of, ResultView, StatusView, SuiteView, TestResult, TestSuite,
};
use crate::text::{
    chars_eq, chars_of, copy_range, eq_str, find, find_chars, join, lemma_lines_total_len,
    lemma_total_len_take, lines, lines_of, occurs_at, opt_chars, push_str, rfind, rfind_chars,
    string_of, strip_prefix, strip_prefix_str, total_len, trim, trim_chars, trim_start,
    trim_start_chars, views, has_prefix, split_lines, strip_cr, lemma_lines_of_joined,
    lemma_trim_strip_cr, lemma_split_lines_count, lemma_rfind_none_of_find_none,
    lemma_find_from, lemma_trim_start_suffix, lemma_other_prefix,
};

verus! {

/// Adapter for JavaScript/TypeScript projects using Jest or Vitest.
pub struct JestAdapter;

// ---------------------------------------------------------------------------
// Call names

/// A quote that can open a test's name: `'`, `"` or a backtick.
pub open spec fn is_quote(c: char) -> bool {
    c == '\'' || c == '"' || c == '`'
}

/// The quoted first argument of a call `<prefix>(<quote>name<quote>...`,
/// with white space allowed before and after the parenthesis.
pub open spec fn call_name(line: Seq<char>, prefix: Seq<char>) -> Option<Seq<char>> {
    match strip_prefix(line, prefix) {
        None => None,
        Some(r1) => match strip_prefix(trim_start(r1), "("@) {
            None => None,
            Some(r2) => {
                let r3 = trim_start(r2);
                if r3.len() > 0 && is_quote(r3[0]) {
                    let body = r3.drop_first();
                    match find(body, seq![r3[0]]) {
                        Some(e) => Some(body.take(e as int)),
                        None => None,
                    }
                } else {
                    None
                }
            },
        },
    }
}

/// The quoted name of a call to `prefix`.
fn call_name_chars(line: &[char], prefix: &str) -> (r: Option<Vec<char>>)
    ensures
        opt_chars(r) == call_name(line@, prefix@),
{
    let r1 = match strip_prefix_str(line, prefix) {
        Some(r) => r,
        None => {
            return None;
        },
    };
    let t1 = trim_start_chars(&r1);
    let r2 = match strip_prefix_str(&t1, "(") {
        Some(r) => r,
        None => {
            return None;
        },
    };
    let r3 = trim_start_chars(&r2);
    if r3.len() == 0 {
        return None;
    }
    let q = r3[0];
    if !(q == '\'' || q == '"' || q == '`') {
        return None;
    }
    let body = copy_range(&r3, 1, r3.len());
    assert(body@ =~= r3@.drop_first());
    let mut quote: Vec<char> = Vec::new();
    quote.push(q);
    assert(quote@ =~= seq![q]);
    match find_chars(&body, &quote) {
        Some(e) => Some(copy_range(&body, 0, e)),
        None => None,
    }
}

/// Extract the string name from a call like `test("name", ...)` or `it('name', ...)`.
///
/// Also handles `test.only("name", ...)` patterns.
pub fn extract_call_name(line: &str, prefix: &str) -> (r: Option<String>)
    ensures
        r.deep_view() == call_name(line@, prefix@),
{
    let l = chars_of(line);
    match call_name_chars(&l, prefix) {
        Some(n) => Some(string_of(&n)),
        None => None,
    }
}

/// The name of a test call: the first of `test`, `it`, `test.only`,
/// `it.only`, `test.skip` and `it.skip` whose call the line makes.
pub open spec fn js_test_name(t: Seq<char>) -> Option<Seq<char>> {
    match call_name(t, "test"@) {
        Some(n) => Some(n),
        None => match call_name(t, "it"@) {
            Some(n) => Some(n),
            None => match call_name(t, "test.only"@) {
                Some(n) => Some(n),
                None => match call_name(t, "it.only"@) {
                    Some(n) => Some(n),
                    None => match call_name(t, "test.skip"@) {
                        Some(n) => Some(n),
                        None => call_name(t, "it.skip"@),
                    },
                },
            },
        },
    }
}

/// The name of a test call on a trimmed line.
fn js_test_name_chars(t: &[char]) -> (r: Option<Vec<char>>)
    ensures
        opt_chars(r) == js_test_name(t@),
{
    match call_name_chars(t, "test") {
        Some(n) => Some(n),
        None => match call_name_chars(t, "it") {
            Some(n) => Some(n),
            None => match call_name_chars(t, "test.only") {
                Some(n) => Some(n),
                None => match call_name_chars(t, "it.only") {
                    Some(n) => Some(n),
                    None => match call_name_chars(t, "test.skip") {
                        Some(n) => Some(n),
                        None => call_name_chars(t, "it.skip"),
                    },
                },
            },
        },
    }
}

// ---------------------------------------------------------------------------
// Finding tests in JavaScript source

/// The state of the scan over a JavaScript source file.
pub struct JsScan {
    /// The open `describe` blocks: name and brace depth at the call.
    pub stack: Seq<(Seq<char>, int)>,
    /// Braces opened and not closed so far.
    pub depth: int,
    /// The tests found so far.
    pub tests: Seq<FoundView>,
}

/// The open `describe` blocks after the depth dropped to `depth`: those
/// opened at `depth` or deeper are closed.
pub open spec fn pop_closed(stack: Seq<(Seq<char>, int)>, depth: int) -> Seq<(Seq<char>, int)>
    decreases stack.len(),
{
    if stack.len() > 0 && depth <= stack.last().1 {
        pop_closed(stack.drop_last(), depth)
    } else {
        stack
    }
}

/// One character's effect on the brace depth and the open blocks.
pub open spec fn js_brace_step(s: JsScan, c: char) -> JsScan {
    if c == '{' {
        JsScan { depth: s.depth + 1, ..s }
    } else if c == '}' {
        JsScan { depth: s.depth - 1, stack: pop_closed(s.stack, s.depth - 1), ..s }
    } else {
        s
    }
}

/// The effect of the characters of a line, in order.
pub open spec fn js_braces(s: JsScan, line: Seq<char>) -> JsScan
    decreases line.len(),
{
    if line.len() == 0 {
        s
    } else {
        js_brace_step(js_braces(s, line.drop_last()), line.last())
    }
}

/// One line of the scan: a `describe` call opens a block at the current
/// depth; then the braces; then a test call is recorded with the outermost
/// open block as its module.
pub open spec fn js_line_step(st: JsScan, idx: usize, line: Seq<char>) -> JsScan {
    let t = trim(line);
    let s0 = match call_name(t, "describe"@) {
        Some(n) => JsScan { stack: st.stack.push((n, st.depth)), ..st },
        None => st,
    };
    let s = js_braces(s0, line);
    if call_name(t, "describe"@) is Some {
        s
    } else {
        match js_test_name(t) {
            Some(name) => JsScan {
                tests: s.tests.push(
                    FoundView {
                        name,
                        line: idx,
                        module: if s.stack.len() > 0 {
                            Some(s.stack[0].0)
                        } else {
                            None
                        },
                    },
                ),
                ..s
            },
            None => s,
        }
    }
}

/// The scan state after the given lines.
pub open spec fn js_scan(lines: Seq<Seq<char>>) -> JsScan
    decreases lines.len(),
{
    if lines.len() == 0 {
        JsScan { stack: seq![], depth: 0, tests: seq![] }
    } else {
        js_line_step(js_scan(lines.drop_last()), (lines.len() - 1) as usize, lines.last())
    }
}

/// The tests found in JavaScript or TypeScript source text.
pub open spec fn js_tests(content: Seq<char>) -> Seq<FoundView> {
    js_scan(lines_of(content)).tests
}

/// The executable scan state.
struct JsScanState {
    stack: Vec<(Vec<char>, i128)>,
    depth: i128,
    tests: Vec<FoundTest>,
}

/// The view of the open blocks.
spec fn stack_view(v: Seq<(Vec<char>, i128)>) -> Seq<(Seq<char>, int)> {
    v.map_values(|e: (Vec<char>, i128)| (e.0@, e.1 as int))
}

impl View for JsScanState {
    type V = JsScan;

    closed spec fn view(&self) -> JsScan {
        JsScan {
            stack: stack_view(self.stack@),
            depth: self.depth as int,
            tests: found_views(self.tests@),
        }
    }
}

/// The depths stay within `-b..=b`.
spec fn js_bounded(st: JsScanState, b: int) -> bool {
    &&& -b <= st.depth <= b
    &&& forall|k: int| 0 <= k < st.stack@.len() ==> -b <= #[trigger] st.stack@[k].1 <= b
}

/// Closes the open blocks that a drop of the depth to `depth` ends.
fn pop_closed_exec(stack: &mut Vec<(Vec<char>, i128)>, depth: i128)
    ensures
        stack_view(final(stack)@) == pop_closed(stack_view(old(stack)@), depth as int),
        final(stack)@.len() <= old(stack)@.len(),
        forall|j: int| 0 <= j < final(stack)@.len() ==> #[trigger] final(stack)@[j] == old(stack)@[j],
{
    let ghost d = depth as int;
    let ghost orig = stack@;
    while stack.len() > 0 && depth <= stack[stack.len() - 1].1
        invariant
            pop_closed(stack_view(stack@), d) == pop_closed(stack_view(orig), d),
            stack@.len() <= orig.len(),
            forall|j: int| 0 <= j < stack@.len() ==> #[trigger] stack@[j] == orig[j],
            d == depth as int,
        decreases stack@.len(),
    {
        let ghost before = stack@;
        assert(stack_view(before).last() == (before.last().0@, before.last().1 as int));
        stack.pop();
        assert(stack@ =~= before.drop_last());
        assert(stack_view(stack@) =~= stack_view(before).drop_last());
    }
}

/// Applies the braces of one line to the scan state.
fn js_braces_exec(st: &mut JsScanState, line: &[char], Ghost(bound): Ghost<int>)
    requires
        js_bounded(*old(st), bound),
        0 <= bound,
        bound + line@.len() <= usize::MAX,
    ensures
        final(st)@ == js_braces(old(st)@, line@),
        js_bounded(*final(st), bound + line@.len()),
{
    let ghost s0 = st@;
    let mut k: usize = 0;
    assert(line@.take(0) =~= Seq::<char>::empty());
    while k < line.len()
        invariant
            k <= line@.len(),
            st@ == js_braces(s0, line@.take(k as int)),
            js_bounded(*st, bound + k),
            bound + line@.len() <= usize::MAX,
            0 <= bound,
        decreases line@.len() - k,
    {
        assert(line@.take(k + 1).drop_last() =~= line@.take(k as int));
        let c = line[k];
        if c == '{' {
            st.depth = st.depth + 1;
        } else if c == '}' {
            st.depth = st.depth - 1;
            let ghost before = st.stack@;
            pop_closed_exec(&mut st.stack, st.depth);
            assert forall|j: int| 0 <= j < st.stack@.len() implies -(bound + k + 1)
                <= #[trigger] st.stack@[j].1 <= bound + k + 1 by {
                assert(st.stack@[j] == before[j]);
            }
        }
        k = k + 1;
    }
    assert(line@.take(line@.len() as int) =~= line@);
}

/// Applies one line to the scan state.
fn js_line_exec(st: &mut JsScanState, idx: usize, line: &[char], Ghost(bound): Ghost<int>)
    requires
        js_bounded(*old(st), bound),
        0 <= bound,
        bound + line@.len() <= usize::MAX,
    ensures
        final(st)@ == js_line_step(old(st)@, idx, line@),
        js_bounded(*final(st), bound + line@.len()),
{
    let t = trim_chars(line);
    let describe = call_name_chars(&t, "describe");
    let is_describe = describe.is_some();
    match describe {
        Some(n) => {
            let ghost before = stack_view(st.stack@);
            let d = st.depth;
            st.stack.push((n, d));
            assert(stack_view(st.stack@) =~= before.push((n@, d as int)));
        },
        None => {},
    }
    js_braces_exec(st, line, Ghost(bound));
    if is_describe {
        return;
    }
    match js_test_name_chars(&t) {
        Some(name) => {
            let module = if st.stack.len() > 0 {
                Some(string_of(&st.stack[0].0))
            } else {
                None
            };
            let found = FoundTest { name: string_of(&name), line: idx, module };
            let ghost before = found_views(st.tests@);
            st.tests.push(found);
            assert(found_views(st.tests@) =~= before.push(found@));
        },
        None => {},
    }
}

/// Find test functions in JavaScript/TypeScript source code.
///
/// Recognizes:
/// - `test("name", ...)`  / `test('name', ...)`
/// - `it("name", ...)`    / `it('name', ...)`
/// - `describe("name", ...)` (as a group marker, not a runnable test)
/// - `test.only(...)`, `it.only(...)`, `test.skip(...)`, `it.skip(...)`
pub fn find_js_tests(content: &str) -> (r: Vec<FoundTest>)
    ensures
        found_views(r@) == js_tests(content@),
{
    let text = chars_of(content);
    let ls = lines(&text);
    let ghost lv = views(ls@);
    proof {
        lemma_lines_total_len(text@);
    }
    let mut st = JsScanState { stack: Vec::new(), depth: 0, tests: Vec::new() };
    assert(found_views(st.tests@) =~= Seq::<FoundView>::empty());
    assert(stack_view(st.stack@) =~= Seq::<(Seq<char>, int)>::empty());
    let mut i: usize = 0;
    assert(lv.take(0) =~= Seq::<Seq<char>>::empty());
    while i < ls.len()
        invariant
            lv == views(ls@),
            lv == lines_of(content@),
            total_len(lv) <= text@.len(),
            text@.len() == text.len(),
            i <= ls@.len(),
            st@ == js_scan(lv.take(i as int)),
            js_bounded(st, total_len(lv.take(i as int)) as int),
        decreases ls@.len() - i,
    {
        proof {
            lemma_total_len_take(lv, i as int);
        }
        assert(lv.take(i + 1).drop_last() =~= lv.take(i as int));
        assert(lv[i as int] == ls@[i as int]@);
        js_line_exec(&mut st, i, &ls[i], Ghost(total_len(lv.take(i as int)) as int));
        i = i + 1;
    }
    assert(lv.take(ls@.len() as int) =~= lv);
    st.tests
}

// ---------------------------------------------------------------------------
// Jest's text output

/// The result a line of Jest's text output reports: `✓ name (Xms)` or
/// `PASS name` passes (without the last ` (...)`), `✕ name` or `FAIL name`
/// fails, `○ name` or `skipped name` is skipped.
pub open spec fn jest_text_line_result(t: Seq<char>) -> Option<ResultView> {
    let pass_rest = match strip_prefix(t, "\u{2713} "@) {
        Some(r) => Some(r),
        None => strip_prefix(t, "PASS "@),
    };
    match pass_rest {
        Some(rest) => {
            let name = match rfind(rest, " ("@) {
                Some(i) => rest.take(i as int),
                None => rest,
            };
            Some(fresh_result(trim(name), StatusView::Pass))
        },
        None => {
            let fail_rest = match strip_prefix(t, "\u{2715} "@) {
                Some(r) => Some(r),
                None => strip_prefix(t, "FAIL "@),
            };
            match fail_rest {
                Some(rest) => Some(fresh_result(trim(rest), StatusView::Fail(None))),
                None => {
                    let skip_rest = match strip_prefix(t, "\u{25CB} "@) {
                        Some(r) => Some(r),
                        None => strip_prefix(t, "skipped "@),
                    };
                    match skip_rest {
                        Some(rest) => Some(fresh_result(trim(rest), StatusView::Skip)),
                        None => None,
                    }
                },
            }
        },
    }
}

/// The results reported by the given lines of Jest's text output.
pub open spec fn jest_text_results(lines: Seq<Seq<char>>) -> Seq<ResultView>
    decreases lines.len(),
{
    if lines.len() == 0 {
        seq![]
    } else {
        jest_text_results(lines.drop_last()) + match jest_text_line_result(trim(lines.last())) {
            Some(r) => seq![r],
            None => seq![],
        }
    }
}

/// The result a trimmed line of Jest's text output reports.
fn jest_text_line_exec(t: &[char]) -> (r: Option<TestResult>)
    ensures
        match r {
            Some(x) => jest_text_line_result(t@) == Some(x@),
            None => jest_text_line_result(t@) is None,
        },
{
    let pass_rest = match strip_prefix_str(t, "\u{2713} ") {
        Some(r) => Some(r),
        None => strip_prefix_str(t, "PASS "),
    };
    match pass_rest {
        Some(rest) => {
            let sep = chars_of(" (");
            let name = match rfind_chars(&rest, &sep) {
                Some(i) => copy_range(&rest, 0, i),
                None => rest,
            };
            let n = trim_chars(&name);
            let s = string_of(&n);
            return Some(TestResult::pass(s.as_str()));
        },
        None => {},
    }
    let fail_rest = match strip_prefix_str(t, "\u{2715} ") {
        Some(r) => Some(r),
        None => strip_prefix_str(t, "FAIL "),
    };
    match fail_rest {
        Some(rest) => {
            let n = trim_chars(&rest);
            let s = string_of(&n);
            return Some(TestResult::fail(s.as_str(), None));
        },
        None => {},
    }
    let skip_rest = match strip_prefix_str(t, "\u{25CB} ") {
        Some(r) => Some(r),
        None => strip_prefix_str(t, "skipped "),
    };
    match skip_rest {
        Some(rest) => {
            let n = trim_chars(&rest);
            let s = string_of(&n);
            Some(TestResult::skip(s.as_str()))
        },
        None => None,
    }
}

/// Fallback parser for non-JSON Jest output (e.g., when --json is not used).
pub fn parse_jest_text_output(output: &str) -> (r: TestSuite)
    ensures
        r@ == (SuiteView { results: jest_text_results(lines_of(output@)), duration: None }),
{
    let text = chars_of(output);
    let ls = lines(&text);
    let ghost lv = views(ls@);
    let mut suite = TestSuite::new();
    let mut i: usize = 0;
    assert(lv.take(0) =~= Seq::<Seq<char>>::empty());
    while i < ls.len()
        invariant
            lv == views(ls@),
            lv == lines_of(output@),
            i <= ls@.len(),
            suite@.results == jest_text_results(lv.take(i as int)),
            suite@.duration is None,
        decreases ls@.len() - i,
    {
        assert(lv.take(i + 1).drop_last() =~= lv.take(i as int));
        assert(lv[i as int] == ls@[i as int]@);
        let t = trim_chars(&ls[i]);
        match jest_text_line_exec(&t) {
            Some(res) => {
                suite.push(res);
            },
            None => {},
        }
        i = i + 1;
    }
    assert(lv.take(ls@.len() as int) =~= lv);
    suite
}


// ---------------------------------------------------------------------------
// Jest's JSON report

/// The string elements of an array, in order; other elements are left out.
pub open spec fn string_elements(xs: Seq<JsonView>) -> Seq<Seq<char>>
    decreases xs.len(),
{
    if xs.len() == 0 {
        seq![]
    } else {
        string_elements(xs.drop_last()) + match xs.last() {
            JsonView::Str(s) => seq![s],
            _ => seq![],
        }
    }
}

/// The name of an assertion: its `title` (`unknown` without one), after its
/// `ancestorTitles` joined by ` > `.
pub open spec fn assertion_name(a: JsonView) -> Seq<char> {
    let title = match json_str(json_get(a, "title"@)) {
        Some(t) => t,
        None => "unknown"@,
    };
    let ancestors = match json_array(json_get(a, "ancestorTitles"@)) {
        Some(xs) => string_elements(xs),
        None => seq![],
    };
    if ancestors.len() == 0 {
        title
    } else {
        join(ancestors, " > "@) + " > "@ + title
    }
}

/// The first of an assertion's `failureMessages`, when it is a string.
pub open spec fn first_failure_message(a: JsonView) -> Option<Seq<char>> {
    match json_array(json_get(a, "failureMessages"@)) {
        Some(xs) => if xs.len() > 0 {
            match xs[0] {
                JsonView::Str(m) => Some(m),
                _ => None,
            }
        } else {
            None
        },
        None => None,
    }
}

/// The result of one assertion: `passed` passes, `failed` fails with the
/// first failure message, `pending`, `skipped` and `todo` are skipped, any
/// other status gives none. A non-empty file name is recorded.
pub open spec fn assertion_result(a: JsonView, file: Seq<char>) -> Option<ResultView> {
    let status = match json_str(json_get(a, "status"@)) {
        Some(s) => s,
        None => ""@,
    };
    let name = assertion_name(a);
    let base = if status == "passed"@ {
        Some(fresh_result(name, StatusView::Pass))
    } else if status == "failed"@ {
        Some(fresh_result(name, StatusView::Fail(first_failure_message(a))))
    } else if status == "pending"@ || status == "skipped"@ || status == "todo"@ {
        Some(fresh_result(name, StatusView::Skip))
    } else {
        None
    };
    match base {
        Some(r) => Some(
            if file.len() > 0 {
                ResultView { file: Some(file), ..r }
            } else {
                r
            },
        ),
        None => None,
    }
}

/// The results of a file's assertions, in order.
pub open spec fn assertion_results(xs: Seq<JsonView>, file: Seq<char>) -> Seq<ResultView>
    decreases xs.len(),
{
    if xs.len() == 0 {
        seq![]
    } else {
        assertion_results(xs.drop_last(), file) + match assertion_result(xs.last(), file) {
            Some(r) => seq![r],
            None => seq![],
        }
    }
}

/// The results of one entry of `testResults`: none without an
/// `assertionResults` array.
pub open spec fn file_results(f: JsonView) -> Seq<ResultView> {
    let file = match json_str(json_get(f, "name"@)) {
        Some(n) => n,
        None => ""@,
    };
    match json_array(json_get(f, "assertionResults"@)) {
        Some(xs) => assertion_results(xs, file),
        None => seq![],
    }
}

/// The results of the entries of `testResults`, in order.
pub open spec fn files_results(fs: Seq<JsonView>) -> Seq<ResultView>
    decreases fs.len(),
{
    if fs.len() == 0 {
        seq![]
    } else {
        files_results(fs.drop_last()) + file_results(fs.last())
    }
}

/// The results a Jest JSON report holds: none without a `testResults` array.
pub open spec fn jest_json_results(v: JsonView) -> Seq<ResultView> {
    match json_array(json_get(v, "testResults"@)) {
        Some(fs) => files_results(fs),
        None => seq![],
    }
}

/// The text of a member that holds a string.
fn member_str<'a>(v: &'a JsonValue, key: &str) -> (r: Option<&'a String>)
    ensures
        match r {
            Some(s) => json_str(json_get(json_view(*v), key@)) == Some(s@),
            None => json_str(json_get(json_view(*v), key@)) is None,
        },
{
    match v.get(key) {
        Some(x) => x.as_str(),
        None => None,
    }
}

/// The elements of a member that holds an array.
fn member_array<'a>(v: &'a JsonValue, key: &str) -> (r: Option<&'a Vec<JsonValue>>)
    ensures
        match r {
            Some(a) => json_array(json_get(json_view(*v), key@)) == Some(
                a@.map_values(|x: JsonValue| json_view(x)),
            ),
            None => json_array(json_get(json_view(*v), key@)) is None,
        },
{
    match v.get(key) {
        Some(x) => x.as_array(),
        None => None,
    }
}

/// The name of an assertion.
fn assertion_name_exec(a: &JsonValue) -> (r: String)
    ensures
        r@ == assertion_name(json_view(*a)),
{
    let title = match member_str(a, "title") {
        Some(t) => t.clone(),
        None => String::from_str("unknown"),
    };
    let mut ancestors: Vec<String> = Vec::new();
    match member_array(a, "ancestorTitles") {
        Some(xs) => {
            let ghost xv = xs@.map_values(|x: JsonValue| json_view(x));
            let mut i: usize = 0;
            assert(xv.take(0) =~= Seq::<JsonView>::empty());
            assert(arg_views(ancestors@) =~= Seq::<Seq<char>>::empty());
            while i < xs.len()
                invariant
                    xv == xs@.map_values(|x: JsonValue| json_view(x)),
                    i <= xs@.len(),
                    arg_views(ancestors@) == string_elements(xv.take(i as int)),
                decreases xs@.len() - i,
            {
                assert(xv.take(i + 1).drop_last() =~= xv.take(i as int));
                assert(xv.take(i + 1).last() == json_view(xs@[i as int]));
                match xs[i].as_str() {
                    Some(s) => {
                        let ghost before = arg_views(ancestors@);
                        ancestors.push(s.clone());
                        assert(arg_views(ancestors@) =~= before.push(s@));
                    },
                    None => {},
                }
                i = i + 1;
            }
            assert(xv.take(xs@.len() as int) =~= xv);
        },
        None => {
            assert(arg_views(ancestors@) =~= Seq::<Seq<char>>::empty());
        },
    }
    if ancestors.len() == 0 {
        title
    } else {
        let mut s = crate::text::join_strings(&ancestors, " > ");
        push_str(&mut s, " > ");
        push_str(&mut s, title.as_str());
        s
    }
}

/// The first failure message of an assertion.
fn first_failure_message_exec(a: &JsonValue) -> (r: Option<&String>)
    ensures
        match r {
            Some(m) => first_failure_message(json_view(*a)) == Some(m@),
            None => first_failure_message(json_view(*a)) is None,
        },
{
    match member_array(a, "failureMessages") {
        Some(xs) => {
            if xs.len() > 0 {
                assert(xs@.map_values(|x: JsonValue| json_view(x))[0] == json_view(xs@[0]));
                xs[0].as_str()
            } else {
                None
            }
        },
        None => None,
    }
}

/// The result of one assertion.
fn assertion_result_exec(a: &JsonValue, file: &String) -> (r: Option<TestResult>)
    ensures
        match r {
            Some(x) => assertion_result(json_view(*a), file@) == Some(x@),
            None => assertion_result(json_view(*a), file@) is None,
        },
{
    let status = match member_str(a, "status") {
        Some(s) => chars_of(s.as_str()),
        None => Vec::new(),
    };
    assert(status@ == match json_str(json_get(json_view(*a), "status"@)) {
        Some(s) => s,
        None => ""@,
    }) by {
        reveal_strlit("");
    }
    let name = assertion_name_exec(a);
    let base = if eq_str(&status, "passed") {
        TestResult::pass(name.as_str())
    } else if eq_str(&status, "failed") {
        let msg = match first_failure_message_exec(a) {
            Some(m) => Some(m.as_str()),
            None => None,
        };
        TestResult::fail(name.as_str(), msg)
    } else if eq_str(&status, "pending") || eq_str(&status, "skipped") || eq_str(&status, "todo") {
        TestResult::skip(name.as_str())
    } else {
        return None;
    };
    let fc = chars_of(file.as_str());
    if fc.len() > 0 {
        Some(base.with_file(file.as_str()))
    } else {
        Some(base)
    }
}

/// The results of one entry of `testResults`, appended to the suite.
fn push_file_results(suite: &mut TestSuite, f: &JsonValue)
    ensures
        final(suite)@ == (SuiteView {
            results: old(suite)@.results + file_results(json_view(*f)),
            ..old(suite)@
        }),
{
    let file = match member_str(f, "name") {
        Some(n) => n.clone(),
        None => String::new(),
    };
    assert(file@ == match json_str(json_get(json_view(*f), "name"@)) {
        Some(n) => n,
        None => ""@,
    }) by {
        reveal_strlit("");
    }
    let xs = match member_array(f, "assertionResults") {
        Some(xs) => xs,
        None => {
            assert(old(suite)@.results + file_results(json_view(*f)) =~= old(suite)@.results);
            return;
        },
    };
    let ghost xv = xs@.map_values(|x: JsonValue| json_view(x));
    let ghost r0 = suite@.results;
    let mut i: usize = 0;
    assert(xv.take(0) =~= Seq::<JsonView>::empty());
    assert(r0 + assertion_results(xv.take(0), file@) =~= r0);
    while i < xs.len()
        invariant
            xv == xs@.map_values(|x: JsonValue| json_view(x)),
            file_results(json_view(*f)) == assertion_results(xv, file@),
            i <= xs@.len(),
            suite@.results == r0 + assertion_results(xv.take(i as int), file@),
            suite@.duration == old(suite)@.duration,
            r0 == old(suite)@.results,
        decreases xs@.len() - i,
    {
        assert(xv.take(i + 1).drop_last() =~= xv.take(i as int));
        assert(xv.take(i + 1).last() == json_view(xs@[i as int]));
        let ghost before = suite@.results;
        match assertion_result_exec(&xs[i], &file) {
            Some(res) => {
                suite.push(res);
                assert(suite@.results =~= r0 + assertion_results(xv.take(i + 1), file@));
            },
            None => {
                assert(suite@.results =~= r0 + assertion_results(xv.take(i + 1), file@));
            },
        }
        i = i + 1;
    }
    assert(xv.take(xs@.len() as int) =~= xv);
}

/// The results a Jest JSON report holds.
pub fn jest_suite_from_json(report: &JsonValue) -> (r: TestSuite)
    ensures
        r@ == (SuiteView { results: jest_json_results(json_view(*report)), duration: None }),
{
    let mut suite = TestSuite::new();
    let fs = match member_array(report, "testResults") {
        Some(fs) => fs,
        None => {
            return suite;
        },
    };
    let ghost fv = fs@.map_values(|x: JsonValue| json_view(x));
    let mut i: usize = 0;
    assert(fv.take(0) =~= Seq::<JsonView>::empty());
    while i < fs.len()
        invariant
            fv == fs@.map_values(|x: JsonValue| json_view(x)),
            jest_json_results(json_view(*report)) == files_results(fv),
            i <= fs@.len(),
            suite@.results == files_results(fv.take(i as int)),
            suite@.duration is None,
        decreases fs@.len() - i,
    {
        assert(fv.take(i + 1).drop_last() =~= fv.take(i as int));
        assert(fv.take(i + 1).last() == json_view(fs@[i as int]));
        push_file_results(&mut suite, &fs[i]);
        i = i + 1;
    }
    assert(fv.take(fs@.len() as int) =~= fv);
    suite
}

/// The results of Jest output: the JSON report that starts at the first `{`,
/// or, when there is no `{` or serde_json refuses the text from there, the
/// results of the text output.
pub open spec fn jest_output_results(output: Seq<char>) -> Seq<ResultView> {
    match find(output, "{"@) {
        None => jest_text_results(lines_of(output)),
        Some(i) => match json_parse(output.skip(i as int)) {
            None => jest_text_results(lines_of(output)),
            Some(j) => jest_json_results(j),
        },
    }
}

/// The JSON report in Jest output, read from its first `{`.
fn jest_report(output: &[char]) -> (r: Option<JsonValue>)
    ensures
        match r {
            Some(j) => find(output@, "{"@) matches Some(i) && json_parse(output@.skip(i as int))
                == Some(json_view(j)),
            None => match find(output@, "{"@) {
                None => true,
                Some(i) => json_parse(output@.skip(i as int)) is None,
            },
        },
{
    let brace = chars_of("{");
    match find_chars(output, &brace) {
        Some(start) => {
            let rest = copy_range(output, start, output.len());
            assert(rest@ =~= output@.skip(start as int));
            let text = string_of(&rest);
            parse_json(text.as_str())
        },
        None => None,
    }
}

/// Parse Jest JSON output into structured results.
///
/// Jest `--json` output contains a top-level object with `testResults`
/// array, each containing `assertionResults`. Text before the first `{` is
/// skipped; output that holds no JSON report is read as Jest's text output.
///
/// The suite's duration is not set here: the report's timestamps are
/// floating-point numbers, handed to the caller by [`jest_timing_texts`].
pub fn parse_jest_output(output: &str) -> (r: TestSuite)
    ensures
        r@ == (SuiteView { results: jest_output_results(output@), duration: None }),
{
    let text = chars_of(output);
    match jest_report(&text) {
        Some(j) => jest_suite_from_json(&j),
        None => parse_jest_text_output(output),
    }
}

/// The texts of the report's `startTime` and of the last test file's
/// `endTime`, when both are numbers.
pub open spec fn jest_timing(v: JsonView) -> Option<(Seq<char>, Seq<char>)> {
    match json_number(json_get(v, "startTime"@)) {
        None => None,
        Some(start) => match json_array(json_get(v, "testResults"@)) {
            Some(fs) => if fs.len() > 0 {
                match json_number(json_get(fs.last(), "endTime"@)) {
                    Some(end) => Some((start, end)),
                    None => None,
                }
            } else {
                None
            },
            None => None,
        },
    }
}

/// The timing of the JSON report in Jest output, if it has one.
pub open spec fn jest_output_timing(output: Seq<char>) -> Option<(Seq<char>, Seq<char>)> {
    match find(output, "{"@) {
        None => None,
        Some(i) => match json_parse(output.skip(i as int)) {
            None => None,
            Some(j) => jest_timing(j),
        },
    }
}

/// The start and end timestamps (milliseconds, as the report writes them) of
/// the JSON report in Jest output: the suite took the difference when it is
/// positive.
pub fn jest_timing_texts(output: &str) -> (r: Option<(String, String)>)
    ensures
        match r {
            Some((s, e)) => jest_output_timing(output@) == Some((s@, e@)),
            None => jest_output_timing(output@) is None,
        },
{
    let text = chars_of(output);
    let report = match jest_report(&text) {
        Some(j) => j,
        None => {
            return None;
        },
    };
    let start = match report.get("startTime") {
        Some(x) => match x.as_number_text() {
            Some(s) => s.clone(),
            None => {
                return None;
            },
        },
        None => {
            return None;
        },
    };
    let fs = match member_array(&report, "testResults") {
        Some(fs) => fs,
        None => {
            return None;
        },
    };
    if fs.len() == 0 {
        return None;
    }
    let last = &fs[fs.len() - 1];
    assert(fs@.map_values(|x: JsonValue| json_view(x)).last() == json_view(*last));
    match last.get("endTime") {
        Some(x) => match x.as_number_text() {
            Some(e) => Some((start, e.clone())),
            None => None,
        },
        None => None,
    }
}

// ---------------------------------------------------------------------------
// The adapter

impl JestAdapter {
    /// Whether this adapter handles the given file type: `javascript`,
    /// `typescript`, `javascriptreact` or `typescriptreact`.
    pub fn detect(&self, filetype: &str) -> (r: bool)
        ensures
            r == (filetype@ == "javascript"@ || filetype@ == "typescript"@ || filetype@
                == "javascriptreact"@ || filetype@ == "typescriptreact"@),
    {
        crate::text::str_eq(filetype, "javascript") || crate::text::str_eq(filetype, "typescript")
            || crate::text::str_eq(filetype, "javascriptreact") || crate::text::str_eq(
            filetype,
            "typescriptreact",
        )
    }

    /// Scan source code and return all test calls found.
    pub fn find_tests(&self, content: &str) -> (r: Vec<FoundTest>)
        ensures
            found_views(r@) == js_tests(content@),
    {
        find_js_tests(content)
    }

    /// `npx jest --json --no-coverage --testPathPattern <file>
    /// --testNamePattern <name>`.
    pub fn build_command(&self, test_name: &str, file: &str) -> (c: TestCommand)
        ensures
            c@ == plain_command(
                "npx"@,
                seq![
                    "jest"@,
                    "--json"@,
                    "--no-coverage"@,
                    "--testPathPattern"@,
                    file@,
                    "--testNamePattern"@,
                    test_name@,
                ],
            ),
    {
        let mut args = Vec::new();
        args.push(String::from_str("jest"));
        args.push(String::from_str("--json"));
        args.push(String::from_str("--no-coverage"));
        args.push(String::from_str("--testPathPattern"));
        args.push(String::from_str(file));
        args.push(String::from_str("--testNamePattern"));
        args.push(String::from_str(test_name));
        assert(arg_views(args@) =~= seq![
            "jest"@,
            "--json"@,
            "--no-coverage"@,
            "--testPathPattern"@,
            file@,
            "--testNamePattern"@,
            test_name@,
        ]);
        make_command("npx", args)
    }

    /// `npx jest --json --no-coverage --testPathPattern <file>`.
    pub fn build_file_command(&self, file: &str) -> (c: TestCommand)
        ensures
            c@ == plain_command(
                "npx"@,
                seq!["jest"@, "--json"@, "--no-coverage"@, "--testPathPattern"@, file@],
            ),
    {
        let mut args = Vec::new();
        args.push(String::from_str("jest"));
        args.push(String::from_str("--json"));
        args.push(String::from_str("--no-coverage"));
        args.push(String::from_str("--testPathPattern"));
        args.push(String::from_str(file));
        assert(arg_views(args@) =~= seq![
            "jest"@,
            "--json"@,
            "--no-coverage"@,
            "--testPathPattern"@,
            file@,
        ]);
        make_command("npx", args)
    }

    /// `npx jest --json --no-coverage`.
    pub fn build_suite_command(&self) -> (c: TestCommand)
        ensures
            c@ == plain_command("npx"@, seq!["jest"@, "--json"@, "--no-coverage"@]),
    {
        let mut args = Vec::new();
        args.push(String::from_str("jest"));
        args.push(String::from_str("--json"));
        args.push(String::from_str("--no-coverage"));
        assert(arg_views(args@) =~= seq!["jest"@, "--json"@, "--no-coverage"@]);
        make_command("npx", args)
    }
}


// ---------------------------------------------------------------------------
// Laws

/// The braces of a line change no found test.
pub proof fn lemma_js_braces_keep_tests(s: JsScan, line: Seq<char>)
    ensures
        js_braces(s, line).tests == s.tests,
    decreases line.len(),
{
    if line.len() > 0 {
        lemma_js_braces_keep_tests(s, line.drop_last());
    }
}

/// One line of the scan keeps the tests found so far, and adds at most the
/// test call made on that line (one that is no `describe` call), under that
/// line's index.
pub proof fn lemma_js_line_step_tests(st: JsScan, idx: usize, line: Seq<char>)
    ensures
        ({
            let r = js_line_step(st, idx, line).tests;
            ||| r == st.tests
            ||| {
                &&& r.len() == st.tests.len() + 1
                &&& r.drop_last() == st.tests
                &&& r.last().line == idx
                &&& call_name(trim(line), "describe"@) is None
                &&& js_test_name(trim(line)) == Some(r.last().name)
            }
        }),
{
    let t = trim(line);
    let s0 = match call_name(t, "describe"@) {
        Some(n) => JsScan { stack: st.stack.push((n, st.depth)), ..st },
        None => st,
    };
    lemma_js_braces_keep_tests(s0, line);
    let r = js_line_step(st, idx, line).tests;
    if r != st.tests {
        assert(r.drop_last() =~= st.tests);
    }
}

/// Every test the JavaScript scan finds is a test call made on its own
/// line; the tests come in strictly increasing line order.
pub proof fn lemma_js_scan_sound(ls: Seq<Seq<char>>)
    requires
        ls.len() <= usize::MAX,
    ensures
        forall|k: int|
            0 <= k < js_scan(ls).tests.len() ==> {
                let t = #[trigger] js_scan(ls).tests[k];
                &&& t.line < ls.len()
                &&& call_name(trim(ls[t.line as int]), "describe"@) is None
                &&& js_test_name(trim(ls[t.line as int])) == Some(t.name)
            },
        forall|j: int, k: int|
            0 <= j < k < js_scan(ls).tests.len() ==> #[trigger] js_scan(ls).tests[j].line
                < #[trigger] js_scan(ls).tests[k].line,
    decreases ls.len(),
{
    if ls.len() > 0 {
        let prev = ls.drop_last();
        lemma_js_scan_sound(prev);
        lemma_js_line_step_tests(js_scan(prev), (ls.len() - 1) as usize, ls.last());
        let old_tests = js_scan(prev).tests;
        let new_tests = js_scan(ls).tests;
        assert(forall|i: int| 0 <= i < prev.len() ==> prev[i] == ls[i]);
        assert forall|k: int| 0 <= k < old_tests.len() implies old_tests[k].line < prev.len()
            by {
            assert(old_tests[k] == old_tests[k]);
        }
        if new_tests != old_tests {
            assert forall|k: int| 0 <= k < new_tests.len() implies {
                let t = #[trigger] new_tests[k];
                &&& t.line < ls.len()
                &&& call_name(trim(ls[t.line as int]), "describe"@) is None
                &&& js_test_name(trim(ls[t.line as int])) == Some(t.name)
            } by {
                if k < old_tests.len() {
                    assert(new_tests[k] == old_tests[k]);
                }
            }
            assert forall|j: int, k: int| 0 <= j < k < new_tests.len() implies #[trigger] new_tests[j].line
                < #[trigger] new_tests[k].line by {
                assert(new_tests[j] == old_tests[j]);
                assert(old_tests[j].line < prev.len());
                if k < old_tests.len() {
                    assert(new_tests[k] == old_tests[k]);
                }
            }
        }
    }
}

/// Every test that `find_js_tests` reports is a `test`/`it` call (no
/// `describe`) made on the reported line (0-based) of the source, and the
/// reported lines strictly increase.
pub proof fn law_js_tests_declared(content: Seq<char>)
    requires
        content.len() <= usize::MAX,
    ensures
        forall|k: int|
            0 <= k < js_tests(content).len() ==> {
                let t = #[trigger] js_tests(content)[k];
                &&& t.line < lines_of(content).len()
                &&& call_name(trim(lines_of(content)[t.line as int]), "describe"@) is None
                &&& js_test_name(trim(lines_of(content)[t.line as int])) == Some(t.name)
            },
        forall|j: int, k: int|
            0 <= j < k < js_tests(content).len() ==> #[trigger] js_tests(content)[j].line
                < #[trigger] js_tests(content)[k].line,
{
    lemma_split_lines_count(content);
    lemma_js_scan_sound(lines_of(content));
}

/// The results of two runs of lines are those of the first then those of
/// the second.
pub proof fn lemma_jest_text_results_append(x: Seq<Seq<char>>, y: Seq<Seq<char>>)
    ensures
        jest_text_results(x + y) == jest_text_results(x) + jest_text_results(y),
    decreases y.len(),
{
    if y.len() == 0 {
        assert(x + y =~= x);
        assert(jest_text_results(x) + Seq::<ResultView>::empty() =~= jest_text_results(x));
    } else {
        lemma_jest_text_results_append(x, y.drop_last());
        assert((x + y).drop_last() =~= x + y.drop_last());
        assert((x + y).last() == y.last());
    }
}

/// Read as text, the output of a run (its stdout, a newline and its
/// stderr) reports the results of stdout followed by those of stderr.
pub proof fn law_jest_text_results_of_joined_output(stdout: Seq<char>, stderr: Seq<char>)
    ensures
        jest_text_results(lines_of(stdout + "\n"@ + stderr)) == jest_text_results(
            lines_of(stdout),
        ) + jest_text_results(lines_of(stderr)),
{
    reveal_strlit("\n");
    assert("\n"@ =~= seq!['\n']);
    lemma_lines_of_joined(stdout, stderr);
    let (d, c) = split_lines(stdout);
    lemma_jest_text_results_append(d.push(strip_cr(c)), lines_of(stderr));
    lemma_trim_strip_cr(c);
    assert(d.push(strip_cr(c)).drop_last() =~= d);
    if c.len() > 0 {
        assert(d.push(c).drop_last() =~= d);
    } else {
        assert(strip_cr(c) =~= Seq::<char>::empty());
        assert(trim(Seq::<char>::empty()) =~= Seq::<char>::empty());
        let e = Seq::<char>::empty();
        assert(!has_prefix(e, "\u{2713} "@)) by { reveal_strlit("\u{2713} "); }
        assert(!has_prefix(e, "PASS "@)) by { reveal_strlit("PASS "); }
        assert(!has_prefix(e, "\u{2715} "@)) by { reveal_strlit("\u{2715} "); }
        assert(!has_prefix(e, "FAIL "@)) by { reveal_strlit("FAIL "); }
        assert(!has_prefix(e, "\u{25CB} "@)) by { reveal_strlit("\u{25CB} "); }
        assert(!has_prefix(e, "skipped "@)) by { reveal_strlit("skipped "); }
    }
}


/// Results read from Jest's text output have all finished.
pub proof fn lemma_jest_text_results_finished(lines: Seq<Seq<char>>)
    ensures
        all_finished(jest_text_results(lines)),
    decreases lines.len(),
{
    if lines.len() > 0 {
        lemma_jest_text_results_finished(lines.drop_last());
        let tail = match jest_text_line_result(trim(lines.last())) {
            Some(r) => seq![r],
            None => seq![],
        };
        lemma_all_finished_append(jest_text_results(lines.drop_last()), tail);
    }
}

/// Results read from a file's assertions have all finished.
pub proof fn lemma_assertion_results_finished(xs: Seq<JsonView>, file: Seq<char>)
    ensures
        all_finished(assertion_results(xs, file)),
    decreases xs.len(),
{
    if xs.len() > 0 {
        lemma_assertion_results_finished(xs.drop_last(), file);
        let tail = match assertion_result(xs.last(), file) {
            Some(r) => seq![r],
            None => seq![],
        };
        lemma_all_finished_append(assertion_results(xs.drop_last(), file), tail);
    }
}

/// Results read from the entries of a JSON report have all finished.
pub proof fn lemma_files_results_finished(fs: Seq<JsonView>)
    ensures
        all_finished(files_results(fs)),
    decreases fs.len(),
{
    if fs.len() > 0 {
        lemma_files_results_finished(fs.drop_last());
        let f = fs.last();
        let file = match json_str(json_get(f, "name"@)) {
            Some(n) => n,
            None => ""@,
        };
        match json_array(json_get(f, "assertionResults"@)) {
            Some(xs) => lemma_assertion_results_finished(xs, file),
            None => {},
        }
        lemma_all_finished_append(files_results(fs.drop_last()), file_results(f));
    }
}

/// Every result read from Jest's output, JSON report or text, has finished:
/// it passed, failed or was skipped, so the suite's three counts add up to
/// its total.
pub proof fn law_jest_results_finished(output: Seq<char>)
    ensures
        all_finished(jest_output_results(output)),
        passed_of(jest_output_results(output)).len() + failed_of(jest_output_results(output)).len()
            + skipped_of(jest_output_results(output)).len() == jest_output_results(output).len(),
{
    lemma_jest_text_results_finished(lines_of(output));
    match find(output, "{"@) {
        None => {},
        Some(i) => match json_parse(output.skip(i as int)) {
            None => {},
            Some(j) => match json_array(json_get(j, "testResults"@)) {
                Some(fs) => lemma_files_results_finished(fs),
                None => {},
            },
        },
    }
    law_counts_partition(jest_output_results(output));
}

/// Each line of Jest's text output adds at most one result, after those of
/// the lines before it: a line that reads `FAIL <r>` or `\u{2715} <r>` adds a
/// failure named `<r>` (trimmed), one that reads `skipped <r>` or
/// `\u{25CB} <r>` a skipped test, and one that reads `PASS <r>` or
/// `\u{2713} <r>`, with no ` (` in `<r>`, a pass; a line that starts with none
/// of these adds nothing. Without a `{` in the output, the text is all that
/// is read.
pub proof fn law_jest_text_line(ls: Seq<Seq<char>>, l: Seq<char>, r: Seq<char>)
    ensures
        trim(l) == "FAIL "@ + r || trim(l) == "\u{2715} "@ + r ==> jest_text_results(ls.push(l))
            == jest_text_results(ls).push(
            ResultView {
                name: trim(r),
                file: None,
                line: None,
                status: StatusView::Fail(None),
                duration: None,
                output: None,
            },
        ),
        trim(l) == "skipped "@ + r || trim(l) == "\u{25CB} "@ + r ==> jest_text_results(
            ls.push(l),
        ) == jest_text_results(ls).push(
            ResultView {
                name: trim(r),
                file: None,
                line: None,
                status: StatusView::Skip,
                duration: None,
                output: None,
            },
        ),
        (trim(l) == "PASS "@ + r || trim(l) == "\u{2713} "@ + r) && find(r, " ("@) is None
            ==> jest_text_results(ls.push(l)) == jest_text_results(ls).push(
            ResultView {
                name: trim(r),
                file: None,
                line: None,
                status: StatusView::Pass,
                duration: None,
                output: None,
            },
        ),
        !has_prefix(trim(l), "FAIL "@) && !has_prefix(trim(l), "\u{2715} "@) && !has_prefix(
            trim(l),
            "skipped "@,
        ) && !has_prefix(trim(l), "\u{25CB} "@) && !has_prefix(trim(l), "PASS "@) && !has_prefix(
            trim(l),
            "\u{2713} "@,
        ) ==> jest_text_results(ls.push(l)) == jest_text_results(ls),
        forall|output: Seq<char>|
            find(output, "{"@) is None ==> #[trigger] jest_output_results(output)
                == jest_text_results(lines_of(output)),
{
    reveal_strlit("FAIL ");
    reveal_strlit("\u{2715} ");
    reveal_strlit("skipped ");
    reveal_strlit("\u{25CB} ");
    reveal_strlit("PASS ");
    reveal_strlit("\u{2713} ");
    reveal_strlit(" (");
    let t = trim(l);
    assert(ls.push(l).drop_last() =~= ls);
    let pf = "FAIL "@;
    let xf = "\u{2715} "@;
    let sk = "skipped "@;
    let xs = "\u{25CB} "@;
    let ps = "PASS "@;
    let xp = "\u{2713} "@;
    if t.len() > 0 {
        lemma_other_prefix(t, pf);
        lemma_other_prefix(t, xf);
        lemma_other_prefix(t, sk);
        lemma_other_prefix(t, xs);
        lemma_other_prefix(t, ps);
        lemma_other_prefix(t, xp);
    }
    if t == pf + r {
        assert(t[0] == 'F');
        assert(t.take(5) =~= pf);
        assert(t.skip(5) =~= r);
    }
    if t == xf + r {
        assert(t[0] == '\u{2715}');
        assert(t.take(2) =~= xf);
        assert(t.skip(2) =~= r);
    }
    if t == sk + r {
        assert(t[0] == 's');
        assert(t.take(8) =~= sk);
        assert(t.skip(8) =~= r);
    }
    if t == xs + r {
        assert(t[0] == '\u{25CB}');
        assert(t.take(2) =~= xs);
        assert(t.skip(2) =~= r);
    }
    if t == ps + r {
        assert(t[0] == 'P');
        assert(t.take(5) =~= ps);
        assert(t.skip(5) =~= r);
    }
    if t == xp + r {
        assert(t[0] == '\u{2713}');
        assert(t.take(2) =~= xp);
        assert(t.skip(2) =~= r);
    }
    if find(r, " ("@) is None {
        lemma_rfind_none_of_find_none(r, " ("@);
    }
}

/// In `n <q> rest`, with no `q` in `n`, the first `q` stands right after `n`.
proof fn lemma_find_after(n: Seq<char>, q: char, rest: Seq<char>)
    requires
        !n.contains(q),
    ensures
        find(n + seq![q] + rest, seq![q]) == Some(n.len()),
{
    let body = n + seq![q] + rest;
    lemma_find_from(body, seq![q], 0);
    assert(occurs_at(body, seq![q], n.len() as int)) by {
        assert(body.subrange(n.len() as int, (n.len() + 1) as int) =~= seq![q]);
    }
    match find(body, seq![q]) {
        Some(k) => {
            if k < n.len() {
                assert(body.subrange(k as int, (k + 1) as int)[0] == n[k as int]);
                assert(n.contains(q));
            }
        },
        None => {},
    }
}

/// A call `<prefix>(<q><n><q>...` whose name `n` holds no `q` gives `n`.
proof fn lemma_call_name_of_call(prefix: Seq<char>, n: Seq<char>, q: char, rest: Seq<char>)
    requires
        is_quote(q),
        !n.contains(q),
    ensures
        call_name(prefix + "("@ + seq![q] + n + seq![q] + rest, prefix) == Some(n),
{
    reveal_strlit("(");
    let l = prefix + "("@ + seq![q] + n + seq![q] + rest;
    let r1 = "("@ + seq![q] + n + seq![q] + rest;
    let r2 = seq![q] + n + seq![q] + rest;
    let body = n + seq![q] + rest;
    assert(l.take(prefix.len() as int) =~= prefix);
    assert(l.skip(prefix.len() as int) =~= r1);
    assert(strip_prefix(l, prefix) == Some(r1));
    lemma_trim_start_suffix(r1);
    assert(r1[0] == '(');
    assert(trim_start(r1) == r1);
    assert(r1.take(1) =~= "("@);
    assert(r1.skip(1) =~= r2);
    assert(strip_prefix(r1, "("@) == Some(r2));
    lemma_trim_start_suffix(r2);
    assert(r2[0] == q);
    assert(trim_start(r2) == r2);
    assert(r2.drop_first() =~= body);
    lemma_find_after(n, q, rest);
    assert(body.take(n.len() as int) =~= n);
}

/// Every name found is a quoted span of the line that holds no character of
/// its own quote, closed by that quote.
proof fn lemma_call_name_span(line: Seq<char>, prefix: Seq<char>)
    ensures
        call_name(line, prefix) matches Some(m) ==> exists|k: int|
            0 <= k && k + m.len() + 1 < line.len() && is_quote(#[trigger] line[k])
                && line.subrange(k + 1, k + 1 + m.len()) == m && line[k + 1 + m.len()] == line[k]
                && !m.contains(line[k]),
{
    reveal_strlit("(");
    match call_name(line, prefix) {
        Some(m) => {
            let r1 = line.skip(prefix.len() as int);
            let t1 = trim_start(r1);
            lemma_trim_start_suffix(r1);
            let r2 = t1.skip(1);
            let r3 = trim_start(r2);
            lemma_trim_start_suffix(r2);
            let body = r3.drop_first();
            let e = find(body, seq![r3[0]]).unwrap();
            lemma_find_from(body, seq![r3[0]], 0);
            let k = line.len() - r3.len();
            assert(r3 =~= line.skip(k));
            assert(line[k] == r3[0]);
            assert(m =~= body.take(e as int));
            assert(body.subrange(e as int, (e + 1) as int)[0] == body[e as int]);
            assert(line.subrange(k + 1, k + 1 + m.len()) =~= m);
            assert(line[k + 1 + m.len()] == body[e as int]);
            assert forall|j: int| 0 <= j < m.len() implies m[j] != line[k] by {
                assert(!occurs_at(body, seq![r3[0]], j));
                if m[j] == line[k] {
                    assert(body.subrange(j, j + 1) =~= seq![r3[0]]);
                }
            }
            assert(is_quote(line[k]));
        },
        None => {},
    }
}

/// A test's name is the text between the opening quote and the first
/// quote of the same kind after it: a call `<prefix>(<q><n><q>...` whose name
/// `n` holds no `q` gives `n`, and every name found is a quoted span of the
/// line that holds no character of its own quote.
pub proof fn law_call_name(
    line: Seq<char>,
    prefix: Seq<char>,
    n: Seq<char>,
    q: char,
    rest: Seq<char>,
)
    ensures
        is_quote(q) && !n.contains(q) ==> call_name(
            prefix + "("@ + seq![q] + n + seq![q] + rest,
            prefix,
        ) == Some(n),
        call_name(line, prefix) matches Some(m) ==> exists|k: int|
            0 <= k && k + m.len() + 1 < line.len() && is_quote(#[trigger] line[k])
                && line.subrange(k + 1, k + 1 + m.len()) == m && line[k + 1 + m.len()] == line[k]
                && !m.contains(line[k]),
{
    if is_quote(q) && !n.contains(q) {
        lemma_call_name_of_call(prefix, n, q, rest);
    }
    lemma_call_name_span(line, prefix);
}

} // verus!
