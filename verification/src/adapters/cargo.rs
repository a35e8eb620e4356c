//! Cargo test adapter for Rust projects.
//!
//! Detects `#[test]` and `#[tokio::test]` attributes, runs `cargo test`,
//! and parses the standard libtest output format.

use vstd::prelude::*;
use vstd::string::StringExecFns;
use crate::adapters::{found_views, make_command, plain_command, CommandView, FoundTest, FoundView, TestCommand};
use crate::results::{
    all_finished, failed_of, fresh_result, lemma_all_finished_append, law_counts_partition, passed_of,
    result_views, skipped_of, ResultView, StatusView, SuiteView, TestResult, TestSuite,
};
use crate::text::{
    chars_of, eq_str, has_prefix, ident_prefix, lines, lines_of, rfind, rfind_chars, starts_with_str,
    strip_prefix, strip_prefix_str, strip_suffix, strip_suffix_str, string_of, take_ident, total_len,
    lemma_lines_total_len, lemma_total_len_take, trim, trim_chars, trim_end_char, trim_end_char_chars,
    views, copy_range, opt_chars, occurs_at, split_lines, strip_cr, lemma_lines_of_joined,
    lemma_trim_strip_cr, lemma_split_lines_count, lemma_other_prefix,
};

verus! {

/// Adapter for Rust projects using `cargo test`.
pub struct CargoAdapter;

/// The arguments of a command, as the views of strings.
pub open spec fn arg_views(args: Seq<String>) -> Seq<Seq<char>> {
    args.map_values(|a: String| a@)
}

// ---------------------------------------------------------------------------
// File path to module filter

/// `s` with every `\` replaced by `/`.
pub open spec fn backslash_to_slash(s: Seq<char>) -> Seq<char> {
    s.map_values(|c: char| if c == '\\' { '/' } else { c })
}

/// `s` with every `/` replaced by `::`.
pub open spec fn slash_to_path_sep(s: Seq<char>) -> Seq<char>
    decreases s.len(),
{
    if s.len() == 0 {
        seq![]
    } else {
        slash_to_path_sep(s.drop_last()) + if s.last() == '/' {
            seq![':', ':']
        } else {
            seq![s.last()]
        }
    }
}

/// The module filter for a file path: without a leading `src/`, without the
/// `.rs` extension (none when there is none), none for the crate roots `lib`
/// and `main`, without a trailing `/mod`, and with `/` written as `::`.
pub open spec fn file_module(file: Seq<char>) -> Option<Seq<char>> {
    let path = backslash_to_slash(file);
    let stripped = match strip_prefix(path, "src/"@) {
        Some(r) => r,
        None => path,
    };
    match strip_suffix(stripped, ".rs"@) {
        None => None,
        Some(without_ext) => if without_ext == "lib"@ || without_ext == "main"@ {
            None
        } else {
            let module = match strip_suffix(without_ext, "/mod"@) {
                Some(m) => m,
                None => without_ext,
            };
            Some(slash_to_path_sep(module))
        },
    }
}

/// Extract a module filter path from a file path.
///
/// Given `src/adapters/cargo.rs`, returns `"adapters::cargo"`.
/// Given `src/lib.rs` or `src/main.rs`, returns `None` (run all).
pub fn file_to_module(file: &str) -> (r: Option<String>)
    ensures
        r.deep_view() == file_module(file@),
{
    let f = chars_of(file);
    let mut path: Vec<char> = Vec::new();
    let mut i: usize = 0;
    while i < f.len()
        invariant
            i <= f@.len(),
            path@ == backslash_to_slash(f@.take(i as int)),
        decreases f@.len() - i,
    {
        path.push(if f[i] == '\\' { '/' } else { f[i] });
        i = i + 1;
        assert(path@ =~= backslash_to_slash(f@.take(i as int)));
    }
    assert(f@.take(f@.len() as int) =~= f@);
    let stripped = match strip_prefix_str(&path, "src/") {
        Some(r) => r,
        None => path,
    };
    let without_ext = match strip_suffix_str(&stripped, ".rs") {
        Some(w) => w,
        None => {
            return None;
        },
    };
    if eq_str(&without_ext, "lib") || eq_str(&without_ext, "main") {
        return None;
    }
    let module = match strip_suffix_str(&without_ext, "/mod") {
        Some(m) => m,
        None => without_ext,
    };
    let mut out = String::new();
    let mut k: usize = 0;
    assert(module@.take(0) =~= Seq::<char>::empty());
    while k < module.len()
        invariant
            k <= module@.len(),
            out@ == slash_to_path_sep(module@.take(k as int)),
        decreases module@.len() - k,
    {
        assert(module@.take(k + 1).drop_last() =~= module@.take(k as int));
        if module[k] == '/' {
            out.push(':');
            out.push(':');
        } else {
            out.push(module[k]);
        }
        k = k + 1;
        assert(out@ =~= slash_to_path_sep(module@.take(k as int)));
    }
    assert(module@.take(module@.len() as int) =~= module@);
    Some(out)
}

// ---------------------------------------------------------------------------
// Declarations

/// An identifier at the start of `rest`, if there is one.
pub open spec fn nonempty_ident(rest: Seq<char>) -> Option<Seq<char>> {
    let name = ident_prefix(rest);
    if name.len() == 0 {
        None
    } else {
        Some(name)
    }
}

/// The module name declared by a line `mod <name>...`.
pub open spec fn mod_decl(line: Seq<char>) -> Option<Seq<char>> {
    match strip_prefix(line, "mod "@) {
        Some(rest) => nonempty_ident(rest),
        None => None,
    }
}

/// What follows the first of `async fn `, `pub async fn `, `pub fn ` and
/// `fn ` that begins the line.
pub open spec fn fn_decl_rest(line: Seq<char>) -> Option<Seq<char>> {
    match strip_prefix(line, "async fn "@) {
        Some(r) => Some(r),
        None => match strip_prefix(line, "pub async fn "@) {
            Some(r) => Some(r),
            None => match strip_prefix(line, "pub fn "@) {
                Some(r) => Some(r),
                None => strip_prefix(line, "fn "@),
            },
        },
    }
}

/// The function name declared by a line `[pub] [async] fn <name>...`.
pub open spec fn fn_decl(line: Seq<char>) -> Option<Seq<char>> {
    match fn_decl_rest(line) {
        Some(rest) => nonempty_ident(rest),
        None => None,
    }
}

/// The identifier at the start of `rest`, if it is not empty.
fn nonempty_ident_chars(rest: &[char]) -> (r: Option<Vec<char>>)
    ensures
        opt_chars(r) == nonempty_ident(rest@),
{
    let name = take_ident(rest);
    if name.len() == 0 {
        None
    } else {
        Some(name)
    }
}

/// The module name declared by a trimmed line.
fn mod_decl_chars(line: &[char]) -> (r: Option<Vec<char>>)
    ensures
        opt_chars(r) == mod_decl(line@),
{
    match strip_prefix_str(line, "mod ") {
        Some(rest) => nonempty_ident_chars(&rest),
        None => None,
    }
}

/// The function name declared by a trimmed line.
fn fn_decl_chars(line: &[char]) -> (r: Option<Vec<char>>)
    ensures
        opt_chars(r) == fn_decl(line@),
{
    let rest = match strip_prefix_str(line, "async fn ") {
        Some(r) => r,
        None => match strip_prefix_str(line, "pub async fn ") {
            Some(r) => r,
            None => match strip_prefix_str(line, "pub fn ") {
                Some(r) => r,
                None => match strip_prefix_str(line, "fn ") {
                    Some(r) => r,
                    None => {
                        return None;
                    },
                },
            },
        },
    };
    nonempty_ident_chars(&rest)
}

/// A string holding the characters, when there are some.
fn opt_string(v: Option<Vec<char>>) -> (r: Option<String>)
    ensures
        r.deep_view() == opt_chars(v),
{
    match v {
        Some(c) => Some(string_of(&c)),
        None => None,
    }
}

/// Parse a module declaration like `mod tests {` and return the module name.
pub fn parse_mod_declaration(line: &str) -> (r: Option<String>)
    ensures
        r.deep_view() == mod_decl(line@),
{
    let l = chars_of(line);
    opt_string(mod_decl_chars(&l))
}

/// Parse a function declaration and extract the name.
///
/// Handles both `fn foo()` and `async fn foo()`.
pub fn parse_fn_declaration(line: &str) -> (r: Option<String>)
    ensures
        r.deep_view() == fn_decl(line@),
{
    let l = chars_of(line);
    opt_string(fn_decl_chars(&l))
}

// ---------------------------------------------------------------------------
// Finding tests in Rust source

/// The state of the scan over a Rust source file, line by line.
pub struct RustScan {
    /// Inside a `#[cfg(test)]` or `mod tests` module.
    pub in_module: bool,
    /// The name of that module.
    pub module: Option<Seq<char>>,
    /// A test attribute (or `#[cfg(test)]`) was seen and awaits its item.
    pub attr: bool,
    /// Braces opened and not closed so far.
    pub depth: int,
    /// The brace depth at the module's declaration.
    pub module_depth: int,
    /// The tests found so far.
    pub tests: Seq<FoundView>,
}

/// The scan state before the first line.
pub open spec fn rust_scan_start() -> RustScan {
    RustScan { in_module: false, module: None, attr: false, depth: 0, module_depth: 0, tests: seq![] }
}

/// One character's effect on the brace depth: a `}` that closes the test
/// module's scope leaves the module.
pub open spec fn rust_brace_step(s: RustScan, c: char) -> RustScan {
    if c == '{' {
        RustScan { depth: s.depth + 1, ..s }
    } else if c == '}' {
        if s.in_module && s.depth - 1 < s.module_depth {
            RustScan { depth: s.depth - 1, in_module: false, module: None, ..s }
        } else {
            RustScan { depth: s.depth - 1, ..s }
        }
    } else {
        s
    }
}

/// The effect of the characters of a line on the brace depth, in order.
pub open spec fn rust_braces(s: RustScan, line: Seq<char>) -> RustScan
    decreases line.len(),
{
    if line.len() == 0 {
        s
    } else {
        rust_brace_step(rust_braces(s, line.drop_last()), line.last())
    }
}

/// A trimmed line that marks the next function as a test.
pub open spec fn is_test_attr(t: Seq<char>) -> bool {
    ||| t == "#[test]"@
    ||| t == "#[tokio::test]"@
    ||| t == "#[rstest]"@
    ||| has_prefix(t, "#[test_case("@)
}

/// One line of the scan: braces first, then `#[cfg(test)]`, a test module
/// declaration, a test attribute, or the function an attribute marks.
pub open spec fn rust_line_step(st: RustScan, idx: usize, line: Seq<char>) -> RustScan {
    let t = trim(line);
    let s = rust_braces(st, line);
    if t == "#[cfg(test)]"@ {
        RustScan { attr: true, ..s }
    } else if (s.attr || has_prefix(t, "mod tests"@)) && mod_decl(t) is Some {
        RustScan { in_module: true, module: mod_decl(t), module_depth: s.depth, attr: false, ..s }
    } else if is_test_attr(t) {
        RustScan { attr: true, ..s }
    } else if s.attr {
        match fn_decl(t) {
            Some(name) => RustScan {
                tests: s.tests.push(FoundView { name, line: idx, module: s.module }),
                attr: false,
                ..s
            },
            None => if !has_prefix(t, "#"@) && t.len() > 0 {
                RustScan { attr: false, ..s }
            } else {
                s
            },
        }
    } else {
        s
    }
}

/// The scan state after the given lines.
pub open spec fn rust_scan(lines: Seq<Seq<char>>) -> RustScan
    decreases lines.len(),
{
    if lines.len() == 0 {
        rust_scan_start()
    } else {
        rust_line_step(rust_scan(lines.drop_last()), (lines.len() - 1) as usize, lines.last())
    }
}

/// The tests found in Rust source text.
pub open spec fn rust_tests(content: Seq<char>) -> Seq<FoundView> {
    rust_scan(lines_of(content)).tests
}

/// The executable scan state.
struct RustScanState {
    in_module: bool,
    module: Option<Vec<char>>,
    attr: bool,
    depth: i128,
    module_depth: i128,
    tests: Vec<FoundTest>,
}

impl View for RustScanState {
    type V = RustScan;

    closed spec fn view(&self) -> RustScan {
        RustScan {
            in_module: self.in_module,
            module: opt_chars(self.module),
            attr: self.attr,
            depth: self.depth as int,
            module_depth: self.module_depth as int,
            tests: found_views(self.tests@),
        }
    }
}

/// Applies the braces of one line to the scan state.
fn rust_braces_exec(st: &mut RustScanState, line: &[char], Ghost(bound): Ghost<int>)
    requires
        -bound <= old(st).depth <= bound,
        -bound <= old(st).module_depth <= bound,
        0 <= bound,
        bound + line@.len() <= usize::MAX,
    ensures
        final(st)@ == rust_braces(old(st)@, line@),
        -(bound + line@.len()) <= final(st).depth <= bound + line@.len(),
        -(bound + line@.len()) <= final(st).module_depth <= bound + line@.len(),
{
    let ghost s0 = st@;
    let mut k: usize = 0;
    assert(line@.take(0) =~= Seq::<char>::empty());
    while k < line.len()
        invariant
            k <= line@.len(),
            st@ == rust_braces(s0, line@.take(k as int)),
            -(bound + k) <= st.depth <= bound + k,
            -bound <= st.module_depth <= bound,
            bound + line@.len() <= usize::MAX,
        decreases line@.len() - k,
    {
        assert(line@.take(k + 1).drop_last() =~= line@.take(k as int));
        let c = line[k];
        if c == '{' {
            st.depth = st.depth + 1;
        } else if c == '}' {
            st.depth = st.depth - 1;
            if st.in_module && st.depth < st.module_depth {
                st.in_module = false;
                st.module = None;
            }
        }
        k = k + 1;
    }
    assert(line@.take(line@.len() as int) =~= line@);
}

/// Applies one line to the scan state.
fn rust_line_exec(st: &mut RustScanState, idx: usize, line: &[char], Ghost(bound): Ghost<int>)
    requires
        -bound <= old(st).depth <= bound,
        -bound <= old(st).module_depth <= bound,
        0 <= bound,
        bound + line@.len() <= usize::MAX,
    ensures
        final(st)@ == rust_line_step(old(st)@, idx, line@),
        -(bound + line@.len()) <= final(st).depth <= bound + line@.len(),
        -(bound + line@.len()) <= final(st).module_depth <= bound + line@.len(),
{
    let t = trim_chars(line);
    rust_braces_exec(st, line, Ghost(bound));
    if eq_str(&t, "#[cfg(test)]") {
        st.attr = true;
        return;
    }
    if st.attr || starts_with_str(&t, "mod tests") {
        match mod_decl_chars(&t) {
            Some(name) => {
                st.in_module = true;
                st.module = Some(name);
                st.module_depth = st.depth;
                st.attr = false;
                return;
            },
            None => {},
        }
    }
    if eq_str(&t, "#[test]") || eq_str(&t, "#[tokio::test]") || eq_str(&t, "#[rstest]")
        || starts_with_str(&t, "#[test_case(") {
        st.attr = true;
        return;
    }
    if st.attr {
        match fn_decl_chars(&t) {
            Some(name) => {
                let module = match &st.module {
                    Some(m) => Some(string_of(m)),
                    None => None,
                };
                let found = FoundTest { name: string_of(&name), line: idx, module };
                let ghost before = found_views(st.tests@);
                st.tests.push(found);
                assert(found_views(st.tests@) =~= before.push(found@));
                st.attr = false;
                return;
            },
            None => {},
        }
        if !starts_with_str(&t, "#") && t.len() > 0 {
            st.attr = false;
        }
    }
}

/// Find all test functions in Rust source code.
///
/// Recognizes:
/// - `#[test]`
/// - `#[tokio::test]`
/// - `#[rstest]`
/// - `#[cfg(test)]` module boundaries
pub fn find_rust_tests(content: &str) -> (r: Vec<FoundTest>)
    ensures
        found_views(r@) == rust_tests(content@),
{
    let text = chars_of(content);
    let ls = lines(&text);
    let ghost lv = views(ls@);
    proof {
        lemma_lines_total_len(text@);
    }
    let mut st = RustScanState {
        in_module: false,
        module: None,
        attr: false,
        depth: 0,
        module_depth: 0,
        tests: Vec::new(),
    };
    assert(found_views(st.tests@) =~= Seq::<FoundView>::empty());
    assert(st@ == rust_scan_start());
    let mut i: usize = 0;
    assert(lv.take(0) =~= Seq::<Seq<char>>::empty());
    while i < ls.len()
        invariant
            lv == views(ls@),
            lv == lines_of(content@),
            total_len(lv) <= text@.len(),
            text@.len() == text.len(),
            i <= ls@.len(),
            st@ == rust_scan(lv.take(i as int)),
            -total_len(lv.take(i as int)) <= st.depth <= total_len(lv.take(i as int)),
            -total_len(lv.take(i as int)) <= st.module_depth <= total_len(lv.take(i as int)),
        decreases ls@.len() - i,
    {
        proof {
            lemma_total_len_take(lv, i as int);
        }
        assert(lv.take(i + 1).drop_last() =~= lv.take(i as int));
        assert(lv[i as int] == ls@[i as int]@);
        rust_line_exec(&mut st, i, &ls[i], Ghost(total_len(lv.take(i as int)) as int));
        i = i + 1;
    }
    assert(lv.take(ls@.len() as int) =~= lv);
    st.tests
}

// ---------------------------------------------------------------------------
// Parsing `cargo test` output

/// A test result line after `test `, split at its last ` ... ` into the
/// test's name and its status word.
pub open spec fn test_line(rest: Seq<char>) -> Option<(Seq<char>, Seq<char>)> {
    match rfind(rest, " ... "@) {
        Some(i) => Some((rest.take(i as int), rest.skip((i + " ... "@.len()) as int))),
        None => None,
    }
}

/// The result a line of `cargo test` output reports, if it reports one:
/// `test <name> ... ok|FAILED|ignored`.
pub open spec fn cargo_line_result(line: Seq<char>) -> Option<ResultView> {
    match strip_prefix(trim(line), "test "@) {
        None => None,
        Some(rest) => match test_line(rest) {
            None => None,
            Some((name, status)) => if status == "ok"@ {
                Some(fresh_result(name, StatusView::Pass))
            } else if status == "FAILED"@ {
                Some(fresh_result(name, StatusView::Fail(None)))
            } else if status == "ignored"@ {
                Some(fresh_result(name, StatusView::Skip))
            } else {
                None
            },
        },
    }
}

/// The results reported by the given lines, in order.
pub open spec fn cargo_results(lines: Seq<Seq<char>>) -> Seq<ResultView>
    decreases lines.len(),
{
    if lines.len() == 0 {
        seq![]
    } else {
        cargo_results(lines.drop_last()) + match cargo_line_result(lines.last()) {
            Some(r) => seq![r],
            None => seq![],
        }
    }
}

/// Parse a single test result line after the `test ` prefix.
///
/// Input: `"foo::bar::baz ... ok"` -> `Some(("foo::bar::baz", "ok"))`
pub fn parse_test_line(line: &str) -> (r: Option<(String, String)>)
    ensures
        match r {
            Some((name, status)) => test_line(line@) == Some((name@, status@)),
            None => test_line(line@) is None,
        },
{
    let l = chars_of(line);
    match test_line_chars(&l) {
        Some((name, status)) => Some((string_of(&name), string_of(&status))),
        None => None,
    }
}

/// The name and status of a test result line after `test `.
fn test_line_chars(rest: &[char]) -> (r: Option<(Vec<char>, Vec<char>)>)
    ensures
        match r {
            Some((name, status)) => test_line(rest@) == Some((name@, status@)),
            None => test_line(rest@) is None,
        },
{
    let sep = chars_of(" ... ");
    match rfind_chars(rest, &sep) {
        Some(i) => {
            let n = rest.len();
            assert(occurs_at(rest@, sep@, i as int));
            assert(i + sep@.len() <= n);
            let j = i + sep.len();
            Some((copy_range(rest, 0, i), copy_range(rest, j, rest.len())))
        },
        None => None,
    }
}

/// The result a line of `cargo test` output reports.
fn cargo_line_result_exec(line: &[char]) -> (r: Option<TestResult>)
    ensures
        match r {
            Some(x) => cargo_line_result(line@) == Some(x@),
            None => cargo_line_result(line@) is None,
        },
{
    let t = trim_chars(line);
    let rest = match strip_prefix_str(&t, "test ") {
        Some(rest) => rest,
        None => {
            return None;
        },
    };
    match test_line_chars(&rest) {
        None => None,
        Some((name, status)) => {
            let n = string_of(&name);
            if eq_str(&status, "ok") {
                Some(TestResult::pass(n.as_str()))
            } else if eq_str(&status, "FAILED") {
                Some(TestResult::fail(n.as_str(), None))
            } else if eq_str(&status, "ignored") {
                Some(TestResult::skip(n.as_str()))
            } else {
                None
            }
        },
    }
}

/// Parse `cargo test` output into structured results.
///
/// Recognizes the standard libtest format:
/// ```text
/// test result::tests::it_works ... ok
/// test result::tests::it_fails ... FAILED
/// test result::tests::ignored ... ignored
/// ```
///
/// The suite's duration is not set here: the `finished in <secs>s` timing is
/// a decimal fraction, read by the caller from [`cargo_duration_texts`].
pub fn parse_cargo_output(output: &str) -> (r: TestSuite)
    ensures
        r@ == (SuiteView { results: cargo_results(lines_of(output@)), duration: None }),
{
    let text = chars_of(output);
    let ls = lines(&text);
    let ghost lv = views(ls@);
    let mut suite = TestSuite::new();
    let mut i: usize = 0;
    assert(lv.take(0) =~= Seq::<Seq<char>>::empty());
    while i < ls.len()
        invariant
            lv == views(ls@),
            lv == lines_of(output@),
            i <= ls@.len(),
            suite@.results == cargo_results(lv.take(i as int)),
            suite@.duration is None,
        decreases ls@.len() - i,
    {
        assert(lv.take(i + 1).drop_last() =~= lv.take(i as int));
        assert(lv[i as int] == ls@[i as int]@);
        match cargo_line_result_exec(&ls[i]) {
            Some(res) => {
                suite.push(res);
            },
            None => {},
        }
        i = i + 1;
    }
    assert(lv.take(ls@.len() as int) =~= lv);
    suite
}

/// The text of a duration like `1.23s` without surrounding white space and
/// trailing `s` characters: the decimal number of seconds.
pub open spec fn seconds_text(s: Seq<char>) -> Seq<char> {
    trim_end_char(trim(s), 's')
}

/// The seconds text a `finished in <secs>s` line holds, if it is one.
pub open spec fn cargo_duration_candidate(line: Seq<char>) -> Option<Seq<char>> {
    match strip_prefix(trim(line), "finished in "@) {
        Some(rest) => Some(seconds_text(rest)),
        None => None,
    }
}

/// The seconds texts of the `finished in` lines, from the last line to the
/// first.
pub open spec fn cargo_duration_candidates(lines: Seq<Seq<char>>) -> Seq<Seq<char>>
    decreases lines.len(),
{
    if lines.len() == 0 {
        seq![]
    } else {
        (match cargo_duration_candidate(lines.last()) {
            Some(t) => seq![t],
            None => seq![],
        }) + cargo_duration_candidates(lines.drop_last())
    }
}

/// The seconds text of a duration string like `"1.23s"`: trimmed and without
/// its trailing `s`.
pub fn duration_seconds_text(s: &str) -> (r: String)
    ensures
        r@ == seconds_text(s@),
{
    let c = chars_of(s);
    let t = trim_chars(&c);
    let u = trim_end_char_chars(&t, 's');
    string_of(&u)
}

/// The seconds texts of the `finished in` lines of `cargo test` output, from
/// the last such line to the first: the suite's duration is the first of them
/// that reads as a number of seconds.
pub fn cargo_duration_texts(output: &str) -> (r: Vec<String>)
    ensures
        arg_views(r@) == cargo_duration_candidates(lines_of(output@)),
{
    let text = chars_of(output);
    let ls = lines(&text);
    let ghost lv = views(ls@);
    let mut r: Vec<String> = Vec::new();
    let mut i: usize = ls.len();
    assert(lv.take(ls@.len() as int) =~= lv);
    assert(arg_views(r@) =~= Seq::<Seq<char>>::empty());
    while i > 0
        invariant
            lv == views(ls@),
            lv == lines_of(output@),
            i <= ls@.len(),
            arg_views(r@) + cargo_duration_candidates(lv.take(i as int))
                == cargo_duration_candidates(lv),
        decreases i,
    {
        let ghost before = arg_views(r@);
        assert(lv.take(i as int).drop_last() =~= lv.take(i - 1));
        assert(lv.take(i as int).last() == ls@[i - 1]@);
        let t = trim_chars(&ls[i - 1]);
        match strip_prefix_str(&t, "finished in ") {
            Some(rest) => {
                let a = trim_chars(&rest);
                let b = trim_end_char_chars(&a, 's');
                r.push(string_of(&b));
                assert(arg_views(r@) =~= before.push(b@));
                assert(before + cargo_duration_candidates(lv.take(i as int)) =~= arg_views(r@)
                    + cargo_duration_candidates(lv.take(i - 1)));
            },
            None => {},
        }
        i = i - 1;
    }
    assert(lv.take(0) =~= Seq::<Seq<char>>::empty());
    assert(arg_views(r@) =~= cargo_duration_candidates(lv));
    r
}

// ---------------------------------------------------------------------------
// The adapter

impl CargoAdapter {
    /// Whether this adapter handles the given file type: `rust`.
    pub fn detect(&self, filetype: &str) -> (r: bool)
        ensures
            r == (filetype@ == "rust"@),
    {
        crate::text::str_eq(filetype, "rust")
    }

    /// Scan source code and return all test functions found.
    pub fn find_tests(&self, content: &str) -> (r: Vec<FoundTest>)
        ensures
            found_views(r@) == rust_tests(content@),
    {
        find_rust_tests(content)
    }

    /// `cargo test -- <name> --exact --nocapture`.
    pub fn build_command(&self, test_name: &str, _file: &str) -> (c: TestCommand)
        ensures
            c@ == plain_command(
                "cargo"@,
                seq!["test"@, "--"@, test_name@, "--exact"@, "--nocapture"@],
            ),
    {
        let mut args = Vec::new();
        args.push(String::from_str("test"));
        args.push(String::from_str("--"));
        args.push(String::from_str(test_name));
        args.push(String::from_str("--exact"));
        args.push(String::from_str("--nocapture"));
        assert(arg_views(args@) =~= seq!["test"@, "--"@, test_name@, "--exact"@, "--nocapture"@]);
        make_command("cargo", args)
    }

    /// `cargo test -- <module> --nocapture` for a module file, and
    /// `cargo test` for a crate root or a file that is not Rust.
    pub fn build_file_command(&self, file: &str) -> (c: TestCommand)
        ensures
            c@ == plain_command(
                "cargo"@,
                match file_module(file@) {
                    Some(m) => seq!["test"@, "--"@, m, "--nocapture"@],
                    None => seq!["test"@],
                },
            ),
    {
        let module = file_to_module(file);
        let mut args = Vec::new();
        args.push(String::from_str("test"));
        match module {
            Some(m) => {
                args.push(String::from_str("--"));
                let ghost mv = m@;
                args.push(m);
                args.push(String::from_str("--nocapture"));
                assert(arg_views(args@) =~= seq!["test"@, "--"@, mv, "--nocapture"@]);
            },
            None => {
                assert(arg_views(args@) =~= seq!["test"@]);
            },
        }
        make_command("cargo", args)
    }

    /// `cargo test -- --nocapture`.
    pub fn build_suite_command(&self) -> (c: TestCommand)
        ensures
            c@ == plain_command("cargo"@, seq!["test"@, "--"@, "--nocapture"@]),
    {
        let mut args = Vec::new();
        args.push(String::from_str("test"));
        args.push(String::from_str("--"));
        args.push(String::from_str("--nocapture"));
        assert(arg_views(args@) =~= seq!["test"@, "--"@, "--nocapture"@]);
        make_command("cargo", args)
    }
}


// ---------------------------------------------------------------------------
// Laws

/// The braces of a line change no found test.
pub proof fn lemma_rust_braces_keep_tests(s: RustScan, line: Seq<char>)
    ensures
        rust_braces(s, line).tests == s.tests,
    decreases line.len(),
{
    if line.len() > 0 {
        lemma_rust_braces_keep_tests(s, line.drop_last());
    }
}

/// One line of the scan keeps the tests found so far, and adds at most the
/// function declared on that line, under that line's index.
pub proof fn lemma_rust_line_step_tests(st: RustScan, idx: usize, line: Seq<char>)
    ensures
        ({
            let r = rust_line_step(st, idx, line).tests;
            ||| r == st.tests
            ||| {
                &&& r.len() == st.tests.len() + 1
                &&& r.drop_last() == st.tests
                &&& r.last().line == idx
                &&& fn_decl(trim(line)) == Some(r.last().name)
            }
        }),
{
    lemma_rust_braces_keep_tests(st, line);
    let t = trim(line);
    let s = rust_braces(st, line);
    if t != "#[cfg(test)]"@ && !((s.attr || has_prefix(t, "mod tests"@)) && mod_decl(t) is Some)
        && !is_test_attr(t) && s.attr {
        if let Some(name) = fn_decl(t) {
            assert(rust_line_step(st, idx, line).tests.drop_last() =~= st.tests);
        }
    }
}

/// Every test the Rust scan finds is declared, as a function, on its own
/// line; the tests come in strictly increasing line order.
pub proof fn lemma_rust_scan_sound(ls: Seq<Seq<char>>)
    requires
        ls.len() <= usize::MAX,
    ensures
        forall|k: int|
            0 <= k < rust_scan(ls).tests.len() ==> {
                let t = #[trigger] rust_scan(ls).tests[k];
                &&& t.line < ls.len()
                &&& fn_decl(trim(ls[t.line as int])) == Some(t.name)
            },
        forall|j: int, k: int|
            0 <= j < k < rust_scan(ls).tests.len() ==> #[trigger] rust_scan(ls).tests[j].line
                < #[trigger] rust_scan(ls).tests[k].line,
    decreases ls.len(),
{
    if ls.len() > 0 {
        let prev = ls.drop_last();
        lemma_rust_scan_sound(prev);
        lemma_rust_line_step_tests(rust_scan(prev), (ls.len() - 1) as usize, ls.last());
        let old_tests = rust_scan(prev).tests;
        let new_tests = rust_scan(ls).tests;
        assert(forall|i: int| 0 <= i < prev.len() ==> prev[i] == ls[i]);
        assert forall|k: int| 0 <= k < old_tests.len() implies old_tests[k].line < prev.len()
            by {
            assert(old_tests[k] == old_tests[k]);
        }
        if new_tests != old_tests {
            assert forall|k: int| 0 <= k < new_tests.len() implies {
                let t = #[trigger] new_tests[k];
                &&& t.line < ls.len()
                &&& fn_decl(trim(ls[t.line as int])) == Some(t.name)
            } by {
                if k < old_tests.len() {
                    assert(new_tests[k] == old_tests[k]);
                }
            }
            assert forall|j: int, k: int| 0 <= j < k < new_tests.len() implies #[trigger] new_tests[j].line
                < #[trigger] new_tests[k].line by {
                assert(new_tests[j] == old_tests[j]);
                assert(old_tests[j].line < prev.len());
                if k < old_tests.len() {
                    assert(new_tests[k] == old_tests[k]);
                }
            }
        }
    }
}

/// Every test that `find_rust_tests` reports is a function declared on the
/// reported line (0-based) of the source, and the reported lines strictly
/// increase.
pub proof fn law_rust_tests_declared(content: Seq<char>)
    requires
        content.len() <= usize::MAX,
    ensures
        forall|k: int|
            0 <= k < rust_tests(content).len() ==> {
                let t = #[trigger] rust_tests(content)[k];
                &&& t.line < lines_of(content).len()
                &&& fn_decl(trim(lines_of(content)[t.line as int])) == Some(t.name)
            },
        forall|j: int, k: int|
            0 <= j < k < rust_tests(content).len() ==> #[trigger] rust_tests(content)[j].line
                < #[trigger] rust_tests(content)[k].line,
{
    lemma_split_lines_count(content);
    lemma_rust_scan_sound(lines_of(content));
}

/// The results of two runs of lines are those of the first then those of
/// the second.
pub proof fn lemma_cargo_results_append(x: Seq<Seq<char>>, y: Seq<Seq<char>>)
    ensures
        cargo_results(x + y) == cargo_results(x) + cargo_results(y),
    decreases y.len(),
{
    if y.len() == 0 {
        assert(x + y =~= x);
        assert(cargo_results(x) + Seq::<ResultView>::empty() =~= cargo_results(x));
    } else {
        lemma_cargo_results_append(x, y.drop_last());
        assert((x + y).drop_last() =~= x + y.drop_last());
        assert((x + y).last() == y.last());
    }
}

/// The output of a run is its stdout, a newline and its stderr: the results
/// read from it are those of stdout followed by those of stderr.
pub proof fn law_cargo_results_of_joined_output(stdout: Seq<char>, stderr: Seq<char>)
    ensures
        cargo_results(lines_of(stdout + "\n"@ + stderr)) == cargo_results(lines_of(stdout))
            + cargo_results(lines_of(stderr)),
{
    reveal_strlit("\n");
    reveal_strlit("test ");
    assert("\n"@ =~= seq!['\n']);
    lemma_lines_of_joined(stdout, stderr);
    let (d, c) = split_lines(stdout);
    lemma_cargo_results_append(d.push(strip_cr(c)), lines_of(stderr));
    lemma_trim_strip_cr(c);
    assert(d.push(strip_cr(c)).drop_last() =~= d);
    if c.len() > 0 {
        assert(d.push(c).drop_last() =~= d);
    } else {
        assert(strip_cr(c) =~= Seq::<char>::empty());
        assert(trim(Seq::<char>::empty()) =~= Seq::<char>::empty());
    }
}


/// Every result read from cargo's output has finished: it passed, failed
/// or was skipped, so the suite's three counts add up to its total.
pub proof fn law_cargo_results_finished(lines: Seq<Seq<char>>)
    ensures
        all_finished(cargo_results(lines)),
        passed_of(cargo_results(lines)).len() + failed_of(cargo_results(lines)).len()
            + skipped_of(cargo_results(lines)).len() == cargo_results(lines).len(),
    decreases lines.len(),
{
    if lines.len() > 0 {
        law_cargo_results_finished(lines.drop_last());
        let tail = match cargo_line_result(lines.last()) {
            Some(r) => seq![r],
            None => seq![],
        };
        lemma_all_finished_append(cargo_results(lines.drop_last()), tail);
    }
    law_counts_partition(cargo_results(lines));
}

/// A line that declares a function starts with `a`, `p` or `f`.
proof fn lemma_fn_decl_first(t: Seq<char>)
    requires
        fn_decl(t) is Some,
    ensures
        t.len() > 0,
        t[0] == 'a' || t[0] == 'p' || t[0] == 'f',
{
    reveal_strlit("async fn ");
    reveal_strlit("pub async fn ");
    reveal_strlit("pub fn ");
    reveal_strlit("fn ");
    if has_prefix(t, "async fn "@) {
        assert(t.take(9)[0] == t[0]);
    } else if has_prefix(t, "pub async fn "@) {
        assert(t.take(13)[0] == t[0]);
    } else if has_prefix(t, "pub fn "@) {
        assert(t.take(7)[0] == t[0]);
    } else {
        assert(t.take(3)[0] == t[0]);
    }
}

/// The tests found in a prefix of the lines come first, in the same order,
/// among those found in all of them.
pub proof fn lemma_rust_scan_prefix(ls: Seq<Seq<char>>, j: int)
    requires
        0 <= j <= ls.len(),
    ensures
        rust_scan(ls.take(j)).tests.len() <= rust_scan(ls).tests.len(),
        forall|k: int|
            0 <= k < rust_scan(ls.take(j)).tests.len() ==> #[trigger] rust_scan(ls).tests[k]
                == rust_scan(ls.take(j)).tests[k],
    decreases ls.len(),
{
    if j == ls.len() {
        assert(ls.take(j) =~= ls);
    } else {
        let prev = ls.drop_last();
        lemma_rust_scan_prefix(prev, j);
        assert(prev.take(j) =~= ls.take(j));
        lemma_rust_line_step_tests(rust_scan(prev), (ls.len() - 1) as usize, ls.last());
        let a = rust_scan(prev).tests;
        let b = rust_scan(ls).tests;
        if b != a {
            assert forall|k: int| 0 <= k < a.len() implies b[k] == a[k] by {
                assert(b.drop_last()[k] == b[k]);
            }
        }
    }
}

/// Each attribute of the documented set — `#[test]`, `#[tokio::test]`,
/// `#[rstest]` and `#[test_case(..)]` — marks the function declared on the
/// next line as a test: the scan reports that function, under that line's
/// index (0-based).
pub proof fn law_test_attribute_marks_next_fn(ls: Seq<Seq<char>>, i: int, name: Seq<char>)
    requires
        ls.len() <= usize::MAX,
        0 <= i,
        i + 1 < ls.len(),
        trim(ls[i]) == "#[test]"@ || trim(ls[i]) == "#[tokio::test]"@ || trim(ls[i])
            == "#[rstest]"@ || has_prefix(trim(ls[i]), "#[test_case("@),
        fn_decl(trim(ls[i + 1])) == Some(name),
    ensures
        exists|k: int|
            0 <= k < rust_scan(ls).tests.len() && (#[trigger] rust_scan(ls).tests[k]).name == name
                && rust_scan(ls).tests[k].line == i + 1,
{
    reveal_strlit("#[cfg(test)]");
    reveal_strlit("#[test]");
    reveal_strlit("#[tokio::test]");
    reveal_strlit("#[rstest]");
    reveal_strlit("#[test_case(");
    reveal_strlit("mod ");
    reveal_strlit("mod tests");
    let t1 = trim(ls[i]);
    let t2 = trim(ls[i + 1]);
    // The attribute line sets the mark.
    let s0 = rust_scan(ls.take(i));
    assert(ls.take(i + 1).drop_last() =~= ls.take(i));
    assert(ls.take(i + 1).last() == ls[i]);
    assert(t1.len() > 0 && t1[0] == '#') by {
        if has_prefix(t1, "#[test_case("@) {
            assert(t1.take(12)[0] == t1[0]);
        }
    }
    if t1.len() > 0 {
        lemma_other_prefix(t1, "mod "@);
    }
    assert(is_test_attr(t1));
    let s1 = rust_scan(ls.take(i + 1));
    lemma_rust_braces_keep_tests(s0, ls[i]);
    assert(s1.attr);
    // The next line declares the function.
    lemma_fn_decl_first(t2);
    lemma_other_prefix(t2, "mod "@);
    lemma_other_prefix(t2, "#[test_case("@);
    assert(t2 != "#[cfg(test)]"@);
    assert(t2 != "#[test]"@ && t2 != "#[tokio::test]"@ && t2 != "#[rstest]"@);
    assert(mod_decl(t2) is None);
    assert(!is_test_attr(t2));
    assert(ls.take(i + 2).drop_last() =~= ls.take(i + 1));
    assert(ls.take(i + 2).last() == ls[i + 1]);
    let s2 = rust_scan(ls.take(i + 2));
    let sb = rust_braces(s1, ls[i + 1]);
    lemma_rust_braces_attr(s1, ls[i + 1]);
    assert(sb.attr);
    assert(s2.tests == sb.tests.push(
        FoundView { name, line: (i + 1) as usize, module: sb.module },
    ));
    lemma_rust_scan_prefix(ls, i + 2);
    let k = s2.tests.len() - 1;
    assert(rust_scan(ls).tests[k] == s2.tests[k]);
}

/// The braces of a line leave the attribute mark as it was.
pub proof fn lemma_rust_braces_attr(s: RustScan, line: Seq<char>)
    ensures
        rust_braces(s, line).attr == s.attr,
    decreases line.len(),
{
    if line.len() > 0 {
        lemma_rust_braces_attr(s, line.drop_last());
    }
}

} // verus!
