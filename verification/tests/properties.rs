use shiren::adapters::cargo::{
    cargo_duration_texts, duration_seconds_text, find_rust_tests, parse_cargo_output,
    parse_fn_declaration, CargoAdapter,
};
use shiren::adapters::jest::{
    find_js_tests, jest_suite_from_json, jest_timing_texts, parse_jest_output,
    parse_jest_text_output,
};
use shiren::adapters::pytest::{find_python_tests, parse_pytest_output, pytest_duration_texts};
use shiren::adapters::{nearest_test, FoundTest, TestCommand};
use shiren::detect::{
    detect_from_extension, detect_in_ancestors, detect_in_dir, framework_for_extension, Framework,
    ProjectMarkers,
};
use shiren::json::JsonValue;
use shiren::results::{TestResult, TestStatus, TestSuite};
use shiren::runner::{format_command, RawOutput};
use shiren::text::{chars_of, is_whitespace, join_strings, lines, push_decimal, string_of};
use std::time::Duration;

fn names(suite: &TestSuite) -> Vec<String> {
    suite.results.iter().map(|r| r.name.clone()).collect()
}

fn no_markers() -> ProjectMarkers {
    ProjectMarkers {
        cargo_toml: false,
        go_mod: false,
        pyproject_toml: false,
        setup_py: false,
        setup_cfg: false,
        package_json: false,
    }
}

fn obj(members: Vec<(&str, JsonValue)>) -> JsonValue {
    JsonValue::Object(members.into_iter().map(|(k, v)| (k.to_string(), v)).collect())
}

fn s(text: &str) -> JsonValue {
    JsonValue::Str(text.to_string())
}

// --- text helpers against std ---

#[test]
fn whitespace_matches_std_for_every_char() {
    for c in (0u32..=0x10FFFF).filter_map(char::from_u32) {
        assert_eq!(is_whitespace(c), c.is_whitespace(), "char {:?}", c);
    }
}

#[test]
fn lines_match_str_lines() {
    let samples = [
        "",
        "\n",
        "a",
        "a\n",
        "a\nb",
        "a\r\nb\r\n",
        "\n\nx\n\n",
        "only\r",
        "x\r\r\ny",
        "caf\u{e9}\n\u{2713} ok",
    ];
    for sample in samples {
        let got: Vec<String> = lines(&chars_of(sample)).iter().map(|l| string_of(l)).collect();
        let want: Vec<String> = sample.lines().map(String::from).collect();
        assert_eq!(got, want, "input {:?}", sample);
    }
}

#[test]
fn chars_round_trip() {
    let text = "fn caf\u{e9}() { \u{2713} }";
    assert_eq!(string_of(&chars_of(text)), text);
}

#[test]
fn decimal_matches_to_string() {
    for n in [0usize, 1, 9, 10, 42, 100, 12345, 4_294_967_295, usize::MAX] {
        let mut out = String::from("n=");
        push_decimal(&mut out, n);
        assert_eq!(out, format!("n={n}"));
    }
}

#[test]
fn join_matches_std_join() {
    let parts = vec!["a".to_string(), String::new(), "b c".to_string()];
    assert_eq!(join_strings(&parts, ", "), parts.join(", "));
    assert_eq!(join_strings(&Vec::new(), "-"), "");
}

// --- results ---

#[test]
fn summary_exact_text() {
    let mut suite = TestSuite::new();
    assert_eq!(suite.summary(), "");
    suite.push(TestResult::pass("a"));
    suite.push(TestResult::pass("b"));
    assert_eq!(suite.summary(), "2 passed");
    suite.push(TestResult::skip("c"));
    assert_eq!(suite.summary(), "2 passed, 1 skipped");
    suite.push(TestResult::fail("d", Some("boom")));
    assert_eq!(suite.summary(), "2 passed, 1 failed, 1 skipped");
    suite.duration = Some(Duration::from_millis(1500));
    assert_eq!(suite.summary(), "2 passed, 1 failed, 1 skipped (1.50s)");
}

#[test]
fn summary_with_duration_only() {
    let suite = TestSuite { results: Vec::new(), duration: Some(Duration::from_millis(150)) };
    assert_eq!(suite.summary(), " (150.00ms)");
}

#[test]
fn running_results_are_not_counted() {
    let mut suite = TestSuite::new();
    let mut r = TestResult::pass("x");
    r.status = TestStatus::Running;
    suite.push(r);
    suite.push(TestResult::pass("y"));
    assert_eq!(suite.total(), 2);
    assert_eq!(suite.passed() + suite.failed() + suite.skipped(), 1);
    assert!(suite.all_passed());
}

#[test]
fn result_display_exact_text() {
    let r = TestResult::fail("t", Some("bad")).with_duration(Duration::from_millis(10));
    assert_eq!(r.display_string(), "FAIL t FAIL: bad (10.00ms)");
    assert_eq!(TestResult::skip("s").display_string(), "skip s SKIP");
}

#[test]
fn suite_display_exact_text() {
    let mut suite = TestSuite::new();
    suite.push(TestResult::pass("a"));
    suite.push(TestResult::fail("b", None));
    assert_eq!(suite.display_string(), "ok a PASS\nFAIL b FAIL\n---\n1 passed, 1 failed");
    assert_eq!(TestSuite::new().display_string(), "---\n");
}

#[test]
fn default_suite_is_empty() {
    let suite = TestSuite::default();
    assert_eq!(suite.total(), 0);
    assert!(suite.duration.is_none());
}

#[test]
fn failures_keep_order_and_messages() {
    let mut suite = TestSuite::new();
    suite.push(TestResult::fail("x", Some("m1")));
    suite.push(TestResult::pass("y"));
    suite.push(TestResult::fail("z", None));
    let f = suite.failures();
    assert_eq!(f.len(), 2);
    assert_eq!(f[0].status, TestStatus::Fail(Some("m1".into())));
    assert_eq!(f[1].name, "z");
}

// --- test discovery laws ---

#[test]
fn rust_tests_are_declared_on_their_lines() {
    let src = "#[test]\nfn a() {}\n\n#[cfg(test)]\nmod tests {\n    #[test]\n    fn b() {}\n    #[tokio::test]\n    async fn c() {}\n}\n";
    let found = find_rust_tests(src);
    let src_lines: Vec<&str> = src.lines().collect();
    assert_eq!(found.len(), 3);
    for w in found.windows(2) {
        assert!(w[0].line < w[1].line);
    }
    for t in &found {
        assert_eq!(parse_fn_declaration(src_lines[t.line].trim()), Some(t.name.clone()));
    }
    assert_eq!(found[2].module.as_deref(), Some("tests"));
}

#[test]
fn python_tests_are_declared_on_their_lines() {
    let src = "class TestA:\n    def test_x(self):\n        pass\n\ndef helper():\n    pass\n\nasync def test_y():\n    pass\n";
    let found = find_python_tests(src);
    let src_lines: Vec<&str> = src.lines().collect();
    assert_eq!(found.len(), 2);
    assert!(found[0].line < found[1].line);
    assert!(src_lines[found[0].line].contains("def test_x"));
    assert!(src_lines[found[1].line].contains("def test_y"));
    assert_eq!(found[0].module.as_deref(), Some("TestA"));
    assert_eq!(found[1].module, None);
}

#[test]
fn js_tests_are_declared_on_their_lines() {
    let src = "describe(\"outer\", () => {\n  it(\"one\", () => {});\n  test.skip('two', () => {});\n});\ntest(`three`, () => {});\n";
    let found = find_js_tests(src);
    let src_lines: Vec<&str> = src.lines().collect();
    let got: Vec<(&str, usize)> = found.iter().map(|t| (t.name.as_str(), t.line)).collect();
    assert_eq!(got, vec![("one", 1), ("two", 2), ("three", 4)]);
    for t in &found {
        assert!(src_lines[t.line].contains(t.name.as_str()));
    }
    assert_eq!(found[0].module.as_deref(), Some("outer"));
    assert_eq!(found[2].module, None);
}

#[test]
fn rust_unicode_identifier() {
    assert_eq!(parse_fn_declaration("fn caf\u{e9}_\u{3b1}() {"), Some("caf\u{e9}_\u{3b1}".to_string()));
    assert_eq!(parse_fn_declaration("fn () {"), None);
}

// --- output parsing laws ---

#[test]
fn cargo_combined_output_is_stdout_then_stderr() {
    let raw = RawOutput {
        stdout: "test a ... ok\ntest b ... FAILED".to_string(),
        stderr: "test c ... ignored\n".to_string(),
        exit_code: Some(101),
        duration: Duration::from_secs(1),
    };
    let combined = raw.combined();
    assert_eq!(combined, "test a ... ok\ntest b ... FAILED\ntest c ... ignored\n");
    let all = parse_cargo_output(&combined);
    let out = parse_cargo_output(&raw.stdout);
    let err = parse_cargo_output(&raw.stderr);
    assert_eq!(names(&all), [names(&out), names(&err)].concat());
    assert_eq!(all.passed() + all.failed() + all.skipped(), all.total());
}

#[test]
fn pytest_combined_output_is_stdout_then_stderr() {
    let stdout = "tests/a.py::test_one PASSED\r\n";
    let stderr = "tests/b.py::test_two FAILED";
    let all = parse_pytest_output(&format!("{stdout}\n{stderr}"));
    assert_eq!(names(&all), vec!["test_one", "test_two"]);
    assert_eq!(all.results[1].file.as_deref(), Some("tests/b.py"));
    assert_eq!(all.passed() + all.failed() + all.skipped(), all.total());
}

#[test]
fn jest_text_combined_output_is_stdout_then_stderr() {
    let all = parse_jest_text_output("PASS a.test.js\n\u{2715} breaks\n\u{25cb} later");
    assert_eq!(names(&all), vec!["a.test.js", "breaks", "later"]);
    assert_eq!((all.passed(), all.failed(), all.skipped()), (1, 1, 1));
}

#[test]
fn fill_duration_keeps_parsed_duration() {
    let raw = RawOutput {
        stdout: String::new(),
        stderr: String::new(),
        exit_code: None,
        duration: Duration::from_secs(3),
    };
    let parsed = TestSuite { results: Vec::new(), duration: Some(Duration::from_millis(7)) };
    assert_eq!(raw.fill_duration(parsed).duration, Some(Duration::from_millis(7)));
    assert_eq!(raw.fill_duration(TestSuite::new()).duration, Some(Duration::from_secs(3)));
}

// --- durations handed to the caller ---

#[test]
fn cargo_duration_candidates_last_first() {
    let out = "test a ... ok\n  finished in 0.50s\nx\nfinished in abcs \n";
    assert_eq!(cargo_duration_texts(out), vec!["abc".to_string(), "0.50".to_string()]);
    assert_eq!(duration_seconds_text("  1.5sss "), "1.5");
    assert!(cargo_duration_texts("no timing").is_empty());
}

#[test]
fn pytest_duration_candidates_last_first() {
    let out = "== 1 passed in 0.12s ==\nfoo\n=== 2 failed, 1 passed in 3.40s ===";
    assert_eq!(pytest_duration_texts(out), vec!["3.40".to_string(), "0.12".to_string()]);
    assert!(pytest_duration_texts("tests/a.py::t PASSED").is_empty());
}

#[test]
fn jest_timing_from_report() {
    let out = r#"noise {"startTime": 1000, "testResults": [{"endTime": 1200.5}, {"endTime": 1500}]}"#;
    assert_eq!(jest_timing_texts(out), Some(("1000".to_string(), "1500".to_string())));
    assert_eq!(jest_timing_texts(r#"{"startTime": 1, "testResults": []}"#), None);
    assert_eq!(jest_timing_texts("no json"), None);
}

// --- Jest JSON ---

#[test]
fn jest_suite_from_constructed_json() {
    let report = obj(vec![(
        "testResults",
        JsonValue::Array(vec![
            obj(vec![
                ("name", s("/p/a.test.js")),
                (
                    "assertionResults",
                    JsonValue::Array(vec![
                        obj(vec![
                            ("title", s("adds")),
                            ("status", s("passed")),
                            ("ancestorTitles", JsonValue::Array(vec![s("math"), JsonValue::Null, s("sum")])),
                        ]),
                        obj(vec![
                            ("title", s("breaks")),
                            ("status", s("failed")),
                            ("failureMessages", JsonValue::Array(vec![s("first"), s("second")])),
                        ]),
                        obj(vec![("status", s("todo"))]),
                        obj(vec![("title", s("odd")), ("status", s("disabled"))]),
                    ]),
                ),
            ]),
            obj(vec![("name", s("/p/b.test.js"))]),
            obj(vec![(
                "assertionResults",
                JsonValue::Array(vec![obj(vec![("title", s("t")), ("status", s("skipped"))])]),
            )]),
        ]),
    )]);
    let suite = jest_suite_from_json(&report);
    assert_eq!(names(&suite), vec!["math > sum > adds", "breaks", "unknown", "t"]);
    assert_eq!(suite.results[0].file.as_deref(), Some("/p/a.test.js"));
    assert_eq!(suite.results[1].status, TestStatus::Fail(Some("first".into())));
    assert_eq!(suite.results[2].status, TestStatus::Skip);
    assert_eq!(suite.results[3].file, None);
    assert!(suite.duration.is_none());
}

#[test]
fn jest_json_without_test_results_is_empty() {
    let suite = jest_suite_from_json(&obj(vec![("numTotalTests", JsonValue::Number("0".into()))]));
    assert_eq!(suite.total(), 0);
    assert_eq!(parse_jest_output("{\"success\": true}").total(), 0);
}

#[test]
fn jest_invalid_json_falls_back_to_text() {
    let suite = parse_jest_output("PASS a.test.js\n{ not json\n\u{2713} works (3 ms)");
    assert_eq!(names(&suite), vec!["a.test.js", "works"]);
}

// --- nearest test ---

#[test]
fn nearest_test_prefers_last_of_equal_lines() {
    let tests = vec![
        FoundTest { name: "a".into(), line: 5, module: None },
        FoundTest { name: "b".into(), line: 5, module: None },
        FoundTest { name: "c".into(), line: 9, module: None },
    ];
    assert_eq!(nearest_test(&tests, 7).map(|t| t.name.as_str()), Some("b"));
    assert_eq!(nearest_test(&tests, 9).map(|t| t.name.as_str()), Some("c"));
    assert!(nearest_test(&tests, 4).is_none());
    assert!(nearest_test(&[], 4).is_none());
}

// --- commands ---

#[test]
fn format_command_without_args() {
    let cmd = TestCommand { program: "pytest".into(), args: vec![], cwd: None, env: vec![] };
    assert_eq!(format_command(&cmd), "pytest");
}

#[test]
fn cargo_suite_command_text() {
    let cmd = CargoAdapter.build_suite_command();
    assert_eq!(format_command(&cmd), "cargo test -- --nocapture");
    assert!(cmd.cwd.is_none());
    assert!(cmd.env.is_empty());
}

// --- detection ---

#[test]
fn marker_priority() {
    let all = ProjectMarkers {
        cargo_toml: true,
        go_mod: true,
        pyproject_toml: true,
        setup_py: true,
        setup_cfg: true,
        package_json: true,
    };
    assert_eq!(detect_in_dir(&all), Some(Framework::Cargo));
    assert_eq!(detect_in_dir(&ProjectMarkers { cargo_toml: false, ..all }), Some(Framework::GoTest));
    assert_eq!(
        detect_in_dir(&ProjectMarkers { setup_cfg: true, package_json: true, ..no_markers() }),
        Some(Framework::Pytest)
    );
    assert_eq!(detect_in_dir(&ProjectMarkers { package_json: true, ..no_markers() }), Some(Framework::Jest));
    assert_eq!(detect_in_dir(&no_markers()), None);
}

#[test]
fn nearest_directory_wins() {
    let dirs = [
        no_markers(),
        ProjectMarkers { package_json: true, ..no_markers() },
        ProjectMarkers { cargo_toml: true, ..no_markers() },
    ];
    assert_eq!(detect_in_ancestors(&dirs), Some(Framework::Jest));
    assert_eq!(detect_in_ancestors(&dirs[2..]), Some(Framework::Cargo));
    assert_eq!(detect_in_ancestors(&[no_markers(), no_markers()]), None);
    assert_eq!(detect_in_ancestors(&[]), None);
}

#[test]
fn every_extension() {
    let cases = [
        ("rs", Some(Framework::Cargo)),
        ("py", Some(Framework::Pytest)),
        ("js", Some(Framework::Jest)),
        ("jsx", Some(Framework::Jest)),
        ("ts", Some(Framework::Jest)),
        ("tsx", Some(Framework::Jest)),
        ("mjs", Some(Framework::Jest)),
        ("cjs", Some(Framework::Jest)),
        ("go", Some(Framework::GoTest)),
        ("RS", None),
        ("", None),
        ("pyc", None),
    ];
    for (ext, want) in cases {
        assert_eq!(framework_for_extension(ext), want, "extension {ext:?}");
    }
}

#[test]
fn extension_of_hidden_and_dotted_files() {
    assert_eq!(detect_from_extension(std::path::Path::new(".rs")), None);
    assert_eq!(detect_from_extension(std::path::Path::new("a.b/c.test.ts")), Some(Framework::Jest));
    assert_eq!(detect_from_extension(std::path::Path::new("dir.py/")), Some(Framework::Pytest));
}

#[test]
fn parse_duration_from_output() {
    let output = "test a ... ok\nfinished in 1.23s\n";
    assert_eq!(cargo_duration_texts(output), vec!["1.23".to_string()]);
    assert!(parse_cargo_output(output).duration.is_none());
}

#[test]
fn seconds_text_of_duration_strings() {
    assert_eq!(duration_seconds_text("1.23s"), "1.23");
    assert_eq!(duration_seconds_text("0.05s"), "0.05");
    assert_eq!(duration_seconds_text("abc"), "abc");
}

#[test]
fn parse_duration_from_summary() {
    let output = "========== 3 passed in 1.23s ==========\n";
    assert_eq!(pytest_duration_texts(output), vec!["1.23".to_string()]);
    assert!(parse_pytest_output(output).duration.is_none());
}

#[test]
fn parse_duration_complex_summary() {
    let output = "===== 1 passed, 2 failed, 1 skipped in 5.67s =====\n";
    assert_eq!(pytest_duration_texts(output.trim()), vec!["5.67".to_string()]);
}

#[test]
fn parse_jest_timing() {
    let json = r#"{
  "startTime": 1000,
  "testResults": [{
    "name": "test.js",
    "endTime": 2500,
    "assertionResults": [
      {"title": "timed", "status": "passed", "ancestorTitles": []}
    ]
  }]
}"#;
    assert_eq!(jest_timing_texts(json), Some(("1000".to_string(), "2500".to_string())));
    let suite = parse_jest_output(json);
    assert_eq!(names(&suite), vec!["timed"]);
    assert!(suite.duration.is_none());
}

#[test]
fn extension_detection_follows_path_extension() {
    for p in ["src/main.rs", "a/b.c/d.py", "x.tar.go", "Makefile", "dir/.hidden", "weird.", "README.md"] {
        let path = std::path::Path::new(p);
        let want = path.extension().and_then(|e| e.to_str()).and_then(framework_for_extension);
        assert_eq!(detect_from_extension(path), want, "path {p:?}");
    }
}
