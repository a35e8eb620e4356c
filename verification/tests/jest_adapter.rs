use shiren::adapters::jest::{extract_call_name, find_js_tests, parse_jest_output, JestAdapter};

#[test]
fn find_test_calls() {
    let src = r#"
test("adds numbers", () => {
  expect(1 + 1).toBe(2);
});
"#;
    let tests = find_js_tests(src);
    assert_eq!(tests.len(), 1);
    assert_eq!(tests[0].name, "adds numbers");
    assert_eq!(tests[0].line, 1);
    assert!(tests[0].module.is_none());
}

#[test]
fn find_it_calls() {
    let src = r#"
it("should work", () => {
  expect(true).toBe(true);
});
"#;
    let tests = find_js_tests(src);
    assert_eq!(tests.len(), 1);
    assert_eq!(tests[0].name, "should work");
}

#[test]
fn find_test_with_single_quotes() {
    let src = "test('single quoted', () => {});\n";
    let tests = find_js_tests(src);
    assert_eq!(tests.len(), 1);
    assert_eq!(tests[0].name, "single quoted");
}

#[test]
fn find_test_with_backticks() {
    let src = "test(`template literal`, () => {});\n";
    let tests = find_js_tests(src);
    assert_eq!(tests.len(), 1);
    assert_eq!(tests[0].name, "template literal");
}

#[test]
fn find_tests_in_describe() {
    let src = r#"
describe("Math", () => {
  test("addition", () => {
    expect(1 + 1).toBe(2);
  });

  test("subtraction", () => {
    expect(2 - 1).toBe(1);
  });
});
"#;
    let tests = find_js_tests(src);
    assert_eq!(tests.len(), 2);
    assert_eq!(tests[0].name, "addition");
    assert_eq!(tests[0].module, Some("Math".into()));
    assert_eq!(tests[1].name, "subtraction");
    assert_eq!(tests[1].module, Some("Math".into()));
}

#[test]
fn find_test_only() {
    let src = r#"
test.only("focused test", () => {});
"#;
    let tests = find_js_tests(src);
    assert_eq!(tests.len(), 1);
    assert_eq!(tests[0].name, "focused test");
}

#[test]
fn find_test_skip() {
    let src = r#"
test.skip("skipped test", () => {});
"#;
    let tests = find_js_tests(src);
    assert_eq!(tests.len(), 1);
    assert_eq!(tests[0].name, "skipped test");
}

#[test]
fn find_it_only() {
    let src = r#"
it.only("focused it", () => {});
"#;
    let tests = find_js_tests(src);
    assert_eq!(tests.len(), 1);
    assert_eq!(tests[0].name, "focused it");
}

#[test]
fn find_multiple_mixed() {
    let src = r#"
test("a", () => {});
it("b", () => {});
test.only("c", () => {});
it.skip("d", () => {});
"#;
    let tests = find_js_tests(src);
    assert_eq!(tests.len(), 4);
    assert_eq!(tests[0].name, "a");
    assert_eq!(tests[1].name, "b");
    assert_eq!(tests[2].name, "c");
    assert_eq!(tests[3].name, "d");
}

#[test]
fn jest_no_tests_in_regular_code() {
    let src = r#"
const x = 42;
function helper() { return x; }
console.log(helper());
"#;
    let tests = find_js_tests(src);
    assert!(tests.is_empty());
}

#[test]
fn describe_without_tests() {
    let src = r#"
describe("empty suite", () => {
});
"#;
    let tests = find_js_tests(src);
    assert!(tests.is_empty());
}

#[test]
fn extract_test_double_quotes() {
    assert_eq!(
        extract_call_name(r#"test("hello", () => {})"#, "test"),
        Some("hello".into())
    );
}

#[test]
fn extract_test_single_quotes() {
    assert_eq!(
        extract_call_name("test('hello', () => {})", "test"),
        Some("hello".into())
    );
}

#[test]
fn extract_test_backticks() {
    assert_eq!(
        extract_call_name("test(`hello`, () => {})", "test"),
        Some("hello".into())
    );
}

#[test]
fn extract_with_spaces() {
    assert_eq!(
        extract_call_name(r#"test( "spaced" , () => {})"#, "test"),
        Some("spaced".into())
    );
}

#[test]
fn extract_not_matching() {
    assert_eq!(extract_call_name("const x = 5;", "test"), None);
}

#[test]
fn extract_describe() {
    assert_eq!(
        extract_call_name(r#"describe("Suite", () => {"#, "describe"),
        Some("Suite".into())
    );
}

#[test]
fn extract_test_only() {
    assert_eq!(
        extract_call_name(r#"test.only("focused", () => {})"#, "test.only"),
        Some("focused".into())
    );
}

#[test]
fn parse_jest_json_passing() {
    let json = r#"{
  "numTotalTests": 2,
  "numPassedTests": 2,
  "startTime": 1000,
  "testResults": [{
    "name": "/path/to/test.js",
    "endTime": 1500,
    "assertionResults": [
      {"title": "adds numbers", "status": "passed", "ancestorTitles": ["Math"]},
      {"title": "subtracts", "status": "passed", "ancestorTitles": ["Math"]}
    ]
  }]
}"#;
    let suite = parse_jest_output(json);
    assert_eq!(suite.total(), 2);
    assert_eq!(suite.passed(), 2);
    assert!(suite.all_passed());
    assert_eq!(suite.results[0].name, "Math > adds numbers");
    assert_eq!(suite.results[1].name, "Math > subtracts");
}

#[test]
fn parse_jest_json_mixed() {
    let json = r#"{
  "testResults": [{
    "name": "test.js",
    "assertionResults": [
      {"title": "passes", "status": "passed", "ancestorTitles": []},
      {"title": "fails", "status": "failed", "ancestorTitles": [], "failureMessages": ["Expected true to be false"]},
      {"title": "pending", "status": "pending", "ancestorTitles": []}
    ]
  }]
}"#;
    let suite = parse_jest_output(json);
    assert_eq!(suite.total(), 3);
    assert_eq!(suite.passed(), 1);
    assert_eq!(suite.failed(), 1);
    assert_eq!(suite.skipped(), 1);
}

#[test]
fn parse_jest_json_with_failure_message() {
    let json = r#"{
  "testResults": [{
    "name": "test.js",
    "assertionResults": [
      {"title": "broken", "status": "failed", "ancestorTitles": [], "failureMessages": ["assert failed"]}
    ]
  }]
}"#;
    let suite = parse_jest_output(json);
    assert_eq!(suite.failed(), 1);
    let fail = &suite.results[0];
    assert!(matches!(&fail.status, shiren::results::TestStatus::Fail(Some(msg)) if msg == "assert failed"));
}

#[test]
fn parse_jest_json_no_ancestors() {
    let json = r#"{
  "testResults": [{
    "name": "test.js",
    "assertionResults": [
      {"title": "standalone", "status": "passed", "ancestorTitles": []}
    ]
  }]
}"#;
    let suite = parse_jest_output(json);
    assert_eq!(suite.results[0].name, "standalone");
}

#[test]
fn parse_jest_json_nested_ancestors() {
    let json = r#"{
  "testResults": [{
    "name": "test.js",
    "assertionResults": [
      {"title": "deep", "status": "passed", "ancestorTitles": ["A", "B", "C"]}
    ]
  }]
}"#;
    let suite = parse_jest_output(json);
    assert_eq!(suite.results[0].name, "A > B > C > deep");
}

#[test]
fn parse_jest_json_with_prefix_noise() {
    let output = "Some warning text\n{\"testResults\": [{\"name\": \"t.js\", \"assertionResults\": [{\"title\": \"ok\", \"status\": \"passed\", \"ancestorTitles\": []}]}]}";
    let suite = parse_jest_output(output);
    assert_eq!(suite.total(), 1);
    assert_eq!(suite.passed(), 1);
}

#[test]
fn parse_jest_non_json_fallback() {
    let output = "not json at all\nno braces here";
    let suite = parse_jest_output(output);
    assert_eq!(suite.total(), 0);
}

#[test]
fn parse_jest_todo_status() {
    let json = r#"{
  "testResults": [{
    "name": "test.js",
    "assertionResults": [
      {"title": "todo item", "status": "todo", "ancestorTitles": []}
    ]
  }]
}"#;
    let suite = parse_jest_output(json);
    assert_eq!(suite.skipped(), 1);
}

#[test]
fn detects_js_filetypes() {
    let adapter = JestAdapter;
    assert!(adapter.detect("javascript"));
    assert!(adapter.detect("typescript"));
    assert!(adapter.detect("javascriptreact"));
    assert!(adapter.detect("typescriptreact"));
    assert!(!adapter.detect("rust"));
    assert!(!adapter.detect("python"));
}

#[test]
fn jest_build_single_test() {
    let adapter = JestAdapter;
    let cmd = adapter.build_command("adds numbers", "src/math.test.ts");
    assert_eq!(cmd.program, "npx");
    assert!(cmd.args.contains(&"jest".to_string()));
    assert!(cmd.args.contains(&"--testNamePattern".to_string()));
    assert!(cmd.args.contains(&"adds numbers".to_string()));
    assert!(cmd.args.contains(&"src/math.test.ts".to_string()));
}

#[test]
fn jest_build_file() {
    let adapter = JestAdapter;
    let cmd = adapter.build_file_command("src/math.test.ts");
    assert!(cmd.args.contains(&"--testPathPattern".to_string()));
    assert!(cmd.args.contains(&"src/math.test.ts".to_string()));
}

#[test]
fn jest_build_suite() {
    let adapter = JestAdapter;
    let cmd = adapter.build_suite_command();
    assert_eq!(cmd.program, "npx");
    assert!(cmd.args.contains(&"jest".to_string()));
    assert!(cmd.args.contains(&"--json".to_string()));
}
