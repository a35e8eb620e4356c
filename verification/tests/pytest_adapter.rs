use shiren::adapters::pytest::{
    find_python_tests, parse_pytest_output, parse_pytest_result_line, parse_test_class,
    parse_test_function, PytestAdapter,
};

#[test]
fn find_simple_test_function() {
    let src = r#"
def test_addition():
    assert 1 + 1 == 2
"#;
    let tests = find_python_tests(src);
    assert_eq!(tests.len(), 1);
    assert_eq!(tests[0].name, "test_addition");
    assert_eq!(tests[0].line, 1);
    assert!(tests[0].module.is_none());
}

#[test]
fn find_async_test_function() {
    let src = r#"
async def test_async_op():
    result = await some_call()
    assert result
"#;
    let tests = find_python_tests(src);
    assert_eq!(tests.len(), 1);
    assert_eq!(tests[0].name, "test_async_op");
}

#[test]
fn find_test_in_class() {
    let src = r#"
class TestMath:
    def test_add(self):
        assert 1 + 1 == 2

    def test_sub(self):
        assert 2 - 1 == 1
"#;
    let tests = find_python_tests(src);
    assert_eq!(tests.len(), 2);
    assert_eq!(tests[0].name, "test_add");
    assert_eq!(tests[0].module, Some("TestMath".into()));
    assert_eq!(tests[1].name, "test_sub");
    assert_eq!(tests[1].module, Some("TestMath".into()));
}

#[test]
fn find_multiple_standalone_tests() {
    let src = r#"
def test_a():
    pass

def test_b():
    pass

def test_c():
    pass
"#;
    let tests = find_python_tests(src);
    assert_eq!(tests.len(), 3);
    assert_eq!(tests[0].name, "test_a");
    assert_eq!(tests[1].name, "test_b");
    assert_eq!(tests[2].name, "test_c");
}

#[test]
fn skip_non_test_functions() {
    let src = r#"
def helper():
    return 42

def setup():
    pass

def test_real():
    assert helper() == 42
"#;
    let tests = find_python_tests(src);
    assert_eq!(tests.len(), 1);
    assert_eq!(tests[0].name, "test_real");
}

#[test]
fn skip_non_test_classes() {
    let src = r#"
class Helper:
    def do_thing(self):
        pass

class TestSuite:
    def test_thing(self):
        pass
"#;
    let tests = find_python_tests(src);
    assert_eq!(tests.len(), 1);
    assert_eq!(tests[0].name, "test_thing");
    assert_eq!(tests[0].module, Some("TestSuite".into()));
}

#[test]
fn pytest_no_tests_in_regular_code() {
    let src = r#"
def main():
    print("hello")

class Config:
    def __init__(self):
        self.value = 42
"#;
    let tests = find_python_tests(src);
    assert!(tests.is_empty());
}

#[test]
fn test_function_with_args() {
    let src = r#"
def test_with_fixture(db, client):
    response = client.get("/")
    assert response.status_code == 200
"#;
    let tests = find_python_tests(src);
    assert_eq!(tests.len(), 1);
    assert_eq!(tests[0].name, "test_with_fixture");
}

#[test]
fn class_name_must_start_with_test() {
    let src = r#"
class Test:
    def test_x(self):
        pass
"#;
    // "Test" alone is too short (must be > 4 chars, i.e., "Test" + something)
    let tests = find_python_tests(src);
    assert_eq!(tests.len(), 1);
    // The test function is found but no class context since "Test" is rejected.
    assert!(tests[0].module.is_none());
}

#[test]
fn parse_class_simple() {
    assert_eq!(parse_test_class("class TestFoo:"), Some("TestFoo".into()));
}

#[test]
fn parse_class_with_base() {
    assert_eq!(
        parse_test_class("class TestBar(BaseTest):"),
        Some("TestBar".into())
    );
}

#[test]
fn parse_class_not_test() {
    assert_eq!(parse_test_class("class Helper:"), None);
}

#[test]
fn parse_class_too_short() {
    assert_eq!(parse_test_class("class Test:"), None);
}

#[test]
fn parse_class_not_a_class() {
    assert_eq!(parse_test_class("def foo():"), None);
}

#[test]
fn parse_fn_test() {
    assert_eq!(
        parse_test_function("def test_foo():"),
        Some("test_foo".into())
    );
}

#[test]
fn parse_fn_async_test() {
    assert_eq!(
        parse_test_function("async def test_bar():"),
        Some("test_bar".into())
    );
}

#[test]
fn parse_fn_non_test() {
    assert_eq!(parse_test_function("def helper():"), None);
}

#[test]
fn parse_fn_with_self() {
    assert_eq!(
        parse_test_function("def test_method(self):"),
        Some("test_method".into())
    );
}

#[test]
fn parse_fn_not_a_function() {
    assert_eq!(parse_test_function("class Foo:"), None);
}

#[test]
fn parse_all_passing() {
    let output = r"
tests/test_math.py::test_add PASSED
tests/test_math.py::test_sub PASSED
========== 2 passed in 0.12s ==========
";
    let suite = parse_pytest_output(output);
    assert_eq!(suite.total(), 2);
    assert_eq!(suite.passed(), 2);
    assert!(suite.all_passed());
}

#[test]
fn pytest_parse_mixed_results() {
    let output = r"
tests/test_math.py::test_add PASSED
tests/test_math.py::test_div FAILED
tests/test_math.py::test_skip SKIPPED
========== 1 passed, 1 failed, 1 skipped in 0.50s ==========
";
    let suite = parse_pytest_output(output);
    assert_eq!(suite.total(), 3);
    assert_eq!(suite.passed(), 1);
    assert_eq!(suite.failed(), 1);
    assert_eq!(suite.skipped(), 1);
}

#[test]
fn parse_with_class_tests() {
    let output = r"
tests/test_calc.py::TestCalc::test_add PASSED
tests/test_calc.py::TestCalc::test_sub FAILED
========== 1 passed, 1 failed in 0.30s ==========
";
    let suite = parse_pytest_output(output);
    assert_eq!(suite.total(), 2);
    assert_eq!(suite.results[0].name, "TestCalc::test_add");
    assert_eq!(suite.results[1].name, "TestCalc::test_sub");
}

#[test]
fn parse_xfail_and_xpass() {
    let output = "test_a XFAIL\ntest_b XPASS\n";
    let suite = parse_pytest_output(output);
    assert_eq!(suite.total(), 2);
    assert_eq!(suite.passed(), 1); // xfail = expected
    assert_eq!(suite.failed(), 1); // xpass = unexpected
}

#[test]
fn parse_error_status() {
    let output = "tests/test_broken.py::test_setup ERROR\n";
    let suite = parse_pytest_output(output);
    assert_eq!(suite.total(), 1);
    assert_eq!(suite.failed(), 1);
}

#[test]
fn pytest_parse_empty_output() {
    let suite = parse_pytest_output("");
    assert_eq!(suite.total(), 0);
}

#[test]
fn parse_file_extraction() {
    let output = "tests/test_math.py::test_add PASSED\n";
    let suite = parse_pytest_output(output);
    assert_eq!(suite.results[0].file.as_deref(), Some("tests/test_math.py"));
}

#[test]
fn result_line_passed() {
    let result =
        parse_pytest_result_line("tests/test_foo.py::test_bar PASSED").unwrap();
    assert_eq!(result.name, "test_bar");
    assert_eq!(result.status, shiren::results::TestStatus::Pass);
}

#[test]
fn result_line_failed() {
    let result =
        parse_pytest_result_line("tests/test_foo.py::test_baz FAILED").unwrap();
    assert_eq!(result.name, "test_baz");
    assert!(matches!(result.status, shiren::results::TestStatus::Fail(_)));
}

#[test]
fn result_line_skipped() {
    let result =
        parse_pytest_result_line("tests/test_foo.py::test_skip SKIPPED").unwrap();
    assert_eq!(result.name, "test_skip");
    assert_eq!(result.status, shiren::results::TestStatus::Skip);
}

#[test]
fn result_line_no_match() {
    assert!(parse_pytest_result_line("some random text").is_none());
}

#[test]
fn detects_python_filetype() {
    let adapter = PytestAdapter;
    assert!(adapter.detect("python"));
    assert!(!adapter.detect("rust"));
    assert!(!adapter.detect("javascript"));
}

#[test]
fn pytest_build_single_test() {
    let adapter = PytestAdapter;
    let cmd = adapter.build_command("test_add", "tests/test_math.py");
    assert_eq!(cmd.program, "pytest");
    assert!(cmd.args.contains(&"tests/test_math.py::test_add".to_string()));
}

#[test]
fn pytest_build_file() {
    let adapter = PytestAdapter;
    let cmd = adapter.build_file_command("tests/test_math.py");
    assert!(cmd.args.contains(&"tests/test_math.py".to_string()));
}

#[test]
fn pytest_build_suite() {
    let adapter = PytestAdapter;
    let cmd = adapter.build_suite_command();
    assert_eq!(cmd.program, "pytest");
    assert!(cmd.args.contains(&"-v".to_string()));
}
