use shiren::adapters::cargo::{
    file_to_module, find_rust_tests, parse_cargo_output, parse_fn_declaration, parse_mod_declaration,
    parse_test_line, CargoAdapter,
};
use shiren::adapters::FoundTest;

#[test]
fn find_simple_test() {
    let src = r#"
#[test]
fn it_works() {
    assert!(true);
}
"#;
    let tests = find_rust_tests(src);
    assert_eq!(tests.len(), 1);
    assert_eq!(tests[0].name, "it_works");
    assert_eq!(tests[0].line, 2);
    assert!(tests[0].module.is_none());
}

#[test]
fn find_async_test() {
    let src = r#"
#[tokio::test]
async fn async_works() {
    let _ = 42;
}
"#;
    let tests = find_rust_tests(src);
    assert_eq!(tests.len(), 1);
    assert_eq!(tests[0].name, "async_works");
}

#[test]
fn find_test_in_module() {
    let src = r#"
fn not_a_test() {}

#[cfg(test)]
mod tests {
    use super::*;

    #[test]
    fn first() {}

    #[test]
    fn second() {}
}
"#;
    let tests = find_rust_tests(src);
    assert_eq!(tests.len(), 2);
    assert_eq!(tests[0].name, "first");
    assert_eq!(tests[0].module, Some("tests".into()));
    assert_eq!(tests[1].name, "second");
    assert_eq!(tests[1].module, Some("tests".into()));
}

#[test]
fn find_multiple_tests() {
    let src = r#"
#[test]
fn a() {}

#[test]
fn b() {}

#[test]
fn c() {}
"#;
    let tests = find_rust_tests(src);
    assert_eq!(tests.len(), 3);
    assert_eq!(tests[0].name, "a");
    assert_eq!(tests[1].name, "b");
    assert_eq!(tests[2].name, "c");
}

#[test]
fn cargo_no_tests_in_regular_code() {
    let src = r#"
fn main() {
    println!("hello");
}

pub fn helper() -> i32 {
    42
}
"#;
    let tests = find_rust_tests(src);
    assert!(tests.is_empty());
}

#[test]
fn rstest_attribute() {
    let src = r#"
#[rstest]
fn parameterized(#[values(1, 2, 3)] x: i32) {
    assert!(x > 0);
}
"#;
    let tests = find_rust_tests(src);
    assert_eq!(tests.len(), 1);
    assert_eq!(tests[0].name, "parameterized");
}

#[test]
fn pub_fn_with_test_attr() {
    let src = r#"
#[test]
pub fn public_test() {}
"#;
    let tests = find_rust_tests(src);
    assert_eq!(tests.len(), 1);
    assert_eq!(tests[0].name, "public_test");
}

#[test]
fn pub_async_fn_with_test_attr() {
    let src = r#"
#[tokio::test]
pub async fn public_async_test() {}
"#;
    let tests = find_rust_tests(src);
    assert_eq!(tests.len(), 1);
    assert_eq!(tests[0].name, "public_async_test");
}

#[test]
fn test_attr_with_extra_attrs_between() {
    let src = r#"
#[test]
#[should_panic]
fn panics() {
    panic!();
}
"#;
    let tests = find_rust_tests(src);
    assert_eq!(tests.len(), 1);
    assert_eq!(tests[0].name, "panics");
}

#[test]
fn full_name_no_module() {
    let t = FoundTest {
        name: "works".into(),
        line: 0,
        module: None,
    };
    assert_eq!(t.full_name(), "works");
}

#[test]
fn full_name_with_module() {
    let t = FoundTest {
        name: "works".into(),
        line: 0,
        module: Some("tests".into()),
    };
    assert_eq!(t.full_name(), "tests::works");
}

#[test]
fn module_from_nested_file() {
    assert_eq!(
        file_to_module("src/adapters/cargo.rs"),
        Some("adapters::cargo".into())
    );
}

#[test]
fn module_from_lib_rs() {
    assert_eq!(file_to_module("src/lib.rs"), None);
}

#[test]
fn module_from_main_rs() {
    assert_eq!(file_to_module("src/main.rs"), None);
}

#[test]
fn module_from_mod_rs() {
    assert_eq!(
        file_to_module("src/adapters/mod.rs"),
        Some("adapters".into())
    );
}

#[test]
fn module_from_top_level_module() {
    assert_eq!(
        file_to_module("src/results.rs"),
        Some("results".into())
    );
}

#[test]
fn module_from_windows_path() {
    assert_eq!(
        file_to_module("src\\adapters\\cargo.rs"),
        Some("adapters::cargo".into())
    );
}

#[test]
fn parse_passing_tests() {
    let output = r"
running 2 tests
test results::tests::status_signs ... ok
test results::tests::suite_empty ... ok

test result: ok. 2 passed; 0 failed; 0 ignored; 0 measured; 0 filtered out; finished in 0.01s
";
    let suite = parse_cargo_output(output);
    assert_eq!(suite.total(), 2);
    assert_eq!(suite.passed(), 2);
    assert_eq!(suite.failed(), 0);
    assert!(suite.all_passed());
}

#[test]
fn cargo_parse_mixed_results() {
    let output = r"
running 3 tests
test a ... ok
test b ... FAILED
test c ... ignored

test result: FAILED. 1 passed; 1 failed; 1 ignored; 0 measured; 0 filtered out; finished in 0.50s
";
    let suite = parse_cargo_output(output);
    assert_eq!(suite.total(), 3);
    assert_eq!(suite.passed(), 1);
    assert_eq!(suite.failed(), 1);
    assert_eq!(suite.skipped(), 1);
    assert!(!suite.all_passed());
}

#[test]
fn cargo_parse_empty_output() {
    let suite = parse_cargo_output("");
    assert_eq!(suite.total(), 0);
    assert!(suite.all_passed());
}

#[test]
fn parse_test_with_module_path() {
    let output = "test adapters::cargo::tests::parse_passing_tests ... ok\n";
    let suite = parse_cargo_output(output);
    assert_eq!(suite.total(), 1);
    assert_eq!(suite.results[0].name, "adapters::cargo::tests::parse_passing_tests");
}

#[test]
fn parse_fn_simple() {
    assert_eq!(parse_fn_declaration("fn foo() {"), Some("foo".into()));
}

#[test]
fn parse_fn_async() {
    assert_eq!(
        parse_fn_declaration("async fn bar() {"),
        Some("bar".into())
    );
}

#[test]
fn parse_fn_pub() {
    assert_eq!(parse_fn_declaration("pub fn baz() {"), Some("baz".into()));
}

#[test]
fn parse_fn_pub_async() {
    assert_eq!(
        parse_fn_declaration("pub async fn qux() {"),
        Some("qux".into())
    );
}

#[test]
fn parse_fn_not_a_fn() {
    assert_eq!(parse_fn_declaration("let x = 42;"), None);
}

#[test]
fn parse_fn_with_args() {
    assert_eq!(
        parse_fn_declaration("fn with_args(x: i32, y: &str) {"),
        Some("with_args".into())
    );
}

#[test]
fn parse_mod_simple() {
    assert_eq!(parse_mod_declaration("mod tests {"), Some("tests".into()));
}

#[test]
fn parse_mod_with_semicolon() {
    assert_eq!(parse_mod_declaration("mod foo;"), Some("foo".into()));
}

#[test]
fn parse_mod_not_a_mod() {
    assert_eq!(parse_mod_declaration("fn foo() {}"), None);
}

#[test]
fn detects_rust_filetype() {
    let adapter = CargoAdapter;
    assert!(adapter.detect("rust"));
    assert!(!adapter.detect("python"));
    assert!(!adapter.detect("javascript"));
}

#[test]
fn build_single_test_command() {
    let adapter = CargoAdapter;
    let cmd = adapter.build_command("tests::it_works", "src/lib.rs");
    assert_eq!(cmd.program, "cargo");
    assert!(cmd.args.contains(&"test".to_string()));
    assert!(cmd.args.contains(&"tests::it_works".to_string()));
    assert!(cmd.args.contains(&"--exact".to_string()));
}

#[test]
fn build_file_command_for_module() {
    let adapter = CargoAdapter;
    let cmd = adapter.build_file_command("src/adapters/cargo.rs");
    assert_eq!(cmd.program, "cargo");
    assert!(cmd.args.contains(&"adapters::cargo".to_string()));
}

#[test]
fn build_file_command_for_lib() {
    let adapter = CargoAdapter;
    let cmd = adapter.build_file_command("src/lib.rs");
    assert_eq!(cmd.program, "cargo");
    // Should not have a module filter for lib.rs.
    assert!(!cmd.args.iter().any(|a| a.contains("::")));
}

#[test]
fn build_suite_command() {
    let adapter = CargoAdapter;
    let cmd = adapter.build_suite_command();
    assert_eq!(cmd.program, "cargo");
    assert!(cmd.args.contains(&"test".to_string()));
}

#[test]
fn parse_test_line_ok() {
    let (name, status) = parse_test_line("foo::bar ... ok").unwrap();
    assert_eq!(name, "foo::bar");
    assert_eq!(status, "ok");
}

#[test]
fn parse_test_line_failed() {
    let (name, status) = parse_test_line("my_test ... FAILED").unwrap();
    assert_eq!(name, "my_test");
    assert_eq!(status, "FAILED");
}

#[test]
fn parse_test_line_ignored() {
    let (name, status) = parse_test_line("skipped ... ignored").unwrap();
    assert_eq!(name, "skipped");
    assert_eq!(status, "ignored");
}

#[test]
fn parse_test_line_no_separator() {
    assert!(parse_test_line("no separator here").is_none());
}
