use shiren::adapters::{nearest_test, FoundTest};

#[test]
fn found_test_full_name_no_module() {
    let t = FoundTest {
        name: "it_works".into(),
        line: 10,
        module: None,
    };
    assert_eq!(t.full_name(), "it_works");
}

#[test]
fn found_test_full_name_with_module() {
    let t = FoundTest {
        name: "it_works".into(),
        line: 10,
        module: Some("tests".into()),
    };
    assert_eq!(t.full_name(), "tests::it_works");
}

#[test]
fn nearest_test_exact_line() {
    let tests = vec![
        FoundTest {
            name: "a".into(),
            line: 5,
            module: None,
        },
        FoundTest {
            name: "b".into(),
            line: 15,
            module: None,
        },
    ];
    let found = nearest_test(&tests, 15).unwrap();
    assert_eq!(found.name, "b");
}

#[test]
fn nearest_test_between_tests() {
    let tests = vec![
        FoundTest {
            name: "a".into(),
            line: 5,
            module: None,
        },
        FoundTest {
            name: "b".into(),
            line: 15,
            module: None,
        },
    ];
    let found = nearest_test(&tests, 10).unwrap();
    assert_eq!(found.name, "a");
}

#[test]
fn nearest_test_before_all() {
    let tests = vec![FoundTest {
        name: "a".into(),
        line: 10,
        module: None,
    }];
    assert!(nearest_test(&tests, 5).is_none());
}

#[test]
fn nearest_test_empty() {
    let tests: Vec<FoundTest> = vec![];
    assert!(nearest_test(&tests, 10).is_none());
}
