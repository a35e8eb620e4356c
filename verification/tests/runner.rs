use shiren::adapters::TestCommand;
use shiren::runner::format_command;

#[test]
fn format_simple_command() {
    let cmd = TestCommand {
        program: "cargo".into(),
        args: vec!["test".into(), "--".into(), "foo".into()],
        cwd: None,
        env: vec![],
    };
    assert_eq!(format_command(&cmd), "cargo test -- foo");
}

#[test]
fn format_command_no_args() {
    let cmd = TestCommand {
        program: "pytest".into(),
        args: vec![],
        cwd: None,
        env: vec![],
    };
    assert_eq!(format_command(&cmd), "pytest");
}
