use zfs_to_glacier::cmd_execute::{execute_by_line, exit_error, CommandParts, ExecutorCommand};

#[test]
fn test_execute() {
    let parts = ExecutorCommand("echo -n teststring".to_string()).create_cmd();
    assert_eq!(
        parts,
        CommandParts {
            program: "echo".to_string(),
            arguments: vec!["-n".to_string(), "teststring".to_string()],
        }
    );
}

#[test]
fn test_execute_multiline() {
    let parts = ExecutorCommand("echo -e teststring \n test".to_string()).create_cmd();
    assert_eq!(parts.program, "echo");
    assert_eq!(parts.arguments, vec!["-e", "teststring", "\n", "test"]);
    let result = execute_by_line("teststring \n test\n");
    assert_eq!(result, vec!["teststring", "test"]);
}

#[test]
fn command_line_splits_at_every_space() {
    let parts = ExecutorCommand("zfs  list".to_string()).create_cmd();
    assert_eq!(parts.program, "zfs");
    assert_eq!(parts.arguments, vec!["", "list"]);
    let parts = ExecutorCommand("".to_string()).create_cmd();
    assert_eq!(parts.program, "");
    assert_eq!(parts.arguments, Vec::<String>::new());
    let parts = ExecutorCommand("a\tb 'c d'".to_string()).create_cmd();
    assert_eq!(parts.program, "a\tb");
    assert_eq!(parts.arguments, vec!["'c", "d'"]);
}

#[test]
fn lines_are_trimmed_and_empty_ones_dropped() {
    assert_eq!(execute_by_line(""), Vec::<String>::new());
    assert_eq!(execute_by_line("\n \n\t\n"), Vec::<String>::new());
    assert_eq!(execute_by_line("rpool\nrpool/home\r\n\n  tank  "), vec!["rpool", "rpool/home", "tank"]);
    assert_eq!(execute_by_line("a@1\t10\nb@1\t20\n"), vec!["a@1\t10", "b@1\t20"]);
}

#[test]
fn exit_error_names_the_status() {
    assert_eq!(exit_error("exit status: 2"), "Command exited with error code: exit status: 2");
}
