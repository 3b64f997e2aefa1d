use ctx_guard::executor::{check_command_string, ExecutionResult, ExecutorError};

#[test]
fn test_execute_command_string_empty() {
    let result = check_command_string("");
    assert!(result.is_err());

    let result = check_command_string("   ");
    assert!(result.is_err());
}

#[test]
fn a_command_that_is_not_blank_may_run() {
    assert!(check_command_string("echo hello").is_ok());
    assert!(check_command_string("  x ").is_ok());
    assert!(check_command_string("\t\n\u{a0}\u{3000}").is_err());
}

#[test]
fn the_empty_command_error_says_so() {
    match check_command_string(" ") {
        Err(e) => assert_eq!(e.message(), "Failed to execute command: Empty command"),
        Ok(()) => panic!("a blank command was accepted"),
    }
    let e = ExecutorError::ExecutionError("no such file".to_string());
    assert_eq!(e.message(), "Failed to execute command: no such file");
}

#[test]
fn test_execution_result_is_success() {
    let result = ExecutionResult::from_output(Some(0), String::new(), String::new());
    assert!(result.is_success());
    assert_eq!(result.exit_code, 0);
}

#[test]
fn test_execution_result_is_failure() {
    let result = ExecutionResult::from_output(Some(1), String::new(), String::new());
    assert!(!result.is_success());
    assert_ne!(result.exit_code, 0);
}

#[test]
fn test_execution_result_combined_output() {
    let result =
        ExecutionResult::from_output(Some(0), "stdout\n".to_string(), "stderr\n".to_string());
    assert!(!result.stdout.is_empty() || !result.stderr.is_empty());
    assert!(!result.combined_output.is_empty());
    assert_eq!(result.combined_output, "stdout\n\nstderr\n");
}

#[test]
fn combined_output_is_stdout_alone_where_stderr_is_empty() {
    let result = ExecutionResult::from_output(Some(3), "out".to_string(), String::new());
    assert_eq!(result.combined_output, "out");
    assert_eq!(result.stdout, "out");
    assert_eq!(result.stderr, "");
    let result = ExecutionResult::from_output(Some(3), String::new(), "err".to_string());
    assert_eq!(result.combined_output, "\nerr");
}

#[test]
fn a_run_without_an_exit_code_is_recorded_as_minus_one() {
    let result = ExecutionResult::from_output(None, String::new(), String::new());
    assert_eq!(result.exit_code, -1);
    assert!(!result.is_success());
}
