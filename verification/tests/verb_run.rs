use stk::capture::executor::{ExitInfo, FakeExecutor};
use stk::verbs::run::dispatch;

#[test]
fn positional_args_are_executed_directly_not_through_a_shell() {
    let mut executor = FakeExecutor::new();
    let mut stderr = Vec::new();

    dispatch(
        &["echo".to_string(), "hi".to_string()],
        &mut stderr,
        &mut executor,
    );

    assert_eq!(
        executor.invocations(),
        vec![("echo".to_string(), vec!["hi".to_string()])]
    );
}

#[test]
fn dash_c_form_runs_through_sh() {
    let mut executor = FakeExecutor::new();
    let mut stderr = Vec::new();

    dispatch(
        &["-c".to_string(), "echo hi".to_string()],
        &mut stderr,
        &mut executor,
    );

    assert_eq!(
        executor.invocations(),
        vec![(
            "sh".to_string(),
            vec!["-c".to_string(), "echo hi".to_string()]
        )]
    );
}

#[test]
fn no_command_is_a_usage_error_and_nothing_is_spawned() {
    let mut executor = FakeExecutor::new();
    let mut stderr = Vec::new();

    let exit_code = dispatch(&[], &mut stderr, &mut executor);

    assert_ne!(exit_code, 0);
    assert!(executor.invocations().is_empty());
    assert!(!String::from_utf8(stderr).unwrap().is_empty());
}

#[test]
fn run_exit_code_reflects_signal_termination_as_128_plus_signal() {
    let mut executor = FakeExecutor::new().with_inherited_response(ExitInfo {
        exit_code: 0,
        terminating_signal: Some(15),
    });
    let mut stderr = Vec::new();

    let exit_code = dispatch(
        &["sleep".to_string(), "30".to_string()],
        &mut stderr,
        &mut executor,
    );

    assert_eq!(exit_code, 128 + 15);
}

#[test]
fn run_exit_code_reflects_normal_exit_when_no_signal() {
    let mut executor = FakeExecutor::new().with_inherited_response(ExitInfo {
        exit_code: 7,
        terminating_signal: None,
    });
    let mut stderr = Vec::new();

    let exit_code = dispatch(&["false".to_string()], &mut stderr, &mut executor);

    assert_eq!(exit_code, 7);
}

#[test]
fn dash_c_without_a_command_string_is_a_usage_error() {
    let mut executor = FakeExecutor::new();
    let mut stderr = Vec::new();
    let exit_code = dispatch(&["-c".to_string()], &mut stderr, &mut executor);
    assert_eq!(exit_code, 2);
    assert!(executor.invocations().is_empty());
    assert_eq!(
        String::from_utf8(stderr).unwrap(),
        "stk: run -c requires a command string\n"
    );
}
