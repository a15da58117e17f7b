use stk::capture::executor::{ExitInfo, FakeExecutor};
use stk::history::FakeHistoryStore;
use stk::verbs::proxy::dispatch;

#[test]
fn records_usage_and_executes_the_command() {
    let mut executor = FakeExecutor::new();
    let mut history = FakeHistoryStore::new();
    let mut stderr = Vec::new();

    dispatch(
        &["echo".to_string(), "hi".to_string()],
        &mut stderr,
        &mut executor,
        &mut history,
    );

    assert_eq!(
        executor.invocations(),
        vec![("echo".to_string(), vec!["hi".to_string()])]
    );
    let entries = history.entries();
    assert_eq!(entries.len(), 1);
    assert_eq!(entries[0].verb, "proxy");
    assert_eq!(entries[0].command, "echo");
    assert_eq!(entries[0].args, vec!["hi".to_string()]);
}

#[test]
fn no_dash_c_support_positional_args_only() {
    // Unlike `run`, `proxy` has no -c flag: "-c" here is just an ordinary (if unusual)
    // argv[0] to execute, not a shell-string indicator.
    let mut executor = FakeExecutor::new();
    let mut history = FakeHistoryStore::new();
    let mut stderr = Vec::new();

    dispatch(
        &["-c".to_string(), "echo hi".to_string()],
        &mut stderr,
        &mut executor,
        &mut history,
    );

    assert_eq!(
        executor.invocations(),
        vec![("-c".to_string(), vec!["echo hi".to_string()])]
    );
}

#[test]
fn no_command_is_a_usage_error_and_nothing_is_recorded_or_spawned() {
    let mut executor = FakeExecutor::new();
    let mut history = FakeHistoryStore::new();
    let mut stderr = Vec::new();

    let exit_code = dispatch(&[], &mut stderr, &mut executor, &mut history);

    assert_ne!(exit_code, 0);
    assert!(executor.invocations().is_empty());
    assert!(history.entries().is_empty());
    assert_eq!(
        String::from_utf8(stderr).unwrap(),
        "stk: proxy requires a command\n"
    );
}

#[test]
fn proxy_exit_code_reflects_signal_termination_as_128_plus_signal() {
    let mut executor = FakeExecutor::new().with_inherited_response(ExitInfo {
        exit_code: 0,
        terminating_signal: Some(15),
    });
    let mut history = FakeHistoryStore::new();
    let mut stderr = Vec::new();

    let exit_code = dispatch(
        &["sleep".to_string(), "30".to_string()],
        &mut stderr,
        &mut executor,
        &mut history,
    );

    assert_eq!(exit_code, 128 + 15);
}

#[test]
fn proxy_exit_code_reflects_normal_exit_when_no_signal() {
    let mut executor = FakeExecutor::new().with_inherited_response(ExitInfo {
        exit_code: 7,
        terminating_signal: None,
    });
    let mut history = FakeHistoryStore::new();
    let mut stderr = Vec::new();

    let exit_code = dispatch(&["false".to_string()], &mut stderr, &mut executor, &mut history);

    assert_eq!(exit_code, 7);
}
