use stk::capture::executor::{CommandExecutor, ExecutionResult, ExitInfo, FakeExecutor};
use stk::chunk::Classifier;
use stk::compression::{compress_execution, compress_stdin, execute_and_compress};

#[test]
fn without_a_budget_both_streams_take_the_fast_path() {
    let mut executor = FakeExecutor::new().with_response(ExecutionResult {
        exit_code: 4,
        terminating_signal: None,
        stdout: b"a\na\n".to_vec(),
        stderr: b"\x1b[1mb\x1b[0m\n".to_vec(),
    });
    let (mut stdout, mut stderr) = (Vec::new(), Vec::new());
    let code = execute_and_compress("cargo", &["test".to_string()], &mut stdout, &mut stderr, &mut executor, None, Classifier::Cargo);
    assert_eq!(code, 4);
    assert_eq!(String::from_utf8(stdout).unwrap(), "a [repeated 2x]\n");
    assert_eq!(String::from_utf8(stderr).unwrap(), "b\n");
    assert_eq!(executor.invocations(), vec![("cargo".to_string(), vec!["test".to_string()])]);
}

#[test]
fn a_budget_below_the_floor_exits_2_with_an_explanation() {
    let (mut stdout, mut stderr) = (Vec::new(), Vec::new());
    let code = compress_stdin(b"error: x\n", &mut stdout, &mut stderr, Some(1), Classifier::Generic);
    assert_eq!(code, 2);
    assert!(stdout.is_empty());
    let message = String::from_utf8(stderr).unwrap();
    assert!(message.starts_with("stk: --budget 1 is too small to render mandatory content (minimum: "));
}

#[test]
fn a_command_that_cannot_start_is_reported_and_exits_1() {
    let (mut stdout, mut stderr) = (Vec::new(), Vec::new());
    let code = compress_execution("nosuch", Err("not found".to_string()), &mut stdout, &mut stderr, None, Classifier::Generic);
    assert_eq!(code, 1);
    assert_eq!(String::from_utf8(stderr).unwrap(), "stk: failed to run 'nosuch': not found\n");
}

#[test]
fn a_generous_budget_keeps_everything() {
    let (mut stdout, mut stderr) = (Vec::new(), Vec::new());
    let code = compress_stdin(b"error: x\nnote: y\n", &mut stdout, &mut stderr, Some(2000), Classifier::Generic);
    assert_eq!(code, 0);
    assert_eq!(String::from_utf8(stdout).unwrap(), "error: x\nnote: y\n");
}

#[test]
fn a_broken_pipe_on_stdout_still_exits_0_for_piped_input() {
    let mut stdout = stk::io::ClosedPipe;
    let mut stderr: Vec<u8> = Vec::new();
    let code = compress_stdin(b"a\na\n", &mut stdout, &mut stderr, None, Classifier::Generic);
    assert_eq!(code, 0);
    assert!(stderr.is_empty());
}

#[test]
fn a_signalled_child_exits_with_128_plus_the_signal() {
    let mut executor = FakeExecutor::new().with_response(ExecutionResult {
        exit_code: 0,
        terminating_signal: Some(9),
        stdout: b"x\n".to_vec(),
        stderr: Vec::new(),
    });
    let (mut stdout, mut stderr) = (Vec::new(), Vec::new());
    let code = execute_and_compress("sleep", &["5".to_string()], &mut stdout, &mut stderr, &mut executor, None, Classifier::Generic);
    assert_eq!(code, 137);
    assert_eq!(String::from_utf8(stdout).unwrap(), "x\n");
    assert!(stderr.is_empty());
}

#[test]
fn a_budget_that_holds_everything_renders_both_streams_unchanged() {
    let mut executor = FakeExecutor::new().with_response(ExecutionResult {
        exit_code: 3,
        terminating_signal: None,
        stdout: b"error: one\nplain line\n".to_vec(),
        stderr: b"warning: two\n".to_vec(),
    });
    let (mut stdout, mut stderr) = (Vec::new(), Vec::new());
    let code = execute_and_compress("make", &[], &mut stdout, &mut stderr, &mut executor, Some(500), Classifier::Generic);
    assert_eq!(code, 3);
    assert_eq!(String::from_utf8(stdout).unwrap(), "error: one\nplain line\n");
    assert_eq!(String::from_utf8(stderr).unwrap(), "warning: two\n");
}

#[test]
fn a_fake_executor_logs_every_request_in_order_and_gives_its_canned_answers() {
    let mut executor = FakeExecutor::new()
        .with_response(ExecutionResult { exit_code: 3, terminating_signal: None, stdout: b"out".to_vec(), stderr: Vec::new() })
        .with_inherited_response(ExitInfo { exit_code: 5, terminating_signal: None });
    let first = executor.execute("git", &["status".to_string()]).unwrap();
    let second = executor.execute_inherited("ls", &[]).unwrap();
    let third = executor.execute("echo", &["a".to_string(), "b".to_string()]).unwrap();
    assert_eq!((first.exit_code, first.stdout.as_slice()), (3, &b"out"[..]));
    assert_eq!(second.exit_code, 5);
    assert_eq!(third.exit_code, 3);
    assert_eq!(
        executor.invocations(),
        vec![
            ("git".to_string(), vec!["status".to_string()]),
            ("ls".to_string(), vec![]),
            ("echo".to_string(), vec!["a".to_string(), "b".to_string()]),
        ]
    );
}
