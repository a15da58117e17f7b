use stk::capture::executor::{ExecutionResult, FakeExecutor};
use stk::io::ClosedPipe;
use stk::verbs::compile::dispatch;

fn run(args: &[&str], stdin: &str, executor: &mut FakeExecutor) -> (i32, String, String) {
    let mut stdout = Vec::new();
    let mut stderr = Vec::new();
    let args: Vec<String> = args.iter().map(|s| s.to_string()).collect();
    let exit_code = dispatch(&args, stdin.as_bytes(), &mut stdout, &mut stderr, executor);
    (
        exit_code,
        String::from_utf8(stdout).unwrap(),
        String::from_utf8(stderr).unwrap(),
    )
}

#[test]
fn no_args_reads_and_compiles_stdin() {
    let mut executor = FakeExecutor::new();
    let (exit_code, stdout, _) = run(&[], "retry\nretry\nretry\n", &mut executor);
    assert_eq!(exit_code, 0);
    assert_eq!(stdout, "retry [repeated 3x]\n");
    assert!(executor.invocations().is_empty());
}

#[test]
fn a_command_is_executed_via_the_buffered_executor_not_inherited() {
    let mut executor = FakeExecutor::new().with_response(ExecutionResult {
        exit_code: 0,
        terminating_signal: None,
        stdout: b"\x1b[31merror\x1b[0m\n".to_vec(),
        stderr: b"warn\nwarn\n".to_vec(),
    });
    let (exit_code, stdout, stderr) = run(&["cargo", "check"], "", &mut executor);
    assert_eq!(exit_code, 0);
    assert_eq!(stdout, "error\n");
    assert_eq!(stderr, "warn [repeated 2x]\n");
    assert_eq!(
        executor.invocations(),
        vec![("cargo".to_string(), vec!["check".to_string()])]
    );
}

#[test]
fn exit_code_reflects_the_childs_exit_code() {
    let mut executor = FakeExecutor::new().with_response(ExecutionResult {
        exit_code: 3,
        terminating_signal: None,
        stdout: Vec::new(),
        stderr: Vec::new(),
    });
    let (exit_code, _, _) = run(&["false"], "", &mut executor);
    assert_eq!(exit_code, 3);
}

#[test]
fn broken_pipe_on_stdout_does_not_hide_the_childs_real_exit_code() {
    let mut executor = FakeExecutor::new().with_response(ExecutionResult {
        exit_code: 101,
        terminating_signal: None,
        stdout: b"some output\n".to_vec(),
        stderr: Vec::new(),
    });
    let mut stdout = ClosedPipe;
    let mut stderr = Vec::new();
    let empty: &[u8] = &[];
    let exit_code = dispatch(
        &["cargo".to_string(), "build".to_string()],
        empty,
        &mut stdout,
        &mut stderr,
        &mut executor,
    );
    assert_eq!(
        exit_code, 101,
        "a broken pipe on stdout must not overwrite the real child exit code"
    );
}

#[test]
fn a_child_killed_by_a_signal_exits_128_plus_the_signal() {
    let mut executor = FakeExecutor::new().with_response(ExecutionResult {
        exit_code: 0,
        terminating_signal: Some(9),
        stdout: Vec::new(),
        stderr: Vec::new(),
    });
    let (exit_code, _, _) = run(&["sleep", "60"], "", &mut executor);
    assert_eq!(exit_code, 137);
}
