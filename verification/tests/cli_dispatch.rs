use stk::budget::tokenizer::{ApproximateCounter, TokenCounter};
use stk::capture::executor::{ExecutionResult, FakeExecutor};
use stk::cli::run;
use stk::history::FakeHistoryStore;

fn strings(args: &[&str]) -> Vec<String> {
    args.iter().map(|s| s.to_string()).collect()
}

#[test]
fn no_command_is_a_usage_error() {
    let mut executor = FakeExecutor::new();
    let mut history = FakeHistoryStore::new();
    let (mut stdout, mut stderr) = (Vec::new(), Vec::new());
    let empty: &[u8] = &[];
    let code = run(&[], empty, &mut stdout, &mut stderr, &mut executor, &mut history);
    assert_eq!(code, 2);
    assert_eq!(
        String::from_utf8(stderr).unwrap(),
        "stk: no command given (try 'stk --help')\n"
    );
}

#[test]
fn an_unknown_verb_is_reported_and_nothing_runs() {
    let mut executor = FakeExecutor::new();
    let mut history = FakeHistoryStore::new();
    let (mut stdout, mut stderr) = (Vec::new(), Vec::new());
    let empty: &[u8] = &[];
    let code = run(&strings(&["frobnicate", "x"]), empty, &mut stdout, &mut stderr, &mut executor, &mut history);
    assert_eq!(code, 2);
    assert!(executor.invocations().is_empty());
    assert!(history.entries().is_empty());
    assert_eq!(
        String::from_utf8(stderr).unwrap(),
        "stk: unsupported command 'frobnicate' (no built-in verb or specialist is registered for it)\n"
    );
}

#[test]
fn run_proxy_and_pipe_reach_their_verbs() {
    let mut executor = FakeExecutor::new();
    let mut history = FakeHistoryStore::new();
    let (mut stdout, mut stderr) = (Vec::new(), Vec::new());
    let empty: &[u8] = &[];
    run(&strings(&["run", "ls", "-l"]), empty, &mut stdout, &mut stderr, &mut executor, &mut history);
    run(&strings(&["proxy", "echo", "hi"]), empty, &mut stdout, &mut stderr, &mut executor, &mut history);
    assert_eq!(
        executor.invocations(),
        vec![
            ("ls".to_string(), vec!["-l".to_string()]),
            ("echo".to_string(), vec!["hi".to_string()]),
        ]
    );
    assert_eq!(history.entries().len(), 1);
    let input: &[u8] = b"piped\n";
    let code = run(&strings(&["pipe"]), input, &mut stdout, &mut stderr, &mut executor, &mut history);
    assert_eq!(code, 0);
    assert_eq!(String::from_utf8(stdout).unwrap(), "piped\n");
}

#[test]
fn unrecognized_command_is_rejected_with_nonzero_exit() {
    let mut executor = FakeExecutor::new();
    let mut history = FakeHistoryStore::new();
    let mut stdout = Vec::new();
    let mut stderr = Vec::new();
    let empty: &[u8] = &[];

    let exit_code = run(
        &["frobnicate".to_string()],
        empty,
        &mut stdout,
        &mut stderr,
        &mut executor,
        &mut history,
    );

    assert_ne!(exit_code, 0);
    assert!(stdout.is_empty());
    let stderr = String::from_utf8(stderr).unwrap();
    assert!(
        stderr.contains("unsupported") || stderr.contains("frobnicate"),
        "expected an unsupported-command error mentioning the command, got: {stderr}"
    );
}

#[test]
fn no_command_given_is_also_rejected() {
    let mut executor = FakeExecutor::new();
    let mut history = FakeHistoryStore::new();
    let mut stdout = Vec::new();
    let mut stderr = Vec::new();
    let empty: &[u8] = &[];

    let exit_code = run(&[], empty, &mut stdout, &mut stderr, &mut executor, &mut history);

    assert_ne!(exit_code, 0);
    assert!(!String::from_utf8(stderr).unwrap().is_empty());
}

#[test]
fn no_child_process_is_spawned_for_an_unsupported_command() {
    let mut executor = FakeExecutor::new();
    let mut history = FakeHistoryStore::new();
    let mut stdout = Vec::new();
    let mut stderr = Vec::new();
    let empty: &[u8] = &[];

    run(
        &["cargo".to_string(), "check".to_string()],
        empty,
        &mut stdout,
        &mut stderr,
        &mut executor,
        &mut history,
    );

    assert_eq!(
        executor.invocations().len(),
        0,
        "with no specialist registered in the dispatcher, `stk cargo check` must not reach the executor"
    );
}

#[test]
fn compile_through_the_dispatcher_records_its_savings() {
    let mut executor = FakeExecutor::new().with_response(stk::capture::executor::ExecutionResult {
        exit_code: 0,
        terminating_signal: None,
        stdout: b"retry\nretry\nretry\nretry\nretry\n".to_vec(),
        stderr: Vec::new(),
    });
    let mut history = FakeHistoryStore::new();
    let (mut stdout, mut stderr) = (Vec::new(), Vec::new());
    let empty: &[u8] = &[];
    let code = run(&strings(&["compile", "cargo", "check"]), empty, &mut stdout, &mut stderr, &mut executor, &mut history);
    assert_eq!(code, 0);
    assert_eq!(String::from_utf8(stdout).unwrap(), "retry [repeated 5x]\n");
    let entries = history.entries();
    assert_eq!(entries.len(), 1);
    assert_eq!(entries[0].verb, "compile");
    assert_eq!(entries[0].command, "cargo");
    assert_eq!(entries[0].args, vec!["check".to_string()]);
    assert_eq!(entries[0].input_tokens, Some(10));
    assert_eq!(entries[0].output_tokens, Some(7));
}

#[test]
fn an_unknown_verb_writes_nothing_to_stdout() {
    let mut executor = FakeExecutor::new();
    let mut history = FakeHistoryStore::new();
    let (mut stdout, mut stderr) = (Vec::new(), Vec::new());
    let empty: &[u8] = &[];
    let code = run(&strings(&["frobnicate"]), empty, &mut stdout, &mut stderr, &mut executor, &mut history);
    assert_eq!(code, 2);
    assert!(stdout.is_empty());
}

#[test]
fn summary_records_its_savings() {
    let mut executor = FakeExecutor::new().with_response(ExecutionResult {
        exit_code: 1,
        terminating_signal: None,
        stdout: b"error: boom\nok line\n".to_vec(),
        stderr: Vec::new(),
    });
    let mut history = FakeHistoryStore::new();
    let (mut stdout, mut stderr) = (Vec::new(), Vec::new());
    let empty: &[u8] = &[];
    let code = run(&strings(&["summary", "make", "all"]), empty, &mut stdout, &mut stderr, &mut executor, &mut history);
    assert_eq!(code, 1);
    let shown = String::from_utf8(stdout).unwrap();
    assert_eq!(shown, "failed: 1 error, 0 warnings (2 lines)\nerror: boom\n");
    let entries = history.entries();
    assert_eq!(entries.len(), 1);
    assert_eq!(entries[0].verb, "summary");
    assert_eq!(entries[0].command, "make");
    assert_eq!(entries[0].args, vec!["all".to_string()]);
    assert_eq!(entries[0].input_tokens, Some(ApproximateCounter.count("error: boom\nok line")));
    assert_eq!(entries[0].output_tokens, Some(ApproximateCounter.count(&shown)));
}
