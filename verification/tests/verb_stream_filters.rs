use stk::capture::executor::{ExecutionResult, FakeExecutor};
use stk::verbs::{diff, err, log, summary};

fn result(stdout: &str, stderr: &str, exit_code: i32) -> ExecutionResult {
    ExecutionResult {
        exit_code,
        terminating_signal: None,
        stdout: stdout.as_bytes().to_vec(),
        stderr: stderr.as_bytes().to_vec(),
    }
}

#[test]
fn err_keeps_only_errors_and_warnings_and_the_childs_exit_code() {
    let mut executor = FakeExecutor::new().with_response(result(
        "Compiling x\nerror: boom\n",
        "warning: careful\nnote: fyi\n",
        101,
    ));
    let (mut stdout, mut stderr) = (Vec::new(), Vec::new());
    let code = err::dispatch(&["cargo".to_string(), "build".to_string()], &mut stdout, &mut stderr, &mut executor, None);
    assert_eq!(code, 101);
    assert_eq!(String::from_utf8(stdout).unwrap(), "error: boom\nwarning: careful\n");
    assert_eq!(executor.invocations(), vec![("cargo".to_string(), vec!["build".to_string()])]);
}

#[test]
fn err_without_a_command_runs_nothing() {
    let mut executor = FakeExecutor::new();
    let (mut stdout, mut stderr) = (Vec::new(), Vec::new());
    let code = err::dispatch(&[], &mut stdout, &mut stderr, &mut executor, None);
    assert_eq!(code, 2);
    assert!(executor.invocations().is_empty());
    assert_eq!(String::from_utf8(stderr).unwrap(), "stk: err requires a command\n");
}

#[test]
fn summary_counts_errors_and_warnings_and_shows_the_first_error() {
    let mut executor = FakeExecutor::new().with_response(result(
        "error: first\nwarning: w\nerror: second\n",
        "",
        1,
    ));
    let (mut stdout, mut stderr) = (Vec::new(), Vec::new());
    let code = summary::dispatch(&["make".to_string()], &mut stdout, &mut stderr, &mut executor, None);
    assert_eq!(code, 1);
    assert_eq!(
        String::from_utf8(stdout).unwrap(),
        "failed: 2 errors, 1 warning (3 lines)\nerror: first\n"
    );
}

#[test]
fn summary_of_a_clean_run_is_ok() {
    let mut executor = FakeExecutor::new().with_response(result("all good\n", "", 0));
    let (mut stdout, mut stderr) = (Vec::new(), Vec::new());
    let code = summary::dispatch(&["true".to_string()], &mut stdout, &mut stderr, &mut executor, None);
    assert_eq!(code, 0);
    assert_eq!(String::from_utf8(stdout).unwrap(), "ok: 0 errors, 0 warnings (1 lines)\n");
}

#[test]
fn diff_keeps_headers_hunks_renames_and_changed_lines() {
    let text = "diff --git a/x b/y\nsimilarity index 90%\nrename from x\nrename to y\nindex 1..2 100644\n--- a/x\n+++ b/y\n@@ -1,2 +1,2 @@\n context\n--- note\n+new\n";
    assert_eq!(
        diff::condense(text),
        vec![
            "diff --git a/x b/y",
            "similarity index 90%",
            "rename from x",
            "rename to y",
            "@@ -1,2 +1,2 @@",
            "--- note",
            "+new",
        ]
    );
}

#[test]
fn diff_reports_an_unreadable_source() {
    let (mut stdout, mut stderr) = (Vec::new(), Vec::new());
    let code = diff::finish(Some("p.diff"), Err("gone".to_string()), &mut stdout, &mut stderr, None);
    assert_eq!(code, 1);
    assert_eq!(String::from_utf8(stderr).unwrap(), "stk: failed to read 'p.diff': gone\n");
}

#[test]
fn log_compiles_its_input_like_piped_compile() {
    let (mut stdout, mut stderr) = (Vec::new(), Vec::new());
    let code = log::finish(None, Ok(b"x\nx\n".to_vec()), &mut stdout, &mut stderr, None);
    assert_eq!(code, 0);
    assert_eq!(String::from_utf8(stdout).unwrap(), "x [repeated 2x]\n");
}

fn run_with_fake_command(args: &[&str], executor: &mut FakeExecutor) -> (i32, String, String) {
    let mut history = stk::history::FakeHistoryStore::new();
    let mut stdout = Vec::new();
    let mut stderr = Vec::new();
    let args: Vec<String> = args.iter().map(|s| s.to_string()).collect();
    let empty: &[u8] = &[];
    let exit_code = stk::cli::run(&args, empty, &mut stdout, &mut stderr, executor, &mut history);
    (exit_code, String::from_utf8(stdout).unwrap(), String::from_utf8(stderr).unwrap())
}

#[test]
fn err_isolates_errors_and_warnings_from_mixed_output() {
    let mut executor = FakeExecutor::new().with_response(ExecutionResult {
        exit_code: 1,
        terminating_signal: None,
        stdout: b"Compiling foo\nerror: boom\nFinished\n".to_vec(),
        stderr: b"warning: careful\nnote: fyi\n".to_vec(),
    });

    let (exit_code, stdout, _) = run_with_fake_command(&["err", "cargo", "check"], &mut executor);

    assert_eq!(exit_code, 1);
    assert!(stdout.contains("error: boom"));
    assert!(stdout.contains("warning: careful"));
    assert!(!stdout.contains("Compiling"));
    assert!(!stdout.contains("note: fyi"));
}

#[test]
fn summary_reports_counts_and_the_first_error() {
    let mut executor = FakeExecutor::new().with_response(ExecutionResult {
        exit_code: 1,
        terminating_signal: None,
        stdout: b"error: first problem\nerror: second problem\nwarning: heads up\n".to_vec(),
        stderr: Vec::new(),
    });

    let (exit_code, stdout, _) = run_with_fake_command(&["summary", "cargo", "test"], &mut executor);

    assert_eq!(exit_code, 1);
    assert!(stdout.contains("2 errors"));
    assert!(stdout.contains("1 warning"));
    assert!(stdout.contains("error: first problem"));
    assert!(!stdout.contains("second problem"));
}

#[test]
fn compile_through_the_entry_point_runs_the_command_once() {
    let mut executor = FakeExecutor::new().with_response(ExecutionResult {
        exit_code: 0,
        terminating_signal: None,
        stdout: b"retry\nretry\nretry\n".to_vec(),
        stderr: Vec::new(),
    });
    let (exit_code, stdout, _) = run_with_fake_command(&["compile", "cargo", "check"], &mut executor);
    assert_eq!(exit_code, 0);
    assert!(stdout.contains("retry [repeated 3x]"), "got: {stdout:?}");
    let invocations = executor.invocations();
    assert_eq!(invocations.len(), 1);
    assert_eq!(invocations[0].0, "cargo");
    assert_eq!(invocations[0].1, vec!["check".to_string()]);
}
