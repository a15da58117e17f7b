use stk::verbs::pipe::{dispatch, parse};

fn run(args: &[&str], stdin: &str) -> (i32, String, String) {
    let mut stdout = Vec::new();
    let mut stderr = Vec::new();
    let args: Vec<String> = args.iter().map(|s| s.to_string()).collect();
    let exit_code = dispatch(&args, stdin.as_bytes(), &mut stdout, &mut stderr);
    (
        exit_code,
        String::from_utf8(stdout).unwrap(),
        String::from_utf8(stderr).unwrap(),
    )
}

#[test]
fn defaults_to_passthrough_when_no_flag_is_given() {
    let (exit_code, stdout, stderr) = run(&[], "hello\nworld\n");
    assert_eq!(exit_code, 0);
    assert_eq!(stdout, "hello\nworld\n");
    assert!(stderr.is_empty());
}

#[test]
fn explicit_passthrough_flag_prints_input_unmodified() {
    let (exit_code, stdout, _) = run(&["--passthrough"], "\x1b[31mred\x1b[0m");
    assert_eq!(exit_code, 0);
    assert_eq!(stdout, "\x1b[31mred\x1b[0m");
}

#[test]
fn named_filter_applies_the_transform() {
    let (exit_code, stdout, _) = run(&["-f", "ansi"], "\x1b[31mred\x1b[0m plain");
    assert_eq!(exit_code, 0);
    assert_eq!(stdout, "red plain");
}

#[test]
fn unknown_filter_is_a_clear_error_not_silent_passthrough() {
    let (exit_code, stdout, stderr) = run(&["-f", "nonexistent"], "hello");
    assert_ne!(exit_code, 0);
    assert!(stdout.is_empty());
    assert!(stderr.contains("nonexistent"));
}

#[test]
fn last_flag_wins_when_both_are_given() {
    let (_, stdout, _) = run(&["-f", "ansi", "--passthrough"], "\x1b[31mred\x1b[0m");
    assert_eq!(stdout, "\x1b[31mred\x1b[0m");
}

#[test]
fn a_filter_flag_without_a_name_is_a_usage_error() {
    let (exit_code, stdout, stderr) = run(&["-f"], "hello");
    assert_eq!(exit_code, 2);
    assert!(stdout.is_empty());
    assert_eq!(stderr, "stk: pipe -f requires a filter name\n");
}

#[test]
fn an_unknown_argument_is_named_in_the_usage_error() {
    assert_eq!(
        parse(&["--bogus".to_string()]),
        Err("unrecognized argument '--bogus'".to_string())
    );
    assert_eq!(
        parse(&["--filter".to_string(), "ansi".to_string()]),
        Ok(Some("ansi".to_string()))
    );
}

#[test]
fn a_reader_that_went_away_is_a_normal_shutdown() {
    let mut stdout = stk::io::ClosedPipe;
    let mut stderr: Vec<u8> = Vec::new();
    let input: &[u8] = b"hello\n";
    let code = dispatch(&[], input, &mut stdout, &mut stderr);
    assert_eq!(code, 0);
    assert!(stderr.is_empty());
}
