use stk::verbs::bench::{
    bench_report, both_exit_zero, dispatch, evidence_check, exact_match, version_report_line, BenchStep, CaseOutcome,
    PINNED_RTK_VERSION,
};

#[test]
fn version_line_reports_a_match_against_the_pinned_version() {
    let line = version_report_line(Some(PINNED_RTK_VERSION));
    assert!(line.contains("matches pinned"));
}

#[test]
fn version_line_warns_on_a_mismatch() {
    let line = version_report_line(Some("0.99.0"));
    assert!(line.contains("WARNING"));
    assert!(line.contains("0.99.0"));
}

#[test]
fn version_line_handles_an_undetectable_version() {
    let line = version_report_line(None);
    assert!(line.contains("unknown"));
}

#[test]
fn bench_wrong_args_is_a_usage_error() {
    let mut stdout = Vec::new();
    let mut stderr = Vec::new();
    let step = dispatch(&["--against".to_string(), "other".to_string()], &mut stdout, &mut stderr);
    assert!(matches!(step, BenchStep::Done(2)));
    assert!(String::from_utf8(stderr).unwrap().contains("usage"));
}

#[test]
fn bench_no_args_is_a_usage_error() {
    let mut stdout = Vec::new();
    let mut stderr = Vec::new();
    let step = dispatch(&[], &mut stdout, &mut stderr);
    assert!(matches!(step, BenchStep::Done(2)));
}

#[test]
fn the_bench_request_goes_on_to_the_cases_with_nothing_written() {
    let mut stdout: Vec<u8> = Vec::new();
    let mut stderr: Vec<u8> = Vec::new();
    let step = dispatch(&["--against".to_string(), "rtk".to_string()], &mut stdout, &mut stderr);
    assert!(matches!(step, BenchStep::Run));
    assert!(stdout.is_empty() && stderr.is_empty());
}

#[test]
fn a_failed_case_fails_the_run_and_every_case_is_reported() {
    let results = vec![
        ("case/0".to_string(), CaseOutcome::Pass),
        ("case/1".to_string(), CaseOutcome::Fail("differs".to_string())),
        ("case/2".to_string(), CaseOutcome::Skipped("no fixture".to_string())),
    ];
    let (out, err, code) = bench_report(true, Some(PINNED_RTK_VERSION), Ok(()), &results);
    assert_eq!(code, 1);
    assert_eq!(
        out,
        format!(
            "rtk version: {PINNED_RTK_VERSION} (matches pinned {PINNED_RTK_VERSION})\n\n[PASS] case/0\n[FAIL] case/1: differs\n[SKIP] case/2: no fixture\n\n1 passed, 1 failed, 1 skipped\n"
        )
    );
    assert!(err.is_empty());
}

#[test]
fn without_rtk_there_is_nothing_to_compare() {
    let results = vec![("case/0".to_string(), CaseOutcome::Fail("x".to_string()))];
    let (out, err, code) = bench_report(false, None, Ok(()), &results);
    assert_eq!(code, 0);
    assert_eq!(out, "rtk is not installed in this environment; nothing to bench against.\n");
    assert!(err.is_empty());
}

#[test]
fn cases_that_cannot_be_set_up_fail_the_run_after_the_version_line() {
    let (out, err, code) = bench_report(true, None, Err("no exe"), &[]);
    assert_eq!(code, 1);
    assert_eq!(out, "rtk version: unknown (`rtk --version` failed)\n");
    assert_eq!(err, "stk: bench: could not determine stk's own executable path: no exe\n");
}

#[test]
fn all_passing_cases_exit_zero() {
    let results = vec![("a".to_string(), CaseOutcome::Pass), ("b".to_string(), CaseOutcome::Skipped("s".to_string()))];
    let (out, _, code) = bench_report(true, Some("0.99.0"), Ok(()), &results);
    assert_eq!(code, 0);
    assert!(out.ends_with("\n[PASS] a\n[SKIP] b: s\n\n1 passed, 0 failed, 1 skipped\n"));
}

#[test]
fn exact_comparison_needs_the_same_stdout_and_exit_code() {
    assert!(matches!(exact_match(b"hi\n", Some(0), b"hi\n", Some(0)), CaseOutcome::Pass));
    match exact_match(b"hi\n", Some(0), b"hi\n", None) {
        CaseOutcome::Fail(d) => assert_eq!(d, "stdout or exit code differs from rtk (rtk exit Some(0), stk exit None)"),
        _ => panic!("expected a failure"),
    }
    match exact_match(b"a", Some(-3), b"b", Some(-3)) {
        CaseOutcome::Fail(d) => assert_eq!(d, "stdout or exit code differs from rtk (rtk exit Some(-3), stk exit Some(-3))"),
        _ => panic!("expected a failure"),
    }
}

#[test]
fn smoke_comparison_needs_both_to_exit_zero() {
    assert!(matches!(both_exit_zero(Some(0), Some(0)), CaseOutcome::Pass));
    match both_exit_zero(Some(0), Some(2)) {
        CaseOutcome::Fail(d) => assert_eq!(d, "exit codes: rtk=Some(0) stk=Some(2)"),
        _ => panic!("expected a failure"),
    }
}

#[test]
fn evidence_comparison_is_inconclusive_without_the_marker_and_names_what_is_missing() {
    let evidence = vec!["E0308".to_string(), "src/main.rs:6:30".to_string()];
    match evidence_check("all good", "E0308", "inconclusive", "", &evidence) {
        CaseOutcome::Skipped(d) => assert_eq!(d, "inconclusive"),
        _ => panic!("expected a skip"),
    }
    assert!(matches!(
        evidence_check("error[E0308]", "E0308", "x", "E0308 at src/main.rs:6:30", &evidence),
        CaseOutcome::Pass
    ));
    match evidence_check("error[E0308]", "E0308", "x", "only E0308", &evidence) {
        CaseOutcome::Fail(d) => assert_eq!(d, format!("stk dropped required evidence: {:?}", vec!["src/main.rs:6:30"])),
        _ => panic!("expected a failure"),
    }
}

#[test]
fn missing_evidence_with_quotes_and_backslashes_is_named_as_debug_prints_it() {
    let evidence = vec!["say \"hi\"".to_string(), "C:\\path".to_string(), "tab\there".to_string()];
    match evidence_check("marker", "marker", "x", "nothing relevant", &evidence) {
        CaseOutcome::Fail(d) => assert_eq!(d, "stk dropped required evidence: [\"say \\\"hi\\\"\", \"C:\\\\path\", \"tab\\there\"]"),
        _ => panic!("expected a failure"),
    }
}
