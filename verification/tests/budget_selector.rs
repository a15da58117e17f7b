use stk::budget::selector::{select, select_with, BudgetError};
use stk::budget::tokenizer::{ApproximateCounter, TokenCounter};
use stk::chunk::Classifier;

fn lines(s: &[&str]) -> Vec<String> {
    s.iter().map(|s| s.to_string()).collect()
}

#[test]
fn normal_budgeted_compression_keeps_the_error() {
    let stdout_lines = lines(&[
        "Compiling stk v0.1.0",
        "error[E0308]: mismatched types",
        "warning: unused variable",
        "note: some verbose detail nobody needs",
    ]);
    let out = select(&stdout_lines, &[], 100, &ApproximateCounter).unwrap();
    let rendered = String::from_utf8(out.stdout).unwrap();

    assert!(rendered.contains("error[E0308]"));
}

#[test]
fn a_tiny_budget_forces_p0_to_shrink_and_carries_a_shrink_marker() {
    let long_error = format!("error: {}", "x".repeat(500));
    let stdout_lines = lines(&[&long_error]);

    // Big enough to pass the floor, far too small to hold the whole error.
    let out = select(&stdout_lines, &[], 65, &ApproximateCounter).unwrap();
    let rendered = String::from_utf8(out.stdout).unwrap();

    assert!(
        rendered.contains("[stk: P0 content truncated to fit budget]"),
        "expected a shrink marker, got: {rendered:?}"
    );
    assert!(
        rendered.len() < long_error.len(),
        "expected the error to actually be shortened"
    );
    let actual_tokens = ApproximateCounter.count(&rendered);
    assert!(
        actual_tokens <= 65,
        "rendered output must still honor the budget, got {actual_tokens} tokens"
    );
}

#[test]
fn a_budget_below_the_floor_is_refused_not_rendered() {
    let result = select(&lines(&["error: anything"]), &[], 1, &ApproximateCounter);
    assert!(matches!(result, Err(BudgetError::TooSmall { .. })));
}

#[test]
fn dropped_optional_content_leaves_a_visible_omission_marker() {
    let stdout_lines = lines(&[
        "error: the one thing that matters",
        "note: filler line one that is not important at all",
        "note: filler line two that is not important at all",
        "note: filler line three that is not important at all",
    ]);
    let out = select(&stdout_lines, &[], 65, &ApproximateCounter).unwrap();
    let rendered = String::from_utf8(out.stdout).unwrap();

    assert!(rendered.contains("error: the one thing that matters"));
    assert!(
        rendered.contains("[stk: omitted"),
        "expected an omission marker, got: {rendered:?}"
    );
}

#[test]
fn nothing_dropped_means_no_omission_marker_at_all() {
    let stdout_lines = lines(&["error: small", "note: also small"]);
    let out = select(&stdout_lines, &[], 500, &ApproximateCounter).unwrap();
    let rendered = String::from_utf8(out.stdout).unwrap();

    assert!(!rendered.contains("[stk: omitted"));
    assert!(!rendered.contains("[stk: P0"));
}

#[test]
fn both_streams_needing_their_own_shrink_marker_does_not_spuriously_error() {
    let long_error = format!("error: {}", "x".repeat(500));
    let stdout_lines = lines(&[&long_error]);
    let stderr_lines = lines(&[&long_error]);

    let result = select(&stdout_lines, &stderr_lines, 70, &ApproximateCounter);
    assert!(
        result.is_ok(),
        "two streams each independently needing a shrink marker must not exceed the \
         shared marker reserve and trip BudgetError::Internal, got: {result:?}"
    );
}

#[test]
fn stdout_and_stderr_are_rendered_and_omitted_independently() {
    let stdout_lines = lines(&["error: stdout error"]);
    let stderr_lines = lines(&[
        "note: stderr filler one that nobody needs at all",
        "note: stderr filler two that nobody needs at all",
    ]);
    let out = select(&stdout_lines, &stderr_lines, 65, &ApproximateCounter).unwrap();
    let stdout_rendered = String::from_utf8(out.stdout).unwrap();
    let stderr_rendered = String::from_utf8(out.stderr).unwrap();

    assert!(stdout_rendered.contains("error: stdout error"));
    assert!(!stdout_rendered.contains("[stk: omitted"));
    assert!(stderr_rendered.contains("[stk: omitted"));
}

#[test]
fn the_smallest_honored_budget_is_reported_with_the_refusal() {
    match select(&lines(&["error: anything"]), &[], 1, &ApproximateCounter) {
        Err(BudgetError::TooSmall { budget, minimum }) => {
            assert_eq!(budget, 1);
            assert!(minimum > 1);
            let again = select(&lines(&["error: anything"]), &[], minimum, &ApproximateCounter);
            assert!(again.is_ok());
        }
        other => panic!("expected TooSmall, got {other:?}"),
    }
}

#[test]
fn a_specialist_classifier_keeps_its_own_mandatory_lines() {
    let stdout_lines = lines(&[
        "   Compiling stk v0.1.0",
        "error[E0308]: mismatched types",
        "   Compiling other v0.2.0",
    ]);
    let out = select_with(&stdout_lines, &[], 500, &ApproximateCounter, Classifier::Cargo).unwrap();
    let rendered = String::from_utf8(out.stdout).unwrap();
    assert!(rendered.contains("error[E0308]: mismatched types"));
}

#[test]
fn a_budget_that_holds_both_streams_keeps_every_line_in_order() {
    let out = select(
        &lines(&["note: first", "plain second", "error: third"]),
        &lines(&["warning: only"]),
        400,
        &ApproximateCounter,
    )
    .unwrap();
    assert_eq!(String::from_utf8(out.stdout).unwrap(), "note: first\nplain second\nerror: third\n");
    assert_eq!(String::from_utf8(out.stderr).unwrap(), "warning: only\n");
}

#[test]
fn mandatory_lines_that_fit_stay_verbatim_and_the_marker_counts_every_dropped_line() {
    let mut stdout_lines = lines(&["error: disk full"]);
    for i in 0..30 {
        stdout_lines.push(format!("note: filler line number {i:02} padding"));
    }
    let out = select(&stdout_lines, &[], 70, &ApproximateCounter).unwrap();
    let rendered = String::from_utf8(out.stdout).unwrap();

    assert_eq!(
        rendered,
        "error: disk full\nnote: filler line number 29 padding\n[stk: omitted 29 lines]\n"
    );
    assert!(!rendered.contains("[stk: P0 content truncated to fit budget]"));
    assert!(out.stderr.is_empty());
}

#[test]
fn mandatory_lines_whose_rendering_outgrows_their_counts_end_in_an_internal_error() {
    // Each line counts 2 tokens alone, but the 140 lines with their newlines count 327,
    // one more than the budget leaves once the markers' 46 are set aside for 280.
    let stdout_lines: Vec<String> = (0..140).map(|_| "error!".to_string()).collect();
    let counted: usize = stdout_lines.iter().map(|l| ApproximateCounter.count(l)).sum();
    assert_eq!(counted, 280);

    assert!(matches!(
        select(&stdout_lines, &[], 326, &ApproximateCounter),
        Err(BudgetError::Internal)
    ));
}

#[test]
fn packing_passes_over_a_higher_scoring_line_that_does_not_fit_and_takes_one_that_does() {
    let long_note = format!("note: {}", "y".repeat(94));
    let stdout_lines = lines(&["error: disk full", "note: short one", &long_note]);
    let out = select(&stdout_lines, &[], 70, &ApproximateCounter).unwrap();
    let rendered = String::from_utf8(out.stdout).unwrap();

    assert_eq!(rendered, "error: disk full\nnote: short one\n[stk: omitted 1 line]\n");
}

#[test]
fn only_the_stream_that_lost_mandatory_content_carries_the_shrink_marker() {
    let long_error = format!("error: {}", "x".repeat(500));
    let stdout_lines = lines(&["error: a"]);
    let stderr_lines = lines(&[&long_error]);
    let out = select(&stdout_lines, &stderr_lines, 65, &ApproximateCounter).unwrap();
    let stdout = String::from_utf8(out.stdout).unwrap();
    let stderr = String::from_utf8(out.stderr).unwrap();

    assert_eq!(stdout, "error: a\n");
    assert!(stderr.starts_with("error: xxx"));
    assert!(stderr.ends_with("...\n[stk: P0 content truncated to fit budget]\n"));
}
