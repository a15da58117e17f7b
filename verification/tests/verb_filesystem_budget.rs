use stk::budget::tokenizer::{ApproximateCounter, TokenCounter};
use stk::verbs::filesystem_budget::{
    render_optionally_budgeted, terminated, truncate_chars_head_tail, truncate_head_tail,
    truncate_sequential,
};

fn lines(n: usize) -> String {
    (0..n)
        .map(|i| format!("line {i}"))
        .collect::<Vec<_>>()
        .join("\n")
}

#[test]
fn content_that_already_fits_is_untouched() {
    let content = "short file\n";
    assert_eq!(
        truncate_head_tail(content, 100, &ApproximateCounter).unwrap(),
        content
    );
}

#[test]
fn a_too_large_file_is_truncated_keeping_head_and_tail() {
    let content = lines(200);
    let result = truncate_head_tail(&content, 60, &ApproximateCounter).unwrap();

    assert!(result.starts_with("line 0"));
    assert!(result.trim_end().ends_with("line 199"));
    assert!(result.contains("[stk: omitted"));
    assert!(ApproximateCounter.count(&result) <= 60);
}

#[test]
fn a_budget_below_the_marker_floor_is_refused() {
    let content = lines(200);
    let result = truncate_head_tail(&content, 1, &ApproximateCounter);
    assert!(result.is_err());
}

#[test]
fn chars_head_tail_keeps_both_ends_of_an_unbroken_blob() {
    let blob = format!("{{\"start\":true,{}\"end\":true}}", "x".repeat(2000));
    let result = truncate_chars_head_tail(&blob, 60, &ApproximateCounter).unwrap();

    assert!(result.starts_with("{\"start\":true,"));
    assert!(result.ends_with("\"end\":true}"));
    assert!(result.contains("[stk: omitted"));
    assert!(ApproximateCounter.count(&result) <= 60);
}

#[test]
fn sequential_content_that_already_fits_is_untouched_no_spurious_marker() {
    // Regression: the budget check must run against what actually needs rendering,
    // not unconditionally subtract the marker reserve before checking whether the
    // full content even needs truncating at all.
    let items: Vec<String> = vec!["a".to_string(), "b".to_string(), "c".to_string()];
    let joined_tokens = ApproximateCounter.count(&items.join("\n"));
    let result = truncate_sequential(&items, joined_tokens, &ApproximateCounter).unwrap();

    assert_eq!(result, "a\nb\nc\n");
    assert!(!result.contains("[stk: omitted"));
}

#[test]
fn sequential_keeps_a_prefix_and_marks_the_rest_omitted() {
    let items: Vec<String> = (0..50).map(|i| format!("match {i}")).collect();
    let result = truncate_sequential(&items, 30, &ApproximateCounter).unwrap();

    assert!(result.starts_with("match 0"));
    assert!(result.contains("[stk: omitted"));
    assert!(!result.contains("match 49"));
}

#[test]
fn sequential_with_no_truncation_needed_has_no_marker() {
    let items: Vec<String> = vec!["a".to_string(), "b".to_string()];
    let result = truncate_sequential(&items, 500, &ApproximateCounter).unwrap();
    assert_eq!(result, "a\nb\n");
}

#[test]
fn terminated_adds_a_newline_only_where_one_is_missing() {
    assert_eq!(terminated(String::new()), "");
    assert_eq!(terminated("a".to_string()), "a\n");
    assert_eq!(terminated("a\n".to_string()), "a\n");
}

#[test]
fn sequential_truncation_keeps_exactly_the_items_that_fit_in_order() {
    // Each "item N" costs 3 tokens; the marker for 10 items costs 8, leaving 12 of 20.
    let items: Vec<String> = (0..10).map(|i| format!("item {i}")).collect();
    let result = truncate_sequential(&items, 20, &ApproximateCounter).unwrap();
    assert_eq!(
        result,
        "item 0\nitem 1\nitem 2\nitem 3\n[stk: omitted 6 lines]\n"
    );
    assert_eq!(ApproximateCounter.count(&result), 17);
}

#[test]
fn a_refused_budget_reports_the_marker_floor() {
    let items: Vec<String> = (0..10).map(|i| format!("item {i}")).collect();
    let err = truncate_sequential(&items, 1, &ApproximateCounter).unwrap_err();
    assert_eq!(err.minimum, ApproximateCounter.count("\n[stk: omitted 10 lines]\n"));
    assert_eq!(err.minimum, 9);
}

#[test]
fn render_without_a_budget_joins_everything() {
    let mut stderr = Vec::new();
    let items = vec!["x".to_string(), "y".to_string()];
    let rendered =
        render_optionally_budgeted(&items, None, &ApproximateCounter, "any results", &mut stderr);
    assert_eq!(rendered.unwrap(), "x\ny\n");
    assert!(stderr.is_empty());
}

#[test]
fn render_with_a_budget_below_the_floor_reports_it_and_exits_2() {
    let mut stderr = Vec::new();
    let items: Vec<String> = (0..10).map(|i| format!("item {i}")).collect();
    let rendered =
        render_optionally_budgeted(&items, Some(1), &ApproximateCounter, "any results", &mut stderr);
    assert_eq!(rendered, Err(2));
    let minimum = ApproximateCounter.count("\n[stk: omitted 10 lines]\n");
    assert_eq!(
        String::from_utf8(stderr).unwrap(),
        format!("stk: --budget 1 is too small to render any results (minimum: {minimum})\n")
    );
}

#[test]
fn head_tail_truncation_counts_the_line_breaks_around_the_marker() {
    // Keeping one line at each end would render in 13 tokens, one over the budget.
    let content = vec!["xxxxxx"; 10].join("\n");
    let result = truncate_head_tail(&content, 12, &ApproximateCounter).unwrap();
    assert_eq!(result, "\n[stk: omitted 10 lines]\n");
    assert!(ApproximateCounter.count(&result) <= 12);
}

#[test]
fn sequential_truncation_counts_the_line_breaks_between_items() {
    // The thirty items alone, joined, are 70 tokens: a prefix and a marker must be kept.
    let items: Vec<String> = vec!["xxxxxx".to_string(); 30];
    let result = truncate_sequential(&items, 69, &ApproximateCounter).unwrap();
    let mut expected = vec!["xxxxxx"; 26].join("\n");
    expected.push_str("\n[stk: omitted 4 lines]\n");
    assert_eq!(result, expected);
    assert!(ApproximateCounter.count(&result) <= 69);
}

#[test]
fn head_tail_of_two_hundred_lines_keeps_eight_at_each_end() {
    // Each end's lines, counted joined, must fit what the marker leaves of the budget.
    let content = lines(200);
    let result = truncate_head_tail(&content, 60, &ApproximateCounter).unwrap();
    let head: Vec<String> = (0..8).map(|i| format!("line {i}")).collect();
    let tail: Vec<String> = (192..200).map(|i| format!("line {i}")).collect();
    let expected = format!("{}\n[stk: omitted 184 lines]\n{}\n", head.join("\n"), tail.join("\n"));
    assert_eq!(result, expected);
    assert_eq!(ApproximateCounter.count(&result), 51);
}

#[test]
fn chars_head_tail_keeps_what_both_ends_counted_alone_allow() {
    let blob = "x".repeat(300);
    let result = truncate_chars_head_tail(&blob, 61, &ApproximateCounter).unwrap();
    assert_eq!(result, format!("{}[stk: omitted 144 chars]{}", "x".repeat(78), "x".repeat(78)));
    assert_eq!(ApproximateCounter.count(&result), 60);
}

#[test]
fn sequential_keeps_the_items_whose_own_counts_fit_beside_the_marker() {
    let items: Vec<String> = ["a", "b", "c", "d", "e", "f", "g", "h", "i", "j"].iter().map(|s| s.to_string()).collect();
    let result = truncate_sequential(&items, 13, &ApproximateCounter).unwrap();
    assert_eq!(result, "a\nb\n[stk: omitted 8 lines]\n");
    assert_eq!(ApproximateCounter.count(&result), 9);
}
