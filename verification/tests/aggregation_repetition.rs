use stk::aggregation::repetition::{collapse, strip_marker};

fn lines(s: &[&str]) -> Vec<String> {
    s.iter().map(|s| s.to_string()).collect()
}

#[test]
fn collapses_a_run_of_identical_consecutive_lines() {
    assert_eq!(
        collapse(lines(&[
            "retrying connection...",
            "retrying connection...",
            "retrying connection...",
            "retrying connection..."
        ])),
        lines(&["retrying connection... [repeated 4x]"])
    );
}

#[test]
fn a_single_occurrence_is_left_unmodified() {
    assert_eq!(collapse(lines(&["hello"])), lines(&["hello"]));
}

#[test]
fn non_consecutive_repeats_are_not_collapsed() {
    assert_eq!(collapse(lines(&["a", "b", "a"])), lines(&["a", "b", "a"]));
}

#[test]
fn different_runs_are_collapsed_independently() {
    assert_eq!(
        collapse(lines(&["a", "a", "b", "b", "b"])),
        lines(&["a [repeated 2x]", "b [repeated 3x]"])
    );
}

#[test]
fn strip_marker_recovers_the_original_line() {
    assert_eq!(strip_marker("hello [repeated 4x]"), "hello");
}

#[test]
fn strip_marker_leaves_an_unmarked_line_alone() {
    assert_eq!(strip_marker("hello"), "hello");
    assert_eq!(
        strip_marker("literally [repeated in prose]"),
        "literally [repeated in prose]"
    );
}

#[test]
fn collapsing_then_stripping_the_marker_gives_the_repeated_line_back() {
    let collapsed = collapse(lines(&["x y", "x y", "x y"]));
    assert_eq!(collapsed.len(), 1);
    assert_eq!(strip_marker(&collapsed[0]), "x y");
}

#[test]
fn an_empty_input_collapses_to_nothing() {
    assert_eq!(collapse(Vec::new()), Vec::<String>::new());
}

#[test]
fn strip_marker_takes_off_a_marker_of_any_count_and_only_one() {
    assert_eq!(strip_marker("hello [repeated 0x]"), "hello");
    assert_eq!(strip_marker("hello [repeated 1x]"), "hello");
    assert_eq!(strip_marker("a [repeated 2x] [repeated 3x]"), "a [repeated 2x]");
    assert_eq!(strip_marker("hello [repeated x]"), "hello [repeated x]");
}
