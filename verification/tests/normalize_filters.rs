use stk::normalize::ansi::strip;
use stk::normalize::boilerplate::filter;
use stk::normalize::long_lines::truncate;
use stk::normalize::whitespace::normalize;

fn lines(s: &[&str]) -> Vec<String> {
    s.iter().map(|s| s.to_string()).collect()
}

#[test]
fn strips_color_codes() {
    let input = b"\x1b[31mred text\x1b[0m plain";
    assert_eq!(strip(input), b"red text plain");
}

#[test]
fn leaves_plain_text_untouched() {
    assert_eq!(strip(b"no escapes here"), b"no escapes here");
}

#[test]
fn handles_an_unterminated_escape_at_end_of_input_without_panicking() {
    let input = b"before\x1b[31";
    assert_eq!(strip(input), b"before");
}

#[test]
fn handles_cursor_movement_and_erase_codes() {
    let input = b"\x1b[2K\x1b[1Gloading...";
    assert_eq!(strip(input), b"loading...");
}

#[test]
fn a_malformed_escape_does_not_swallow_a_subsequent_real_one() {
    let input = b"\x1b[1;\x1b[32mgreen\x1b[0m";
    assert_eq!(strip(input), b"\x1b[1;green");
}

#[test]
fn removes_pure_separator_lines() {
    assert_eq!(
        filter(lines(&["result", "----------", "done"])),
        lines(&["result", "done"])
    );
}

#[test]
fn keeps_content_lines_that_merely_contain_dashes() {
    assert_eq!(
        filter(lines(&["--flag value", "a-b-c"])),
        lines(&["--flag value", "a-b-c"])
    );
}

#[test]
fn a_short_run_of_separator_chars_is_not_treated_as_boilerplate() {
    assert_eq!(filter(lines(&["--", "ok"])), lines(&["--", "ok"]));
}

#[test]
fn leaves_short_lines_untouched() {
    let lines = vec!["a short line".to_string()];
    assert_eq!(truncate(lines.clone()), lines);
}

#[test]
fn truncates_a_pathologically_long_line_keeping_head_and_tail() {
    let long_line = format!("HEAD_MARKER{}TAIL_MARKER", "x".repeat(3000));
    let result = truncate(vec![long_line]);
    assert_eq!(result.len(), 1);
    assert!(result[0].starts_with("HEAD_MARKER"));
    assert!(result[0].ends_with("TAIL_MARKER"));
    assert!(result[0].contains("chars omitted"));
    assert!(result[0].len() < 3000);
}

#[test]
fn trims_trailing_whitespace() {
    assert_eq!(
        normalize(lines(&["hello   ", "world\t"])),
        lines(&["hello", "world"])
    );
}

#[test]
fn collapses_runs_of_blank_lines_to_one() {
    assert_eq!(
        normalize(lines(&["a", "", "", "", "b"])),
        lines(&["a", "", "b"])
    );
}

#[test]
fn a_single_blank_line_is_left_alone() {
    assert_eq!(normalize(lines(&["a", "", "b"])), lines(&["a", "", "b"]));
}

#[test]
fn normalizing_twice_changes_nothing_more() {
    let once = normalize(lines(&["a  ", "", "  ", "", "b\t", ""]));
    assert_eq!(normalize(once.clone()), once);
}

#[test]
fn stripping_never_lengthens_the_input() {
    let input = b"\x1b[1m\x1b[31mboth\x1b[0m and \x1b[unterminated";
    assert!(strip(input).len() <= input.len());
}
