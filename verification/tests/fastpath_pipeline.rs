use stk::fastpath::{lines_from, run};

#[test]
fn empty_input_produces_empty_output() {
    assert_eq!(run(b""), b"");
}

#[test]
fn strips_ansi_then_aggregates_repeats() {
    let input = b"\x1b[31merror\x1b[0m\nretry\nretry\nretry\n";
    assert_eq!(run(input), b"error\nretry [repeated 3x]\n");
}

#[test]
fn full_pipeline_on_a_noisy_log() {
    let input = "\x1b[32mBuilding...\x1b[0m\n----------\nwarning: unused   \n\n\n\ndone\n";
    let output = String::from_utf8(run(input.as_bytes())).unwrap();
    assert_eq!(output, "Building...\nwarning: unused\n\ndone\n");
}

#[test]
fn a_boilerplate_line_between_two_distinct_occurrences_does_not_fake_a_repeat() {
    let input = b"build step A\n----------\nbuild step A\n";
    let output = String::from_utf8(run(input)).unwrap();
    assert_eq!(
        output, "build step A\nbuild step A\n",
        "two genuinely separate occurrences must not be reported as a repeated run \
         just because the divider between them was removed"
    );
}

#[test]
fn a_repeated_separator_run_is_still_removed_as_boilerplate() {
    let input = b"a\n----------\n----------\nb\n";
    let output = String::from_utf8(run(input)).unwrap();
    assert_eq!(output, "a\nb\n");
}

#[test]
fn invalid_utf8_is_decoded_lossily_not_rejected() {
    let lines = lines_from(b"ok \xff byte\n");
    assert_eq!(lines, vec!["ok \u{fffd} byte".to_string()]);
}

#[test]
fn crlf_line_endings_are_split_like_lf() {
    let lines = lines_from(b"one\r\ntwo\r\n");
    assert_eq!(lines, vec!["one".to_string(), "two".to_string()]);
}
