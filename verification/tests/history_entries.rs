use stk::budget::tokenizer::ApproximateCounter;
use stk::history::{entries_from_text, record_savings, FakeHistoryStore, HistoryStore, UsageEntry};

#[test]
fn a_line_round_trips_through_to_line_and_from_line() {
    let entry = UsageEntry::now_with_tokens(
        "compile",
        "cargo",
        &["check".to_string(), "--all".to_string()],
        Some(120),
        Some(40),
        Some("/home/h/stk".to_string()),
    );
    let parsed = UsageEntry::from_line(&entry.to_line()).unwrap();
    assert_eq!(parsed, entry);
}

#[test]
fn fields_containing_tabs_and_newlines_round_trip_safely() {
    let entry = UsageEntry::now(
        "proxy",
        "echo",
        &["a\tb".to_string(), "line1\nline2".to_string()],
    );
    let parsed = UsageEntry::from_line(&entry.to_line()).unwrap();
    assert_eq!(parsed.args, entry.args);
}

#[test]
fn entries_with_no_token_counts_or_cwd_round_trip_as_none() {
    let entry = UsageEntry::now("proxy", "echo", &["hi".to_string()]);
    let parsed = UsageEntry::from_line(&entry.to_line()).unwrap();
    assert_eq!(parsed.input_tokens, None);
    assert_eq!(parsed.output_tokens, None);
    assert_eq!(parsed.cwd, None);
}

#[test]
fn a_malformed_line_is_skipped_not_a_hard_error() {
    assert_eq!(UsageEntry::from_line("not enough fields"), None);
}

#[test]
fn record_savings_counts_and_stores_both_sides() {
    let mut history = FakeHistoryStore::new();
    record_savings(
        &mut history,
        &ApproximateCounter,
        "compile",
        "cargo",
        &["check".to_string()],
        "a very long raw input that should count as more tokens",
        "short",
        None,
    );
    let entries = history.entries();
    assert_eq!(entries.len(), 1);
    assert!(entries[0].input_tokens.unwrap() > entries[0].output_tokens.unwrap());
}

#[test]
fn fake_history_store_reset_clears_recorded_entries() {
    let mut history = FakeHistoryStore::new();
    history
        .record(&UsageEntry::now("proxy", "echo", &[]))
        .unwrap();
    assert_eq!(history.read_all().unwrap().len(), 1);
    history.reset().unwrap();
    assert_eq!(history.read_all().unwrap().len(), 0);
}

#[test]
fn the_line_format_is_tab_separated_with_dashes_for_missing_values() {
    let entry = UsageEntry {
        verb: "proxy".to_string(),
        command: "echo".to_string(),
        args: vec!["a\\b".to_string()],
        timestamp_unix_millis: 1700000000000,
        input_tokens: None,
        output_tokens: Some(7),
        cwd: None,
    };
    assert_eq!(entry.to_line(), "1700000000000\t-\t7\t-\tproxy\techo\ta\\\\b");
}

#[test]
fn a_history_file_skips_the_lines_it_cannot_read() {
    let text = "12\t3\t1\t/p\tcompile\tcargo\tcheck\ngarbage\n13\t-\t-\t-\tproxy\tls\n";
    let entries = entries_from_text(text);
    assert_eq!(entries.len(), 2);
    assert_eq!(entries[0].timestamp_unix_millis, 12);
    assert_eq!(entries[0].cwd, Some("/p".to_string()));
    assert_eq!(entries[0].args, vec!["check".to_string()]);
    assert_eq!(entries[1].command, "ls");
    assert!(entries[1].args.is_empty());
}

#[test]
fn a_working_directory_that_is_a_dash_round_trips() {
    let e = UsageEntry {
        verb: "read".to_string(),
        command: String::new(),
        args: vec!["-".to_string()],
        timestamp_unix_millis: 7,
        input_tokens: None,
        output_tokens: Some(3),
        cwd: Some("-".to_string()),
    };
    let line = e.to_line();
    assert!(line.contains("\t\\-\t"), "got: {line:?}");
    assert_eq!(UsageEntry::from_line(&line), Some(e));
    let none = UsageEntry { cwd: None, ..UsageEntry::now("proxy", "echo", &[]) };
    assert_eq!(UsageEntry::from_line(&none.to_line()).unwrap().cwd, None);
}

#[test]
fn a_fake_store_keeps_every_recorded_entry_in_order() {
    let mut history = FakeHistoryStore::new();
    let first = UsageEntry::now("proxy", "echo", &[]);
    let second = UsageEntry::now("run", "ls", &["-l".to_string()]);
    let third = UsageEntry::now("proxy", "git", &["status".to_string()]);
    for e in [&first, &second, &third] {
        history.record(e).unwrap();
    }
    let entries = history.entries();
    assert_eq!(entries.len(), 3);
    assert_eq!(entries[0].command, "echo");
    assert_eq!(entries[1].command, "ls");
    assert_eq!(entries[2].command, "git");
    assert_eq!(history.read_all().unwrap().len(), 3);
    assert_eq!(history.entries().len(), 3);
}
