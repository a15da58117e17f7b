use stk::history::{FakeHistoryStore, HistoryStore, UsageEntry};
use stk::verbs::gain_report::{report, report_if_placeable, Piece};
use stk::verbs::gain::{
    by_command, civil_from_days, dispatch, GainStep, csv_field, daily_key, display_name, monthly_key, parse_options,
    select_entries, summarize, weekly_key,
};

fn entry(verb: &str, command: &str, args: &[&str], input: Option<usize>, output: Option<usize>, cwd: Option<&str>) -> UsageEntry {
    UsageEntry {
        verb: verb.to_string(),
        command: command.to_string(),
        args: args.iter().map(|s| s.to_string()).collect(),
        timestamp_unix_millis: 0,
        input_tokens: input,
        output_tokens: output,
        cwd: cwd.map(|s| s.to_string()),
    }
}

#[test]
fn civil_from_days_matches_known_dates() {
    assert_eq!(civil_from_days(0), (1970, 1, 1));
    assert_eq!(civil_from_days(19), (1970, 1, 20));
    assert_eq!(civil_from_days(-1), (1969, 12, 31));
}

#[test]
fn daily_key_formats_as_iso_date() {
    // 1970-01-02 00:00:00 UTC
    assert_eq!(daily_key(86_400_000), "1970-01-02");
}

#[test]
fn weekly_key_spans_seven_days_starting_monday() {
    // 1970-01-01 was a Thursday -- its week runs Dec 29 (Mon) to Jan 4 (Sun).
    assert_eq!(weekly_key(0), "12-29 to 01-04");
}

#[test]
fn civil_dates_cross_leap_days_and_centuries() {
    assert_eq!(civil_from_days(11016), (2000, 2, 29));
    assert_eq!(civil_from_days(11017), (2000, 3, 1));
    assert_eq!(civil_from_days(-25508), (1900, 3, 1));
    assert_eq!(monthly_key(1_700_000_000_000), "2023-11");
    assert_eq!(daily_key(1_700_000_000_000), "2023-11-14");
}

#[test]
fn gain_an_unrecognized_argument_is_an_error() {
    let err = parse_options(&["--bogus".to_string()]).err().unwrap();
    assert!(err.contains("unrecognized argument"));
    assert_eq!(err, "unrecognized argument '--bogus'");
}

#[test]
fn options_follow_their_flags() {
    let args: Vec<String> = ["-p", "-a", "-t", "pro", "--format", "csv"].iter().map(|s| s.to_string()).collect();
    let o = parse_options(&args).ok().unwrap();
    assert!(o.project_scope && o.daily && o.weekly && o.monthly);
    assert!(!o.show_history && !o.reset);
    assert_eq!(o.tier, "pro");
    assert_eq!(o.format, "csv");
    let o = parse_options(&[]).ok().unwrap();
    assert_eq!(o.tier, "20x");
    assert_eq!(o.format, "text");
    assert_eq!(parse_options(&["-t".to_string()]).err().unwrap(), "-t/--tier requires a value");
}

#[test]
fn only_tracked_entries_in_scope_are_summarized() {
    let all = vec![
        entry("compile", "cargo", &[], Some(100), Some(40), Some("/here")),
        entry("proxy", "echo", &[], None, None, Some("/here")),
        entry("compile", "git", &[], Some(10), Some(5), Some("/elsewhere")),
    ];
    assert_eq!(select_entries(&all, false, &None).len(), 2);
    let scoped = select_entries(&all, true, &Some("/here".to_string()));
    assert_eq!(scoped.len(), 1);
    assert_eq!(scoped[0].command, "cargo");
    let t = summarize(&select_entries(&all, false, &None));
    assert_eq!((t.commands, t.input, t.output, t.saved), (2, 110, 45, 65));
}

#[test]
fn saved_tokens_never_go_negative() {
    let t = summarize(&[entry("compile", "cargo", &[], Some(5), Some(9), None)]);
    assert_eq!(t.saved, 0);
}

#[test]
fn display_names_and_csv_quoting() {
    assert_eq!(display_name(&entry("read", "", &["a.rs"], None, None, None)), "read");
    assert_eq!(display_name(&entry("compile", "cargo", &["check", "--all"], None, None, None)), "cargo check");
    assert_eq!(display_name(&entry("compile", "ls", &[], None, None, None)), "ls");
    assert_eq!(csv_field("plain"), "plain");
    assert_eq!(csv_field("build, release"), "\"build, release\"");
    assert_eq!(csv_field("say \"hi\""), "\"say \"\"hi\"\"\"");
}

#[test]
fn groups_come_in_name_order_with_their_entries() {
    let all = vec![
        entry("compile", "git", &[], Some(50), Some(45), None),
        entry("compile", "cargo", &[], Some(100), Some(40), None),
        entry("compile", "git", &[], Some(7), Some(1), None),
    ];
    let groups = by_command(&all);
    let names: Vec<&str> = groups.iter().map(|g| g.0.as_str()).collect();
    assert_eq!(names, vec!["cargo", "git"]);
    assert_eq!(groups[1].1.len(), 2);
    assert_eq!(groups[1].1[1].input_tokens, Some(7));
}

fn render(pieces: &[Piece]) -> String {
    let mut out = String::new();
    for piece in pieces {
        match piece {
            Piece::Text(text) => out.push_str(text),
            Piece::Percent { part, whole, places } => {
                let pct = if *whole > 0 { *part as f64 / *whole as f64 * 100.0 } else { 0.0 };
                out.push_str(&format!("{pct:.places$}", places = *places));
            }
        }
    }
    out
}

const CWD: &str = "/work/project";

fn run(args: &[&str], history: &mut FakeHistoryStore) -> (i32, String, String) {
    let mut stdout = Vec::new();
    let mut stderr = Vec::new();
    let args: Vec<String> = args.iter().map(|s| s.to_string()).collect();
    let cwd = Some(CWD.to_string());
    let code = match dispatch(&args, &mut stdout, &mut stderr, history, &cwd) {
        GainStep::Done(code) => code,
        GainStep::Report(options, entries) => {
            stdout.extend_from_slice(render(&report(&entries, &options, &cwd)).as_bytes());
            0
        }
    };
    (code, String::from_utf8(stdout).unwrap(), String::from_utf8(stderr).unwrap())
}

fn tracked_entry(command: &str, input: usize, output: usize) -> UsageEntry {
    UsageEntry::now_with_tokens("compile", command, &[], Some(input), Some(output), Some(CWD.to_string()))
}

#[test]
fn no_data_prints_a_clear_message_not_a_zeroed_summary() {
    let mut history = FakeHistoryStore::new();
    let (code, stdout, _) = run(&[], &mut history);
    assert_eq!(code, 0);
    assert!(stdout.contains("No tracking data yet"));
}

#[test]
fn entries_with_no_token_counts_are_excluded_from_the_summary() {
    let mut history = FakeHistoryStore::new();
    history.record(&UsageEntry::now("proxy", "echo", &[])).unwrap();
    let (code, stdout, _) = run(&[], &mut history);
    assert_eq!(code, 0);
    assert!(stdout.contains("No tracking data yet"));
}

#[test]
fn a_plain_summary_reports_totals_and_reduction() {
    let mut history = FakeHistoryStore::new();
    history.record(&tracked_entry("cargo", 100, 40)).unwrap();
    let (code, stdout, _) = run(&[], &mut history);
    assert_eq!(code, 0);
    assert!(stdout.contains("Input tokens:    100"));
    assert!(stdout.contains("Output tokens:   40"));
    assert!(stdout.contains("Tokens saved:    60"));
}

#[test]
fn format_json_emits_the_documented_summary_fields() {
    let mut history = FakeHistoryStore::new();
    history.record(&tracked_entry("cargo", 100, 40)).unwrap();
    let (code, stdout, _) = run(&["-f", "json"], &mut history);
    assert_eq!(code, 0);
    assert!(stdout.contains("\"total_input\": 100"));
    assert!(stdout.contains("\"total_output\": 40"));
}

#[test]
fn format_csv_emits_a_header_and_one_row_per_command() {
    let mut history = FakeHistoryStore::new();
    history.record(&tracked_entry("cargo", 100, 40)).unwrap();
    history.record(&tracked_entry("git", 50, 45)).unwrap();
    let (code, stdout, _) = run(&["-f", "csv"], &mut history);
    assert_eq!(code, 0);
    assert_eq!(stdout.lines().count(), 3, "header + 2 command rows, got: {stdout:?}");
    assert!(stdout.contains("cargo,1,100,40,60"));
    assert!(stdout.contains("git,1,50,45,5"));
}

#[test]
fn format_csv_quotes_a_command_containing_a_comma() {
    let mut history = FakeHistoryStore::new();
    history.record(&tracked_entry("build, release", 100, 40)).unwrap();
    let (code, stdout, _) = run(&["-f", "csv"], &mut history);
    assert_eq!(code, 0);
    assert!(stdout.contains("\"build, release\",1,100,40,60"), "got: {stdout:?}");
}

#[test]
fn reset_clears_history_so_a_later_gain_reports_no_data() {
    let mut history = FakeHistoryStore::new();
    history.record(&tracked_entry("cargo", 100, 40)).unwrap();
    let (code, stdout, _) = run(&["--reset"], &mut history);
    assert_eq!(code, 0);
    assert!(stdout.contains("reset"));
    let (_, stdout, _) = run(&[], &mut history);
    assert!(stdout.contains("No tracking data yet"));
}

#[test]
fn failures_flag_shows_a_standalone_message_not_the_summary() {
    let mut history = FakeHistoryStore::new();
    history.record(&tracked_entry("cargo", 100, 40)).unwrap();
    let (code, stdout, _) = run(&["-F"], &mut history);
    assert_eq!(code, 0);
    assert!(stdout.contains("No parse failures"));
    assert!(!stdout.contains("Input tokens"));
}

#[test]
fn project_scope_filters_to_entries_recorded_from_the_current_directory() {
    let mut history = FakeHistoryStore::new();
    history.record(&tracked_entry("cargo", 100, 40)).unwrap();
    history
        .record(&UsageEntry::now_with_tokens(
            "compile",
            "git",
            &[],
            Some(10),
            Some(5),
            Some("/some/other/project".to_string()),
        ))
        .unwrap();
    let (code, stdout, _) = run(&["-p"], &mut history);
    assert_eq!(code, 0);
    assert!(stdout.contains("Project Scope"));
    assert!(stdout.contains("Total commands:  1"));
}

#[test]
fn daily_and_history_flags_add_their_own_sections() {
    let mut history = FakeHistoryStore::new();
    history.record(&tracked_entry("cargo", 100, 40)).unwrap();
    let (_, stdout, _) = run(&["-d", "-H"], &mut history);
    assert!(stdout.contains("Daily Breakdown"));
    assert!(stdout.contains("Recent Commands"));
}

#[test]
fn the_text_report_lays_out_every_section_exactly() {
    let mut history = FakeHistoryStore::new();
    history.record(&entry("compile", "cargo", &["check"], Some(100), Some(40), Some(CWD))).unwrap();
    let mut late = entry("compile", "git", &[], Some(50), Some(60), Some(CWD));
    late.timestamp_unix_millis = 86_400_000 * 3 + 5_000;
    history.record(&late).unwrap();
    let (code, stdout, _) = run(&["-H", "-g", "-q", "-t", "pro", "-w"], &mut history);
    assert_eq!(code, 0);
    let dashes = "-".repeat(60);
    let expected = format!(
        "STK Token Savings (Global Scope)\n{}\n\nTotal commands:  2\nInput tokens:    150\nOutput tokens:   100\nTokens saved:    50 (33.3%)\n\
\nBy Command\n{dashes}\n  cargo check{}     1      60 (60.0%)\n  git{}     1       0 (0.0%)\n\
\nRecent Commands\n{dashes}\n  259205 git{} 0%\n  0 cargo check{} 60%\n\
\nWeekly Breakdown\n{dashes}\n  12-29 to 01-04           2 cmds      50 saved  33.3%\n\
\nDaily Savings\n{dashes}\n  1970-01-01 {} 60\n  1970-01-04  0\n\
\nMonthly Quota Analysis\n{dashes}\nSubscription tier: pro\nEstimated monthly quota: ~6000000\nTokens saved (lifetime): 50\nQuota preserved: 0.0008%\n\
\nNote: heuristic estimate, not a guarantee against any real subscription quota.\n",
        "=".repeat(50),
        " ".repeat(19),
        " ".repeat(27),
        " ".repeat(27),
        " ".repeat(19),
        "#".repeat(40),
    );
    assert_eq!(stdout, expected);
}

#[test]
fn tracked_entries_go_on_to_the_report_and_reset_empties_the_history() {
    let mut history = FakeHistoryStore::new();
    history.record(&entry("compile", "cargo", &[], Some(100), Some(40), Some(CWD))).unwrap();
    history.record(&entry("compile", "git", &[], Some(10), Some(5), Some("/elsewhere"))).unwrap();
    let args: Vec<String> = vec!["-p".to_string()];
    let mut stdout = Vec::new();
    let mut stderr = Vec::new();
    match dispatch(&args, &mut stdout, &mut stderr, &mut history, &Some(CWD.to_string())) {
        GainStep::Report(options, entries) => {
            assert!(options.project_scope);
            assert_eq!(entries.len(), 1);
            assert_eq!(entries[0].command, "cargo");
        }
        GainStep::Done(code) => panic!("expected a report, got exit code {code}"),
    }
    assert!(stdout.is_empty());
}

#[test]
fn a_bad_flag_finishes_without_reading_history() {
    let mut history = FakeHistoryStore::new();
    let (code, stdout, stderr) = run(&["--bogus"], &mut history);
    assert_eq!(code, 2);
    assert!(stdout.is_empty());
    assert_eq!(stderr, "stk: gain: unrecognized argument '--bogus'\n");
}

#[test]
fn proxy_usage_alone_does_not_count_as_savings_data() {
    let mut executor = stk::capture::executor::FakeExecutor::new().with_response(stk::capture::executor::ExecutionResult {
        exit_code: 0,
        terminating_signal: None,
        stdout: Vec::new(),
        stderr: Vec::new(),
    });
    let mut history = FakeHistoryStore::new();
    let empty: &[u8] = &[];
    let mut stdout = Vec::new();
    let mut stderr = Vec::new();
    let args: Vec<String> = ["proxy", "echo", "hi"].iter().map(|s| s.to_string()).collect();
    let code = stk::cli::run(&args, empty, &mut stdout, &mut stderr, &mut executor, &mut history);
    assert_eq!(code, 0);
    assert_eq!(history.entries().len(), 1);

    let (code, stdout, _) = run(&[], &mut history);
    assert_eq!(code, 0);
    assert!(stdout.contains("No tracking data yet"));
}

#[test]
fn a_calendar_report_is_refused_for_a_timestamp_beyond_the_calendar() {
    let mut far = entry("compile", "cargo", &[], Some(100), Some(40), None);
    far.timestamp_unix_millis = u128::MAX;
    let entries = vec![far];
    let cwd = Some(CWD.to_string());
    let daily = parse_options(&["--daily".to_string()]).ok().unwrap();
    assert!(report_if_placeable(&entries, &daily, &cwd).is_none());
    let plain = parse_options(&[]).ok().unwrap();
    let pieces = report_if_placeable(&entries, &plain, &cwd).unwrap();
    assert_eq!(render(&pieces), render(&report(&entries, &plain, &cwd)));
}
