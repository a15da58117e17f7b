use stk::verbs::{find, grep};

#[test]
fn find_defaults_to_the_current_directory() {
    assert_eq!(find::parse_args(&[]), Ok((".".to_string(), None)));
    assert_eq!(
        find::parse_args(&["src".to_string(), "--name".to_string(), "rs".to_string(), "other".to_string()]),
        Ok(("src".to_string(), Some("rs".to_string())))
    );
    assert_eq!(
        find::parse_args(&["--name".to_string()]),
        Err("find --name requires a value".to_string())
    );
}

#[test]
fn find_lists_matching_names_sorted() {
    let found = vec![
        ("b/main.rs".to_string(), Some("main.rs".to_string())),
        ("a/lib.rs".to_string(), Some("lib.rs".to_string())),
        ("a/notes.txt".to_string(), Some("notes.txt".to_string())),
    ];
    let (mut stdout, mut stderr) = (Vec::new(), Vec::new());
    let code = find::finish(".", Ok(found), &Some(".rs".to_string()), &mut stdout, &mut stderr, None);
    assert_eq!(code, 0);
    assert_eq!(String::from_utf8(stdout).unwrap(), "a/lib.rs\nb/main.rs\n");
}

#[test]
fn find_reports_a_failed_walk() {
    let (mut stdout, mut stderr) = (Vec::new(), Vec::new());
    let code = find::finish("nope", Err("not found".to_string()), &None, &mut stdout, &mut stderr, None);
    assert_eq!(code, 1);
    assert_eq!(String::from_utf8(stderr).unwrap(), "stk: failed to search 'nope': not found\n");
}

#[test]
fn sorting_keeps_duplicates_and_orders_by_code_point() {
    let v: Vec<String> = ["b", "B", "a", "b", ""].iter().map(|s| s.to_string()).collect();
    assert_eq!(find::sort_strings(v), vec!["", "B", "a", "b", "b"]);
}

#[test]
fn grep_lists_matching_lines_with_file_and_line_number() {
    assert_eq!(
        grep::match_lines("src/a.rs", "fn main() {}\nlet x = 1;\nfn helper() {}\n", "fn "),
        vec!["src/a.rs:1:fn main() {}", "src/a.rs:3:fn helper() {}"]
    );
}

#[test]
fn grep_skips_unreadable_files_and_renders_all_matches() {
    let files = vec![
        ("a.txt".to_string(), Some("needle\nhay\n".to_string())),
        ("bin".to_string(), None),
        ("b.txt".to_string(), Some("more needle".to_string())),
    ];
    let (mut stdout, mut stderr) = (Vec::new(), Vec::new());
    let code = grep::finish(".", "needle", Ok(files), &mut stdout, &mut stderr, None);
    assert_eq!(code, 0);
    assert_eq!(String::from_utf8(stdout).unwrap(), "a.txt:1:needle\nb.txt:1:more needle\n");
}

#[test]
fn grep_usage_errors_name_what_is_missing() {
    assert_eq!(grep::parse_args(&[]), Err("stk: grep requires a pattern and a path".to_string()));
    assert_eq!(grep::parse_args(&["x".to_string()]), Err("stk: grep requires a path".to_string()));
}

#[test]
fn no_matches_render_as_nothing_at_all() {
    let (mut stdout, mut stderr) = (Vec::new(), Vec::new());
    let code = grep::finish(".", "zzz", Ok(vec![("a".to_string(), Some("abc".to_string()))]), &mut stdout, &mut stderr, None);
    assert_eq!(code, 0);
    assert!(stdout.is_empty());
}

#[test]
fn read_reports_a_missing_file_clearly() {
    let path = "/stk-fs-filters-test-read-missing/does_not_exist.txt".to_string();
    // What reading a path that does not exist gives.
    let read = Err("No such file or directory (os error 2)".to_string());
    let mut stdout = Vec::new();
    let mut stderr = Vec::new();
    let mut history = stk::history::FakeHistoryStore::new();
    let args = vec![path.clone()];

    let exit_code = stk::verbs::read::finish(&args, &path, read, &mut stdout, &mut stderr, &mut history, None, None);

    assert_ne!(exit_code, 0);
    assert!(stdout.is_empty());
    let stderr = String::from_utf8(stderr).unwrap();
    assert!(!stderr.is_empty());
    assert_eq!(stderr, format!("stk: failed to read '{path}': No such file or directory (os error 2)\n"));
}
