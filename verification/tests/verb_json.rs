use stk::verbs::json::{finish, parse_args, render_json};

fn run(text: &str, keys_only: bool, budget: Option<usize>) -> (i32, String, String) {
    let mut stdout = Vec::new();
    let mut stderr = Vec::new();
    let code = finish("data.json", Ok(text.to_string()), keys_only, &mut stdout, &mut stderr, budget);
    (code, String::from_utf8(stdout).unwrap(), String::from_utf8(stderr).unwrap())
}

#[test]
fn json_compacts_by_default_and_strips_values_with_keys_only() {
    let text = "{\n  \"a\": 1,\n  \"b\": [1, 2, 3]\n}\n";
    let (code, stdout, _) = run(text, false, None);
    assert_eq!(code, 0);
    assert_eq!(stdout.trim(), r#"{"a":1,"b":[1,2,3]}"#);
    let (code, stdout, _) = run(text, true, None);
    assert_eq!(code, 0);
    assert_eq!(stdout.trim(), r#"{"a":null,"b":[null,null,null]}"#);
}

#[test]
fn compaction_matches_serde_json_for_nested_and_escaped_values() {
    let text = r#"{ "z": {"q": [true, false, null, {"k": "a \"quoted\" \\ line\n"}]}, "a": [], "m": {}, "n": -1.5e3 }"#;
    let expected = serde_json::from_str::<serde_json::Value>(text).unwrap().to_string();
    assert_eq!(render_json(text, false).unwrap(), expected);
    assert_eq!(
        render_json(text, true).unwrap(),
        r#"{"a":[],"m":{},"n":null,"z":{"q":[null,null,null,{"k":null}]}}"#
    );
}

#[test]
fn invalid_json_is_reported_with_the_path() {
    let (code, stdout, stderr) = run("{not json", false, None);
    assert_eq!(code, 1);
    assert!(stdout.is_empty());
    assert!(stderr.starts_with("stk: 'data.json' is not valid JSON: "), "got: {stderr:?}");
}

#[test]
fn a_read_failure_is_reported_with_the_path() {
    let mut stdout = Vec::new();
    let mut stderr = Vec::new();
    let code = finish("gone.json", Err("No such file".to_string()), false, &mut stdout, &mut stderr, None);
    assert_eq!(code, 1);
    assert_eq!(String::from_utf8(stderr).unwrap(), "stk: failed to read 'gone.json': No such file\n");
}

#[test]
fn a_budget_too_small_for_the_marker_is_a_usage_error() {
    let long = format!("[{}]", vec!["123456789"; 200].join(","));
    let (code, stdout, stderr) = run(&long, false, Some(1));
    assert_eq!(code, 2);
    assert!(stdout.is_empty());
    assert!(stderr.starts_with("stk: --budget 1 is too small to render this JSON (minimum: "), "got: {stderr:?}");
}

#[test]
fn a_tight_budget_keeps_head_and_tail() {
    let long = format!("[{}]", vec!["123456789"; 200].join(","));
    let (code, stdout, _) = run(&long, false, Some(60));
    assert_eq!(code, 0);
    assert!(stdout.starts_with("[123456789"));
    assert!(stdout.ends_with("123456789]\n"));
    assert!(stdout.len() < long.len());
}

#[test]
fn the_path_is_the_first_argument_that_is_not_the_flag() {
    let args: Vec<String> = ["--keys-only", "a.json", "b.json"].iter().map(|s| s.to_string()).collect();
    assert_eq!(parse_args(&args), (Some("a.json".to_string()), true));
    assert_eq!(parse_args(&[]), (None, false));
}

#[test]
fn keys_only_keeps_every_key_and_the_nesting() {
    let text = r#"{"k": [1, "x", {"deep": false}], "e": {}, "s": "text"}"#;
    assert_eq!(
        render_json(text, true).unwrap(),
        r#"{"e":{},"k":[null,null,{"deep":null}],"s":null}"#
    );
    assert_eq!(
        render_json(text, false).unwrap(),
        serde_json::from_str::<serde_json::Value>(text).unwrap().to_string()
    );
}
