use stk::verbs::init::{
    find_managed_block, install_content, parse_target, plan_install, render_block, InstallPlan, Target, MARKER_END,
    MARKER_START,
};

#[test]
fn no_markers_at_all_is_none() {
    assert_eq!(find_managed_block("just some notes").unwrap(), None);
}

#[test]
fn a_well_formed_block_is_found() {
    let text = format!("before\n{MARKER_START}\nbody\n{MARKER_END}\nafter");
    let (start, end) = find_managed_block(&text).unwrap().unwrap();
    assert_eq!(
        &text[start..end],
        format!("{MARKER_START}\nbody\n{MARKER_END}\n")
    );
}

#[test]
fn an_orphaned_start_with_no_end_anywhere_is_refused_not_silently_appended_past() {
    let text = format!("{MARKER_START}\nstray leftover text with no end marker");
    assert!(find_managed_block(&text).is_err());
}

#[test]
fn an_orphaned_start_paired_with_a_later_unrelated_end_is_refused() {
    // Regression: previously this silently treated the orphaned start and the next
    // end marker in the file as one span, deleting the real content between them.
    let text = format!(
        "{MARKER_START}\nstray leftover text\nsome other content\n{MARKER_END}\nmore stray content\n{MARKER_END}"
    );
    assert!(find_managed_block(&text).is_err());
}

#[test]
fn duplicated_start_markers_are_refused() {
    let text = format!("{MARKER_START}\na\n{MARKER_END}\n{MARKER_START}\nb\n{MARKER_END}");
    assert!(find_managed_block(&text).is_err());
}

#[test]
fn end_before_start_is_refused() {
    let text = format!("{MARKER_END}\nfiller\n{MARKER_START}");
    assert!(find_managed_block(&text).is_err());
}

#[test]
fn the_target_follows_the_flags() {
    assert_eq!(parse_target(&[]), Ok(Target::ProjectClaudeMd));
    assert_eq!(parse_target(&["-g".to_string()]), Ok(Target::GlobalClaudeMd));
    assert_eq!(parse_target(&["--codex".to_string()]), Ok(Target::ProjectConfig));
    assert_eq!(
        parse_target(&["--codex".to_string(), "--global".to_string()]),
        Err("--codex and --global/-g cannot be combined".to_string())
    );
    assert_eq!(
        parse_target(&["--bogus".to_string()]),
        Err("unrecognized argument '--bogus'".to_string())
    );
}

#[test]
fn a_missing_file_gets_just_the_block() {
    let block = render_block();
    assert!(block.starts_with(MARKER_START));
    assert!(block.ends_with(&format!("{MARKER_END}\n")));
    assert_eq!(install_content(None), Ok(block));
}

#[test]
fn existing_notes_get_the_block_appended_after_a_blank_line() {
    let block = render_block();
    assert_eq!(install_content(Some("notes")), Ok(format!("notes\n\n{block}")));
    assert_eq!(install_content(Some("notes\n")), Ok(format!("notes\n\n{block}")));
}

#[test]
fn an_old_block_is_replaced_in_place_and_a_second_install_changes_nothing() {
    let block = render_block();
    let text = format!("before\n{MARKER_START}\nold body\n{MARKER_END}\nafter\n");
    let installed = install_content(Some(text.as_str())).unwrap();
    assert_eq!(installed, format!("before\n{block}after\n"));
    assert_eq!(install_content(Some(installed.as_str())), Ok(installed.clone()));
}

#[test]
fn malformed_markers_refuse_the_install() {
    let text = format!("{MARKER_START}\nno end");
    assert!(install_content(Some(text.as_str())).is_err());
}

#[test]
fn installing_twice_changes_nothing() {
    let fresh = install_content(None).unwrap();
    assert_eq!(install_content(Some(&fresh)).unwrap(), fresh);
    let appended = install_content(Some("# my notes\nkeep this")).unwrap();
    assert!(appended.starts_with("# my notes\nkeep this\n\n<!-- stk-instructions v1 -->\n"));
    assert_eq!(install_content(Some(&appended)).unwrap(), appended);
    let replaced = install_content(Some(
        "intro\n<!-- stk-instructions v1 -->\nstale body\n<!-- /stk-instructions -->\noutro\n",
    ))
    .unwrap();
    assert!(replaced.starts_with("intro\n<!-- stk-instructions v1 -->\n# STK"));
    assert!(replaced.ends_with("<!-- /stk-instructions -->\noutro\n"));
    assert_eq!(install_content(Some(&replaced)).unwrap(), replaced);
}

#[test]
fn the_plan_writes_then_finds_the_file_up_to_date() {
    let first = match plan_install(None) {
        InstallPlan::Write { content, creates } => {
            assert!(creates);
            content
        }
        _ => panic!("a missing file is created"),
    };
    assert!(matches!(plan_install(Some(&first)), InstallPlan::UpToDate));
    match plan_install(Some("notes\n")) {
        InstallPlan::Write { content, creates } => {
            assert!(!creates);
            assert_eq!(content, format!("notes\n\n{first}"));
        }
        _ => panic!("existing notes are updated"),
    }
    match plan_install(Some("<!-- /stk-instructions -->\n")) {
        InstallPlan::Refused(message) => assert!(message.contains("malformed or duplicated")),
        _ => panic!("malformed markers are refused"),
    }
}

#[test]
fn block_offsets_are_byte_offsets_past_non_ascii_text() {
    let text = format!("notes \u{e9}\u{4e2d}\u{1f600}\n{MARKER_START}\nbody\n{MARKER_END}\nafter");
    let (start, end) = find_managed_block(&text).unwrap().unwrap();
    assert_eq!(start, text.find(MARKER_START).unwrap());
    assert_eq!(start, 6 + 2 + 3 + 4 + 1);
    assert_eq!(&text[start..end], format!("{MARKER_START}\nbody\n{MARKER_END}\n"));
    assert_eq!(&text[end..], "after");
}

#[test]
fn an_installed_file_holds_each_marker_exactly_once() {
    for existing in [None, Some("notes"), Some("notes\n"), Some("")] {
        let installed = install_content(existing).unwrap();
        assert_eq!(installed.matches(MARKER_START).count(), 1);
        assert_eq!(installed.matches(MARKER_END).count(), 1);
        if let Some(prior) = existing {
            assert!(installed.starts_with(prior));
        }
    }
}
