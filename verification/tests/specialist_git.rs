use stk::chunk::{ChunkKind, Priority};
use stk::specialists::git::classify;
use stk::chunk::Classifier;
use stk::specialists::lookup;


// Every line below is copied verbatim from real `git status`/`git diff` output
// against a deliberately modified/renamed/conflicted repo, not hand-imagined.

#[test]
fn porcelain_modified_and_added_and_renamed_are_p0() {
    assert_eq!(classify("MM foo.rs"), (ChunkKind::DiffHunk, Priority::P0));
    assert_eq!(
        classify("A  new_file.rs"),
        (ChunkKind::DiffHunk, Priority::P0)
    );
    assert_eq!(
        classify("R  old_name.rs -> renamed_name.rs"),
        (ChunkKind::DiffHunk, Priority::P0)
    );
    assert_eq!(classify("UU foo.rs"), (ChunkKind::DiffHunk, Priority::P0));
}

#[test]
fn porcelain_untracked_is_lower_priority() {
    assert_eq!(
        classify("?? untracked_only.rs"),
        (ChunkKind::LogGroup, Priority::P2)
    );
}

#[test]
fn porcelain_unstaged_only_change_keeps_its_leading_space_column() {
    // "M foo.rs" alone (post-trim) would misread as a one-character status; the
    // leading space here is real porcelain-format data, not incidental whitespace.
    assert_eq!(classify(" M foo.rs"), (ChunkKind::DiffHunk, Priority::P0));
}

#[test]
fn human_readable_status_entries_are_p0() {
    assert_eq!(
        classify("\tmodified:   foo.rs"),
        (ChunkKind::DiffHunk, Priority::P0)
    );
    assert_eq!(
        classify("\trenamed:    old_name.rs -> renamed_name.rs"),
        (ChunkKind::DiffHunk, Priority::P0)
    );
    assert_eq!(
        classify("\tboth modified:   foo.rs"),
        (ChunkKind::DiffHunk, Priority::P0)
    );
    assert_eq!(
        classify("\tboth deleted:    foo.rs"),
        (ChunkKind::DiffHunk, Priority::P0)
    );
}

#[test]
fn diff_git_header_is_p0() {
    assert_eq!(
        classify("diff --git a/foo.rs b/foo.rs"),
        (ChunkKind::DiffHunk, Priority::P0)
    );
}

#[test]
fn rename_info_is_p0_not_delete_and_add() {
    assert_eq!(
        classify("similarity index 100%"),
        (ChunkKind::DiffHunk, Priority::P0)
    );
    assert_eq!(
        classify("rename from old_name.rs"),
        (ChunkKind::DiffHunk, Priority::P0)
    );
    assert_eq!(
        classify("rename to renamed_name.rs"),
        (ChunkKind::DiffHunk, Priority::P0)
    );
}

#[test]
fn index_metadata_line_is_low_priority() {
    assert_eq!(
        classify("index 70b9567..087a992 100644"),
        (ChunkKind::Boilerplate, Priority::P4)
    );
}

#[test]
fn hunk_header_is_p0() {
    assert_eq!(
        classify("@@ -1,10 +1,11 @@ fn foo() {"),
        (ChunkKind::DiffHunk, Priority::P0)
    );
}

#[test]
fn added_and_removed_diff_lines_are_p1() {
    assert_eq!(
        classify("-    let a = 1;"),
        (ChunkKind::DiffHunk, Priority::P1)
    );
    assert_eq!(
        classify("+    let a = 100;"),
        (ChunkKind::DiffHunk, Priority::P1)
    );
}

#[test]
fn conflict_markers_are_p0() {
    assert_eq!(classify("<<<<<<< HEAD"), (ChunkKind::Error, Priority::P0));
    assert_eq!(classify("======="), (ChunkKind::Error, Priority::P0));
    assert_eq!(
        classify(">>>>>>> feature-branch"),
        (ChunkKind::Error, Priority::P0)
    );
}

#[test]
fn branch_divergence_is_p0() {
    assert_eq!(
        classify("Your branch is ahead of 'origin/main' by 2 commits."),
        (ChunkKind::CommandSummary, Priority::P0)
    );
    assert_eq!(
        classify(
            "Your branch and 'origin/main' have diverged, and have 3 and 2 different commits each, respectively."
        ),
        (ChunkKind::CommandSummary, Priority::P0)
    );
}

#[test]
fn unmerged_paths_header_is_p2() {
    assert_eq!(
        classify("Unmerged paths:"),
        (ChunkKind::CommandSummary, Priority::P2)
    );
}

#[test]
fn hint_and_prose_lines_fall_back_to_generic_default() {
    assert_eq!(
        classify("  (use \"git restore --staged <file>...\" to unstage)"),
        (ChunkKind::LogGroup, Priority::P3)
    );
    assert_eq!(
        classify("On branch master"),
        (ChunkKind::LogGroup, Priority::P3)
    );
}

#[test]
fn git_a_collapsed_repeat_marker_is_still_p5_noise() {
    assert_eq!(
        classify("M path/to/file.rs [repeated 20x]"),
        (ChunkKind::LogGroup, Priority::P5)
    );
}

#[test]
fn only_cargo_and_git_have_specialists() {
    assert_eq!(lookup("cargo"), Some(Classifier::Cargo));
    assert_eq!(lookup("git"), Some(Classifier::Git));
    assert_eq!(lookup("npm"), None);
    assert_eq!(lookup("cargo "), None);
}
