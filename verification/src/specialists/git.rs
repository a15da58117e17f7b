//! The Git Specialist's line classifier (`git status` / `git diff`).
use vstd::prelude::*;

use crate::aggregation::repetition::{strip_marker, strip_marker_spec};
use crate::chunk::{ChunkKind, Priority};
use crate::text::{chars_of, eq_chars, eq_str, starts_with, starts_with_str, trim_start, trim_start_chars};

verus! {

/// A porcelain status column character: a space or one of `MADRCU?`.
pub open spec fn is_status_char(c: char) -> bool {
    c == ' ' || c == 'M' || c == 'A' || c == 'D' || c == 'R' || c == 'C' || c == 'U' || c == '?'
}

/// A porcelain status entry (`XY path`), classified; `None` for any other line.
pub open spec fn porcelain_spec(line: Seq<char>) -> Option<(ChunkKind, Priority)> {
    if line.len() < 3 || line[2] != ' ' {
        None
    } else if !is_status_char(line[0]) || !is_status_char(line[1]) || (line[0] == ' ' && line[1]
        == ' ') {
        None
    } else if line[0] == '?' && line[1] == '?' {
        Some((ChunkKind::LogGroup, Priority::P2))
    } else {
        Some((ChunkKind::DiffHunk, Priority::P0))
    }
}

pub open spec fn is_status_entry(t: Seq<char>) -> bool {
    ||| starts_with(t, "modified:"@)
    ||| starts_with(t, "new file:"@)
    ||| starts_with(t, "renamed:"@)
    ||| starts_with(t, "deleted:"@)
    ||| starts_with(t, "both modified:"@)
    ||| starts_with(t, "both added:"@)
    ||| starts_with(t, "both deleted:"@)
    ||| starts_with(t, "added by"@)
    ||| starts_with(t, "deleted by"@)
    ||| starts_with(t, "copied:"@)
}

pub open spec fn classify_spec(line: Seq<char>) -> (ChunkKind, Priority) {
    let t = trim_start(line);
    if strip_marker_spec(line) != line {
        (ChunkKind::LogGroup, Priority::P5)
    } else if starts_with(t, "similarity index"@) || starts_with(t, "rename from"@) || starts_with(
        t,
        "rename to"@,
    ) {
        (ChunkKind::DiffHunk, Priority::P0)
    } else if starts_with(t, "diff --git"@) {
        (ChunkKind::DiffHunk, Priority::P0)
    } else if starts_with(t, "index "@) {
        (ChunkKind::Boilerplate, Priority::P4)
    } else if starts_with(t, "new file mode"@) || starts_with(t, "deleted file mode"@)
        || starts_with(t, "old mode"@) || starts_with(t, "new mode"@) {
        (ChunkKind::DiffHunk, Priority::P1)
    } else if starts_with(t, "--- "@) || starts_with(t, "+++ "@) {
        (ChunkKind::DiffHunk, Priority::P1)
    } else if starts_with(t, "@@"@) {
        (ChunkKind::DiffHunk, Priority::P0)
    } else if starts_with(t, "<<<<<<<"@) || starts_with(t, "======="@) || starts_with(
        t,
        ">>>>>>>"@,
    ) {
        (ChunkKind::Error, Priority::P0)
    } else if starts_with(t, "Your branch"@) {
        (ChunkKind::CommandSummary, Priority::P0)
    } else if is_status_entry(t) {
        (ChunkKind::DiffHunk, Priority::P0)
    } else if t == "Unmerged paths:"@ || t == "You have unmerged paths."@ {
        (ChunkKind::CommandSummary, Priority::P2)
    } else if porcelain_spec(line) is Some {
        porcelain_spec(line)->0
    } else if starts_with(line, "+"@) || starts_with(line, "-"@) {
        (ChunkKind::DiffHunk, Priority::P1)
    } else {
        (ChunkKind::LogGroup, Priority::P3)
    }
}

fn is_status_char_exec(c: char) -> (r: bool)
    ensures
        r == is_status_char(c),
{
    c == ' ' || c == 'M' || c == 'A' || c == 'D' || c == 'R' || c == 'C' || c == 'U' || c == '?'
}

fn classify_porcelain_status_line(line: &[char]) -> (r: Option<(ChunkKind, Priority)>)
    ensures
        r == porcelain_spec(line@),
{
    if line.len() < 3 || line[2] != ' ' {
        return None;
    }
    let first = line[0];
    let second = line[1];
    if !is_status_char_exec(first) || !is_status_char_exec(second) || (first == ' ' && second
        == ' ') {
        return None;
    }
    if first == '?' && second == '?' {
        return Some((ChunkKind::LogGroup, Priority::P2));
    }
    Some((ChunkKind::DiffHunk, Priority::P0))
}

/// Classifies one line of `git` output (`status`/`diff`).
pub fn classify(line: &str) -> (r: (ChunkKind, Priority))
    ensures
        r == classify_spec(line@),
{
    let lc = chars_of(line);
    let sc = chars_of(strip_marker(line));
    if !eq_chars(&sc, &lc) {
        return (ChunkKind::LogGroup, Priority::P5);
    }
    let t = trim_start_chars(&lc);
    // Rename info: kept P0 rather than falling through to an unrelated delete+add.
    if starts_with_str(&t, "similarity index") || starts_with_str(&t, "rename from")
        || starts_with_str(&t, "rename to") {
        return (ChunkKind::DiffHunk, Priority::P0);
    }
    // The file-association anchor for whatever hunks follow.
    if starts_with_str(&t, "diff --git") {
        return (ChunkKind::DiffHunk, Priority::P0);
    }
    if starts_with_str(&t, "index ") {
        return (ChunkKind::Boilerplate, Priority::P4);
    }
    if starts_with_str(&t, "new file mode") || starts_with_str(&t, "deleted file mode")
        || starts_with_str(&t, "old mode") || starts_with_str(&t, "new mode") {
        return (ChunkKind::DiffHunk, Priority::P1);
    }
    if starts_with_str(&t, "--- ") || starts_with_str(&t, "+++ ") {
        return (ChunkKind::DiffHunk, Priority::P1);
    }
    if starts_with_str(&t, "@@") {
        return (ChunkKind::DiffHunk, Priority::P0);
    }
    // Merge-conflict markers: a real conflict, not boilerplate.
    if starts_with_str(&t, "<<<<<<<") || starts_with_str(&t, "=======") || starts_with_str(
        &t,
        ">>>>>>>",
    ) {
        return (ChunkKind::Error, Priority::P0);
    }
    if starts_with_str(&t, "Your branch") {
        return (ChunkKind::CommandSummary, Priority::P0);
    }
    if starts_with_str(&t, "modified:") || starts_with_str(&t, "new file:") || starts_with_str(
        &t,
        "renamed:",
    ) || starts_with_str(&t, "deleted:") || starts_with_str(&t, "both modified:")
        || starts_with_str(&t, "both added:") || starts_with_str(&t, "both deleted:")
        || starts_with_str(&t, "added by") || starts_with_str(&t, "deleted by")
        || starts_with_str(&t, "copied:") {
        return (ChunkKind::DiffHunk, Priority::P0);
    }
    if eq_str(&t, "Unmerged paths:") || eq_str(&t, "You have unmerged paths.") {
        return (ChunkKind::CommandSummary, Priority::P2);
    }
    // Porcelain status is checked on the untrimmed line: an unstaged-only change's
    // leading space is the first status column, not incidental whitespace.
    if let Some(kind_and_priority) = classify_porcelain_status_line(&lc) {
        return kind_and_priority;
    }
    // Diff content markers are checked on the untrimmed line too.
    if starts_with_str(&lc, "+") || starts_with_str(&lc, "-") {
        return (ChunkKind::DiffHunk, Priority::P1);
    }
    (ChunkKind::LogGroup, Priority::P3)
}

/// A sequence that starts with `q` begins with `q`'s first character.
proof fn lemma_lead(t: Seq<char>, q: Seq<char>)
    requires
        q.len() > 0,
    ensures
        starts_with(t, q) ==> t.len() > 0 && t[0] == q[0],
{
    if starts_with(t, q) {
        assert(t.subrange(0, q.len() as int)[0] == t[0]);
    }
}

/// What two prefixes that differ at position `k` tell apart: a sequence that starts with
/// one of them does not start with the other.
proof fn lemma_prefixes_differ(t: Seq<char>, p: Seq<char>, q: Seq<char>, k: int)
    requires
        starts_with(t, p),
        0 <= k < p.len(),
        k < q.len(),
        p[k] != q[k],
    ensures
        !starts_with(t, q),
{
    assert(t.subrange(0, p.len() as int)[k] == t[k]);
    if starts_with(t, q) {
        assert(t.subrange(0, q.len() as int)[k] == t[k]);
    }
}

/// Every `git status` entry -- a line without a repeat marker whose trimmed form starts
/// with `modified:`, `new file:`, `renamed:`, `deleted:`, `both modified:`, `both added:`,
/// `both deleted:`, `added by`, `deleted by` or `copied:` -- is a mandatory change record.
pub proof fn lemma_status_entries_are_mandatory(line: Seq<char>)
    requires
        strip_marker_spec(line) == line,
        starts_with(trim_start(line), "modified:"@) || starts_with(trim_start(line), "new file:"@)
            || starts_with(trim_start(line), "renamed:"@) || starts_with(
            trim_start(line),
            "deleted:"@,
        ) || starts_with(trim_start(line), "both modified:"@) || starts_with(
            trim_start(line),
            "both added:"@,
        ) || starts_with(trim_start(line), "both deleted:"@) || starts_with(
            trim_start(line),
            "added by"@,
        ) || starts_with(trim_start(line), "deleted by"@) || starts_with(
            trim_start(line),
            "copied:"@,
        ),
    ensures
        classify_spec(line) == (ChunkKind::DiffHunk, Priority::P0),
{
    let t = trim_start(line);
    reveal_strlit("modified:");
    reveal_strlit("new file:");
    reveal_strlit("renamed:");
    reveal_strlit("deleted:");
    reveal_strlit("both modified:");
    reveal_strlit("both added:");
    reveal_strlit("both deleted:");
    reveal_strlit("added by");
    reveal_strlit("deleted by");
    reveal_strlit("copied:");
    reveal_strlit("index ");
    reveal_strlit("new file mode");
    reveal_strlit("deleted file mode");
    reveal_strlit("old mode");
    reveal_strlit("new mode");
    reveal_strlit("--- ");
    reveal_strlit("+++ ");
    reveal_strlit("@@");
    reveal_strlit("<<<<<<<");
    reveal_strlit("=======");
    reveal_strlit(">>>>>>>");
    reveal_strlit("Your branch");
    lemma_lead(t, "modified:"@);
    lemma_lead(t, "new file:"@);
    lemma_lead(t, "renamed:"@);
    lemma_lead(t, "deleted:"@);
    lemma_lead(t, "both modified:"@);
    lemma_lead(t, "both added:"@);
    lemma_lead(t, "both deleted:"@);
    lemma_lead(t, "added by"@);
    lemma_lead(t, "deleted by"@);
    lemma_lead(t, "copied:"@);
    lemma_lead(t, "index "@);
    lemma_lead(t, "new file mode"@);
    lemma_lead(t, "deleted file mode"@);
    lemma_lead(t, "old mode"@);
    lemma_lead(t, "new mode"@);
    lemma_lead(t, "--- "@);
    lemma_lead(t, "+++ "@);
    lemma_lead(t, "@@"@);
    lemma_lead(t, "<<<<<<<"@);
    lemma_lead(t, "======="@);
    lemma_lead(t, ">>>>>>>"@);
    lemma_lead(t, "Your branch"@);
    if t[0] == 'n' {
        assert(starts_with(t, "new file:"@));
        lemma_prefixes_differ(t, "new file:"@, "new file mode"@, 8);
        lemma_prefixes_differ(t, "new file:"@, "new mode"@, 4);
    }
    if t[0] == 'd' {
        if starts_with(t, "deleted:"@) {
            lemma_prefixes_differ(t, "deleted:"@, "deleted file mode"@, 7);
        } else {
            lemma_prefixes_differ(t, "deleted by"@, "deleted file mode"@, 8);
        }
    }
}

/// How `git diff` and `git status` lines rank, for a line without a repeat marker, by
/// what its trimmed form starts with: the file header (`diff --git`) and rename
/// information are mandatory, the `index` line is boilerplate, mode lines and the
/// `---`/`+++` file names are P1, a hunk header (`@@`) and a conflict marker are
/// mandatory, `Your branch ...` is a mandatory summary, the unmerged-paths heading a P2
/// summary; an added or removed content line (`+`/`-` in the first column) is P1.
pub proof fn lemma_git_line_kinds(line: Seq<char>)
    requires
        strip_marker_spec(line) == line,
    ensures
        starts_with(trim_start(line), "diff --git"@) || starts_with(
            trim_start(line),
            "similarity index"@,
        ) || starts_with(trim_start(line), "rename from"@) || starts_with(
            trim_start(line),
            "rename to"@,
        ) ==> classify_spec(line) == (ChunkKind::DiffHunk, Priority::P0),
        starts_with(trim_start(line), "index "@) ==> classify_spec(line) == (
            ChunkKind::Boilerplate,
            Priority::P4,
        ),
        starts_with(trim_start(line), "new file mode"@) || starts_with(
            trim_start(line),
            "deleted file mode"@,
        ) || starts_with(trim_start(line), "old mode"@) || starts_with(
            trim_start(line),
            "new mode"@,
        ) || starts_with(trim_start(line), "--- "@) || starts_with(trim_start(line), "+++ "@)
            ==> classify_spec(line) == (ChunkKind::DiffHunk, Priority::P1),
        starts_with(trim_start(line), "@@"@) ==> classify_spec(line) == (
            ChunkKind::DiffHunk,
            Priority::P0,
        ),
        starts_with(trim_start(line), "<<<<<<<"@) || starts_with(trim_start(line), "======="@)
            || starts_with(trim_start(line), ">>>>>>>"@) ==> classify_spec(line) == (
            ChunkKind::Error,
            Priority::P0,
        ),
        starts_with(trim_start(line), "Your branch"@) ==> classify_spec(line) == (
            ChunkKind::CommandSummary,
            Priority::P0,
        ),
        trim_start(line) == "Unmerged paths:"@ || trim_start(line) == "You have unmerged paths."@
            ==> classify_spec(line) == (ChunkKind::CommandSummary, Priority::P2),
        starts_with(line, "+"@) || starts_with(line, "-"@) ==> classify_spec(line) == (
            ChunkKind::DiffHunk,
            Priority::P1,
        ),
{
    let t = trim_start(line);
    reveal_strlit("similarity index");
    reveal_strlit("rename from");
    reveal_strlit("rename to");
    reveal_strlit("diff --git");
    reveal_strlit("index ");
    reveal_strlit("new file mode");
    reveal_strlit("deleted file mode");
    reveal_strlit("old mode");
    reveal_strlit("new mode");
    reveal_strlit("--- ");
    reveal_strlit("+++ ");
    reveal_strlit("@@");
    reveal_strlit("<<<<<<<");
    reveal_strlit("=======");
    reveal_strlit(">>>>>>>");
    reveal_strlit("Your branch");
    reveal_strlit("modified:");
    reveal_strlit("new file:");
    reveal_strlit("renamed:");
    reveal_strlit("deleted:");
    reveal_strlit("both modified:");
    reveal_strlit("both added:");
    reveal_strlit("both deleted:");
    reveal_strlit("added by");
    reveal_strlit("deleted by");
    reveal_strlit("copied:");
    reveal_strlit("Unmerged paths:");
    reveal_strlit("You have unmerged paths.");
    lemma_lead(t, "similarity index"@);
    lemma_lead(t, "rename from"@);
    lemma_lead(t, "rename to"@);
    lemma_lead(t, "diff --git"@);
    lemma_lead(t, "index "@);
    lemma_lead(t, "new file mode"@);
    lemma_lead(t, "deleted file mode"@);
    lemma_lead(t, "old mode"@);
    lemma_lead(t, "new mode"@);
    lemma_lead(t, "--- "@);
    lemma_lead(t, "+++ "@);
    lemma_lead(t, "@@"@);
    lemma_lead(t, "<<<<<<<"@);
    lemma_lead(t, "======="@);
    lemma_lead(t, ">>>>>>>"@);
    lemma_lead(t, "Your branch"@);
    lemma_lead(t, "modified:"@);
    lemma_lead(t, "new file:"@);
    lemma_lead(t, "renamed:"@);
    lemma_lead(t, "deleted:"@);
    lemma_lead(t, "both modified:"@);
    lemma_lead(t, "both added:"@);
    lemma_lead(t, "both deleted:"@);
    lemma_lead(t, "added by"@);
    lemma_lead(t, "deleted by"@);
    lemma_lead(t, "copied:"@);
    reveal_strlit("+");
    reveal_strlit("-");
    lemma_lead(line, "+"@);
    lemma_lead(line, "-"@);
    if starts_with(t, "deleted file mode"@) {
        lemma_prefixes_differ(t, "deleted file mode"@, "diff --git"@, 1);
    }
    if t == "You have unmerged paths."@ {
        assert(t.subrange(0, t.len() as int) == t);
        lemma_prefixes_differ(t, "You have unmerged paths."@, "Your branch"@, 3);
    }
    if starts_with(line, "+"@) || starts_with(line, "-"@) {
        assert(line[0] == '+' || line[0] == '-');
        assert(t == line);
    }
}

/// A porcelain status entry (`XY path`: two status columns from ` MADRCU?`, not both
/// blank, then a space) without a repeat marker is a mandatory change record, except an
/// untracked file (`??`), which is P2. The leading blank of an unstaged-only change is a
/// status column, not indentation.
pub proof fn lemma_porcelain_entries(line: Seq<char>)
    requires
        strip_marker_spec(line) == line,
        line.len() >= 3,
        line[2] == ' ',
        line[0] == ' ' || line[0] == 'M' || line[0] == 'A' || line[0] == 'D' || line[0] == 'R'
            || line[0] == 'C' || line[0] == 'U' || line[0] == '?',
        line[1] == ' ' || line[1] == 'M' || line[1] == 'A' || line[1] == 'D' || line[1] == 'R'
            || line[1] == 'C' || line[1] == 'U' || line[1] == '?',
        !(line[0] == ' ' && line[1] == ' '),
    ensures
        classify_spec(line) == if line[0] == '?' && line[1] == '?' {
            (ChunkKind::LogGroup, Priority::P2)
        } else {
            (ChunkKind::DiffHunk, Priority::P0)
        },
{
    let t = trim_start(line);
    reveal_strlit("similarity index");
    reveal_strlit("rename from");
    reveal_strlit("rename to");
    reveal_strlit("diff --git");
    reveal_strlit("index ");
    reveal_strlit("new file mode");
    reveal_strlit("deleted file mode");
    reveal_strlit("old mode");
    reveal_strlit("new mode");
    reveal_strlit("--- ");
    reveal_strlit("+++ ");
    reveal_strlit("@@");
    reveal_strlit("<<<<<<<");
    reveal_strlit("=======");
    reveal_strlit(">>>>>>>");
    reveal_strlit("Your branch");
    reveal_strlit("modified:");
    reveal_strlit("new file:");
    reveal_strlit("renamed:");
    reveal_strlit("deleted:");
    reveal_strlit("both modified:");
    reveal_strlit("both added:");
    reveal_strlit("both deleted:");
    reveal_strlit("added by");
    reveal_strlit("deleted by");
    reveal_strlit("copied:");
    reveal_strlit("Unmerged paths:");
    reveal_strlit("You have unmerged paths.");
    lemma_lead(t, "similarity index"@);
    lemma_lead(t, "rename from"@);
    lemma_lead(t, "rename to"@);
    lemma_lead(t, "diff --git"@);
    lemma_lead(t, "index "@);
    lemma_lead(t, "new file mode"@);
    lemma_lead(t, "deleted file mode"@);
    lemma_lead(t, "old mode"@);
    lemma_lead(t, "new mode"@);
    lemma_lead(t, "--- "@);
    lemma_lead(t, "+++ "@);
    lemma_lead(t, "@@"@);
    lemma_lead(t, "<<<<<<<"@);
    lemma_lead(t, "======="@);
    lemma_lead(t, ">>>>>>>"@);
    lemma_lead(t, "Your branch"@);
    lemma_lead(t, "modified:"@);
    lemma_lead(t, "new file:"@);
    lemma_lead(t, "renamed:"@);
    lemma_lead(t, "deleted:"@);
    lemma_lead(t, "both modified:"@);
    lemma_lead(t, "both added:"@);
    lemma_lead(t, "both deleted:"@);
    lemma_lead(t, "added by"@);
    lemma_lead(t, "deleted by"@);
    lemma_lead(t, "copied:"@);
    if line[0] == ' ' {
        assert(line.drop_first()[0] == line[1]);
        assert(trim_start(line.drop_first()) == line.drop_first());
        assert(t == line.drop_first());
        assert(t[1] == ' ');
    } else {
        assert(t == line);
    }
    assert(t.len() > 1);
    assert(t[0] != 'U' || t[1] != 'n');
}

} // verus!
