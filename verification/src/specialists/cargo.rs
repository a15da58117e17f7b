//! The Cargo Specialist's line classifier.
use vstd::prelude::*;

use crate::aggregation::repetition::{strip_marker, strip_marker_spec};
use crate::chunk::{ChunkKind, Priority};
use crate::text::{
    chars_of, contains, contains_str, ends_with, ends_with_str, eq_chars, eq_str, starts_with,
    starts_with_str, trim_start, trim_start_chars,
};

verus! {

/// A build-phase progress line (`Compiling`, `Checking`, `Finished`, ...).
pub open spec fn is_build_phase(t: Seq<char>) -> bool {
    ||| starts_with(t, "Compiling"@)
    ||| starts_with(t, "Checking"@)
    ||| starts_with(t, "Finished"@)
    ||| starts_with(t, "Running"@)
    ||| starts_with(t, "Fresh"@)
    ||| starts_with(t, "Downloading"@)
    ||| starts_with(t, "Downloaded"@)
}

pub open spec fn classify_spec(line: Seq<char>) -> (ChunkKind, Priority) {
    let t = trim_start(line);
    if strip_marker_spec(line) != line {
        (ChunkKind::LogGroup, Priority::P5)
    } else if is_build_phase(t) {
        (ChunkKind::Boilerplate, Priority::P4)
    } else if starts_with(t, "-->"@) {
        (ChunkKind::StackFrame, Priority::P0)
    } else if starts_with(t, "error"@) {
        (ChunkKind::Error, Priority::P0)
    } else if contains(t, "panicked at"@) {
        (ChunkKind::Error, Priority::P0)
    } else if starts_with(t, "left:"@) || starts_with(t, "right:"@) || contains(t, "assertion"@) {
        (ChunkKind::Error, Priority::P0)
    } else if starts_with(t, "test result:"@) || t == "failures:"@ {
        (ChunkKind::CommandSummary, Priority::P2)
    } else if contains(t, "FAILED"@) {
        (ChunkKind::TestFailure, Priority::P0)
    } else if starts_with(t, "warning"@) {
        (ChunkKind::Warning, Priority::P2)
    } else if starts_with(t, "test "@) && ends_with(t, "ok"@) {
        (ChunkKind::TestSuccess, Priority::P4)
    } else {
        (ChunkKind::LogGroup, Priority::P3)
    }
}

/// Classifies one line of `cargo` output. Line-based, not block-based: an error's
/// surrounding pretty-printer decoration falls through to the generic default.
pub fn classify(line: &str) -> (r: (ChunkKind, Priority))
    ensures
        r == classify_spec(line@),
{
    let lc = chars_of(line);
    let sc = chars_of(strip_marker(line));
    if !eq_chars(&sc, &lc) {
        return (ChunkKind::LogGroup, Priority::P5);
    }
    let t = trim_start_chars(&lc);
    if starts_with_str(&t, "Compiling") || starts_with_str(&t, "Checking") || starts_with_str(
        &t,
        "Finished",
    ) || starts_with_str(&t, "Running") || starts_with_str(&t, "Fresh") || starts_with_str(
        &t,
        "Downloading",
    ) || starts_with_str(&t, "Downloaded") {
        return (ChunkKind::Boilerplate, Priority::P4);
    }
    if starts_with_str(&t, "-->") {
        return (ChunkKind::StackFrame, Priority::P0);
    }
    if starts_with_str(&t, "error") {
        return (ChunkKind::Error, Priority::P0);
    }
    if contains_str(&t, "panicked at") {
        return (ChunkKind::Error, Priority::P0);
    }
    if starts_with_str(&t, "left:") || starts_with_str(&t, "right:") || contains_str(
        &t,
        "assertion",
    ) {
        return (ChunkKind::Error, Priority::P0);
    }
    // Checked before the broader "contains FAILED" rule below: "test result: FAILED. ..."
    // is a summary line, not an individual failing-test line.
    if starts_with_str(&t, "test result:") || eq_str(&t, "failures:") {
        return (ChunkKind::CommandSummary, Priority::P2);
    }
    if contains_str(&t, "FAILED") {
        return (ChunkKind::TestFailure, Priority::P0);
    }
    if starts_with_str(&t, "warning") {
        return (ChunkKind::Warning, Priority::P2);
    }
    if starts_with_str(&t, "test ") && ends_with_str(&t, "ok") {
        return (ChunkKind::TestSuccess, Priority::P4);
    }
    (ChunkKind::LogGroup, Priority::P3)
}

/// Build-phase progress -- a line without a repeat marker whose trimmed form starts
/// with `Compiling`, `Checking`, `Finished`, `Running`, `Fresh`, `Downloading` or
/// `Downloaded` -- is always boilerplate, the first tier dropped under budget pressure.
pub proof fn lemma_build_phase_is_boilerplate(line: Seq<char>)
    requires
        strip_marker_spec(line) == line,
        starts_with(trim_start(line), "Compiling"@) || starts_with(trim_start(line), "Checking"@)
            || starts_with(trim_start(line), "Finished"@) || starts_with(
            trim_start(line),
            "Running"@,
        ) || starts_with(trim_start(line), "Fresh"@) || starts_with(
            trim_start(line),
            "Downloading"@,
        ) || starts_with(trim_start(line), "Downloaded"@),
    ensures
        classify_spec(line) == (ChunkKind::Boilerplate, Priority::P4),
{
}

/// A sequence that starts with `q` begins with `q`'s first character.
proof fn lemma_lead(t: Seq<char>, q: Seq<char>)
    requires
        q.len() > 0,
    ensures
        starts_with(t, q) ==> t.len() > 0 && t[0] == q[0],
{
    if starts_with(t, q) {
        assert(t.subrange(0, q.len() as int)[0] == t[0]);
    }
}

/// How the other `cargo` lines rank, for a line without a repeat marker, by its trimmed
/// form: a `-->` source location is a mandatory stack frame; a line starting with `error`
/// is a mandatory error, and so is any line (other than build progress or a location)
/// that reports a panic or an assertion or starts with `left:`/`right:`; of the rest, the
/// `test result:` summary and the `failures:` heading are P2 summaries, a `test ...` line
/// reporting `FAILED` is a mandatory test failure, a `warning` is P2 and a passing
/// `test ... ok` line is P4.
pub proof fn lemma_cargo_line_kinds(line: Seq<char>)
    requires
        strip_marker_spec(line) == line,
    ensures
        starts_with(trim_start(line), "-->"@) ==> classify_spec(line) == (
            ChunkKind::StackFrame,
            Priority::P0,
        ),
        starts_with(trim_start(line), "error"@) ==> classify_spec(line) == (
            ChunkKind::Error,
            Priority::P0,
        ),
        (contains(trim_start(line), "panicked at"@) || contains(trim_start(line), "assertion"@)
            || starts_with(trim_start(line), "left:"@) || starts_with(trim_start(line), "right:"@))
            && !is_build_phase(trim_start(line)) && !starts_with(trim_start(line), "-->"@)
            ==> classify_spec(line) == (ChunkKind::Error, Priority::P0),
        !contains(trim_start(line), "panicked at"@) && !contains(trim_start(line), "assertion"@)
            ==> {
            &&& starts_with(trim_start(line), "test result:"@) || trim_start(line)
                == "failures:"@ ==> classify_spec(line) == (
                ChunkKind::CommandSummary,
                Priority::P2,
            )
            &&& starts_with(trim_start(line), "test "@) && !starts_with(
                trim_start(line),
                "test result:"@,
            ) && contains(trim_start(line), "FAILED"@) ==> classify_spec(line) == (
                ChunkKind::TestFailure,
                Priority::P0,
            )
            &&& starts_with(trim_start(line), "warning"@) && !contains(trim_start(line), "FAILED"@)
                ==> classify_spec(line) == (ChunkKind::Warning, Priority::P2)
            &&& starts_with(trim_start(line), "test "@) && !starts_with(
                trim_start(line),
                "test result:"@,
            ) && !contains(trim_start(line), "FAILED"@) && ends_with(trim_start(line), "ok"@)
                ==> classify_spec(line) == (ChunkKind::TestSuccess, Priority::P4)
        },
{
    let t = trim_start(line);
    reveal_strlit("Compiling");
    reveal_strlit("Checking");
    reveal_strlit("Finished");
    reveal_strlit("Running");
    reveal_strlit("Fresh");
    reveal_strlit("Downloading");
    reveal_strlit("Downloaded");
    reveal_strlit("-->");
    reveal_strlit("error");
    reveal_strlit("left:");
    reveal_strlit("right:");
    reveal_strlit("test result:");
    reveal_strlit("warning");
    reveal_strlit("test ");
    reveal_strlit("failures:");
    lemma_lead(t, "Compiling"@);
    lemma_lead(t, "Checking"@);
    lemma_lead(t, "Finished"@);
    lemma_lead(t, "Running"@);
    lemma_lead(t, "Fresh"@);
    lemma_lead(t, "Downloading"@);
    lemma_lead(t, "Downloaded"@);
    lemma_lead(t, "-->"@);
    lemma_lead(t, "error"@);
    lemma_lead(t, "left:"@);
    lemma_lead(t, "right:"@);
    lemma_lead(t, "test result:"@);
    lemma_lead(t, "warning"@);
    lemma_lead(t, "test "@);
    if t == "failures:"@ {
        assert(t.subrange(0, t.len() as int) == t);
        lemma_lead(t, "failures:"@);
    }
}

} // verus!
