//! `stk diff [FILE|-]`: condenses existing unified-diff text down to hunk headers and
//! changed lines. Not a two-file diff generator -- the input is already diff-formatted.
use vstd::prelude::*;

use crate::budget::selector::views;
use crate::budget::tokenizer::ApproximateCounter;
use crate::compression::{write_output, WriteOutcome};
use crate::fastpath::{lines_spec, split_lines};
use crate::io::{line_bytes, sent, write_line, OutputSink};
use crate::text::{chars_of, push_str, starts_with, starts_with_str, trim_start, trim_start_chars};
use crate::verbs::filesystem_budget::{budgeted_text, budget_too_small_message, render_optionally_budgeted};

verus! {

/// The lines of a unified diff worth keeping, read from the front; `past_header` tells
/// whether the current file's header preamble (before its first `@@`) is behind us. Only
/// there do `---`/`+++ `-prefixed lines mean file-path headers rather than real changed
/// content that happens to start the same way (e.g. a removed line whose own text was
/// `-- note`, rendering as `--- note` once the diff marker is prepended).
pub open spec fn condense_from(lines: Seq<Seq<char>>, past_header: bool) -> Seq<Seq<char>>
    decreases lines.len(),
{
    if lines.len() == 0 {
        Seq::empty()
    } else {
        let line = lines[0];
        let t = trim_start(line);
        let rest = lines.drop_first();
        if starts_with(t, "diff --git"@) {
            seq![line] + condense_from(rest, false)
        } else if starts_with(t, "@@"@) {
            seq![line] + condense_from(rest, true)
        } else if !past_header {
            if starts_with(t, "similarity index"@) || starts_with(t, "rename from"@) || starts_with(t, "rename to"@) {
                seq![line] + condense_from(rest, false)
            } else {
                condense_from(rest, false)
            }
        } else if starts_with(line, "+"@) || starts_with(line, "-"@) {
            seq![line] + condense_from(rest, true)
        } else {
            condense_from(rest, true)
        }
    }
}

/// File headers (`diff --git`), hunk headers, rename information and changed lines of
/// the diff `content`; index lines, `---`/`+++` path headers and context lines dropped.
pub open spec fn condense_spec(content: Seq<char>) -> Seq<Seq<char>> {
    condense_from(lines_spec(content), false)
}

pub fn condense(content: &str) -> (r: Vec<String>)
    ensures
        views(r@) == condense_spec(content@),
{
    let lines = split_lines(content);
    let ghost ls = lines_spec(content@);
    assert(views(lines@) == ls);
    let mut out: Vec<String> = Vec::new();
    let mut past_file_header = false;
    let mut i: usize = 0;
    assert(ls.skip(0) == ls);
    while i < lines.len()
        invariant
            i <= lines.len(),
            ls == views(lines@),
            condense_spec(content@) == views(out@) + condense_from(ls.skip(i as int), past_file_header),
        decreases lines.len() - i,
    {
        let ghost rest = ls.skip(i as int);
        assert(rest[0] == lines@[i as int]@);
        assert(rest.drop_first() == ls.skip(i + 1));
        let ghost before = views(out@);
        let line = chars_of(lines[i].as_str());
        let trimmed = trim_start_chars(&line);
        let mut keep = false;
        if starts_with_str(&trimmed, "diff --git") {
            keep = true;
            past_file_header = false;
        } else if starts_with_str(&trimmed, "@@") {
            keep = true;
            past_file_header = true;
        } else if !past_file_header {
            if starts_with_str(&trimmed, "similarity index") || starts_with_str(&trimmed, "rename from")
                || starts_with_str(&trimmed, "rename to") {
                keep = true;
            }
            // else: index/---/+++/other preamble noise, unambiguously dropped since we
            // know we're still in the header region regardless of the line's text.
        } else if starts_with_str(&line, "+") || starts_with_str(&line, "-") {
            keep = true;
        }
        if keep {
            let l = lines[i].clone();
            out.push(l);
            assert(views(out@) == before.push(l@));
            assert(before.push(l@) + condense_from(ls.skip(i + 1), past_file_header) == before + (seq![l@] + condense_from(ls.skip(i + 1), past_file_header)));
        }
        i += 1;
    }
    assert(ls.skip(i as int) == Seq::<Seq<char>>::empty());
    assert(views(out@) + Seq::<Seq<char>>::empty() == views(out@));
    out
}

pub open spec fn read_failed_message(source: Option<Seq<char>>, err: Seq<char>) -> Seq<char> {
    match source {
        Some(path) => "stk: failed to read '"@ + path + "': "@ + err,
        None => "stk: failed to read stdin: "@ + err,
    }
}

/// The exit code of `stk diff` once its input -- the file `source`, or stdin when there
/// is none -- has been read as `read`: the condensed diff, budgeted if asked, goes to
/// `stdout`.
pub fn finish<O: OutputSink, E: OutputSink>(
    source: Option<&str>,
    read: Result<String, String>,
    stdout: &mut O,
    stderr: &mut E,
    budget: Option<usize>,
) -> (r: i32)
    ensures
        read matches Err(e) ==> r == 1 && *final(stdout) == *old(stdout) && sent(
            *old(stderr),
            *final(stderr),
            line_bytes(read_failed_message(crate::verbs::init::opt_chars(source), e@)),
        ),
        read is Ok && old(stdout).accepts_all() ==> match budgeted_text(&ApproximateCounter, condense_spec(read->Ok_0@), budget) {
            Ok(t) => r == 0 && final(stdout).written() == old(stdout).written() + vstd::utf8::encode_utf8(t)
                && *final(stderr) == *old(stderr),
            Err(m) => r == 2 && *final(stdout) == *old(stdout) && sent(
                *old(stderr),
                *final(stderr),
                line_bytes(budget_too_small_message(budget->0 as nat, "any diff content"@, m)),
            ),
        },
{
    let content = match read {
        Ok(content) => content,
        Err(err) => {
            let mut msg: Vec<char> = Vec::new();
            match source {
                Some(path) => {
                    push_str(&mut msg, "stk: failed to read '");
                    push_str(&mut msg, path);
                    push_str(&mut msg, "': ");
                },
                None => {
                    push_str(&mut msg, "stk: failed to read stdin: ");
                },
            }
            push_str(&mut msg, err.as_str());
            let _ = write_line(stderr, &msg);
            return 1;
        },
    };
    let condensed = condense(content.as_str());
    let rendered = match render_optionally_budgeted(
        &condensed,
        budget,
        &ApproximateCounter,
        "any diff content",
        stderr,
    ) {
        Ok(rendered) => rendered,
        Err(code) => return code,
    };
    match write_output(stdout, rendered.as_str().as_bytes()) {
        Ok(()) => 0,
        Err(WriteOutcome::BrokenPipe) => 0,
        Err(WriteOutcome::Failed(err)) => {
            let mut msg = chars_of("stk: failed to write output: ");
            push_str(&mut msg, err.as_str());
            let _ = write_line(stderr, &msg);
            1
        },
        Err(WriteOutcome::AlreadyReported(code)) => code,
    }
}

} // verus!
