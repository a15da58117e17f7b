//! `stk grep <pattern> <path>`: a native, `Budget`-aware search (not an `rg` wrapper).
//! Substring matching only -- no regex engine dependency. Stateless. The walk over the
//! file system and the reading of files are the caller's; the matching and rendering
//! are here.
use vstd::prelude::*;

use crate::budget::selector::views;
use crate::budget::tokenizer::ApproximateCounter;
use crate::compression::{write_output, WriteOutcome};
use crate::fastpath::{lines_spec, split_lines};
use crate::io::{line_bytes, sent, write_line, OutputSink};
use crate::text::{chars_of, contains, contains_exec, decimal, extend_chars, push_decimal, push_str, string_of};

use crate::verbs::find::search_failed_message;

verus! {

pub open spec fn usage_message(args_len: nat) -> Seq<char> {
    if args_len == 0 {
        "stk: grep requires a pattern and a path"@
    } else {
        "stk: grep requires a path"@
    }
}

/// The match lines of one file: `display:N:line` for each line (counted from 1) that
/// holds `pattern`.
pub open spec fn file_matches(display: Seq<char>, lines: Seq<Seq<char>>, pattern: Seq<char>) -> Seq<Seq<char>>
    decreases lines.len(),
{
    if lines.len() == 0 {
        Seq::empty()
    } else {
        let rest = file_matches(display, lines.drop_last(), pattern);
        if contains(lines.last(), pattern) {
            rest.push(display + ":"@ + decimal(lines.len()) + ":"@ + lines.last())
        } else {
            rest
        }
    }
}

/// The match lines of the file shown as `display` with text `content`.
pub fn match_lines(display: &str, content: &str, pattern: &str) -> (r: Vec<String>)
    ensures
        views(r@) == file_matches(display@, lines_spec(content@), pattern@),
{
    let lines = split_lines(content);
    let ghost ls = lines_spec(content@);
    assert(views(lines@) == ls);
    let pat = chars_of(pattern);
    let mut out: Vec<String> = Vec::new();
    let mut i: usize = 0;
    while i < lines.len()
        invariant
            i <= lines.len(),
            ls == views(lines@),
            pat@ == pattern@,
            views(out@) == file_matches(display@, ls.take(i as int), pattern@),
        decreases lines.len() - i,
    {
        let ghost t = ls.take(i + 1);
        assert(t.drop_last() == ls.take(i as int));
        assert(t.last() == lines@[i as int]@);
        let line = chars_of(lines[i].as_str());
        if contains_exec(&line, &pat) {
            let mut m = chars_of(display);
            push_str(&mut m, ":");
            push_decimal(&mut m, i + 1);
            push_str(&mut m, ":");
            extend_chars(&mut m, &line);
            let ghost before = views(out@);
            let s = string_of(&m);
            out.push(s);
            assert(views(out@) == before.push(s@));
        }
        i += 1;
    }
    assert(ls.take(lines.len() as int) == ls);
    out
}

/// The match lines of every readable file found, in walk order (a file that could not be
/// read as text is skipped, as grep skips binary files).
pub open spec fn all_matches(files: Seq<(Seq<char>, Option<Seq<char>>)>, pattern: Seq<char>) -> Seq<Seq<char>>
    decreases files.len(),
{
    if files.len() == 0 {
        Seq::empty()
    } else {
        let rest = all_matches(files.drop_last(), pattern);
        match files.last().1 {
            Some(content) => rest + file_matches(files.last().0, lines_spec(content), pattern),
            None => rest,
        }
    }
}

/// `stk grep` is stateless: what [`finish`] writes depends on the files the walk found (by
/// their displayed paths and texts), the pattern and the budget alone, so two runs over an
/// unchanged tree -- which the walk visits in the same sorted order -- write the same bytes
/// and exit the same way.
pub proof fn lemma_grep_is_stateless(
    first: Seq<(String, Option<String>)>,
    second: Seq<(String, Option<String>)>,
    pattern: Seq<char>,
    budget: Option<usize>,
)
    requires
        crate::verbs::find::found_view(first) == crate::verbs::find::found_view(second),
    ensures
        crate::verbs::filesystem_budget::budgeted_text(
            &ApproximateCounter,
            all_matches(crate::verbs::find::found_view(first), pattern),
            budget,
        ) == crate::verbs::filesystem_budget::budgeted_text(
            &ApproximateCounter,
            all_matches(crate::verbs::find::found_view(second), pattern),
            budget,
        ),
{
}

/// The exit code of `stk grep` for `pattern` once the walk from `root` found `walked`
/// (each file as its displayed path and its text, `None` when unreadable) or failed:
/// the match lines, budgeted if asked, go to `stdout`.
pub fn finish<O: OutputSink, E: OutputSink>(
    root: &str,
    pattern: &str,
    walked: Result<Vec<(String, Option<String>)>, String>,
    stdout: &mut O,
    stderr: &mut E,
    budget: Option<usize>,
) -> (r: i32)
    ensures
        walked matches Err(e) ==> r == 1 && *final(stdout) == *old(stdout) && sent(
            *old(stderr),
            *final(stderr),
            line_bytes(search_failed_message(root@, e@)),
        ),
        walked is Ok && old(stdout).accepts_all() ==> match crate::verbs::filesystem_budget::budgeted_text(
            &ApproximateCounter,
            all_matches(crate::verbs::find::found_view(walked->Ok_0@), pattern@),
            budget,
        ) {
            Ok(t) => r == 0 && *final(stderr) == *old(stderr) && final(stdout).written() == old(stdout).written()
                + vstd::utf8::encode_utf8(t),
            Err(m) => r == 2 && *final(stdout) == *old(stdout) && sent(
                *old(stderr),
                *final(stderr),
                line_bytes(crate::verbs::filesystem_budget::budget_too_small_message(budget->0 as nat, "any matches"@, m)),
            ),
        },
{
    let files = match walked {
        Ok(files) => files,
        Err(err) => {
            let mut msg = chars_of("stk: failed to search '");
            push_str(&mut msg, root);
            push_str(&mut msg, "': ");
            push_str(&mut msg, err.as_str());
            let _ = write_line(stderr, &msg);
            return 1;
        },
    };
    let ghost fs = crate::verbs::find::found_view(files@);
    let mut matches: Vec<String> = Vec::new();
    let mut i: usize = 0;
    while i < files.len()
        invariant
            i <= files.len(),
            fs == crate::verbs::find::found_view(files@),
            views(matches@) == all_matches(fs.take(i as int), pattern@),
        decreases files.len() - i,
    {
        let ghost t = fs.take(i + 1);
        assert(t.drop_last() == fs.take(i as int));
        assert(t.last() == fs[i as int]);
        match &files[i].1 {
            Some(content) => {
                let found = match_lines(files[i].0.as_str(), content.as_str(), pattern);
                let mut k: usize = 0;
                let ghost before = views(matches@);
                while k < found.len()
                    invariant
                        k <= found.len(),
                        views(matches@) == before + views(found@).take(k as int),
                    decreases found.len() - k,
                {
                    let ghost b2 = views(matches@);
                    let s = found[k].clone();
                    matches.push(s);
                    assert(views(matches@) == b2.push(s@));
                    assert(views(found@).take(k + 1) == views(found@).take(k as int).push(found@[k as int]@));
                    k += 1;
                }
                assert(views(found@).take(found.len() as int) == views(found@));
            },
            None => {},
        }
        i += 1;
    }
    assert(fs.take(files.len() as int) == fs);
    let rendered = crate::verbs::filesystem_budget::render_optionally_budgeted(
        &matches,
        budget,
        &ApproximateCounter,
        "any matches",
        stderr,
    );
    let rendered = match rendered {
        Ok(r) => r,
        Err(code) => return code,
    };
    match write_output(stdout, rendered.as_str().as_bytes()) {
        Ok(()) => 0,
        Err(WriteOutcome::BrokenPipe) => 0,
        Err(WriteOutcome::Failed(err)) => {
            let mut msg = chars_of("stk: failed to write output: ");
            push_str(&mut msg, err.as_str());
            let _ = write_line(stderr, &msg);
            1
        },
        Err(WriteOutcome::AlreadyReported(code)) => code,
    }
}


/// Reads `grep`'s arguments: the pattern and the path, or the usage error naming what is
/// missing (extra arguments are ignored).
pub fn parse_args(args: &[String]) -> (r: Result<(String, String), String>)
    ensures
        match r {
            Ok((pattern, path)) => args.len() >= 2 && pattern@ == args@[0]@ && path@ == args@[1]@,
            Err(m) => args.len() < 2 && m@ == usage_message(args.len() as nat),
        },
{
    if args.len() == 0 {
        return Err("stk: grep requires a pattern and a path".to_string());
    }
    if args.len() == 1 {
        return Err("stk: grep requires a path".to_string());
    }
    Ok((args[0].clone(), args[1].clone()))
}

} // verus!
