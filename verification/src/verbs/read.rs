//! `stk read <file>`: a native, `Budget`-aware file reader (not a `cat` wrapper).
//! Stateless -- unaffected by anything but the file's current content.
use vstd::prelude::*;

use crate::budget::tokenizer::{ApproximateCounter, TokenCounter};
use crate::compression::{write_output, WriteOutcome};
use crate::history::{record_savings, savings_entry, HistoryStore};
use crate::io::{line_bytes, sent, write_line, OutputSink};
use crate::text::{chars_of, push_decimal, push_str};
use crate::verbs::diff::read_failed_message;
use crate::verbs::filesystem_budget::{budget_too_small_message, head_tail_floor, head_tail_result, terminated_spec, truncate_head_tail, TooSmall};

verus! {

pub open spec fn no_path_message() -> Seq<char> {
    "stk: read requires a file path"@
}

/// Reports that `read` was given no path; the usage-error exit code.
pub fn no_path_error<E: OutputSink>(stderr: &mut E) -> (r: i32)
    ensures
        r == 2,
        sent(*old(stderr), *final(stderr), line_bytes(no_path_message())),
{
    let _ = write_line(stderr, &chars_of("stk: read requires a file path"));
    2
}

/// The exit code of `stk read` once the file `path` has been read as `read`: its
/// content, head+tail-truncated to the budget if there is one, goes to `stdout`, and the
/// savings are recorded against `history` (run from the working directory `cwd`).
pub fn finish<O: OutputSink, E: OutputSink, H: HistoryStore>(
    args: &[String],
    path: &str,
    read: Result<String, String>,
    stdout: &mut O,
    stderr: &mut E,
    history: &mut H,
    budget: Option<usize>,
    cwd: Option<String>,
) -> (r: i32)
    ensures
        read matches Err(e) ==> r == 1 && *final(stdout) == *old(stdout) && final(history).recorded()
            == old(history).recorded() && sent(
            *old(stderr),
            *final(stderr),
            line_bytes(read_failed_message(Some(path@), e@)),
        ),
        read is Ok && budget is None && old(stdout).accepts_all() ==> r == 0 && final(stdout).written()
            == old(stdout).written() + vstd::utf8::encode_utf8(read->Ok_0@) && *final(stderr) == *old(stderr),
        read is Ok && budget is Some && ApproximateCounter.spec_count(terminated_spec(read->Ok_0@)) <= budget->0 && old(stdout).accepts_all()
            ==> r == 0 && final(stdout).written() == old(stdout).written() + vstd::utf8::encode_utf8(terminated_spec(read->Ok_0@))
            && *final(stderr) == *old(stderr),
        read is Ok && budget is Some && ApproximateCounter.spec_count(terminated_spec(read->Ok_0@)) > budget->0
            && budget->0 >= head_tail_floor(&ApproximateCounter, read->Ok_0@) && old(stdout).accepts_all()
            ==> r == 0 && *final(stderr) == *old(stderr) && (exists|shown: Seq<char>|
            head_tail_result(&ApproximateCounter, read->Ok_0@, budget->0 as int, shown)
            && final(stdout).written() == old(stdout).written() + vstd::utf8::encode_utf8(shown)),
        read is Ok && r != 2 ==> final(history).recorded() == old(history).recorded() || (
            final(history).recorded().drop_last() == old(history).recorded()
            && final(history).recorded().len() == old(history).recorded().len() + 1
            && exists|shown: Seq<char>| savings_entry(
                final(history).recorded().last(),
                &ApproximateCounter,
                "read"@,
                ""@,
                args@,
                read->Ok_0@,
                shown,
                crate::history::opt_view(cwd),
            )),
        read is Ok && r != 2 && old(history).keeps_record() && old(history).always_succeeds() ==> final(history).recorded().drop_last()
            == old(history).recorded() && final(history).recorded().len() == old(history).recorded().len() + 1
            && exists|shown: Seq<char>| savings_entry(
                final(history).recorded().last(),
                &ApproximateCounter,
                "read"@,
                ""@,
                args@,
                read->Ok_0@,
                shown,
                crate::history::opt_view(cwd),
            ),
        read is Ok && budget is Some && ApproximateCounter.spec_count(terminated_spec(read->Ok_0@)) > budget->0
            && budget->0 < head_tail_floor(&ApproximateCounter, read->Ok_0@) ==> r == 2
            && *final(stdout) == *old(stdout) && final(history).recorded() == old(history).recorded() && sent(
            *old(stderr),
            *final(stderr),
            line_bytes(
                budget_too_small_message(
                    budget->0 as nat,
                    "this file"@,
                    head_tail_floor(&ApproximateCounter, read->Ok_0@),
                ),
            ),
        ),
{
    let content = match read {
        Ok(content) => content,
        Err(err) => {
            let mut msg = chars_of("stk: failed to read '");
            push_str(&mut msg, path);
            push_str(&mut msg, "': ");
            push_str(&mut msg, err.as_str());
            let _ = write_line(stderr, &msg);
            return 1;
        },
    };
    let rendered = match budget {
        None => content.clone(),
        Some(b) => match truncate_head_tail(content.as_str(), b, &ApproximateCounter) {
            Ok(rendered) => rendered,
            Err(TooSmall { minimum }) => {
                let mut msg = chars_of("stk: --budget ");
                push_decimal(&mut msg, b);
                push_str(&mut msg, " is too small to render ");
                push_str(&mut msg, "this file");
                push_str(&mut msg, " (minimum: ");
                push_decimal(&mut msg, minimum);
                push_str(&mut msg, ")");
                let _ = write_line(stderr, &msg);
                return 2;
            },
        },
    };
    let ghost cwd_v = crate::history::opt_view(cwd);
    let ghost before = history.recorded();
    record_savings(history, &ApproximateCounter, "read", "", args, content.as_str(), rendered.as_str(), cwd);
    assert(history.recorded() == before || savings_entry(
        history.recorded().last(),
        &ApproximateCounter,
        "read"@,
        ""@,
        args@,
        content@,
        rendered@,
        cwd_v,
    ));
    match write_output(stdout, rendered.as_str().as_bytes()) {
        Ok(()) => 0,
        Err(WriteOutcome::BrokenPipe) => 0,
        Err(WriteOutcome::Failed(err)) => {
            let mut msg = chars_of("stk: failed to write output: ");
            push_str(&mut msg, err.as_str());
            let _ = write_line(stderr, &msg);
            1
        },
        Err(WriteOutcome::AlreadyReported(code)) => code,
    }
}

} // verus!
