//! `stk summary <CMD> [ARGS...]`: runs a command and shows a heuristic condensed summary
//! -- counts plus the first error, not the full output `compile` would give.
use vstd::prelude::*;

use crate::budget::selector::views;
use crate::budget::tokenizer::{ApproximateCounter, TokenCounter};
use crate::capture::executor::{CommandExecutor, ExecutionResult};
use crate::chunk::ChunkKind;
use crate::compression::{result_exit_code, write_output, WriteOutcome};
use crate::io::{line_bytes, sent, write_line, OutputSink};
use crate::scoring::relevance::{classify, classify_spec};
use crate::text::{chars_of, decimal, push_decimal, push_str, string_of};
use crate::verbs::err::{all_lines, output_lines};
use crate::verbs::filesystem_budget::{budgeted_text, budget_too_small_message, join_lines, joined, render_optionally_budgeted, terminated_spec};
use crate::history::{record_savings, EntryView, HistoryStore};
use crate::verbs::passthrough::{exec_error, exec_error_message, no_command_error, no_command_message};

verus! {

/// The kind `line` is classified as.
#[verifier::opaque]
pub open spec fn kind_of(line: Seq<char>) -> ChunkKind {
    classify_spec(line).0
}

/// How many of `lines` are classified `kind`.
pub open spec fn count_kind(lines: Seq<Seq<char>>, kind: ChunkKind) -> nat
    decreases lines.len(),
{
    if lines.len() == 0 {
        0
    } else {
        count_kind(lines.drop_last(), kind) + if kind_of(lines.last()) == kind { 1nat } else { 0nat }
    }
}

/// The first of `lines` classified an error, if any.
pub open spec fn first_error(lines: Seq<Seq<char>>) -> Option<Seq<char>>
    decreases lines.len(),
{
    if lines.len() == 0 {
        None
    } else if first_error(lines.drop_last()) is Some {
        first_error(lines.drop_last())
    } else if kind_of(lines.last()) == ChunkKind::Error {
        Some(lines.last())
    } else {
        None
    }
}

/// `""` for exactly one, `"s"` otherwise.
pub open spec fn plural(n: nat) -> Seq<char> {
    if n == 1 { ""@ } else { "s"@ }
}

/// The headline: `ok`/`failed` by the exit code, then the error and warning counts and
/// the number of lines.
pub open spec fn headline(lines: Seq<Seq<char>>, exit_code: i32) -> Seq<char> {
    headline_of(count_kind(lines, ChunkKind::Error), count_kind(lines, ChunkKind::Warning), lines.len(), exit_code)
}

pub open spec fn headline_of(e: nat, w: nat, n: nat, exit_code: i32) -> Seq<char> {
    (if exit_code == 0 { "ok"@ } else { "failed"@ }) + ": "@ + decimal(e) + " error"@ + plural(e) + ", "@
        + decimal(w) + " warning"@ + plural(w) + " ("@ + decimal(n) + " lines)"@
}

fn headline_chars(e: usize, w: usize, n: usize, exit_code: i32) -> (r: Vec<char>)
    ensures
        r@ == headline_of(e as nat, w as nat, n as nat, exit_code),
{
    let mut head: Vec<char> = Vec::new();
    if exit_code == 0 {
        push_str(&mut head, "ok");
    } else {
        push_str(&mut head, "failed");
    }
    push_str(&mut head, ": ");
    push_decimal(&mut head, e);
    push_str(&mut head, " error");
    if e != 1 {
        push_str(&mut head, "s");
    }
    push_str(&mut head, ", ");
    push_decimal(&mut head, w);
    push_str(&mut head, " warning");
    if w != 1 {
        push_str(&mut head, "s");
    }
    push_str(&mut head, " (");
    push_decimal(&mut head, n);
    push_str(&mut head, " lines)");
    proof {
        reveal_strlit("");
    }
    head
}

/// The summary's lines: the headline, then the first error if there is one.
pub open spec fn summary_spec(lines: Seq<Seq<char>>, exit_code: i32) -> Seq<Seq<char>> {
    match first_error(lines) {
        Some(f) => seq![headline(lines, exit_code), f],
        None => seq![headline(lines, exit_code)],
    }
}

/// The summary of `lines` from a command that exited with `exit_code`.
pub fn summarize(lines: &Vec<String>, exit_code: i32) -> (r: Vec<String>)
    ensures
        views(r@) == summary_spec(views(lines@), exit_code),
{
    let ghost ls = views(lines@);
    let mut error_count: usize = 0;
    let mut warning_count: usize = 0;
    let mut first: Option<String> = None;
    let mut i: usize = 0;
    while i < lines.len()
        invariant
            i <= lines.len(),
            ls == views(lines@),
            error_count == count_kind(ls.take(i as int), ChunkKind::Error),
            warning_count == count_kind(ls.take(i as int), ChunkKind::Warning),
            error_count <= i,
            warning_count <= i,
            match first { Some(f) => first_error(ls.take(i as int)) == Some(f@), None => first_error(ls.take(i as int)) is None },
        decreases lines.len() - i,
    {
        let (kind, _) = classify(lines[i].as_str());
        proof {
            let t = ls.take(i + 1);
            assert(t.drop_last() == ls.take(i as int));
            assert(t.last() == lines@[i as int]@);
            assert(kind == kind_of(t.last())) by {
                reveal(kind_of);
            }
        }
        match kind {
            ChunkKind::Error => {
                error_count += 1;
                if first.is_none() {
                    first = Some(lines[i].clone());
                }
            },
            ChunkKind::Warning => {
                warning_count += 1;
            },
            _ => {},
        }
        i += 1;
    }
    assert(ls.take(lines.len() as int) == ls);
    let head = headline_chars(error_count, warning_count, lines.len(), exit_code);
    let mut out: Vec<String> = Vec::new();
    out.push(string_of(&head));
    match first {
        Some(f) => {
            out.push(f);
        },
        None => {},
    }
    out
}

/// What `stk summary` does once the command has run (or failed to start) with `outcome`:
/// `r` is its exit code, and `stdout`/`stderr` go from `out0`/`err0` to `out1`/`err1`.
pub open spec fn summarized<O: OutputSink, E: OutputSink>(
    command: Seq<char>,
    outcome: Result<ExecutionResult, String>,
    out0: O,
    out1: O,
    err0: E,
    err1: E,
    budget: Option<usize>,
    r: i32,
) -> bool {
    &&& (outcome matches Err(e) ==> r == 1 && out1 == out0 && sent(err0, err1, line_bytes(exec_error_message(command, e@))))
    &&& (outcome is Ok && out0.accepts_all() ==> match budgeted_text(&ApproximateCounter, summary_spec(output_lines(outcome->Ok_0), result_exit_code(outcome->Ok_0)), budget) {
        Ok(t) => r == result_exit_code(outcome->Ok_0) && out1.written() == out0.written() + vstd::utf8::encode_utf8(t)
            && err1 == err0,
        Err(m) => r == 2 && out1 == out0 && sent(
            err0,
            err1,
            line_bytes(budget_too_small_message(budget->0 as nat, "a summary"@, m)),
        ),
    })
}

/// The exit code of `stk summary` once the command has run (or failed to start) with
/// `outcome`: the summary of its output lines, budgeted if asked, goes to `stdout`, and
/// the child's own exit code is kept.
pub fn finish<O: OutputSink, E: OutputSink>(
    command: &str,
    outcome: Result<ExecutionResult, String>,
    stdout: &mut O,
    stderr: &mut E,
    budget: Option<usize>,
) -> (r: i32)
    ensures
        summarized(command@, outcome, *old(stdout), *final(stdout), *old(stderr), *final(stderr), budget, r),
{
    let result = match outcome {
        Ok(result) => result,
        Err(err) => return exec_error(command, err.as_str(), stderr),
    };
    let lines = all_lines(&result);
    let exit_code = result.exit_info().to_process_exit_code();
    let summary_lines = summarize(&lines, exit_code);
    let rendered = match render_optionally_budgeted(
        &summary_lines,
        budget,
        &ApproximateCounter,
        "a summary",
        stderr,
    ) {
        Ok(rendered) => rendered,
        Err(code) => return code,
    };
    match write_output(stdout, rendered.as_str().as_bytes()) {
        Ok(()) => exit_code,
        Err(WriteOutcome::BrokenPipe) => exit_code,
        Err(WriteOutcome::Failed(err)) => {
            let mut msg = chars_of("stk: failed to write output: ");
            push_str(&mut msg, err.as_str());
            let _ = write_line(stderr, &msg);
            1
        },
        Err(WriteOutcome::AlreadyReported(code)) => code,
    }
}

/// What `stk summary` does given `args`: with no command, runs nothing and exits 2; with
/// one, asks `executor` (going from `x0` to `x1`) to run it and ends as [`summarized`] says
/// for some answer it may give.
#[verifier::opaque]
pub open spec fn summary_dispatched<O: OutputSink, E: OutputSink, X: CommandExecutor>(
    args: Seq<Seq<char>>,
    out0: O,
    out1: O,
    err0: E,
    err1: E,
    x0: X,
    x1: X,
    budget: Option<usize>,
    r: i32,
) -> bool {
    &&& (args.len() == 0 ==> r == 2 && x1.requested() == x0.requested() && out1 == out0 && sent(
        err0,
        err1,
        line_bytes(no_command_message("summary"@)),
    ))
    &&& (args.len() > 0 ==> crate::capture::executor::asked(x0, x1, (args[0], args.skip(1))) && exists|
        outcome: Result<ExecutionResult, String>,
    | #[trigger] x0.may_answer((args[0], args.skip(1)), outcome) && summarized(args[0], outcome, out0, out1, err0, err1, budget, r))
}

/// `stk summary`: runs the command and reports as [`finish`] says; with no command it runs
/// nothing and exits 2 (see [`summary_dispatched`]).
pub fn dispatch<O: OutputSink, E: OutputSink, X: CommandExecutor>(
    args: &[String],
    stdout: &mut O,
    stderr: &mut E,
    executor: &mut X,
    budget: Option<usize>,
) -> (r: i32)
    ensures
        summary_dispatched(views(args@), *old(stdout), *final(stdout), *old(stderr), *final(stderr), *old(executor), *final(executor), budget, r),
{
    proof {
        reveal(summary_dispatched);
    }
    if args.len() == 0 {
        return no_command_error("summary", stderr);
    }
    let command = args[0].as_str();
    let cmd_args = vstd::slice::slice_subrange(args, 1, args.len());
    assert(views(cmd_args@) == views(args@).skip(1));
    let ghost x0 = *executor;
    let outcome = executor.execute(command, cmd_args);
    let ghost got = outcome;
    let r = finish(command, outcome, stdout, stderr, budget);
    assert(x0.may_answer((args@[0]@, views(args@).skip(1)), got));
    r
}

/// `e` is the entry `summary` records for running `command` with `args` to the result
/// `res`, at whatever time and from no known directory: the output lines joined by line
/// breaks against the summary shown.
pub open spec fn summary_entry(e: EntryView, command: Seq<char>, args: Seq<Seq<char>>, res: ExecutionResult) -> bool {
    let lines = output_lines(res);
    &&& e.verb == "summary"@
    &&& e.command == command
    &&& e.args == args
    &&& e.input_tokens == Some(ApproximateCounter.spec_count(joined(lines)) as usize)
    &&& e.output_tokens == Some(
        ApproximateCounter.spec_count(terminated_spec(joined(summary_spec(lines, result_exit_code(res))))) as usize,
    )
    &&& e.cwd is None
}

/// The history `h0` became `h1` by what `summary` records for running `command` with
/// `args` to `res`: one such entry, always on a store that keeps its record and never fails.
pub open spec fn summary_recorded<H: HistoryStore>(h0: H, h1: H, command: Seq<char>, args: Seq<Seq<char>>, res: ExecutionResult) -> bool {
    let added = h1.recorded().drop_last() == h0.recorded() && h1.recorded().len() == h0.recorded().len() + 1
        && summary_entry(h1.recorded().last(), command, args, res);
    &&& h1.recorded() == h0.recorded() || added
    &&& h0.keeps_record() && h0.always_succeeds() ==> added
}

/// What `stk summary` does given `args` (see [`summary_dispatched`], with no budget), its
/// savings recorded: for a command that ran, one entry (see [`summary_recorded`]); nothing
/// otherwise.
#[verifier::opaque]
pub open spec fn summary_run_recorded<O: OutputSink, E: OutputSink, X: CommandExecutor, H: HistoryStore>(
    args: Seq<Seq<char>>,
    out0: O,
    out1: O,
    err0: E,
    err1: E,
    x0: X,
    x1: X,
    h0: H,
    h1: H,
    r: i32,
) -> bool {
    &&& summary_dispatched(args, out0, out1, err0, err1, x0, x1, None, r)
    &&& (args.len() == 0 ==> h1.recorded() == h0.recorded())
    &&& (args.len() > 0 ==> exists|outcome: Result<ExecutionResult, String>|
        #[trigger] x0.may_answer((args[0], args.skip(1)), outcome) && summarized(args[0], outcome, out0, out1, err0, err1, None, r)
            && match outcome {
            Ok(res) => summary_recorded(h0, h1, args[0], args.skip(1), res),
            Err(_) => h1.recorded() == h0.recorded(),
        })
}

/// `stk summary` as [`dispatch`] runs it, its savings recorded against `history` (see
/// [`summary_run_recorded`]).
pub fn dispatch_and_record<O: OutputSink, E: OutputSink, X: CommandExecutor, H: HistoryStore>(
    args: &[String],
    stdout: &mut O,
    stderr: &mut E,
    executor: &mut X,
    history: &mut H,
) -> (r: i32)
    ensures
        summary_run_recorded(
            views(args@),
            *old(stdout),
            *final(stdout),
            *old(stderr),
            *final(stderr),
            *old(executor),
            *final(executor),
            *old(history),
            *final(history),
            r,
        ),
{
    proof {
        reveal(summary_dispatched);
        reveal(summary_run_recorded);
    }
    if args.len() == 0 {
        return no_command_error("summary", stderr);
    }
    let command = args[0].as_str();
    let cmd_args = vstd::slice::slice_subrange(args, 1, args.len());
    assert(views(cmd_args@) == views(args@).skip(1));
    let ghost x0 = *executor;
    let ghost h0 = *history;
    let outcome = executor.execute(command, cmd_args);
    let ghost got = outcome;
    if let Ok(result) = &outcome {
        let lines = all_lines(result);
        let exit_code = result.exit_info().to_process_exit_code();
        let summary_lines = summarize(&lines, exit_code);
        let input = string_of(&join_lines(&lines));
        let output = string_of(&crate::verbs::filesystem_budget::terminated_chars(join_lines(&summary_lines)));
        proof {
            reveal_strlit("summary");
        }
        record_savings(history, &ApproximateCounter, "summary", command, cmd_args, input.as_str(), output.as_str(), None);
        proof {
            assert(views(cmd_args@) == cmd_args@.map_values(|a: String| a@));
            if history.recorded() != h0.recorded() {
                assert(history.recorded().drop_last() =~= h0.recorded());
            }
        }
    }
    let r = finish(command, outcome, stdout, stderr, None);
    assert(x0.may_answer((args@[0]@, views(args@).skip(1)), got));
    r
}

} // verus!
