//! Shared by `stk compile` (generic classifier) and specialist dispatch (`stk cargo ...`,
//! its own classifier): the fast path or the Budget Selection Algorithm applied to a
//! command's captured output, and the writing of the result.
use vstd::prelude::*;
use vstd::utf8::encode_utf8;

use crate::budget::selector::{
    everything_fits, lemma_approximate_counter_fits, minimum_budget, only_mandatory_overflows, rendered_whole, select_result_ok, select_with,
    views, BudgetError, BudgetedOutput,
};
use crate::budget::tokenizer::ApproximateCounter;
use crate::capture::executor::{process_exit_code, CommandExecutor, ExecutionResult};
use crate::chunk::Classifier;
use crate::fastpath::{lines_from, lines_from_spec, run, run_spec};
use crate::io::{line_bytes, sent, write_line, OutputSink, WriteError};
use crate::text::{concat_terminated, decimal, push_decimal, push_str};
use crate::verbs::passthrough::{exec_error, exec_error_message};

verus! {

/// Why writing a verb's output did not complete.
pub enum WriteOutcome {
    /// The reader went away: a normal early pipeline shutdown (e.g. `| head`).
    BrokenPipe,
    /// Any other write failure, with its description.
    Failed(String),
    /// The failure was already reported to stderr (by the caller's own, more specific
    /// message): the caller should use this exit code without printing another, generic
    /// "failed to write output" line for the same failure.
    AlreadyReported(i32),
}

/// Writes `data` to `sink`, telling a broken pipe apart from other failures.
pub fn write_output<O: OutputSink>(sink: &mut O, data: &[u8]) -> (r: Result<(), WriteOutcome>)
    ensures
        !(r matches Err(WriteOutcome::AlreadyReported(_))),
        sent(*old(sink), *final(sink), data@),
        old(sink).accepts_all() ==> r is Ok,
        old(sink).fails_only_by_broken_pipe() ==> !(r matches Err(WriteOutcome::Failed(_))),
{
    match sink.write_bytes(data) {
        Ok(()) => Ok(()),
        Err(WriteError::BrokenPipe) => Err(WriteOutcome::BrokenPipe),
        Err(WriteError::Failed(err)) => Err(WriteOutcome::Failed(err)),
    }
}

/// The two streams' cleaned-up lines are few enough to number with the selection's
/// markers in a `usize`.
pub open spec fn lines_fit(raw_stdout: Seq<u8>, raw_stderr: Seq<u8>) -> bool {
    lines_from_spec(raw_stdout).len() + lines_from_spec(raw_stderr).len() + 4 <= usize::MAX
}

/// The budgeted rendering of a command's raw output streams with the approximate token
/// counter: the cleaned-up lines of each stream selected to fit `budget`.
pub fn render_budgeted(raw_stdout: &[u8], raw_stderr: &[u8], budget: usize, classify: Classifier) -> (r: Result<BudgetedOutput, BudgetError>)
    ensures
        r matches Err(BudgetError::TooSmall { budget: b, minimum: m }) ==> b == budget
            && m == minimum_budget(&ApproximateCounter),
        lines_fit(raw_stdout@, raw_stderr@) ==> ((r matches Err(BudgetError::TooSmall { .. })) <==> budget
            < minimum_budget(&ApproximateCounter)),
        !lines_fit(raw_stdout@, raw_stderr@) ==> r matches Err(BudgetError::Internal),
        lines_fit(raw_stdout@, raw_stderr@) && (r matches Err(BudgetError::Internal)) ==> only_mandatory_overflows(
            lines_from_spec(raw_stdout@),
            lines_from_spec(raw_stderr@),
            budget as int,
            &ApproximateCounter,
            classify,
        ),
        lines_fit(raw_stdout@, raw_stderr@) && everything_fits(
            &ApproximateCounter,
            lines_from_spec(raw_stdout@),
            lines_from_spec(raw_stderr@),
            budget as int,
        ) ==> (r matches Ok(out) && rendered_whole(out, lines_from_spec(raw_stdout@), lines_from_spec(raw_stderr@))),
        r matches Ok(out) ==> select_result_ok(
            out,
            lines_from_spec(raw_stdout@),
            lines_from_spec(raw_stderr@),
            budget as int,
            &ApproximateCounter,
            classify,
        ),
{
    let stdout_lines = lines_from(raw_stdout);
    let stderr_lines = lines_from(raw_stderr);
    assert(views(stdout_lines@) == stdout_lines.deep_view());
    assert(views(stderr_lines@) == stderr_lines.deep_view());
    // Each line is a separate allocation, so these counts come nowhere near the limit.
    if stderr_lines.len() > usize::MAX - 4 || stdout_lines.len() > usize::MAX - 4 - stderr_lines.len() {
        return Err(BudgetError::Internal);
    }
    proof {
        lemma_approximate_counter_fits();
    }
    select_with(&stdout_lines, &stderr_lines, budget, &ApproximateCounter, classify)
}

/// The error reported for a budget below the smallest one honored.
pub open spec fn too_small_message(budget: nat, minimum: nat) -> Seq<char> {
    "stk: --budget "@ + decimal(budget) + " is too small to render mandatory content (minimum: "@
        + decimal(minimum) + ")"@
}

pub open spec fn internal_error_message() -> Seq<char> {
    "stk: internal error: render exceeded budget after dropping all optional content"@
}

pub open spec fn write_failed_message(err: Seq<char>) -> Seq<char> {
    "stk: failed to write output: "@ + err
}

/// Writes the budgeted rendering of the raw streams to `stdout`/`stderr`, or reports why
/// there is none.
pub fn write_budgeted<O: OutputSink, E: OutputSink>(
    stdout: &mut O,
    stderr: &mut E,
    raw_stdout: &[u8],
    raw_stderr: &[u8],
    budget: usize,
    classify: Classifier,
) -> (r: Result<(), WriteOutcome>)
    ensures
        lines_fit(raw_stdout@, raw_stderr@) && budget < minimum_budget(&ApproximateCounter) ==> (r
            matches Err(WriteOutcome::AlreadyReported(2))) && *final(stdout) == *old(stdout) && sent(
            *old(stderr),
            *final(stderr),
            line_bytes(too_small_message(budget as nat, minimum_budget(&ApproximateCounter) as nat)),
        ),
        !lines_fit(raw_stdout@, raw_stderr@) ==> (r matches Err(WriteOutcome::AlreadyReported(1)))
            && *final(stdout) == *old(stdout) && sent(*old(stderr), *final(stderr), line_bytes(internal_error_message())),
        r matches Err(WriteOutcome::AlreadyReported(c)) ==> c == 1 || c == 2,
        r matches Err(WriteOutcome::AlreadyReported(1)) ==> *final(stdout) == *old(stdout) && sent(
            *old(stderr),
            *final(stderr),
            line_bytes(internal_error_message()),
        ),
        r is Ok ==> exists|out: BudgetedOutput|
            select_result_ok(
                out,
                lines_from_spec(raw_stdout@),
                lines_from_spec(raw_stderr@),
                budget as int,
                &ApproximateCounter,
                classify,
            ) && sent(*old(stdout), *final(stdout), out.stdout@) && sent(*old(stderr), *final(stderr), out.stderr@),
        old(stdout).accepts_all() && old(stderr).accepts_all() && lines_fit(raw_stdout@, raw_stderr@)
            && budget >= minimum_budget(&ApproximateCounter) ==> r is Ok || r matches Err(
            WriteOutcome::AlreadyReported(1),
        ),
        lines_fit(raw_stdout@, raw_stderr@) && (r matches Err(WriteOutcome::AlreadyReported(1))) ==> only_mandatory_overflows(
            lines_from_spec(raw_stdout@),
            lines_from_spec(raw_stderr@),
            budget as int,
            &ApproximateCounter,
            classify,
        ),
        old(stdout).accepts_all() ==> final(stdout).accepts_all(),
        old(stderr).accepts_all() ==> final(stderr).accepts_all(),
        old(stdout).fails_only_by_broken_pipe() && old(stderr).fails_only_by_broken_pipe() ==> !(r matches Err(
            WriteOutcome::Failed(_),
        )),
        old(stdout).accepts_all() && old(stderr).accepts_all() && lines_fit(raw_stdout@, raw_stderr@) && everything_fits(
            &ApproximateCounter,
            lines_from_spec(raw_stdout@),
            lines_from_spec(raw_stderr@),
            budget as int,
        ) ==> r is Ok && final(stdout).written() == old(stdout).written() + encode_utf8(
            concat_terminated(lines_from_spec(raw_stdout@), "\n"@),
        ) && final(stderr).written() == old(stderr).written() + encode_utf8(
            concat_terminated(lines_from_spec(raw_stderr@), "\n"@),
        ),
{
    match render_budgeted(raw_stdout, raw_stderr, budget, classify) {
        Ok(output) => {
            write_output(stdout, &output.stdout)?;
            write_output(stderr, &output.stderr)
        },
        Err(BudgetError::TooSmall { budget, minimum }) => {
            let mut msg: Vec<char> = Vec::new();
            push_str(&mut msg, "stk: --budget ");
            push_decimal(&mut msg, budget);
            push_str(&mut msg, " is too small to render mandatory content (minimum: ");
            push_decimal(&mut msg, minimum);
            push_str(&mut msg, ")");
            let _ = write_line(stderr, &msg);
            Err(WriteOutcome::AlreadyReported(2))
        },
        Err(BudgetError::Internal) => {
            let mut msg: Vec<char> = Vec::new();
            push_str(&mut msg, "stk: internal error: render exceeded budget after dropping all optional content");
            let _ = write_line(stderr, &msg);
            Err(WriteOutcome::AlreadyReported(1))
        },
    }
}


/// The exit code to report for a child that ended as `res` says.
pub open spec fn result_exit_code(res: ExecutionResult) -> i32 {
    process_exit_code(res.exit_info_spec())
}

/// Turns a write outcome into the verb's exit code: the child's `code` when everything
/// went out or the reader went away early (a script checking `$?` still needs the
/// truth), 1 for any other failure (reported here), or the code of a failure reported
/// already.
fn finish_write<E: OutputSink>(outcome: Result<(), WriteOutcome>, code: i32, stderr: &mut E) -> (r: i32)
    ensures
        outcome is Ok ==> r == code && *final(stderr) == *old(stderr),
        outcome matches Err(WriteOutcome::BrokenPipe) ==> r == code && *final(stderr) == *old(stderr),
        outcome matches Err(WriteOutcome::AlreadyReported(c)) ==> r == c && *final(stderr) == *old(stderr),
        outcome matches Err(WriteOutcome::Failed(e)) ==> r == 1 && sent(*old(stderr), *final(stderr), line_bytes(write_failed_message(e@))),
{
    match outcome {
        Ok(()) => code,
        Err(WriteOutcome::BrokenPipe) => code,
        Err(WriteOutcome::AlreadyReported(c)) => c,
        Err(WriteOutcome::Failed(err)) => {
            let mut msg: Vec<char> = Vec::new();
            push_str(&mut msg, "stk: failed to write output: ");
            push_str(&mut msg, err.as_str());
            let _ = write_line(stderr, &msg);
            1
        },
    }
}

/// The fast-path rendering of both streams, stdout first; stderr is not written once
/// writing stdout has failed.
fn write_fast<O: OutputSink, E: OutputSink>(stdout: &mut O, stderr: &mut E, raw_stdout: &[u8], raw_stderr: &[u8]) -> (r: Result<(), WriteOutcome>)
    ensures
        !(r matches Err(WriteOutcome::AlreadyReported(_))),
        sent(*old(stdout), *final(stdout), run_spec(raw_stdout@)),
        r is Ok ==> sent(*old(stderr), *final(stderr), run_spec(raw_stderr@)),
        old(stdout).accepts_all() && old(stderr).accepts_all() ==> r is Ok && final(stdout).accepts_all() && final(stderr).accepts_all(),
        old(stdout).fails_only_by_broken_pipe() && old(stderr).fails_only_by_broken_pipe() ==> !(r matches Err(
            WriteOutcome::Failed(_),
        )),
{
    write_output(stdout, &run(raw_stdout))?;
    write_output(stderr, &run(raw_stderr))
}

/// What a compressing verb does once `command` has run (or failed to start) with
/// `outcome`, its output going through the fast path with no `budget` and through the
/// Budget Selection Algorithm with one: `r` is its exit code, and `stdout`/`stderr` go
/// from `out0`/`err0` to `out1`/`err1`.
pub open spec fn compressed<O: OutputSink, E: OutputSink>(
    command: Seq<char>,
    outcome: Result<ExecutionResult, String>,
    out0: O,
    out1: O,
    err0: E,
    err1: E,
    budget: Option<usize>,
    classify: Classifier,
    r: i32,
) -> bool {
    &&& (outcome matches Err(e) ==> r == 1 && out1 == out0 && sent(err0, err1, line_bytes(exec_error_message(command, e@))))
    &&& (outcome matches Ok(res) ==> (budget is None && out0.accepts_all() && err0.accepts_all()
        ==> r == result_exit_code(res) && out1.written() == out0.written() + run_spec(res.stdout@)
        && err1.written() == err0.written() + run_spec(res.stderr@)))
    &&& (outcome matches Ok(res) ==> (budget is None && out0.fails_only_by_broken_pipe() && err0.fails_only_by_broken_pipe()
        ==> r == result_exit_code(res) && sent(out0, out1, run_spec(res.stdout@))))
    &&& (outcome matches Ok(res) ==> (budget is Some && lines_fit(res.stdout@, res.stderr@) && budget->0
        < minimum_budget(&ApproximateCounter) ==> r == 2 && out1 == out0 && sent(
        err0,
        err1,
        line_bytes(too_small_message(budget->0 as nat, minimum_budget(&ApproximateCounter) as nat)),
    )))
    &&& (outcome matches Ok(res) ==> (budget is Some && out0.accepts_all() && err0.accepts_all()
        && lines_fit(res.stdout@, res.stderr@) && everything_fits(
        &ApproximateCounter,
        lines_from_spec(res.stdout@),
        lines_from_spec(res.stderr@),
        budget->0 as int,
    ) ==> r == result_exit_code(res) && out1.written() == out0.written() + encode_utf8(
        concat_terminated(lines_from_spec(res.stdout@), "\n"@),
    ) && err1.written() == err0.written() + encode_utf8(concat_terminated(lines_from_spec(res.stderr@), "\n"@))))
    &&& (outcome matches Ok(res) ==> (budget is Some && out0.accepts_all() && err0.accepts_all()
        && lines_fit(res.stdout@, res.stderr@) && budget->0 >= minimum_budget(&ApproximateCounter) ==> (r == 1 && out1 == out0
        && sent(err0, err1, line_bytes(internal_error_message())) && only_mandatory_overflows(
        lines_from_spec(res.stdout@),
        lines_from_spec(res.stderr@),
        budget->0 as int,
        &ApproximateCounter,
        classify,
    )) || (r == result_exit_code(res) && exists|out: BudgetedOutput|
        select_result_ok(out, lines_from_spec(res.stdout@), lines_from_spec(res.stderr@), budget->0 as int, &ApproximateCounter, classify)
            && out1.written() == out0.written() + out.stdout@
            && err1.written() == err0.written() + out.stderr@)))
}

/// The exit code of a compressing verb once `command` has run (or failed to start) with
/// `outcome`, its output written to `stdout`/`stderr` (see [`compressed`]).
pub fn compress_execution<O: OutputSink, E: OutputSink>(
    command: &str,
    outcome: Result<ExecutionResult, String>,
    stdout: &mut O,
    stderr: &mut E,
    budget: Option<usize>,
    classify: Classifier,
) -> (r: i32)
    ensures
        compressed(command@, outcome, *old(stdout), *final(stdout), *old(stderr), *final(stderr), budget, classify, r),
{
    match outcome {
        Ok(result) => {
            let code = result.exit_info().to_process_exit_code();
            let written = match budget {
                None => write_fast(stdout, stderr, &result.stdout, &result.stderr),
                Some(b) => write_budgeted(stdout, stderr, &result.stdout, &result.stderr, b, classify),
            };
            finish_write(written, code, stderr)
        },
        Err(err) => exec_error(command, err.as_str(), stderr),
    }
}

/// Runs `command` through `executor` and writes its compressed output (see
/// [`compress_execution`] for what comes out for each outcome).
pub fn execute_and_compress<O: OutputSink, E: OutputSink, X: CommandExecutor>(
    command: &str,
    cmd_args: &[String],
    stdout: &mut O,
    stderr: &mut E,
    executor: &mut X,
    budget: Option<usize>,
    classify: Classifier,
) -> (r: i32)
    ensures
        crate::capture::executor::asked(*old(executor), *final(executor), (command@, views(cmd_args@))),
        exists|outcome: Result<ExecutionResult, String>|
            #[trigger] old(executor).may_answer((command@, views(cmd_args@)), outcome) && compressed(
                command@,
                outcome,
                *old(stdout),
                *final(stdout),
                *old(stderr),
                *final(stderr),
                budget,
                classify,
                r,
            ),
{
    let ghost x0 = *executor;
    let outcome = executor.execute(command, cmd_args);
    let ghost o = outcome;
    let r = compress_execution(command, outcome, stdout, stderr, budget, classify);
    assert(x0.may_answer((command@, views(cmd_args@)), o));
    r
}

/// Shared stdin-reading half of `stk compile` (no command given): applies the fast path
/// or the Budget Selection Algorithm to piped input directly, with no exit code to
/// preserve.
pub fn compress_stdin<O: OutputSink, E: OutputSink>(
    input: &[u8],
    stdout: &mut O,
    stderr: &mut E,
    budget: Option<usize>,
    classify: Classifier,
) -> (r: i32)
    ensures
        budget is None && old(stdout).accepts_all() ==> r == 0 && final(stdout).written() == old(stdout).written() + run_spec(input@)
            && *final(stderr) == *old(stderr),
        budget is None ==> sent(*old(stdout), *final(stdout), run_spec(input@)) && ((r == 0 && *final(stderr) == *old(stderr))
            || (r == 1 && exists|m: Seq<char>| sent(*old(stderr), *final(stderr), line_bytes(write_failed_message(m))))),
        budget is None && old(stdout).fails_only_by_broken_pipe() ==> r == 0 && *final(stderr) == *old(stderr),
        budget is Some && old(stdout).accepts_all() && old(stderr).accepts_all() && lines_fit(input@, Seq::<u8>::empty())
            && everything_fits(&ApproximateCounter, lines_from_spec(input@), Seq::empty(), budget->0 as int) ==> r == 0
            && final(stdout).written() == old(stdout).written() + encode_utf8(concat_terminated(lines_from_spec(input@), "\n"@))
            && final(stderr).written() == old(stderr).written(),
        budget is Some && lines_fit(input@, Seq::<u8>::empty()) && budget->0 < minimum_budget(&ApproximateCounter)
            ==> r == 2 && *final(stdout) == *old(stdout) && sent(
            *old(stderr),
            *final(stderr),
            line_bytes(too_small_message(budget->0 as nat, minimum_budget(&ApproximateCounter) as nat)),
        ),
        budget is Some && old(stdout).accepts_all() && old(stderr).accepts_all() && lines_fit(input@, Seq::<u8>::empty())
            && budget->0 >= minimum_budget(&ApproximateCounter) ==> (r == 1 && *final(stdout) == *old(stdout) && sent(
            *old(stderr),
            *final(stderr),
            line_bytes(internal_error_message()),
        ) && only_mandatory_overflows(lines_from_spec(input@), Seq::empty(), budget->0 as int, &ApproximateCounter, classify))
            || (r == 0 && exists|out: BudgetedOutput|
            select_result_ok(out, lines_from_spec(input@), Seq::empty(), budget->0 as int, &ApproximateCounter, classify)
                && final(stdout).written() == old(stdout).written() + out.stdout@
                && final(stderr).written() == old(stderr).written() + out.stderr@),
{
    let empty: Vec<u8> = Vec::new();
    let written = match budget {
        None => write_output(stdout, &run(input)),
        Some(b) => write_budgeted(stdout, stderr, input, &empty, b, classify),
    };
    proof {
        reveal_with_fuel(crate::fastpath::lines_spec, 1);
    }
    assert(lines_from_spec(empty@) == Seq::<Seq<char>>::empty());
    assert(encode_utf8(concat_terminated(Seq::<Seq<char>>::empty(), "\n"@)) == Seq::<u8>::empty());
    finish_write(written, 0, stderr)
}

} // verus!
