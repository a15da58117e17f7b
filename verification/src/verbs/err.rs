//! `stk err <CMD> [ARGS...]`: runs a command and shows only its errors/warnings -- a hard
//! filter (matching real `rtk err`), not `compile`'s soft priority-based packing.
use vstd::prelude::*;

use crate::budget::selector::views;
use crate::budget::tokenizer::ApproximateCounter;
use crate::capture::executor::{CommandExecutor, ExecutionResult};
use crate::chunk::ChunkKind;
use crate::compression::{result_exit_code, write_output, WriteOutcome};
use crate::fastpath::{lines_from, lines_from_spec};
use crate::io::{line_bytes, sent, write_line, OutputSink};
use crate::scoring::relevance::{classify, classify_spec};
use crate::text::{chars_of, push_str};
use crate::verbs::filesystem_budget::{budgeted_text, budget_too_small_message, render_optionally_budgeted};
use crate::verbs::passthrough::{exec_error, exec_error_message, no_command_error, no_command_message};

verus! {

/// Both streams' cleaned-up lines, stdout's first.
pub open spec fn output_lines(res: ExecutionResult) -> Seq<Seq<char>> {
    lines_from_spec(res.stdout@) + lines_from_spec(res.stderr@)
}

/// The line is classified an error or a warning.
pub open spec fn is_problem(line: Seq<char>) -> bool {
    classify_spec(line).0 == ChunkKind::Error || classify_spec(line).0 == ChunkKind::Warning
}

/// The lines of `lines` that are errors or warnings, in order.
pub open spec fn problem_lines(lines: Seq<Seq<char>>) -> Seq<Seq<char>>
    decreases lines.len(),
{
    if lines.len() == 0 {
        Seq::empty()
    } else if is_problem(lines.last()) {
        problem_lines(lines.drop_last()).push(lines.last())
    } else {
        problem_lines(lines.drop_last())
    }
}

/// Both streams' cleaned-up lines as one list, stdout's first.
pub fn all_lines(res: &ExecutionResult) -> (r: Vec<String>)
    ensures
        views(r@) == output_lines(*res),
{
    let mut lines = lines_from(&res.stdout);
    let more = lines_from(&res.stderr);
    let ghost a = views(lines@);
    assert(a == lines.deep_view());
    assert(views(more@) == more.deep_view());
    let mut i: usize = 0;
    while i < more.len()
        invariant
            i <= more.len(),
            views(lines@) == a + views(more@).take(i as int),
        decreases more.len() - i,
    {
        let ghost before = views(lines@);
        let l = more[i].clone();
        lines.push(l);
        assert(views(lines@) == before.push(l@));
        assert(views(more@).take(i + 1) == views(more@).take(i as int).push(more@[i as int]@));
        i += 1;
    }
    assert(views(more@).take(more.len() as int) == views(more@));
    lines
}

fn keep_problems(lines: &Vec<String>) -> (r: Vec<String>)
    ensures
        views(r@) == problem_lines(views(lines@)),
{
    let ghost ls = views(lines@);
    let mut out: Vec<String> = Vec::new();
    let mut i: usize = 0;
    while i < lines.len()
        invariant
            i <= lines.len(),
            ls == views(lines@),
            views(out@) == problem_lines(ls.take(i as int)),
        decreases lines.len() - i,
    {
        let (kind, _) = classify(lines[i].as_str());
        let keep = match kind {
            ChunkKind::Error => true,
            ChunkKind::Warning => true,
            _ => false,
        };
        proof {
            let t = ls.take(i + 1);
            assert(t.drop_last() == ls.take(i as int));
            assert(t.last() == lines@[i as int]@);
            assert(keep == is_problem(t.last()));
            assert(problem_lines(t) == if keep {
                problem_lines(t.drop_last()).push(t.last())
            } else {
                problem_lines(t.drop_last())
            });
        }
        if keep {
            let ghost before = views(out@);
            let l = lines[i].clone();
            out.push(l);
            assert(views(out@) == before.push(l@));
        }
        i += 1;
    }
    assert(ls.take(lines.len() as int) == ls);
    out
}

/// What `stk err` does once the command has run (or failed to start) with `outcome`:
/// `r` is its exit code, and `stdout`/`stderr` go from `out0`/`err0` to `out1`/`err1`.
pub open spec fn problems_reported<O: OutputSink, E: OutputSink>(
    command: Seq<char>,
    outcome: Result<ExecutionResult, String>,
    out0: O,
    out1: O,
    err0: E,
    err1: E,
    budget: Option<usize>,
    r: i32,
) -> bool {
    &&& (outcome matches Err(e) ==> r == 1 && out1 == out0 && sent(err0, err1, line_bytes(exec_error_message(command, e@))))
    &&& (outcome is Ok && out0.accepts_all() ==> match budgeted_text(&ApproximateCounter, problem_lines(output_lines(outcome->Ok_0)), budget) {
        Ok(t) => r == result_exit_code(outcome->Ok_0) && out1.written() == out0.written() + vstd::utf8::encode_utf8(t)
            && err1 == err0,
        Err(m) => r == 2 && out1 == out0 && sent(
            err0,
            err1,
            line_bytes(budget_too_small_message(budget->0 as nat, "any errors/warnings"@, m)),
        ),
    })
}

/// The exit code of `stk err` once the command has run (or failed to start) with
/// `outcome`: the errors and warnings among its output lines, budgeted if asked, go to
/// `stdout`, and the child's own exit code is kept.
pub fn finish<O: OutputSink, E: OutputSink>(
    command: &str,
    outcome: Result<ExecutionResult, String>,
    stdout: &mut O,
    stderr: &mut E,
    budget: Option<usize>,
) -> (r: i32)
    ensures
        problems_reported(command@, outcome, *old(stdout), *final(stdout), *old(stderr), *final(stderr), budget, r),
{
    let result = match outcome {
        Ok(result) => result,
        Err(err) => return exec_error(command, err.as_str(), stderr),
    };
    let lines = all_lines(&result);
    let filtered = keep_problems(&lines);
    let rendered = match render_optionally_budgeted(
        &filtered,
        budget,
        &ApproximateCounter,
        "any errors/warnings",
        stderr,
    ) {
        Ok(rendered) => rendered,
        Err(code) => return code,
    };
    let code = result.exit_info().to_process_exit_code();
    match write_output(stdout, rendered.as_str().as_bytes()) {
        Ok(()) => code,
        Err(WriteOutcome::BrokenPipe) => code,
        Err(WriteOutcome::Failed(err)) => {
            let mut msg = chars_of("stk: failed to write output: ");
            push_str(&mut msg, err.as_str());
            let _ = write_line(stderr, &msg);
            1
        },
        Err(WriteOutcome::AlreadyReported(code)) => code,
    }
}

/// What `stk err` does given `args`: with no command, runs nothing and exits 2; with
/// one, asks `executor` (going from `x0` to `x1`) to run it and ends as [`problems_reported`] says
/// for some answer it may give.
#[verifier::opaque]
pub open spec fn err_dispatched<O: OutputSink, E: OutputSink, X: CommandExecutor>(
    args: Seq<Seq<char>>,
    out0: O,
    out1: O,
    err0: E,
    err1: E,
    x0: X,
    x1: X,
    budget: Option<usize>,
    r: i32,
) -> bool {
    &&& (args.len() == 0 ==> r == 2 && x1.requested() == x0.requested() && out1 == out0 && sent(
        err0,
        err1,
        line_bytes(no_command_message("err"@)),
    ))
    &&& (args.len() > 0 ==> crate::capture::executor::asked(x0, x1, (args[0], args.skip(1))) && exists|
        outcome: Result<ExecutionResult, String>,
    | #[trigger] x0.may_answer((args[0], args.skip(1)), outcome) && problems_reported(args[0], outcome, out0, out1, err0, err1, budget, r))
}

/// `stk err`: runs the command and reports as [`finish`] says; with no command it runs
/// nothing and exits 2 (see [`err_dispatched`]).
pub fn dispatch<O: OutputSink, E: OutputSink, X: CommandExecutor>(
    args: &[String],
    stdout: &mut O,
    stderr: &mut E,
    executor: &mut X,
    budget: Option<usize>,
) -> (r: i32)
    ensures
        err_dispatched(views(args@), *old(stdout), *final(stdout), *old(stderr), *final(stderr), *old(executor), *final(executor), budget, r),
{
    proof {
        reveal(err_dispatched);
    }
    if args.len() == 0 {
        return no_command_error("err", stderr);
    }
    let command = args[0].as_str();
    let cmd_args = vstd::slice::slice_subrange(args, 1, args.len());
    assert(views(cmd_args@) == views(args@).skip(1));
    let ghost x0 = *executor;
    let outcome = executor.execute(command, cmd_args);
    let ghost got = outcome;
    let r = finish(command, outcome, stdout, stderr, budget);
    assert(x0.may_answer((args@[0]@, views(args@).skip(1)), got));
    r
}

} // verus!
