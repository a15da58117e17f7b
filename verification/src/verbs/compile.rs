//! `stk compile [CMD [ARGS...]]`: the generic fast-path pipeline. Runs a command
//! (buffered, unlike `run`/`proxy`) or, given none, reads stdin instead. These are
//! deliberately alternatives, not combinable: when a command is given, `stk`'s own stdin
//! is not forwarded to it -- a command that itself wants piped stdin should use
//! `stk run`/`stk proxy` instead of `compile`.
use vstd::prelude::*;

use crate::budget::selector::{render_all, views};
use crate::budget::tokenizer::{ApproximateCounter, TokenCounter};
use crate::capture::executor::{CommandExecutor, ExecutionResult};
use crate::compression::{result_exit_code, write_failed_message, write_output, WriteOutcome};
use crate::fastpath::{decode_lossy, lines_from, lines_from_spec, run, run_spec, utf8_lossy};
use crate::history::{record_savings, EntryView, HistoryStore};
use crate::io::{line_bytes, sent, write_line, InputSource, OutputSink};
use crate::text::{chars_of, concat_terminated, extend_chars, push_str, string_of};
use crate::verbs::passthrough::{exec_error, exec_error_message};

verus! {

pub open spec fn read_failed_message(err: Seq<char>) -> Seq<char> {
    "stk: failed to read stdin: "@ + err
}

/// Reports a failed write other than a broken pipe; `true` when there was one.
fn report_failed<E: OutputSink>(outcome: Result<(), WriteOutcome>, stderr: &mut E) -> (failed: bool)
    requires
        !(outcome matches Err(WriteOutcome::AlreadyReported(_))),
    ensures
        failed == (outcome matches Err(WriteOutcome::Failed(_))),
        outcome matches Err(WriteOutcome::Failed(e)) ==> sent(*old(stderr), *final(stderr), line_bytes(write_failed_message(e@))),
        !failed ==> *final(stderr) == *old(stderr),
{
    match outcome {
        Err(WriteOutcome::Failed(err)) => {
            let mut msg: Vec<char> = Vec::new();
            push_str(&mut msg, "stk: failed to write output: ");
            push_str(&mut msg, err.as_str());
            let _ = write_line(stderr, &msg);
            true
        },
        _ => false,
    }
}

/// What `stk compile CMD` does once the command has run (or failed to start) with
/// `outcome`: both streams go through the fast path, and the exit code `r` is the child's
/// own unless writing failed for another reason than a broken pipe; `stdout`/`stderr` go
/// from `out0`/`err0` to `out1`/`err1`.
pub open spec fn compiled_run<O: OutputSink, E: OutputSink>(
    command: Seq<char>,
    outcome: Result<ExecutionResult, String>,
    out0: O,
    out1: O,
    err0: E,
    err1: E,
    r: i32,
) -> bool {
    &&& (outcome matches Err(e) ==> r == 1 && out1 == out0 && sent(err0, err1, line_bytes(exec_error_message(command, e@))))
    &&& (outcome matches Ok(res) ==> (out0.accepts_all() && err0.accepts_all() ==> r == result_exit_code(res)
        && out1.written() == out0.written() + run_spec(res.stdout@)
        && err1.written() == err0.written() + run_spec(res.stderr@)))
    &&& (outcome matches Ok(res) ==> (out0.fails_only_by_broken_pipe() && err0.fails_only_by_broken_pipe() ==> r
        == result_exit_code(res) && sent(out0, out1, run_spec(res.stdout@))))
    &&& (outcome matches Ok(res) ==> (r == result_exit_code(res) || r == 1))
}

/// The exit code of `stk compile CMD` once the command has run (or failed to start) with
/// `outcome` (see [`compiled_run`]).
pub fn finish_execution<O: OutputSink, E: OutputSink>(
    command: &str,
    outcome: Result<ExecutionResult, String>,
    stdout: &mut O,
    stderr: &mut E,
) -> (r: i32)
    ensures
        compiled_run(command@, outcome, *old(stdout), *final(stdout), *old(stderr), *final(stderr), r),
{
    match outcome {
        Ok(result) => {
            let written = write_output(stdout, &run(&result.stdout));
            if report_failed(written, stderr) {
                return 1;
            }
            let written = write_output(stderr, &run(&result.stderr));
            if report_failed(written, stderr) {
                return 1;
            }
            // A broken pipe on either stream above is a normal early pipeline shutdown
            // (e.g. `| head`), not a reason to hide the child's real outcome -- a script
            // checking $?/PIPESTATUS still needs the truth.
            result.exit_info().to_process_exit_code()
        },
        Err(err) => exec_error(command, err.as_str(), stderr),
    }
}

/// What `stk compile` with no command does once stdin has been read as `read`: the input
/// goes through the fast path to `stdout`; `r` is the exit code.
pub open spec fn compiled_input<O: OutputSink, E: OutputSink>(
    read: Result<Vec<u8>, String>,
    out0: O,
    out1: O,
    err0: E,
    err1: E,
    r: i32,
) -> bool {
    &&& (read matches Err(e) ==> r == 1 && out1 == out0 && sent(err0, err1, line_bytes(read_failed_message(e@))))
    &&& (read matches Ok(input) ==> (out0.accepts_all() ==> r == 0 && out1.written() == out0.written() + run_spec(input@)
        && err1 == err0))
    &&& (read matches Ok(input) ==> (out0.fails_only_by_broken_pipe() ==> r == 0 && sent(out0, out1, run_spec(input@))
        && err1 == err0))
    &&& (read is Ok ==> (r == 0 || r == 1))
}

/// The exit code of `stk compile` with no command once stdin has been read as `read` (see
/// [`compiled_input`]).
pub fn finish_input<O: OutputSink, E: OutputSink>(read: Result<Vec<u8>, String>, stdout: &mut O, stderr: &mut E) -> (r: i32)
    ensures
        compiled_input(read, *old(stdout), *final(stdout), *old(stderr), *final(stderr), r),
{
    match read {
        Ok(input) => {
            let written = write_output(stdout, &run(&input));
            if report_failed(written, stderr) {
                1
            } else {
                0
            }
        },
        Err(err) => {
            let mut msg: Vec<char> = Vec::new();
            push_str(&mut msg, "stk: failed to read stdin: ");
            push_str(&mut msg, err.as_str());
            let _ = write_line(stderr, &msg);
            1
        },
    }
}

/// The text `compile` counts as its input for raw streams `out` and `err`.
pub open spec fn raw_text(out: Seq<u8>, err: Seq<u8>) -> Seq<char> {
    utf8_lossy(out) + utf8_lossy(err)
}

/// The text `compile` counts as its output for raw streams `out` and `err`: what the fast
/// path renders of each.
pub open spec fn compiled_text(out: Seq<u8>, err: Seq<u8>) -> Seq<char> {
    concat_terminated(lines_from_spec(out), "\n"@) + concat_terminated(lines_from_spec(err), "\n"@)
}

/// `h1` is the history `h0` once `compile` has recorded its savings for running
/// `command` with `args` over raw streams `out`/`err`: the entry is added, or (for a store
/// that failed the write) nothing is; a store that never fails always gains it.
pub open spec fn savings_recorded<H: HistoryStore>(
    h0: H,
    h1: H,
    command: Seq<char>,
    args: Seq<Seq<char>>,
    out: Seq<u8>,
    err: Seq<u8>,
) -> bool {
    let added = h1.recorded().drop_last() == h0.recorded() && h1.recorded().len() == h0.recorded().len() + 1
        && compile_entry(h1.recorded().last(), command, args, out, err);
    &&& h1.recorded() == h0.recorded() || added
    &&& h0.keeps_record() && h0.always_succeeds() ==> added
}

/// `e` is the entry `compile` records for running `command` with `args` over raw streams
/// `out`/`err`, at whatever time and from no known directory.
pub open spec fn compile_entry(e: EntryView, command: Seq<char>, args: Seq<Seq<char>>, out: Seq<u8>, err: Seq<u8>) -> bool {
    &&& e.verb == "compile"@
    &&& e.command == command
    &&& e.args == args
    &&& e.input_tokens == Some(ApproximateCounter.spec_count(raw_text(out, err)) as usize)
    &&& e.output_tokens == Some(ApproximateCounter.spec_count(compiled_text(out, err)) as usize)
    &&& e.cwd is None
}

/// Records `compile`'s savings for running `command` with `args` over raw streams
/// `out`/`err` (see [`savings_recorded`]).
fn record_compile<H: HistoryStore>(history: &mut H, command: &str, args: &[String], out: &[u8], err: &[u8])
    ensures
        savings_recorded(*old(history), *final(history), command@, views(args@), out@, err@),
{
    let mut input = chars_of(decode_lossy(out).as_str());
    extend_chars(&mut input, &chars_of(decode_lossy(err).as_str()));
    let out_lines = lines_from(out);
    let err_lines = lines_from(err);
    assert(views(out_lines@) == out_lines.deep_view());
    assert(views(err_lines@) == err_lines.deep_view());
    let mut output = render_all(&out_lines);
    extend_chars(&mut output, &render_all(&err_lines));
    let input_s = string_of(&input);
    let output_s = string_of(&output);
    let ghost h0 = *history;
    proof {
        reveal_strlit("compile");
    }
    record_savings(history, &ApproximateCounter, "compile", command, args, input_s.as_str(), output_s.as_str(), None);
    proof {
        if history.recorded() != h0.recorded() {
            assert(history.recorded().drop_last() =~= h0.recorded());
        }
    }
}

/// What `stk compile` does given `args` (see [`compile_dispatched`]), with its savings
/// recorded against `history` (going from `h0` to `h1`) for the answer or input it got.
#[verifier::opaque]
pub open spec fn compile_recorded<S: InputSource, O: OutputSink, E: OutputSink, X: CommandExecutor, H: HistoryStore>(
    args: Seq<Seq<char>>,
    stdin: S,
    out0: O,
    out1: O,
    err0: E,
    err1: E,
    x0: X,
    x1: X,
    h0: H,
    h1: H,
    r: i32,
) -> bool {
    &&& (args.len() == 0 ==> x1.requested() == x0.requested() && exists|read: Result<Vec<u8>, String>|
        #[trigger] stdin.may_read(read) && compiled_input(read, out0, out1, err0, err1, r) && match read {
            Ok(input) => savings_recorded(h0, h1, Seq::empty(), Seq::empty(), input@, Seq::empty()),
            Err(_) => h1.recorded() == h0.recorded(),
        })
    &&& (args.len() > 0 ==> crate::capture::executor::asked(x0, x1, (args[0], args.skip(1))) && exists|
        outcome: Result<ExecutionResult, String>,
    | #[trigger] x0.may_answer((args[0], args.skip(1)), outcome) && compiled_run(args[0], outcome, out0, out1, err0, err1, r)
        && match outcome {
        Ok(res) => savings_recorded(h0, h1, args[0], args.skip(1), res.stdout@, res.stderr@),
        Err(_) => h1.recorded() == h0.recorded(),
    })
}

/// `stk compile`: with a command, runs it (its stdin not forwarded) and compiles its
/// output; with none, compiles stdin; either way its savings are recorded against
/// `history` (see [`compile_recorded`]).
#[verifier::rlimit(40)]
pub fn dispatch_and_record<S: InputSource, O: OutputSink, E: OutputSink, X: CommandExecutor, H: HistoryStore>(
    args: &[String],
    stdin: S,
    stdout: &mut O,
    stderr: &mut E,
    executor: &mut X,
    history: &mut H,
) -> (r: i32)
    ensures
        compile_recorded(
            views(args@),
            stdin,
            *old(stdout),
            *final(stdout),
            *old(stderr),
            *final(stderr),
            *old(executor),
            *final(executor),
            *old(history),
            *final(history),
            r,
        ),
{
    proof {
        reveal(compile_recorded);
    }
    let ghost source = stdin;
    let mut stdin = stdin;
    let ghost h0 = *history;
    if args.len() == 0 {
        let read = stdin.read_to_end();
        let ghost got = read;
        if let Ok(input) = &read {
            let empty: Vec<u8> = Vec::new();
            let none: Vec<String> = Vec::new();
            record_compile(history, "", &none, input, &empty);
            proof {
                assert(views(none@) =~= Seq::<Seq<char>>::empty());
                reveal_strlit("");
                assert(""@ =~= Seq::<char>::empty());
                assert(empty@ =~= Seq::<u8>::empty());
            }
        }
        let ghost h1 = *history;
        let ghost e0 = *stderr;
        let ghost o0 = *stdout;
        let r = finish_input(read, stdout, stderr);
        proof {
            assert(source.may_read(got));
            assert(compiled_input(got, o0, *stdout, e0, *stderr, r));
            assert(match got {
                Ok(input) => savings_recorded(h0, h1, Seq::empty(), Seq::empty(), input@, Seq::empty()),
                Err(_) => h1.recorded() == h0.recorded(),
            });
        }
        return r;
    }
    let command = args[0].as_str();
    let cmd_args = vstd::slice::slice_subrange(args, 1, args.len());
    assert(views(cmd_args@) == views(args@).skip(1));
    let ghost x0 = *executor;
    let outcome = executor.execute(command, cmd_args);
    let ghost got = outcome;
    if let Ok(result) = &outcome {
        record_compile(history, command, cmd_args, &result.stdout, &result.stderr);
    }
    proof {
        assert(match got {
            Ok(res) => savings_recorded(h0, *history, args@[0]@, views(args@).skip(1), res.stdout@, res.stderr@),
            Err(_) => history.recorded() == h0.recorded(),
        });
    }
    let r = finish_execution(command, outcome, stdout, stderr);
    assert(x0.may_answer((args@[0]@, views(args@).skip(1)), got));
    r
}

/// What `stk compile` does given `args`: with a command, asks `executor` (going from `x0`
/// to `x1`) to run it and ends as [`compiled_run`] says for some answer it may give; with
/// none, reads `stdin` and ends as [`compiled_input`] says for what it may read.
#[verifier::opaque]
pub open spec fn compile_dispatched<S: InputSource, O: OutputSink, E: OutputSink, X: CommandExecutor>(
    args: Seq<Seq<char>>,
    stdin: S,
    out0: O,
    out1: O,
    err0: E,
    err1: E,
    x0: X,
    x1: X,
    r: i32,
) -> bool {
    &&& (args.len() == 0 ==> x1.requested() == x0.requested() && exists|read: Result<Vec<u8>, String>|
        #[trigger] stdin.may_read(read) && compiled_input(read, out0, out1, err0, err1, r))
    &&& (args.len() > 0 ==> crate::capture::executor::asked(x0, x1, (args[0], args.skip(1))) && exists|
        outcome: Result<ExecutionResult, String>,
    | #[trigger] x0.may_answer((args[0], args.skip(1)), outcome) && compiled_run(args[0], outcome, out0, out1, err0, err1, r))
}

/// `stk compile`: with a command, runs it (its stdin not forwarded) and compiles its
/// output; with none, compiles stdin (see [`compile_dispatched`]). Nothing is recorded.
pub fn dispatch<S: InputSource, O: OutputSink, E: OutputSink, X: CommandExecutor>(
    args: &[String],
    stdin: S,
    stdout: &mut O,
    stderr: &mut E,
    executor: &mut X,
) -> (r: i32)
    ensures
        compile_dispatched(views(args@), stdin, *old(stdout), *final(stdout), *old(stderr), *final(stderr), *old(executor), *final(executor), r),
{
    let mut scratch = crate::history::FakeHistoryStore::new();
    let r = dispatch_and_record(args, stdin, stdout, stderr, executor, &mut scratch);
    proof {
        reveal(compile_recorded);
        reveal(compile_dispatched);
    }
    r
}

} // verus!
