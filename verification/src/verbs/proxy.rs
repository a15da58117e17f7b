//! `stk proxy [ARGS...]`: byte-identical passthrough like `run`, but silently records usage.
use vstd::prelude::*;

use crate::budget::selector::views;
use crate::capture::executor::{CommandExecutor, ExitInfo};
use crate::history::{EntryView, HistoryStore, UsageEntry};
use crate::io::{line_bytes, sent, OutputSink};
use crate::verbs::passthrough::{finish_inherited, no_command_error, no_command_message, passed_through};

verus! {

/// `e` is the usage entry `proxy` records for running `command` with `args`.
pub open spec fn proxy_entry(e: EntryView, command: Seq<char>, args: Seq<Seq<char>>) -> bool {
    &&& e.verb == "proxy"@
    &&& e.command == command
    &&& e.args == args
    &&& e.input_tokens is None
    &&& e.output_tokens is None
    &&& e.cwd is None
}

/// What `stk proxy` does given `args`: with no command, records and runs nothing and
/// exits 2; with one, records the invocation to `history` (going from `h0` to `h1`;
/// nothing when the store fails the write, always for one that never fails), then asks
/// `executor` (going from `x0` to `x1`) to run it and ends as [`passed_through`] says for
/// some answer it may give.
#[verifier::opaque]
pub open spec fn proxy_dispatched<E: OutputSink, X: CommandExecutor, H: HistoryStore>(
    args: Seq<Seq<char>>,
    err0: E,
    err1: E,
    x0: X,
    x1: X,
    h0: H,
    h1: H,
    r: i32,
) -> bool {
    &&& (args.len() == 0 ==> r == 2 && x1.requested() == x0.requested() && h1.recorded() == h0.recorded() && sent(
        err0,
        err1,
        line_bytes(no_command_message("proxy"@)),
    ))
    &&& (args.len() > 0 ==> crate::capture::executor::asked(x0, x1, (args[0], args.skip(1))) && exists|
        outcome: Result<ExitInfo, String>,
    | #[trigger] x0.may_answer_inherited((args[0], args.skip(1)), outcome) && passed_through(args[0], outcome, err0, err1, r))
    &&& (args.len() > 0 ==> h1.recorded() == h0.recorded() || (h1.recorded().drop_last() == h0.recorded()
        && h1.recorded().len() == h0.recorded().len() + 1 && proxy_entry(h1.recorded().last(), args[0], args.skip(1))))
    &&& (args.len() > 0 && h0.keeps_record() && h0.always_succeeds() ==> h1.recorded().drop_last() == h0.recorded()
        && h1.recorded().len() == h0.recorded().len() + 1 && proxy_entry(h1.recorded().last(), args[0], args.skip(1)))
}

/// `stk proxy`: records the invocation, then runs the command with its stdio inherited
/// and exits as it did. With no command it records and runs nothing and exits 2 (see
/// [`proxy_dispatched`]).
pub fn dispatch<E: OutputSink, X: CommandExecutor, H: HistoryStore>(
    args: &[String],
    stderr: &mut E,
    executor: &mut X,
    history: &mut H,
) -> (r: i32)
    ensures
        proxy_dispatched(views(args@), *old(stderr), *final(stderr), *old(executor), *final(executor), *old(history), *final(history), r),
{
    proof {
        reveal(proxy_dispatched);
    }
    if args.len() == 0 {
        return no_command_error("proxy", stderr);
    }
    let command = args[0].as_str();
    let cmd_args = vstd::slice::slice_subrange(args, 1, args.len());
    assert(views(cmd_args@) == views(args@).skip(1));
    // Recorded before executing so a crashed/killed child still leaves a usage trace, and
    // a failure here never blocks the passthrough itself (proxy is silent either way).
    let entry = UsageEntry::now("proxy", command, cmd_args);
    proof {
        reveal_strlit("proxy");
    }
    let ghost h0 = *history;
    let _ = history.record(&entry);
    proof {
        if history.recorded() != h0.recorded() {
            assert(history.recorded().drop_last() =~= h0.recorded());
        }
    }
    let ghost x0 = *executor;
    let outcome = executor.execute_inherited(command, cmd_args);
    let ghost got = outcome;
    let r = finish_inherited(command, outcome, stderr);
    assert(x0.may_answer_inherited((args@[0]@, views(args@).skip(1)), got));
    r
}

} // verus!
