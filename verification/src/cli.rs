//! The entry point every `stk` invocation goes through.
use vstd::prelude::*;

use crate::budget::selector::views;
use crate::capture::executor::CommandExecutor;
use crate::history::HistoryStore;
use crate::io::{line_bytes, sent, write_line, InputSource, OutputSink};
use crate::text::{chars_of, eq_str, push_str};
use crate::verbs;

verus! {

pub open spec fn unsupported_message(command: Seq<char>) -> Seq<char> {
    "stk: unsupported command '"@ + command + "' (no built-in verb or specialist is registered for it)"@
}

pub open spec fn no_command_message() -> Seq<char> {
    "stk: no command given (try 'stk --help')"@
}

/// Whether `c` names a verb `run` dispatches.
pub open spec fn routed(c: Seq<char>) -> bool {
    c == "run"@ || c == "proxy"@ || c == "pipe"@ || c == "compile"@ || c == "err"@ || c == "summary"@
}

/// Whether `c` names a verb that runs a command through the executor.
pub open spec fn runs_commands(c: Seq<char>) -> bool {
    c == "run"@ || c == "proxy"@ || c == "compile"@ || c == "err"@ || c == "summary"@
}

/// Runs the verb `args[0]` names with the rest of `args`: `run`, `proxy`, `pipe`,
/// `compile` (which records its savings), `err` and `summary`; anything else (a
/// specialist's name such as `cargo` among them: none is registered here), or nothing, is
/// a usage error (exit 2) that writes nothing to `stdout` and runs and records nothing.
/// Writes to `stdout`/`stderr` as output becomes available rather than returning it.
pub fn run<S: InputSource, O: OutputSink, E: OutputSink, X: CommandExecutor, H: HistoryStore>(
    args: &[String],
    stdin: S,
    stdout: &mut O,
    stderr: &mut E,
    executor: &mut X,
    history: &mut H,
) -> (r: i32)
    ensures
        args.len() == 0 ==> r == 2 && *final(stdout) == *old(stdout)
            && sent(*old(stderr), *final(stderr), line_bytes(no_command_message())),
        args.len() > 0 && !routed(args@[0]@) ==> r == 2 && *final(stdout) == *old(stdout)
            && sent(*old(stderr), *final(stderr), line_bytes(unsupported_message(args@[0]@))),
        !(args.len() > 0 && runs_commands(args@[0]@)) ==> final(executor).requested()
            == old(executor).requested(),
        !(args.len() > 0 && (args@[0]@ == "proxy"@ || args@[0]@ == "compile"@ || args@[0]@ == "summary"@)) ==> final(history).recorded()
            == old(history).recorded(),
        args.len() > 0 && args@[0]@ == "run"@ ==> *final(stdout) == *old(stdout) && verbs::run::run_dispatched(
            views(args@).skip(1),
            *old(stderr),
            *final(stderr),
            *old(executor),
            *final(executor),
            r,
        ),
        args.len() > 0 && args@[0]@ == "proxy"@ ==> *final(stdout) == *old(stdout) && verbs::proxy::proxy_dispatched(
            views(args@).skip(1),
            *old(stderr),
            *final(stderr),
            *old(executor),
            *final(executor),
            *old(history),
            *final(history),
            r,
        ),
        args.len() > 0 && args@[0]@ == "pipe"@ ==> verbs::pipe::pipe_dispatched(
            views(args@).skip(1),
            stdin,
            *old(stdout),
            *final(stdout),
            *old(stderr),
            *final(stderr),
            r,
        ),
        args.len() > 0 && args@[0]@ == "compile"@ ==> verbs::compile::compile_recorded(
            views(args@).skip(1),
            stdin,
            *old(stdout),
            *final(stdout),
            *old(stderr),
            *final(stderr),
            *old(executor),
            *final(executor),
            *old(history),
            *final(history),
            r,
        ),
        args.len() > 0 && args@[0]@ == "err"@ ==> verbs::err::err_dispatched(
            views(args@).skip(1),
            *old(stdout),
            *final(stdout),
            *old(stderr),
            *final(stderr),
            *old(executor),
            *final(executor),
            None,
            r,
        ),
        args.len() > 0 && args@[0]@ == "summary"@ ==> verbs::summary::summary_run_recorded(
            views(args@).skip(1),
            *old(stdout),
            *final(stdout),
            *old(stderr),
            *final(stderr),
            *old(executor),
            *final(executor),
            *old(history),
            *final(history),
            r,
        ),
{
    if args.len() == 0 {
        let _ = write_line(stderr, &chars_of("stk: no command given (try 'stk --help')"));
        return 2;
    }
    proof {
        reveal_strlit("run");
        reveal_strlit("proxy");
        reveal_strlit("pipe");
        reveal_strlit("compile");
        reveal_strlit("err");
        reveal_strlit("summary");
        assert("run"@[0] != "proxy"@[0]);
        assert("pipe"@[1] != "proxy"@[1]);
        assert("run"@[0] != "pipe"@[0]);
        assert("run"@[0] != "err"@[0] && "proxy"@[0] != "err"@[0] && "pipe"@[0] != "err"@[0] && "compile"@[0] != "err"@[0]);
        assert("run"@[0] != "summary"@[0] && "proxy"@[0] != "summary"@[0] && "pipe"@[0] != "summary"@[0]
            && "compile"@[0] != "summary"@[0] && "err"@[0] != "summary"@[0]);
    }
    let command = chars_of(args[0].as_str());
    let rest = vstd::slice::slice_subrange(args, 1, args.len());
    assert(views(rest@) == views(args@).skip(1));
    if eq_str(&command, "run") {
        assert(args@[0]@ != "proxy"@);
        verbs::run::dispatch(rest, stderr, executor)
    } else if eq_str(&command, "proxy") {
        verbs::proxy::dispatch(rest, stderr, executor, history)
    } else if eq_str(&command, "pipe") {
        assert(args@[0]@ != "proxy"@);
        verbs::pipe::dispatch(rest, stdin, stdout, stderr)
    } else if eq_str(&command, "compile") {
        verbs::compile::dispatch_and_record(rest, stdin, stdout, stderr, executor, history)
    } else if eq_str(&command, "err") {
        verbs::err::dispatch(rest, stdout, stderr, executor, None)
    } else if eq_str(&command, "summary") {
        verbs::summary::dispatch_and_record(rest, stdout, stderr, executor, history)
    } else {
        let mut msg = chars_of("stk: unsupported command '");
        crate::text::extend_chars(&mut msg, &command);
        push_str(&mut msg, "' (no built-in verb or specialist is registered for it)");
        let _ = write_line(stderr, &msg);
        2
    }
}

} // verus!
