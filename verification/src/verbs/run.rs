//! `stk run [ARGS...]` / `stk run -c COMMAND`: raw passthrough, no filtering, no tracking.
use vstd::prelude::*;

use crate::budget::selector::views;
use crate::capture::executor::{copy_strings, CommandExecutor, ExitInfo};
use crate::io::{line_bytes, sent, write_line, OutputSink};
use crate::text::{chars_of, eq_str, push_str};
use crate::verbs::passthrough::{finish_inherited, passed_through};

verus! {

/// What `run`'s arguments ask for: the command and its arguments, or a usage error.
/// `-c`/`--command` runs its one argument through `sh -c`; anything else is run directly,
/// never through a shell.
pub open spec fn parse_spec(args: Seq<Seq<char>>) -> Result<(Seq<char>, Seq<Seq<char>>), Seq<char>> {
    if args.len() == 0 {
        Err("run requires a command"@)
    } else if args[0] == "-c"@ || args[0] == "--command"@ {
        if args.len() >= 2 {
            Ok(("sh"@, seq!["-c"@, args[1]]))
        } else {
            Err("run -c requires a command string"@)
        }
    } else {
        Ok((args[0], args.skip(1)))
    }
}

/// Reads `run`'s arguments (see [`parse_spec`]).
pub fn parse(args: &[String]) -> (r: Result<(String, Vec<String>), &'static str>)
    ensures
        match r {
            Ok((c, a)) => parse_spec(views(args@)) == Ok::<(Seq<char>, Seq<Seq<char>>), Seq<char>>((c@, views(a@))),
            Err(m) => parse_spec(views(args@)) == Err::<(Seq<char>, Seq<Seq<char>>), Seq<char>>(m@),
        },
{
    proof {
        reveal_strlit("-c");
    }
    if args.len() == 0 {
        return Err("run requires a command");
    }
    let first = chars_of(args[0].as_str());
    if eq_str(&first, "-c") || eq_str(&first, "--command") {
        if args.len() >= 2 {
            let mut v: Vec<String> = Vec::new();
            v.push("-c".to_string());
            v.push(args[1].clone());
            assert(views(v@) == seq!["-c"@, args@[1]@]);
            Ok(("sh".to_string(), v))
        } else {
            Err("run -c requires a command string")
        }
    } else {
        let rest = copy_strings(vstd::slice::slice_subrange(args, 1, args.len()));
        assert(views(rest@) == views(args@).skip(1));
        Ok((args[0].clone(), rest))
    }
}

/// What `stk run` does given `args`: a usage error runs nothing and exits 2; otherwise
/// `executor` (going from `x0` to `x1`) is asked to run the command, and the verb ends as
/// [`passed_through`] says for some answer it may give.
#[verifier::opaque]
pub open spec fn run_dispatched<E: OutputSink, X: CommandExecutor>(args: Seq<Seq<char>>, err0: E, err1: E, x0: X, x1: X, r: i32) -> bool {
    &&& (parse_spec(args) matches Err(m) ==> r == 2 && x1.requested() == x0.requested() && sent(
        err0,
        err1,
        line_bytes("stk: "@ + m),
    ))
    &&& (parse_spec(args) is Ok ==> crate::capture::executor::asked(x0, x1, parse_spec(args)->Ok_0) && exists|
        outcome: Result<ExitInfo, String>,
    | #[trigger] x0.may_answer_inherited(parse_spec(args)->Ok_0, outcome) && passed_through(
        parse_spec(args)->Ok_0.0,
        outcome,
        err0,
        err1,
        r,
    ))
}

/// `stk run`: runs the command with its stdio inherited and exits as it did; a usage
/// error runs nothing and exits 2 (see [`run_dispatched`]).
pub fn dispatch<E: OutputSink, X: CommandExecutor>(args: &[String], stderr: &mut E, executor: &mut X) -> (r: i32)
    ensures
        run_dispatched(views(args@), *old(stderr), *final(stderr), *old(executor), *final(executor), r),
{
    proof {
        reveal(run_dispatched);
    }
    let (command, cmd_args) = match parse(args) {
        Ok(parsed) => parsed,
        Err(message) => {
            let mut msg: Vec<char> = Vec::new();
            push_str(&mut msg, "stk: ");
            push_str(&mut msg, message);
            let _ = write_line(stderr, &msg);
            return 2;
        },
    };
    let ghost x0 = *executor;
    let ghost e0 = *stderr;
    let outcome = executor.execute_inherited(command.as_str(), &cmd_args);
    let ghost got = outcome;
    let r = finish_inherited(command.as_str(), outcome, stderr);
    proof {
        let p = parse_spec(views(args@));
        assert(p->Ok_0 == (command@, views(cmd_args@)));
        assert(x0.may_answer_inherited(p->Ok_0, got));
        assert(passed_through(p->Ok_0.0, got, e0, *stderr, r));
    }
    r
}

} // verus!
