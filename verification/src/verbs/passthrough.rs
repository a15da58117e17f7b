//! Shared usage/exec-failure error reporting for the passthrough verbs (`run`/`proxy`),
//! which must report failures identically since they're otherwise byte-identical.
use vstd::prelude::*;

use crate::capture::executor::{process_exit_code, ExitInfo};
use crate::io::{line_bytes, sent, write_line, OutputSink};
use crate::text::push_str;

verus! {

/// The usage error of a passthrough verb given no command.
pub open spec fn no_command_message(verb: Seq<char>) -> Seq<char> {
    "stk: "@ + verb + " requires a command"@
}

/// The error reported when `command` could not be started, for the reason `err`.
pub open spec fn exec_error_message(command: Seq<char>, err: Seq<char>) -> Seq<char> {
    "stk: failed to run '"@ + command + "': "@ + err
}

/// Reports that `verb` was given no command; the usage-error exit code.
pub fn no_command_error<E: OutputSink>(verb: &str, stderr: &mut E) -> (r: i32)
    ensures
        r == 2,
        sent(*old(stderr), *final(stderr), line_bytes(no_command_message(verb@))),
{
    let mut msg: Vec<char> = Vec::new();
    push_str(&mut msg, "stk: ");
    push_str(&mut msg, verb);
    push_str(&mut msg, " requires a command");
    let _ = write_line(stderr, &msg);
    2
}

/// Reports that `command` could not be started; the failure exit code.
pub fn exec_error<E: OutputSink>(command: &str, err: &str, stderr: &mut E) -> (r: i32)
    ensures
        r == 1,
        sent(*old(stderr), *final(stderr), line_bytes(exec_error_message(command@, err@))),
{
    let mut msg: Vec<char> = Vec::new();
    push_str(&mut msg, "stk: failed to run '");
    push_str(&mut msg, command);
    push_str(&mut msg, "': ");
    push_str(&mut msg, err);
    let _ = write_line(stderr, &msg);
    1
}

/// What a passthrough verb does once `command` has run (or failed to start) with
/// `outcome`: the exit code `r` is the child's own (`128 + signal` for one killed by a
/// signal), or 1 with the failure reported as `stderr` goes from `err0` to `err1`.
pub open spec fn passed_through<E: OutputSink>(command: Seq<char>, outcome: Result<ExitInfo, String>, err0: E, err1: E, r: i32) -> bool {
    &&& (outcome matches Ok(info) ==> r == process_exit_code(info) && err1 == err0)
    &&& (outcome matches Err(e) ==> r == 1 && sent(err0, err1, line_bytes(exec_error_message(command, e@))))
}

/// The exit code of a passthrough verb once `command` has run (or failed to start) with
/// `outcome` (see [`passed_through`]).
pub fn finish_inherited<E: OutputSink>(command: &str, outcome: Result<ExitInfo, String>, stderr: &mut E) -> (r: i32)
    ensures
        passed_through(command@, outcome, *old(stderr), *final(stderr), r),
{
    match outcome {
        Ok(info) => info.to_process_exit_code(),
        Err(err) => exec_error(command, err.as_str(), stderr),
    }
}

} // verus!
