//! What running a child command gives back, and the executor abstraction the verbs run
//! commands through.
use vstd::prelude::*;

use crate::budget::selector::views;

verus! {

/// The outcome of running a child command to completion.
#[derive(Debug, Clone)]
pub struct ExecutionResult {
    pub exit_code: i32,
    /// Set instead of `exit_code` when the child was killed by a signal rather than exiting normally.
    pub terminating_signal: Option<i32>,
    pub stdout: Vec<u8>,
    pub stderr: Vec<u8>,
}

/// Like [`ExecutionResult`], but without captured output: used where output is inherited
/// directly rather than passing through our code.
#[derive(Debug, Clone, Copy, PartialEq, Eq, Structural)]
pub struct ExitInfo {
    pub exit_code: i32,
    pub terminating_signal: Option<i32>,
}

/// The exit code a process reports for a child that ended as `info` says: the shell's
/// `128 + signal` for a child killed by a signal, its own exit code otherwise.
pub open spec fn process_exit_code(info: ExitInfo) -> i32 {
    match info.terminating_signal {
        Some(signal) => signal.wrapping_add(128),
        None => info.exit_code,
    }
}

impl ExitInfo {
    /// The exit code to report for this outcome (see [`process_exit_code`]).
    pub fn to_process_exit_code(&self) -> (r: i32)
        ensures
            r == process_exit_code(*self),
    {
        match self.terminating_signal {
            Some(signal) => signal.wrapping_add(128),
            None => self.exit_code,
        }
    }
}

impl Default for ExitInfo {
    fn default() -> (r: ExitInfo)
        ensures
            r.exit_code == 0,
            r.terminating_signal is None,
    {
        ExitInfo { exit_code: 0, terminating_signal: None }
    }
}

impl ExecutionResult {
    pub open spec fn exit_info_spec(&self) -> ExitInfo {
        ExitInfo { exit_code: self.exit_code, terminating_signal: self.terminating_signal }
    }

    /// How the child ended, without its output.
    pub fn exit_info(&self) -> (r: ExitInfo)
        ensures
            r == self.exit_info_spec(),
    {
        ExitInfo { exit_code: self.exit_code, terminating_signal: self.terminating_signal }
    }

    /// A copy of this result.
    pub fn duplicate(&self) -> (r: ExecutionResult)
        ensures
            r.exit_code == self.exit_code,
            r.terminating_signal == self.terminating_signal,
            r.stdout@ == self.stdout@,
            r.stderr@ == self.stderr@,
    {
        ExecutionResult {
            exit_code: self.exit_code,
            terminating_signal: self.terminating_signal,
            stdout: self.stdout.clone(),
            stderr: self.stderr.clone(),
        }
    }
}

impl Default for ExecutionResult {
    fn default() -> (r: ExecutionResult)
        ensures
            r.exit_code == 0,
            r.terminating_signal is None,
            r.stdout@ == Seq::<u8>::empty(),
            r.stderr@ == Seq::<u8>::empty(),
    {
        ExecutionResult {
            exit_code: 0,
            terminating_signal: None,
            stdout: Vec::new(),
            stderr: Vec::new(),
        }
    }
}

/// One request to run a command: the command and its arguments.
pub type Invocation = (Seq<char>, Seq<Seq<char>>);

/// Abstracts child-process spawning so the CLI dispatch logic can be tested without
/// actually spawning real commands like `cargo` or `git`. An executor that keeps a log
/// (`keeps_log`) has in `requested` every command it has been asked to run, in order,
/// whether or not it could be started. One that keeps none (the real one, which the
/// library does not model) leaves both at their defaults: no log, and nothing in it.
pub trait CommandExecutor: Sized {
    open spec fn keeps_log(&self) -> bool {
        false
    }

    open spec fn requested(&self) -> Seq<Invocation> {
        Seq::empty()
    }

    /// `r` is an answer this executor may give to a request to run `inv`. An executor the
    /// library does not model leaves this at its default: any answer at all.
    open spec fn may_answer(&self, inv: Invocation, r: Result<ExecutionResult, String>) -> bool {
        true
    }

    /// Like `may_answer`, for a run with inherited stdio.
    open spec fn may_answer_inherited(&self, inv: Invocation, r: Result<ExitInfo, String>) -> bool {
        true
    }

    /// Runs `command` with `args` to completion, capturing its output; `Err` when it
    /// cannot be started.
    fn execute(&mut self, command: &str, args: &[String]) -> (r: Result<ExecutionResult, String>)
        ensures
            old(self).may_answer((command@, views(args@)), r),
            final(self).keeps_log() == old(self).keeps_log(),
            final(self).requested() == if old(self).keeps_log() {
                old(self).requested().push((command@, views(args@)))
            } else {
                old(self).requested()
            },
    ;

    /// Like `execute`, but streams the child's stdio live instead of buffering it. Used
    /// by `run`/`proxy`.
    fn execute_inherited(&mut self, command: &str, args: &[String]) -> (r: Result<ExitInfo, String>)
        ensures
            old(self).may_answer_inherited((command@, views(args@)), r),
            final(self).keeps_log() == old(self).keeps_log(),
            final(self).requested() == if old(self).keeps_log() {
                old(self).requested().push((command@, views(args@)))
            } else {
                old(self).requested()
            },
    ;
}

/// `after` is the executor `before` once asked to run `inv`: a log it keeps has `inv`
/// added at the end.
pub open spec fn asked<X: CommandExecutor>(before: X, after: X, inv: Invocation) -> bool {
    &&& after.keeps_log() == before.keeps_log()
    &&& after.requested() == if before.keeps_log() {
        before.requested().push(inv)
    } else {
        before.requested()
    }
}

/// Test double for [`CommandExecutor`]: records every invocation instead of spawning a
/// real child process, and returns a canned result for each one.
pub struct FakeExecutor {
    invocations: Vec<(String, Vec<String>)>,
    response: ExecutionResult,
    inherited_response: ExitInfo,
}

pub open spec fn invocation_view(inv: (String, Vec<String>)) -> Invocation {
    (inv.0@, views(inv.1@))
}

/// A copy of `args`.
pub fn copy_strings(args: &[String]) -> (r: Vec<String>)
    ensures
        r@ == args@,
{
    let mut out: Vec<String> = Vec::new();
    let mut i: usize = 0;
    while i < args.len()
        invariant
            i <= args.len(),
            out@ == args@.take(i as int),
        decreases args.len() - i,
    {
        out.push(args[i].clone());
        i += 1;
        assert(out@ == args@.take(i as int));
    }
    assert(args@.take(args.len() as int) == args@);
    out
}

impl FakeExecutor {
    /// The canned result each `execute` call returns.
    pub closed spec fn response_spec(&self) -> ExecutionResult {
        self.response
    }

    /// The canned result each `execute_inherited` call returns.
    pub closed spec fn inherited_response_spec(&self) -> ExitInfo {
        self.inherited_response
    }

    /// An executor that has run nothing and answers with a zero exit and no output.
    pub fn new() -> (r: FakeExecutor)
        ensures
            r.requested() == Seq::<Invocation>::empty(),
            r.response_spec().exit_code == 0,
            r.response_spec().terminating_signal is None,
            r.response_spec().stdout@ == Seq::<u8>::empty(),
            r.response_spec().stderr@ == Seq::<u8>::empty(),
            r.inherited_response_spec().exit_code == 0,
            r.inherited_response_spec().terminating_signal is None,
    {
        FakeExecutor {
            invocations: Vec::new(),
            response: ExecutionResult::default(),
            inherited_response: ExitInfo::default(),
        }
    }

    /// This executor, answering `execute` with `response` from now on.
    pub fn with_response(self, response: ExecutionResult) -> (r: FakeExecutor)
        ensures
            r.requested() == self.requested(),
            r.response_spec() == response,
            r.inherited_response_spec() == self.inherited_response_spec(),
    {
        FakeExecutor { response, ..self }
    }

    /// This executor, answering `execute_inherited` with `response` from now on.
    pub fn with_inherited_response(self, response: ExitInfo) -> (r: FakeExecutor)
        ensures
            r.requested() == self.requested(),
            r.response_spec() == self.response_spec(),
            r.inherited_response_spec() == response,
    {
        FakeExecutor { inherited_response: response, ..self }
    }

    /// Every command this executor was asked to run, oldest first.
    pub fn invocations(&self) -> (r: Vec<(String, Vec<String>)>)
        ensures
            r@.map_values(|inv: (String, Vec<String>)| invocation_view(inv)) == self.requested(),
    {
        let mut out: Vec<(String, Vec<String>)> = Vec::new();
        let mut i: usize = 0;
        while i < self.invocations.len()
            invariant
                i <= self.invocations.len(),
                out@.map_values(|inv: (String, Vec<String>)| invocation_view(inv))
                    == self.invocations@.take(i as int).map_values(|inv: (String, Vec<String>)| invocation_view(inv)),
            decreases self.invocations.len() - i,
        {
            let ghost before = out@.map_values(|inv: (String, Vec<String>)| invocation_view(inv));
            let command = self.invocations[i].0.clone();
            let args = copy_strings(&self.invocations[i].1);
            let item = (command, args);
            assert(invocation_view(item) == invocation_view(self.invocations@[i as int]));
            out.push(item);
            assert(out@.map_values(|inv: (String, Vec<String>)| invocation_view(inv)) == before.push(invocation_view(item)));
            assert(self.invocations@.take(i + 1) == self.invocations@.take(i as int).push(self.invocations@[i as int]));
            i += 1;
        }
        assert(self.invocations@.take(self.invocations.len() as int) == self.invocations@);
        out
    }

    fn note(&mut self, command: &str, args: &[String])
        ensures
            final(self).requested() == old(self).requested().push((command@, views(args@))),
            final(self).response_spec() == old(self).response_spec(),
            final(self).inherited_response_spec() == old(self).inherited_response_spec(),
    {
        let item = (command.to_string(), copy_strings(args));
        let ghost before = self.invocations@;
        self.invocations.push(item);
        assert(self.invocations@.map_values(|inv: (String, Vec<String>)| invocation_view(inv))
            == before.map_values(|inv: (String, Vec<String>)| invocation_view(inv)).push(invocation_view(item)));
    }
}

impl CommandExecutor for FakeExecutor {
    open spec fn keeps_log(&self) -> bool {
        true
    }

    closed spec fn requested(&self) -> Seq<Invocation> {
        self.invocations@.map_values(|inv: (String, Vec<String>)| invocation_view(inv))
    }

    /// Every request is answered with the canned result.
    open spec fn may_answer(&self, inv: Invocation, r: Result<ExecutionResult, String>) -> bool {
        r matches Ok(res) && res.exit_code == self.response_spec().exit_code
            && res.terminating_signal == self.response_spec().terminating_signal
            && res.stdout@ == self.response_spec().stdout@ && res.stderr@ == self.response_spec().stderr@
    }

    /// Every request is answered with the canned exit.
    open spec fn may_answer_inherited(&self, inv: Invocation, r: Result<ExitInfo, String>) -> bool {
        r == Ok::<ExitInfo, String>(self.inherited_response_spec())
    }

    fn execute(&mut self, command: &str, args: &[String]) -> (r: Result<ExecutionResult, String>)
        ensures
            r matches Ok(res) && res.exit_code == old(self).response_spec().exit_code
                && res.terminating_signal == old(self).response_spec().terminating_signal
                && res.stdout@ == old(self).response_spec().stdout@
                && res.stderr@ == old(self).response_spec().stderr@,
            final(self).response_spec() == old(self).response_spec(),
            final(self).inherited_response_spec() == old(self).inherited_response_spec(),
    {
        self.note(command, args);
        Ok(self.response.duplicate())
    }

    fn execute_inherited(&mut self, command: &str, args: &[String]) -> (r: Result<ExitInfo, String>)
        ensures
            r == Ok::<ExitInfo, String>(old(self).inherited_response_spec()),
            final(self).response_spec() == old(self).response_spec(),
            final(self).inherited_response_spec() == old(self).inherited_response_spec(),
    {
        self.note(command, args);
        Ok(self.inherited_response)
    }
}

/// A fake executor asked one request after another keeps every request, in call order,
/// and answers each with what it was set up with: `fakes[i]` is the executor after the
/// first `i` calls, each `execute`/`execute_inherited` noting its request and leaving the
/// canned answers as they were (as their contracts say); then the last one's
/// `invocations()` are `reqs`, and its canned answers are still the first one's.
pub proof fn lemma_fake_executor_logs_every_request(fakes: Seq<FakeExecutor>, reqs: Seq<Invocation>)
    requires
        fakes.len() == reqs.len() + 1,
        fakes[0].requested() == Seq::<Invocation>::empty(),
        forall|i: int|
            0 <= i < reqs.len() ==> #[trigger] fakes[i + 1].requested() == fakes[i].requested().push(reqs[i])
                && fakes[i + 1].response_spec() == fakes[i].response_spec() && fakes[i + 1].inherited_response_spec()
                == fakes[i].inherited_response_spec(),
    ensures
        forall|i: int|
            0 <= i < fakes.len() ==> #[trigger] fakes[i].requested() == reqs.take(i) && fakes[i].response_spec()
                == fakes[0].response_spec() && fakes[i].inherited_response_spec() == fakes[0].inherited_response_spec(),
        fakes.last().requested() == reqs,
    decreases reqs.len(),
{
    if reqs.len() > 0 {
        let n = reqs.len() - 1;
        lemma_fake_executor_logs_every_request(fakes.drop_last(), reqs.drop_last());
        assert forall|i: int| 0 <= i < fakes.len() implies #[trigger] fakes[i].requested() == reqs.take(i)
            && fakes[i].response_spec() == fakes[0].response_spec() && fakes[i].inherited_response_spec()
            == fakes[0].inherited_response_spec() by {
            if i < fakes.len() - 1 {
                assert(fakes.drop_last()[i] == fakes[i]);
                assert(reqs.drop_last().take(i) == reqs.take(i));
            } else {
                assert(fakes.drop_last()[n] == fakes[n]);
                assert(fakes.drop_last()[0] == fakes[0]);
                assert(reqs.drop_last().take(n) == reqs.take(n));
                assert(reqs.take(n).push(reqs[n]) == reqs.take(n + 1));
            }
        }
        assert(reqs.take(reqs.len() as int) == reqs);
    } else {
        assert(reqs.take(0) == reqs);
    }
}

} // verus!
