//! `stk log [FILE]`: filters/deduplicates log output (file or stdin), reusing the same
//! fast path/`Budget` pipeline `compile` uses for stdin -- `log` only adds an optional
//! file-path source.
use vstd::prelude::*;

use crate::budget::selector::minimum_budget;
use crate::budget::tokenizer::ApproximateCounter;
use crate::chunk::Classifier;
use crate::compression::{compress_stdin, lines_fit, too_small_message};
use crate::fastpath::run_spec;
use crate::io::{line_bytes, sent, write_line, OutputSink};
use crate::text::push_str;
use crate::verbs::diff::read_failed_message;

verus! {

/// The exit code of `stk log` once its input -- the file `source`, or stdin when there is
/// none -- has been read as `read`: the input goes through the fast path, or through the
/// Budget Selection Algorithm with a budget, to `stdout`.
pub fn finish<O: OutputSink, E: OutputSink>(
    source: Option<&str>,
    read: Result<Vec<u8>, String>,
    stdout: &mut O,
    stderr: &mut E,
    budget: Option<usize>,
) -> (r: i32)
    ensures
        read matches Err(e) ==> r == 1 && *final(stdout) == *old(stdout) && sent(
            *old(stderr),
            *final(stderr),
            line_bytes(read_failed_message(crate::verbs::init::opt_chars(source), e@)),
        ),
        read is Ok && budget is None && old(stdout).accepts_all() ==> r == 0 && final(stdout).written()
            == old(stdout).written() + run_spec(read->Ok_0@) && *final(stderr) == *old(stderr),
        read is Ok && budget is Some && lines_fit(read->Ok_0@, Seq::<u8>::empty()) && budget->0 < minimum_budget(
            &ApproximateCounter,
        ) ==> r == 2 && *final(stdout) == *old(stdout) && sent(
            *old(stderr),
            *final(stderr),
            line_bytes(too_small_message(budget->0 as nat, minimum_budget(&ApproximateCounter) as nat)),
        ),
        read is Ok && budget is Some && old(stdout).accepts_all() && old(stderr).accepts_all()
            && lines_fit(read->Ok_0@, Seq::<u8>::empty()) && budget->0 >= minimum_budget(&ApproximateCounter)
            ==> (r == 1 && *final(stdout) == *old(stdout) && sent(
            *old(stderr),
            *final(stderr),
            line_bytes(crate::compression::internal_error_message()),
        ) && crate::budget::selector::only_mandatory_overflows(
            crate::fastpath::lines_from_spec(read->Ok_0@),
            Seq::empty(),
            budget->0 as int,
            &ApproximateCounter,
            Classifier::Generic,
        )) || (r == 0 && exists|out: crate::budget::selector::BudgetedOutput|
            crate::budget::selector::select_result_ok(
                out,
                crate::fastpath::lines_from_spec(read->Ok_0@),
                Seq::empty(),
                budget->0 as int,
                &ApproximateCounter,
                Classifier::Generic,
            ) && final(stdout).written() == old(stdout).written() + out.stdout@
                && final(stderr).written() == old(stderr).written() + out.stderr@),
{
    let input = match read {
        Ok(input) => input,
        Err(err) => {
            let mut msg: Vec<char> = Vec::new();
            match source {
                Some(path) => {
                    push_str(&mut msg, "stk: failed to read '");
                    push_str(&mut msg, path);
                    push_str(&mut msg, "': ");
                },
                None => {
                    push_str(&mut msg, "stk: failed to read stdin: ");
                },
            }
            push_str(&mut msg, err.as_str());
            let _ = write_line(stderr, &msg);
            return 1;
        },
    };
    compress_stdin(&input, stdout, stderr, budget, Classifier::Generic)
}

} // verus!
