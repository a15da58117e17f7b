//! `stk bench --against rtk`: runs the golden comparisons for every aliased verb as one
//! command, reporting pass/fail/skip per case and exiting nonzero if anything regressed --
//! usable as a CI gate, not just a developer's local check. Running the cases themselves
//! (spawning `rtk` and `stk` on fixtures) is the caller's; the arguments, each case's
//! verdict, the report and the exit code are here ([`dispatch`], [`bench_report`]).
use vstd::prelude::*;

use crate::budget::selector::views;
use crate::io::{line_bytes, sent, write_line, OutputSink};
use crate::config::settings::{signed_decimal, signed_decimal_chars};
use crate::text::{
    decimal, chars_of, contains, contains_exec, contains_str, eq_str, extend_chars, join, join_chars_with, push_decimal,
    push_str, string_of,
};

verus! {

/// The `rtk` version every golden comparison was last verified against. A different
/// version doesn't fail the run -- it's flagged so a maintainer knows to re-verify before
/// trusting a `PASS`.
pub const PINNED_RTK_VERSION: &'static str = "0.42.4";

pub open spec fn pinned_version() -> Seq<char> {
    "0.42.4"@
}

fn pinned() -> (r: &'static str)
    ensures
        r@ == pinned_version(),
{
    "0.42.4"
}

/// How one golden comparison went.
pub enum CaseOutcome {
    Pass,
    Fail(String),
    /// Not a failure of `stk` -- the real `rtk` itself didn't exhibit the behavior being
    /// checked (e.g. a fixture directory is missing), so there's nothing to compare against.
    Skipped(String),
}

/// The report line for the detected `rtk` version.
pub open spec fn version_line_spec(detected: Option<Seq<char>>) -> Seq<char> {
    match detected {
        Some(v) => if v == pinned_version() {
            "rtk version: "@ + v + " (matches pinned "@ + pinned_version() + ")"@
        } else {
            "rtk version: "@ + v + " (WARNING: golden comparisons were last verified against "@ + pinned_version()
                + " -- re-verify before trusting a PASS)"@
        },
        None => "rtk version: unknown (`rtk --version` failed)"@,
    }
}

pub fn version_report_line(detected: Option<&str>) -> (r: String)
    ensures
        r@ == version_line_spec(crate::verbs::init::opt_chars(detected)),
{
    match detected {
        Some(version) => {
            let v = chars_of(version);
            let mut out = chars_of("rtk version: ");
            push_str(&mut out, version);
            if eq_str(&v, pinned()) {
                push_str(&mut out, " (matches pinned ");
                push_str(&mut out, pinned());
                push_str(&mut out, ")");
            } else {
                push_str(&mut out, " (WARNING: golden comparisons were last verified against ");
                push_str(&mut out, pinned());
                push_str(&mut out, " -- re-verify before trusting a PASS)");
            }
            string_of(&out)
        },
        None => "rtk version: unknown (`rtk --version` failed)".to_string(),
    }
}

pub open spec fn is_bench_request(args: Seq<Seq<char>>) -> bool {
    args == seq!["--against"@, "rtk"@]
}

pub open spec fn usage_message() -> Seq<char> {
    "stk: bench: usage: stk bench --against rtk"@
}

pub open spec fn not_installed_message() -> Seq<char> {
    "rtk is not installed in this environment; nothing to bench against."@
}

/// The content of a `CaseOutcome`, as plain values.
pub enum OutcomeView {
    Pass,
    Fail(Seq<char>),
    Skipped(Seq<char>),
}

impl View for CaseOutcome {
    type V = OutcomeView;

    open spec fn view(&self) -> OutcomeView {
        match self {
            CaseOutcome::Pass => OutcomeView::Pass,
            CaseOutcome::Fail(d) => OutcomeView::Fail(d@),
            CaseOutcome::Skipped(d) => OutcomeView::Skipped(d@),
        }
    }
}

/// A case's line in the report.
pub open spec fn case_line(name: Seq<char>, o: OutcomeView) -> Seq<char> {
    match o {
        OutcomeView::Pass => "[PASS] "@ + name,
        OutcomeView::Fail(d) => "[FAIL] "@ + name + ": "@ + d,
        OutcomeView::Skipped(d) => "[SKIP] "@ + name + ": "@ + d,
    }
}

/// The report's lines for the cases `names` with outcomes `outs`, in order, each ended by a
/// line break.
pub open spec fn case_text(names: Seq<Seq<char>>, outs: Seq<OutcomeView>) -> Seq<char>
    decreases outs.len(),
{
    if outs.len() == 0 || names.len() != outs.len() {
        Seq::empty()
    } else {
        case_text(names.drop_last(), outs.drop_last()) + case_line(names.last(), outs.last()) + "\n"@
    }
}

pub open spec fn passes(outs: Seq<OutcomeView>) -> nat
    decreases outs.len(),
{
    if outs.len() == 0 { 0 } else { passes(outs.drop_last()) + if outs.last() is Pass { 1nat } else { 0nat } }
}

pub open spec fn failures(outs: Seq<OutcomeView>) -> nat
    decreases outs.len(),
{
    if outs.len() == 0 { 0 } else { failures(outs.drop_last()) + if outs.last() is Fail { 1nat } else { 0nat } }
}

pub open spec fn skips(outs: Seq<OutcomeView>) -> nat
    decreases outs.len(),
{
    if outs.len() == 0 { 0 } else { skips(outs.drop_last()) + if outs.last() is Skipped { 1nat } else { 0nat } }
}

/// The report's closing line, after a blank one.
pub open spec fn summary_line(outs: Seq<OutcomeView>) -> Seq<char> {
    "\n"@ + decimal(passes(outs)) + " passed, "@ + decimal(failures(outs)) + " failed, "@ + decimal(skips(outs))
        + " skipped"@
}

pub open spec fn prepare_failed_message(err: Seq<char>) -> Seq<char> {
    "stk: bench: could not determine stk's own executable path: "@ + err
}

/// Where `stk bench` goes from its arguments.
pub enum BenchStep {
    /// The request is `--against rtk`: the cases go ahead, and [`bench_report`] reports them.
    Run,
    /// Answered already, with this exit code.
    Done(i32),
}

/// `stk bench`'s arguments: anything but `--against rtk` is a usage error (exit 2, nothing
/// run); `--against rtk` goes on to the cases, with nothing written yet.
pub fn dispatch<O: OutputSink, E: OutputSink>(args: &[String], stdout: &mut O, stderr: &mut E) -> (r: BenchStep)
    ensures
        is_bench_request(views(args@)) ==> r is Run && *final(stdout) == *old(stdout) && *final(stderr) == *old(stderr),
        !is_bench_request(views(args@)) ==> (r matches BenchStep::Done(2)) && *final(stdout) == *old(stdout) && sent(
            *old(stderr),
            *final(stderr),
            line_bytes(usage_message()),
        ),
{
    let ok = args.len() == 2 && eq_str(&chars_of(args[0].as_str()), "--against") && eq_str(
        &chars_of(args[1].as_str()),
        "rtk",
    );
    proof {
        if ok {
            assert(views(args@) =~= seq!["--against"@, "rtk"@]);
        }
        if views(args@) == seq!["--against"@, "rtk"@] {
            assert(views(args@).len() == 2);
            assert(args@[0]@ == views(args@)[0]);
            assert(args@[1]@ == views(args@)[1]);
        }
    }
    if !ok {
        let _ = write_line(stderr, &chars_of("stk: bench: usage: stk bench --against rtk"));
        return BenchStep::Done(2);
    }
    BenchStep::Run
}

/// The names of the cases run, in order.
pub open spec fn result_names(results: Seq<(String, CaseOutcome)>) -> Seq<Seq<char>> {
    results.map_values(|p: (String, CaseOutcome)| p.0@)
}

/// The outcomes of the cases run, in order.
pub open spec fn result_outcomes(results: Seq<(String, CaseOutcome)>) -> Seq<OutcomeView> {
    results.map_values(|p: (String, CaseOutcome)| p.1@)
}

/// What `stk bench --against rtk` prints on stdout: without `rtk` installed, that there is
/// nothing to compare; otherwise the `rtk` version line, and -- once the cases could be
/// set up -- a blank line, a line per case and the tally.
pub open spec fn bench_stdout(
    available: bool,
    version: Option<Seq<char>>,
    prepared: Result<(), Seq<char>>,
    names: Seq<Seq<char>>,
    outs: Seq<OutcomeView>,
) -> Seq<char> {
    if !available {
        not_installed_message() + "\n"@
    } else if prepared is Err {
        version_line_spec(version) + "\n"@
    } else {
        version_line_spec(version) + "\n"@ + "\n"@ + case_text(names, outs) + summary_line(outs) + "\n"@
    }
}

/// What `stk bench --against rtk` prints on stderr: why the cases could not be set up.
pub open spec fn bench_stderr(available: bool, prepared: Result<(), Seq<char>>) -> Seq<char> {
    match prepared {
        Err(e) => if available { prepare_failed_message(e) + "\n"@ } else { Seq::empty() },
        Ok(_) => Seq::empty(),
    }
}

/// `stk bench --against rtk`'s exit code: 1 exactly when a case failed or the cases could
/// not be set up, 0 otherwise (and without `rtk`).
pub open spec fn bench_code(available: bool, prepared: Result<(), Seq<char>>, outs: Seq<OutcomeView>) -> i32 {
    if !available {
        0
    } else if prepared is Err {
        1
    } else if failures(outs) > 0 {
        1
    } else {
        0
    }
}

pub open spec fn prepared_view(p: Result<(), &str>) -> Result<(), Seq<char>> {
    match p {
        Ok(()) => Ok(()),
        Err(e) => Err(e@),
    }
}

/// The report of `stk bench --against rtk`, once it is known whether `rtk` is `available`,
/// which `version` it reported, whether the cases could be `prepared`, and -- in order --
/// each case's name and outcome: the text for stdout, the text for stderr, and the exit
/// code (see [`bench_stdout`], [`bench_stderr`], [`bench_code`]). What is not asked for is
/// not read: the version and the preparation without `rtk`, the cases when the
/// preparation failed.
pub fn bench_report(
    available: bool,
    version: Option<&str>,
    prepared: Result<(), &str>,
    results: &[(String, CaseOutcome)],
) -> (r: (String, String, i32))
    ensures
        r.0@ == bench_stdout(
            available,
            crate::verbs::init::opt_chars(version),
            prepared_view(prepared),
            result_names(results@),
            result_outcomes(results@),
        ),
        r.1@ == bench_stderr(available, prepared_view(prepared)),
        r.2 == bench_code(available, prepared_view(prepared), result_outcomes(results@)),
{
    if !available {
        let mut out = chars_of("rtk is not installed in this environment; nothing to bench against.");
        push_str(&mut out, "\n");
        return (string_of(&out), String::new(), 0);
    }
    let line = version_report_line(version);
    let mut out = chars_of(line.as_str());
    push_str(&mut out, "\n");
    if let Err(err) = prepared {
        let mut msg = chars_of("stk: bench: could not determine stk's own executable path: ");
        push_str(&mut msg, err);
        push_str(&mut msg, "\n");
        return (string_of(&out), string_of(&msg), 1);
    }
    push_str(&mut out, "\n");
    let ghost head = out@;
    let ghost names = result_names(results@);
    let ghost outs_all = result_outcomes(results@);
    let mut passed: usize = 0;
    let mut failed: usize = 0;
    let mut skipped: usize = 0;
    let mut i: usize = 0;
    while i < results.len()
        invariant
            i <= results.len(),
            names == result_names(results@),
            outs_all == result_outcomes(results@),
            passed == passes(outs_all.take(i as int)) && failed == failures(outs_all.take(i as int))
                && skipped == skips(outs_all.take(i as int)),
            passed + failed + skipped == i,
            out@ == head + case_text(names.take(i as int), outs_all.take(i as int)),
        decreases results.len() - i,
    {
        let name = &results[i].0;
        proof {
            assert(names.take(i + 1).drop_last() == names.take(i as int));
            assert(outs_all.take(i + 1).drop_last() == outs_all.take(i as int));
            assert(names.take(i + 1).last() == name@);
            assert(outs_all.take(i + 1).last() == results@[i as int].1@);
        }
        match &results[i].1 {
            CaseOutcome::Pass => {
                passed += 1;
                push_str(&mut out, "[PASS] ");
                push_str(&mut out, name.as_str());
            },
            CaseOutcome::Fail(detail) => {
                failed += 1;
                push_str(&mut out, "[FAIL] ");
                push_str(&mut out, name.as_str());
                push_str(&mut out, ": ");
                push_str(&mut out, detail.as_str());
            },
            CaseOutcome::Skipped(detail) => {
                skipped += 1;
                push_str(&mut out, "[SKIP] ");
                push_str(&mut out, name.as_str());
                push_str(&mut out, ": ");
                push_str(&mut out, detail.as_str());
            },
        }
        push_str(&mut out, "\n");
        i += 1;
    }
    proof {
        assert(names.take(results.len() as int) == names);
        assert(outs_all.take(results.len() as int) == outs_all);
    }
    let ghost before_sum = out@;
    push_str(&mut out, "\n");
    push_decimal(&mut out, passed);
    push_str(&mut out, " passed, ");
    push_decimal(&mut out, failed);
    push_str(&mut out, " failed, ");
    push_decimal(&mut out, skipped);
    push_str(&mut out, " skipped");
    push_str(&mut out, "\n");
    proof {
        assert(out@ =~= before_sum + summary_line(outs_all) + "\n"@);
        assert(head == version_line_spec(crate::verbs::init::opt_chars(version)) + "\n"@ + "\n"@);
    }
    let code: i32 = if failed > 0 { 1 } else { 0 };
    (string_of(&out), String::new(), code)
}

/// How an exit code reads in a case report (`{:?}` of an `Option<i32>`).
pub open spec fn code_text(c: Option<i32>) -> Seq<char> {
    match c {
        Some(n) => "Some("@ + signed_decimal(n as int) + ")"@,
        None => "None"@,
    }
}

fn push_code(out: &mut Vec<char>, c: Option<i32>)
    ensures
        final(out)@ == old(out)@ + code_text(c),
{
    match c {
        Some(n) => {
            push_str(out, "Some(");
            extend_chars(out, &signed_decimal_chars(n as i64));
            push_str(out, ")");
        },
        None => push_str(out, "None"),
    }
}

fn eq_bytes(a: &[u8], b: &[u8]) -> (r: bool)
    ensures
        r == (a@ == b@),
{
    if a.len() != b.len() {
        return false;
    }
    let mut i: usize = 0;
    while i < a.len()
        invariant
            i <= a.len(),
            a.len() == b.len(),
            a@.take(i as int) == b@.take(i as int),
        decreases a.len() - i,
    {
        if a[i] != b[i] {
            assert(a@[i as int] != b@[i as int]);
            return false;
        }
        assert(a@.take(i + 1) == a@.take(i as int).push(a@[i as int]));
        assert(b@.take(i + 1) == b@.take(i as int).push(b@[i as int]));
        i += 1;
    }
    assert(a@.take(a.len() as int) == a@);
    assert(b@.take(b.len() as int) == b@);
    true
}

pub open spec fn differs_message(rtk_code: Option<i32>, stk_code: Option<i32>) -> Seq<char> {
    "stdout or exit code differs from rtk (rtk exit "@ + code_text(rtk_code) + ", stk exit "@
        + code_text(stk_code) + ")"@
}

/// A byte-for-byte comparison: `stk` passes when its stdout and exit code are exactly
/// those of `rtk`.
pub fn exact_match(rtk_stdout: &[u8], rtk_code: Option<i32>, stk_stdout: &[u8], stk_code: Option<i32>) -> (r: CaseOutcome)
    ensures
        (rtk_stdout@ == stk_stdout@ && rtk_code == stk_code) ==> r is Pass,
        !(rtk_stdout@ == stk_stdout@ && rtk_code == stk_code) ==> (r matches CaseOutcome::Fail(d)
            && d@ == differs_message(rtk_code, stk_code)),
{
    if eq_bytes(stk_stdout, rtk_stdout) && stk_code == rtk_code {
        CaseOutcome::Pass
    } else {
        let mut d = chars_of("stdout or exit code differs from rtk (rtk exit ");
        push_code(&mut d, rtk_code);
        push_str(&mut d, ", stk exit ");
        push_code(&mut d, stk_code);
        push_str(&mut d, ")");
        CaseOutcome::Fail(string_of(&d))
    }
}

/// A smoke comparison, for verbs whose output differs from `rtk`'s by design: both must
/// exit 0.
pub fn both_exit_zero(rtk_code: Option<i32>, stk_code: Option<i32>) -> (r: CaseOutcome)
    ensures
        (rtk_code == Some(0i32) && stk_code == Some(0i32)) ==> r is Pass,
        !(rtk_code == Some(0i32) && stk_code == Some(0i32)) ==> (r matches CaseOutcome::Fail(d)
            && d@ == "exit codes: rtk="@ + code_text(rtk_code) + " stk="@ + code_text(stk_code)),
{
    if rtk_code == Some(0i32) && stk_code == Some(0i32) {
        CaseOutcome::Pass
    } else {
        let mut d = chars_of("exit codes: rtk=");
        push_code(&mut d, rtk_code);
        push_str(&mut d, " stk=");
        push_code(&mut d, stk_code);
        CaseOutcome::Fail(string_of(&d))
    }
}

/// The items of `evidence` that `text` does not contain, in order.
pub open spec fn missing_from(text: Seq<char>, evidence: Seq<Seq<char>>) -> Seq<Seq<char>>
    decreases evidence.len(),
{
    if evidence.len() == 0 {
        Seq::empty()
    } else {
        let rest = missing_from(text, evidence.drop_last());
        if contains(text, evidence.last()) { rest } else { rest.push(evidence.last()) }
    }
}

/// What `format!("{:?}", s)` gives for a string `s`: std's `Debug` form, in double quotes
/// with quotes, backslashes and unprintable characters escaped.
pub uninterp spec fn debug_form(s: Seq<char>) -> Seq<char>;

/// `format!("{:?}", s)` on a string slice; the contract claims only that its result is
/// `debug_form` of the string's characters, the same for the same string.
#[verifier::external_body]
fn debug_string(s: &str) -> (r: String)
    ensures
        r@ == debug_form(s@),
{
    format!("{:?}", s)
}

/// `items` as `{:?}` prints a list of strings.
pub open spec fn quoted_list(items: Seq<Seq<char>>) -> Seq<char> {
    "["@ + join(items.map_values(|i: Seq<char>| debug_form(i)), ", "@) + "]"@
}

pub open spec fn dropped_message(missing: Seq<Seq<char>>) -> Seq<char> {
    "stk dropped required evidence: "@ + quoted_list(missing)
}

/// An evidence comparison: inconclusive (skipped, with `inconclusive` as the reason) when
/// `rtk`'s own output lacks `marker`; otherwise `stk` passes when its output holds every
/// item of `evidence`, and fails naming the items it lacks.
pub fn evidence_check(
    rtk_output: &str,
    marker: &str,
    inconclusive: &str,
    stk_output: &str,
    evidence: &[String],
) -> (r: CaseOutcome)
    ensures
        !contains(rtk_output@, marker@) ==> (r matches CaseOutcome::Skipped(d) && d@ == inconclusive@),
        contains(rtk_output@, marker@) && missing_from(stk_output@, views(evidence@)).len() == 0 ==> r is Pass,
        contains(rtk_output@, marker@) && missing_from(stk_output@, views(evidence@)).len() > 0
            ==> (r matches CaseOutcome::Fail(d) && d@ == dropped_message(missing_from(stk_output@, views(evidence@)))),
{
    let reference = chars_of(rtk_output);
    if !contains_str(&reference, marker) {
        return CaseOutcome::Skipped(inconclusive.to_string());
    }
    let text = chars_of(stk_output);
    let ghost ev = views(evidence@);
    let mut quoted: Vec<Vec<char>> = Vec::new();
    let mut i: usize = 0;
    while i < evidence.len()
        invariant
            i <= evidence.len(),
            ev == views(evidence@),
            text@ == stk_output@,
            quoted@.map_values(|q: Vec<char>| q@) == missing_from(text@, ev.take(i as int)).map_values(
                |i: Seq<char>| debug_form(i),
            ),
        decreases evidence.len() - i,
    {
        let ghost t = ev.take(i + 1);
        assert(t.drop_last() == ev.take(i as int));
        assert(t.last() == evidence@[i as int]@);
        let item = chars_of(evidence[i].as_str());
        if !contains_exec(&text, &item) {
            let q = chars_of(debug_string(evidence[i].as_str()).as_str());
            let ghost before = quoted@.map_values(|q: Vec<char>| q@);
            quoted.push(q);
            assert(quoted@.map_values(|q: Vec<char>| q@) == before.push(q@));
        }
        i += 1;
    }
    assert(ev.take(evidence.len() as int) == ev);
    let ghost missing = missing_from(text@, ev);
    if quoted.len() == 0 {
        assert(missing.map_values(|i: Seq<char>| debug_form(i)).len() == 0);
        return CaseOutcome::Pass;
    }
    let mut d = chars_of("stk dropped required evidence: ");
    push_str(&mut d, "[");
    let joined = join_chars_with(&quoted, ", ");
    extend_chars(&mut d, &joined);
    push_str(&mut d, "]");
    assert(d@ == dropped_message(missing));
    CaseOutcome::Fail(string_of(&d))
}

} // verus!
