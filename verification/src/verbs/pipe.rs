//! `stk pipe [-f FILTER] [--passthrough]`: read stdin, apply one named filter, print the
//! result. Defaults to passthrough when neither flag is given, matching real `rtk pipe`.
use vstd::prelude::*;

use crate::budget::selector::views;
use crate::compression::{write_output, WriteOutcome};
use crate::io::{line_bytes, sent, write_line, InputSource, OutputSink};
use crate::normalize::ansi::{strip, strip_spec};
use crate::text::{chars_of, eq_str, push_str};

verus! {

/// What `pipe`'s arguments ask for, read from the front with the last flag winning:
/// `None` for passthrough, `Some(name)` for the named filter, or a usage error.
pub open spec fn parse_rest(args: Seq<Seq<char>>, mode: Option<Seq<char>>) -> Result<Option<Seq<char>>, Seq<char>>
    decreases args.len(),
{
    if args.len() == 0 {
        Ok(mode)
    } else if args[0] == "--passthrough"@ {
        parse_rest(args.drop_first(), None)
    } else if args[0] == "-f"@ || args[0] == "--filter"@ {
        if args.len() < 2 {
            Err("pipe -f requires a filter name"@)
        } else {
            parse_rest(args.skip(2), Some(args[1]))
        }
    } else {
        Err("unrecognized argument '"@ + args[0] + "'"@)
    }
}

pub open spec fn parse_spec(args: Seq<Seq<char>>) -> Result<Option<Seq<char>>, Seq<char>> {
    parse_rest(args, None)
}

/// Reads `pipe`'s arguments (see [`parse_spec`]): `None` is passthrough.
pub fn parse(args: &[String]) -> (r: Result<Option<String>, String>)
    ensures
        match r {
            Ok(m) => parse_spec(views(args@)) == Ok::<Option<Seq<char>>, Seq<char>>(
                match m { Some(n) => Some(n@), None => None },
            ),
            Err(e) => parse_spec(views(args@)) == Err::<Option<Seq<char>>, Seq<char>>(e@),
        },
{
    let ghost a = views(args@);
    let mut mode: Option<String> = None;
    let mut i: usize = 0;
    assert(a.skip(0) == a);
    while i < args.len()
        invariant
            i <= args.len(),
            a == views(args@),
            parse_spec(a) == parse_rest(a.skip(i as int), match mode { Some(n) => Some(n@), None => None }),
        decreases args.len() - i,
    {
        let ghost rest = a.skip(i as int);
        assert(rest[0] == args@[i as int]@);
        let arg = chars_of(args[i].as_str());
        if eq_str(&arg, "--passthrough") {
            assert(rest.drop_first() == a.skip(i + 1));
            mode = None;
            i += 1;
        } else if eq_str(&arg, "-f") || eq_str(&arg, "--filter") {
            if i + 1 >= args.len() {
                return Err("pipe -f requires a filter name".to_string());
            }
            assert(rest.skip(2) == a.skip(i + 2));
            assert(rest[1] == args@[i + 1]@);
            mode = Some(args[i + 1].clone());
            i += 2;
        } else {
            let mut msg = chars_of("unrecognized argument '");
            crate::text::extend_chars(&mut msg, &arg);
            push_str(&mut msg, "'");
            return Err(crate::text::string_of(&msg));
        }
    }
    assert(a.skip(i as int) == Seq::<Seq<char>>::empty());
    Ok(mode)
}

/// The output of the filter named `name` for `input`, if there is such a filter. `ansi`
/// is the one filter: it strips ANSI escape sequences.
pub open spec fn filter_output(name: Seq<char>, input: Seq<u8>) -> Option<Seq<u8>> {
    if name == "ansi"@ {
        Some(strip_spec(input))
    } else {
        None
    }
}

/// `ansi` is STK-original, not an alias of any real `rtk` filter name (unlike
/// `--passthrough`, which does match `rtk pipe` exactly).
fn apply_filter(name: &str, input: &[u8]) -> (r: Option<Vec<u8>>)
    ensures
        match r {
            Some(o) => filter_output(name@, input@) == Some(o@),
            None => filter_output(name@, input@) is None,
        },
{
    if eq_str(&chars_of(name), "ansi") {
        Some(strip(input))
    } else {
        None
    }
}

pub open spec fn unknown_filter_message(name: Seq<char>) -> Seq<char> {
    "stk: unknown filter '"@ + name + "'. Available: ansi"@
}

pub open spec fn copy_failed_message(err: Seq<char>) -> Seq<char> {
    "stk: failed to copy stdin to stdout: "@ + err
}

pub open spec fn read_failed_message(err: Seq<char>) -> Seq<char> {
    "stk: failed to read stdin: "@ + err
}

fn report<E: OutputSink>(stderr: &mut E, prefix: &str, detail: &str) -> (r: i32)
    ensures
        r == 1,
        sent(*old(stderr), *final(stderr), line_bytes(prefix@ + detail@)),
{
    let mut msg = chars_of(prefix);
    push_str(&mut msg, detail);
    let _ = write_line(stderr, &msg);
    1
}

/// What `stk pipe` in mode `mode` (`None` is passthrough) does once stdin has been read as
/// `read`: the input itself or the named filter's output goes to `stdout`, and a reader
/// that went away early is a normal shutdown, not an error; `r` is the exit code, and
/// `stdout`/`stderr` go from `out0`/`err0` to `out1`/`err1`.
pub open spec fn piped<O: OutputSink, E: OutputSink>(
    mode: Option<Seq<char>>,
    read: Result<Vec<u8>, String>,
    out0: O,
    out1: O,
    err0: E,
    err1: E,
    r: i32,
) -> bool {
    &&& (read matches Err(e) ==> r == 1 && out1 == out0 && sent(err0, err1, line_bytes(
        if mode is None { copy_failed_message(e@) } else { read_failed_message(e@) },
    )))
    &&& (read is Ok && mode is None ==> (out0.accepts_all() ==> r == 0 && out1.written() == out0.written() + read->Ok_0@
        && err1 == err0))
    &&& (read is Ok && mode is None ==> (out0.fails_only_by_broken_pipe() ==> r == 0 && sent(out0, out1, read->Ok_0@)
        && err1 == err0))
    &&& (read is Ok && mode is Some && filter_output(mode->0, read->Ok_0@) is None ==> r == 1 && out1 == out0 && sent(
        err0,
        err1,
        line_bytes(unknown_filter_message(mode->0)),
    ))
    &&& (read is Ok && mode is Some && filter_output(mode->0, read->Ok_0@) is Some ==> (out0.accepts_all() ==> r == 0
        && out1.written() == out0.written() + filter_output(mode->0, read->Ok_0@)->0 && err1 == err0))
    &&& (read is Ok && mode is Some && filter_output(mode->0, read->Ok_0@) is Some ==> (out0.fails_only_by_broken_pipe() ==> r == 0
        && sent(out0, out1, filter_output(mode->0, read->Ok_0@)->0) && err1 == err0))
}

/// The exit code of `stk pipe` in mode `mode` once stdin has been read as `read` (see
/// [`piped`]).
pub fn finish<O: OutputSink, E: OutputSink>(
    mode: Option<String>,
    read: Result<Vec<u8>, String>,
    stdout: &mut O,
    stderr: &mut E,
) -> (r: i32)
    ensures
        piped(crate::history::opt_view(mode), read, *old(stdout), *final(stdout), *old(stderr), *final(stderr), r),
{
    let input = match read {
        Ok(input) => input,
        Err(err) => {
            return match mode {
                None => report(stderr, "stk: failed to copy stdin to stdout: ", err.as_str()),
                Some(_) => report(stderr, "stk: failed to read stdin: ", err.as_str()),
            };
        },
    };
    // Passthrough applies no filter at all: stdin goes to stdout unchanged.
    let (output, passthrough) = match mode {
        None => (input, true),
        Some(name) => match apply_filter(name.as_str(), &input) {
            Some(output) => (output, false),
            None => {
                let mut msg = chars_of("stk: unknown filter '");
                push_str(&mut msg, name.as_str());
                push_str(&mut msg, "'. Available: ansi");
                let _ = write_line(stderr, &msg);
                return 1;
            },
        },
    };
    match write_output(stdout, &output) {
        Ok(()) => 0,
        // The downstream reader closed early (e.g. `| head`) -- a normal Unix pipeline
        // shutdown, not a real error.
        Err(WriteOutcome::BrokenPipe) => 0,
        Err(WriteOutcome::Failed(err)) => {
            if passthrough {
                report(stderr, "stk: failed to copy stdin to stdout: ", err.as_str())
            } else {
                report(stderr, "stk: failed to write output: ", err.as_str())
            }
        },
        Err(WriteOutcome::AlreadyReported(code)) => code,
    }
}

/// What `stk pipe` does given `args`: a usage error exits 2 having read nothing;
/// otherwise `stdin` is read and the verb ends as [`piped`] says for what it may read.
#[verifier::opaque]
pub open spec fn pipe_dispatched<S: InputSource, O: OutputSink, E: OutputSink>(
    args: Seq<Seq<char>>,
    stdin: S,
    out0: O,
    out1: O,
    err0: E,
    err1: E,
    r: i32,
) -> bool {
    &&& (parse_spec(args) matches Err(m) ==> r == 2 && out1 == out0 && sent(err0, err1, line_bytes("stk: "@ + m)))
    &&& (parse_spec(args) matches Ok(mode) ==> exists|read: Result<Vec<u8>, String>|
        #[trigger] stdin.may_read(read) && piped(mode, read, out0, out1, err0, err1, r))
}

/// `stk pipe`: a usage error exits 2 having read nothing; otherwise stdin is read and
/// passed on as [`finish`] says (see [`pipe_dispatched`]).
pub fn dispatch<S: InputSource, O: OutputSink, E: OutputSink>(
    args: &[String],
    stdin: S,
    stdout: &mut O,
    stderr: &mut E,
) -> (r: i32)
    ensures
        pipe_dispatched(views(args@), stdin, *old(stdout), *final(stdout), *old(stderr), *final(stderr), r),
{
    proof {
        reveal(pipe_dispatched);
    }
    let mode = match parse(args) {
        Ok(mode) => mode,
        Err(message) => {
            let mut msg = chars_of("stk: ");
            push_str(&mut msg, message.as_str());
            let _ = write_line(stderr, &msg);
            return 2;
        },
    };
    let ghost source = stdin;
    let ghost m = crate::history::opt_view(mode);
    let mut stdin = stdin;
    let read = stdin.read_to_end();
    let ghost got = read;
    let r = finish(mode, read, stdout, stderr);
    assert(parse_spec(views(args@)) == Ok::<Option<Seq<char>>, Seq<char>>(m));
    assert(source.may_read(got));
    r
}

} // verus!
