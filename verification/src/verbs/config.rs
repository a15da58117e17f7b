//! `stk config [--create]`: shows the effective, precedence-resolved configuration, or
//! creates the global config file with defaults if `--create` is given and none exists.
//! Locating and reading the config files is the caller's.
use vstd::prelude::*;

use crate::budget::selector::views;
use crate::config::settings::{render, toml_document, PartialSettings, PartialView, Settings};
use crate::io::{line_bytes, sent, write_line, OutputSink};
use crate::text::{chars_of, eq_str, extend_chars, parse_usize, push_str, string_of, trim, trim_chars};

verus! {

/// The environment layer: `STK_BUDGET`'s value, when it is set, trimmed and read as a
/// non-negative integer; a value that does not read so is refused with a message naming it.
pub open spec fn env_layer(stk_budget: Option<Seq<char>>) -> Result<PartialView, Seq<char>> {
    match stk_budget {
        None => Ok(PartialView { budget: None, intent: None, session_memory: None, session_ttl_minutes: None }),
        Some(text) => match parse_usize(trim(text)) {
            Some(n) => Ok(PartialView { budget: Some(n), intent: None, session_memory: None, session_ttl_minutes: None }),
            None => Err("invalid STK_BUDGET '"@ + text + "': expected a non-negative integer"@),
        },
    }
}

/// The environment layer for the value of `STK_BUDGET` (see [`env_layer`]).
pub fn env_settings(stk_budget: Option<&str>) -> (r: Result<PartialSettings, String>)
    ensures
        match (r, env_layer(match stk_budget { Some(t) => Some(t@), None => None })) {
            (Ok(layer), Ok(v)) => layer@ == v,
            (Err(m), Err(e)) => m@ == e,
            _ => false,
        },
{
    match stk_budget {
        None => Ok(PartialSettings { budget: None, intent: None, session_memory: None, session_ttl_minutes: None }),
        Some(text) => {
            let chars = chars_of(text);
            let trimmed = trim_chars(&chars);
            match crate::history::parse_usize_chars(&trimmed) {
                Some(n) => Ok(PartialSettings { budget: Some(n), intent: None, session_memory: None, session_ttl_minutes: None }),
                None => {
                    let mut msg = chars_of("invalid STK_BUDGET '");
                    extend_chars(&mut msg, &chars);
                    push_str(&mut msg, "': expected a non-negative integer");
                    Err(string_of(&msg))
                },
            }
        },
    }
}

/// The first argument that is not `--create`, if any.
pub open spec fn first_unknown(args: Seq<Seq<char>>) -> Option<Seq<char>>
    decreases args.len(),
{
    if args.len() == 0 {
        None
    } else if args[0] == "--create"@ {
        first_unknown(args.drop_first())
    } else {
        Some(args[0])
    }
}

/// Reads `config`'s arguments: whether `--create` was given, or the first unrecognized
/// argument.
pub fn parse_args(args: &[String]) -> (r: Result<bool, String>)
    ensures
        match r {
            Ok(create) => first_unknown(views(args@)) is None && create == (args.len() > 0),
            Err(other) => first_unknown(views(args@)) == Some(other@),
        },
{
    let ghost a = views(args@);
    let mut i: usize = 0;
    assert(a.skip(0) == a);
    while i < args.len()
        invariant
            i <= args.len(),
            a == views(args@),
            first_unknown(a) == first_unknown(a.skip(i as int)),
        decreases args.len() - i,
    {
        let ghost rest = a.skip(i as int);
        assert(rest[0] == args@[i as int]@);
        assert(rest.drop_first() == a.skip(i + 1));
        if !eq_str(&chars_of(args[i].as_str()), "--create") {
            return Err(args[i].clone());
        }
        i += 1;
    }
    assert(a.skip(i as int) == Seq::<Seq<char>>::empty());
    Ok(args.len() > 0)
}

pub open spec fn unrecognized_message(other: Seq<char>) -> Seq<char> {
    "stk: config: unrecognized argument '"@ + other + "'"@
}

/// Reports an unrecognized argument; the usage-error exit code.
pub fn unrecognized<E: OutputSink>(other: &str, stderr: &mut E) -> (r: i32)
    ensures
        r == 2,
        sent(*old(stderr), *final(stderr), line_bytes(unrecognized_message(other@))),
{
    let mut msg = chars_of("stk: config: unrecognized argument '");
    push_str(&mut msg, other);
    push_str(&mut msg, "'");
    let _ = write_line(stderr, &msg);
    2
}

/// What `stk config` shows for the resolved settings: where the global config lives,
/// a hint when there is no file there yet, then the settings as TOML.
pub open spec fn report_text(global_path: Seq<char>, global_exists: bool, rendered: Seq<char>) -> Seq<char> {
    "Config: "@ + global_path + "\n"@ + (if global_exists {
        Seq::empty()
    } else {
        "\n(no config file at this path yet -- run `stk config --create`)\n"@
    }) + "\n"@ + rendered
}

/// Writes the report of the resolved settings (see [`report_text`]); exits 0.
pub fn show<O: OutputSink>(global_path: &str, global_exists: bool, resolved: &Settings, stdout: &mut O) -> (r: i32)
    ensures
        r == 0,
        sent(
            *old(stdout),
            *final(stdout),
            vstd::utf8::encode_utf8(
                report_text(
                    global_path@,
                    global_exists,
                    toml_document(
                        resolved.budget as i64,
                        resolved.intent@,
                        resolved.session_memory,
                        resolved.session_ttl_minutes as i64,
                    ),
                ),
            ),
        ),
{
    let mut text = chars_of("Config: ");
    push_str(&mut text, global_path);
    push_str(&mut text, "\n");
    if !global_exists {
        push_str(&mut text, "\n(no config file at this path yet -- run `stk config --create`)\n");
    } else {
        assert(text@ + Seq::<char>::empty() == text@);
    }
    push_str(&mut text, "\n");
    let rendered = render(resolved);
    push_str(&mut text, rendered.as_str());
    let bytes = crate::io::utf8_of(&text);
    let _ = stdout.write_bytes(&bytes);
    0
}

} // verus!
