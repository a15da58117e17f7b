//! `stk rewrite "<command string>"`: prefixes a raw command with `stk ` when safe, for the
//! `PreToolUse:Bash` hook to auto-apply. Exit 0 + stdout on a safe rewrite, exit 1 (silent)
//! otherwise -- no deny/ask tier, since the agent's own permissions own that decision.
use vstd::prelude::*;

use crate::budget::selector::views;
use crate::io::{line_bytes, sent, write_line, OutputSink};
use crate::specialists::{lookup, lookup_spec};
use crate::text::{chars_of, contains, trim_end, trim_start, contains_str, is_whitespace, is_ws, join, join_chars, string_of, trim, trim_chars};

verus! {

/// The characters of `s` up to its first whitespace.
pub open spec fn leading_word(s: Seq<char>) -> Seq<char>
    decreases s.len(),
{
    if s.len() == 0 || is_ws(s[0]) {
        Seq::empty()
    } else {
        seq![s[0]] + leading_word(s.drop_first())
    }
}

/// The rewrite of `command`: `stk ` before the trimmed command, when its first word is a
/// command some Specialist handles and it holds no heredoc; nothing otherwise (empty
/// input, an already-`stk`-prefixed command, any other tool).
pub open spec fn rewrite_spec(command: Seq<char>) -> Option<Seq<char>> {
    let t = trim(command);
    if contains(t, "<<"@) || t.len() == 0 || lookup_spec(leading_word(t)) is None {
        None
    } else {
        Some("stk "@ + t)
    }
}

fn leading_word_chars(s: &[char]) -> (r: Vec<char>)
    ensures
        r@ == leading_word(s@),
{
    let mut i: usize = 0;
    assert(s@.skip(0) == s@);
    assert(s@.take(0) == Seq::<char>::empty());
    while i < s.len() && !is_whitespace(s[i])
        invariant
            i <= s.len(),
            forall|j: int| 0 <= j < i ==> !is_ws(s@[j]),
            leading_word(s@) == s@.take(i as int) + leading_word(s@.skip(i as int)),
        decreases s.len() - i,
    {
        let ghost rest = s@.skip(i as int);
        assert(rest.drop_first() == s@.skip(i + 1));
        assert(s@.take(i + 1) == s@.take(i as int) + seq![s@[i as int]]);
        i += 1;
    }
    assert(leading_word(s@.skip(i as int)) == Seq::<char>::empty());
    crate::text::slice_chars(s, 0, i)
}

/// Specialist dispatch always executes the real binary with the exact args given,
/// unchanged, so prepending `stk ` in front is always safe -- including a chained form
/// like `cargo build && cargo test`, since the prefix only ever lands at the very front.
/// Delegates to `specialists::lookup` (rather than a second hardcoded list) so a future
/// specialist is automatically rewrite-eligible too.
pub fn rewrite(command: &str) -> (r: Option<String>)
    ensures
        match r {
            Some(s) => rewrite_spec(command@) == Some(s@),
            None => rewrite_spec(command@) is None,
        },
{
    let cs = chars_of(command);
    let trimmed = trim_chars(&cs);
    // A heredoc's body could contain arbitrary text; today's front-only prepend doesn't
    // strictly need this, but it's cheap insurance for a future, smarter rewrite.
    if contains_str(&trimmed, "<<") {
        return None;
    }
    if trimmed.len() == 0 {
        return None;
    }
    let word = leading_word_chars(&trimmed);
    if lookup(string_of(&word).as_str()).is_none() {
        return None;
    }
    let mut out = chars_of("stk ");
    crate::text::extend_chars(&mut out, &trimmed);
    Some(string_of(&out))
}

/// The arguments joined back into one command string.
fn join_args(args: &[String]) -> (r: Vec<char>)
    ensures
        r@ == join(views(args@), seq![' ']),
{
    let mut parts: Vec<Vec<char>> = Vec::new();
    let mut i: usize = 0;
    while i < args.len()
        invariant
            i <= args.len(),
            parts@.map_values(|p: Vec<char>| p@) == views(args@).take(i as int),
        decreases args.len() - i,
    {
        let ghost before = parts@.map_values(|p: Vec<char>| p@);
        let cs = chars_of(args[i].as_str());
        parts.push(cs);
        assert(parts@.map_values(|p: Vec<char>| p@) == before.push(cs@));
        assert(views(args@).take(i + 1) == views(args@).take(i as int).push(args@[i as int]@));
        i += 1;
    }
    assert(views(args@).take(args.len() as int) == views(args@));
    join_chars(&parts, ' ')
}

/// `stk rewrite`: prints the rewrite of the arguments joined by spaces and exits 0, or
/// prints nothing and exits 1 when no rewrite applies.
pub fn dispatch<O: OutputSink, E: OutputSink>(args: &[String], stdout: &mut O, stderr: &mut E) -> (r: i32)
    ensures
        rewrite_spec(join(views(args@), seq![' '])) matches Some(t) ==> r == 0 && sent(*old(stdout), *final(stdout), line_bytes(t)),
        rewrite_spec(join(views(args@), seq![' '])) is None ==> r == 1 && *final(stdout) == *old(stdout),
        *final(stderr) == *old(stderr),
{
    let command = string_of(&join_args(args));
    match rewrite(command.as_str()) {
        Some(rewritten) => {
            let _ = write_line(stdout, &chars_of(rewritten.as_str()));
            0
        },
        None => 1,
    }
}


proof fn lemma_trim_end_last(s: Seq<char>)
    ensures
        trim_end(s).len() == 0 || !is_ws(trim_end(s).last()),
        trim_end(s).len() <= s.len(),
        trim_end(s) == s.take(trim_end(s).len() as int),
    decreases s.len(),
{
    if s.len() > 0 && is_ws(s.last()) {
        lemma_trim_end_last(s.drop_last());
        assert(s.drop_last().take(trim_end(s).len() as int) == s.take(trim_end(s).len() as int));
    } else {
        assert(s.take(s.len() as int) == s);
    }
}

proof fn lemma_trim_start_suffix(s: Seq<char>)
    ensures
        trim_start(s).len() <= s.len(),
        trim_start(s) == s.skip(s.len() - trim_start(s).len()),
    decreases s.len(),
{
    if s.len() > 0 && is_ws(s.first()) {
        lemma_trim_start_suffix(s.drop_first());
        assert(s.drop_first().skip(s.drop_first().len() - trim_start(s).len()) == s.skip(s.len() - trim_start(s).len()));
    } else {
        assert(s.skip(0) == s);
    }
}

/// A rewritten command is never rewritten again: the result starts with `stk`, which no
/// Specialist handles, so applying the hook twice prefixes only once.
pub proof fn lemma_rewrite_applies_once(command: Seq<char>)
    ensures
        rewrite_spec(command) matches Some(t) ==> rewrite_spec(t) is None,
{
    if let Some(t) = rewrite_spec(command) {
        let e = trim_end(command);
        let u = trim(command);
        lemma_trim_end_last(command);
        lemma_trim_start_suffix(e);
        assert(u.len() > 0);
        assert(u.last() == e.last());
        reveal_strlit("stk ");
        reveal_strlit("stk");
        reveal_strlit("cargo");
        reveal_strlit("git");
        let p = "stk "@;
        assert(t == p + u);
        assert(t.last() == u.last());
        assert(!is_ws(t.last()));
        assert(trim_end(t) == t);
        assert(t.first() == 's');
        assert(trim_start(t) == t);
        assert(trim(t) == t);
        reveal_with_fuel(leading_word, 5);
        assert(t[0] == 's' && t[1] == 't' && t[2] == 'k' && t[3] == ' ');
        assert(t.drop_first().drop_first().drop_first()[0] == ' ');
        assert(leading_word(t) =~= seq!['s', 't', 'k']);
        assert(leading_word(t) != "cargo"@);
        assert(leading_word(t) != "git"@);
    }
}

} // verus!
