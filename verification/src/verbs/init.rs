//! `stk init [--global|-g] [--codex]`: installs agent integration idempotently -- the
//! managed instructions block in the agent instructions file, or the project config file.
use vstd::prelude::*;

use crate::budget::selector::views;
use vstd::utf8::{encode_scalar, encode_utf8};
use crate::text::{chars_of, eq_str, extend_chars, find_exec, occurs_at, occurs_at_exec, push_str, slice_chars, string_of};

verus! {

/// The line opening the managed block.
pub const MARKER_START: &'static str = "<!-- stk-instructions v1 -->";

/// The line closing the managed block.
pub const MARKER_END: &'static str = "<!-- /stk-instructions -->";

pub open spec fn marker_start() -> Seq<char> {
    "<!-- stk-instructions v1 -->"@
}

pub open spec fn marker_end() -> Seq<char> {
    "<!-- /stk-instructions -->"@
}

fn start_marker() -> (r: &'static str)
    ensures
        r@ == marker_start(),
{
    "<!-- stk-instructions v1 -->"
}

fn end_marker() -> (r: &'static str)
    ensures
        r@ == marker_end(),
{
    "<!-- /stk-instructions -->"
}

/// What `stk init` installs.
#[derive(Debug, Clone, Copy, PartialEq, Eq, Structural)]
pub enum Target {
    /// The instructions block in the project's agent instructions file.
    ProjectClaudeMd,
    /// The instructions block in the user's global agent instructions file.
    GlobalClaudeMd,
    /// The project config file (`--codex`).
    ProjectConfig,
}

pub open spec fn flag_global(a: Seq<char>) -> bool {
    a == "--global"@ || a == "-g"@
}

/// The first argument that is neither `--global`/`-g` nor `--codex`, if any.
pub open spec fn first_unknown(args: Seq<Seq<char>>) -> Option<Seq<char>>
    decreases args.len(),
{
    if args.len() == 0 {
        None
    } else if flag_global(args[0]) || args[0] == "--codex"@ {
        first_unknown(args.drop_first())
    } else {
        Some(args[0])
    }
}

/// What `init`'s arguments ask for: `--global`/`-g` for the global instructions file, `--codex`
/// for the project config, neither for the project instructions file; the two cannot be combined.
pub open spec fn parse_target_spec(args: Seq<Seq<char>>) -> Result<Target, Seq<char>> {
    let global = exists|i: int| 0 <= i < args.len() && flag_global(#[trigger] args[i]);
    let codex = exists|i: int| 0 <= i < args.len() && #[trigger] args[i] == "--codex"@;
    match first_unknown(args) {
        Some(other) => Err("unrecognized argument '"@ + other + "'"@),
        None => if global && codex {
            Err("--codex and --global/-g cannot be combined"@)
        } else if global {
            Ok(Target::GlobalClaudeMd)
        } else if codex {
            Ok(Target::ProjectConfig)
        } else {
            Ok(Target::ProjectClaudeMd)
        },
    }
}

/// Reads `init`'s arguments (see [`parse_target_spec`]).
pub fn parse_target(args: &[String]) -> (r: Result<Target, String>)
    ensures
        match r {
            Ok(t) => parse_target_spec(views(args@)) == Ok::<Target, Seq<char>>(t),
            Err(e) => parse_target_spec(views(args@)) == Err::<Target, Seq<char>>(e@),
        },
{
    let ghost a = views(args@);
    let mut global = false;
    let mut codex = false;
    let mut i: usize = 0;
    assert(a.skip(0) == a);
    while i < args.len()
        invariant
            i <= args.len(),
            a == views(args@),
            first_unknown(a) == first_unknown(a.skip(i as int)),
            global == exists|j: int| 0 <= j < i && flag_global(#[trigger] a[j]),
            codex == exists|j: int| 0 <= j < i && #[trigger] a[j] == "--codex"@,
        decreases args.len() - i,
    {
        let arg = chars_of(args[i].as_str());
        assert(a.skip(i as int)[0] == a[i as int]);
        assert(a.skip(i as int).drop_first() == a.skip(i + 1));
        proof {
            reveal_strlit("--global");
            reveal_strlit("-g");
            reveal_strlit("--codex");
        }
        if eq_str(&arg, "--global") || eq_str(&arg, "-g") {
            assert(a[i as int] != "--codex"@);
            global = true;
        } else if eq_str(&arg, "--codex") {
            codex = true;
        } else {
            let mut msg = chars_of("unrecognized argument '");
            extend_chars(&mut msg, &arg);
            push_str(&mut msg, "'");
            return Err(string_of(&msg));
        }
        i += 1;
    }
    assert(a.skip(i as int) == Seq::<Seq<char>>::empty());
    if global && codex {
        Err("--codex and --global/-g cannot be combined".to_string())
    } else if global {
        Ok(Target::GlobalClaudeMd)
    } else if codex {
        Ok(Target::ProjectConfig)
    } else {
        Ok(Target::ProjectClaudeMd)
    }
}

/// The instructions the managed block holds.
pub open spec fn instructions() -> Seq<char> {
    "# STK (Stateful Token Killer)\n\nPrefix commands with `stk` to render their output within a token budget instead of raw tool noise.\n\n## Commands\n\n- `stk cargo <args>` / `stk git <args>` -- Specialist-aware compression for Cargo and Git.\n- `stk compile` -- generic budgeted pipeline for any other command's output (or piped stdin).\n- `stk read` / `stk grep` / `stk find` -- native, budget-aware filesystem filters.\n- `stk log` / `stk err` / `stk summary` / `stk diff` / `stk json` -- native stream filters.\n- `stk run` / `stk proxy` -- unfiltered passthrough, or transparent usage tracking.\n- `stk gain` -- token-savings summary. `stk config` -- show/create configuration.\n\nAdd `--budget N` before the subcommand to set an explicit token ceiling."@
}

fn instructions_body() -> (r: &'static str)
    ensures
        r@ == instructions(),
{
    "# STK (Stateful Token Killer)\n\nPrefix commands with `stk` to render their output within a token budget instead of raw tool noise.\n\n## Commands\n\n- `stk cargo <args>` / `stk git <args>` -- Specialist-aware compression for Cargo and Git.\n- `stk compile` -- generic budgeted pipeline for any other command's output (or piped stdin).\n- `stk read` / `stk grep` / `stk find` -- native, budget-aware filesystem filters.\n- `stk log` / `stk err` / `stk summary` / `stk diff` / `stk json` -- native stream filters.\n- `stk run` / `stk proxy` -- unfiltered passthrough, or transparent usage tracking.\n- `stk gain` -- token-savings summary. `stk config` -- show/create configuration.\n\nAdd `--budget N` before the subcommand to set an explicit token ceiling."
}


/// The managed block: the start marker, the instructions and the end marker, each on its
/// own line.
pub open spec fn block_text(body: Seq<char>) -> Seq<char> {
    marker_start() + "\n"@ + body + "\n"@ + marker_end() + "\n"@
}

/// The managed block, ready to write.
pub fn render_block() -> (r: String)
    ensures
        r@ == block_text(instructions()),
{
    let mut out = chars_of(start_marker());
    push_str(&mut out, "\n");
    let body = instructions_body();
    push_str(&mut out, body);
    push_str(&mut out, "\n");
    push_str(&mut out, end_marker());
    push_str(&mut out, "\n");
    assert(out@ == block_text(body@));
    string_of(&out)
}

/// How many of the positions `0..n` of `s` an occurrence of `p` starts at.
pub open spec fn count_upto(s: Seq<char>, p: Seq<char>, n: int) -> nat
    decreases n,
{
    if n <= 0 {
        0
    } else {
        count_upto(s, p, n - 1) + if occurs_at(s, p, n - 1) { 1nat } else { 0nat }
    }
}

/// How many times `p` occurs in `s`. (The markers cannot overlap themselves, so this is
/// also how many non-overlapping matches `str::matches` finds.)
pub open spec fn occurrences(s: Seq<char>, p: Seq<char>) -> nat {
    count_upto(s, p, s.len() + 1int)
}

proof fn lemma_count_zero(s: Seq<char>, p: Seq<char>, n: int, a: int)
    requires
        count_upto(s, p, n) == 0,
        0 <= a < n,
    ensures
        !occurs_at(s, p, a),
    decreases n,
{
    if a < n - 1 {
        lemma_count_zero(s, p, n - 1, a);
    }
}

proof fn lemma_count_one_unique(s: Seq<char>, p: Seq<char>, n: int, a: int, b: int)
    requires
        count_upto(s, p, n) == 1,
        0 <= a < n,
        0 <= b < n,
        occurs_at(s, p, a),
        occurs_at(s, p, b),
    ensures
        a == b,
    decreases n,
{
    if occurs_at(s, p, n - 1) {
        if a < n - 1 {
            lemma_count_zero(s, p, n - 1, a);
        }
        if b < n - 1 {
            lemma_count_zero(s, p, n - 1, b);
        }
    } else {
        lemma_count_one_unique(s, p, n - 1, a, b);
    }
}

/// The markers are each present exactly once, the start before the end.
pub open spec fn well_formed(t: Seq<char>) -> bool {
    &&& occurrences(t, marker_start()) == 1
    &&& occurrences(t, marker_end()) == 1
    &&& exists|s: int, q: int| occurs_at(t, marker_start(), s) && occurs_at(t, marker_end(), q) && s <= q
}

/// Where the managed block of a well-formed text sits: from its start marker through its
/// end marker and the one line break that follows it, if any.
pub open spec fn block_span(t: Seq<char>) -> (int, int) {
    let (s, q) = choose|s: int, q: int| occurs_at(t, marker_start(), s) && occurs_at(t, marker_end(), q) && s <= q;
    let e = q + marker_end().len();
    (s, if e < t.len() && t[e] == '\n' { e + 1 } else { e })
}

pub open spec fn malformed_message() -> Seq<char> {
    "'"@ + marker_start() + "' / '"@ + marker_end()
        + "' markers look malformed or duplicated -- resolve manually before running `stk init` again"@
}

/// The managed block of `t`: none when neither marker is there, its span when the markers
/// are well formed, and a refusal (rather than a guess) when they are missing, duplicated
/// or out of order -- pairing an arbitrary start with the next end found anywhere after it
/// risks silently deleting real content between an orphaned marker and the next one.
pub open spec fn managed_block_spec(t: Seq<char>) -> Result<Option<(int, int)>, Seq<char>> {
    if occurrences(t, marker_start()) == 0 && occurrences(t, marker_end()) == 0 {
        Ok(None)
    } else if well_formed(t) {
        Ok(Some(block_span(t)))
    } else {
        Err(malformed_message())
    }
}

fn count_occurrences(s: &[char], p: &[char]) -> (r: usize)
    requires
        p@.len() > 0,
    ensures
        r == occurrences(s@, p@),
{
    let mut count: usize = 0;
    let mut i: usize = 0;
    while i < s.len()
        invariant
            i <= s.len(),
            count == count_upto(s@, p@, i as int),
            count <= i,
        decreases s.len() - i,
    {
        if occurs_at_exec(s, p, i) {
            count += 1;
        }
        i += 1;
    }
    assert(!occurs_at(s@, p@, s.len() as int));
    count
}

/// Locates the managed block of `text` (see [`managed_block_spec`]); positions count
/// characters.
fn locate_block(text: &str) -> (r: Result<Option<(usize, usize)>, String>)
    ensures
        match r {
            Ok(Some((s, e))) => managed_block_spec(text@) == Ok::<Option<(int, int)>, Seq<char>>(Some((s as int, e as int))),
            Ok(None) => managed_block_spec(text@) == Ok::<Option<(int, int)>, Seq<char>>(None),
            Err(m) => managed_block_spec(text@) == Err::<Option<(int, int)>, Seq<char>>(m@),
        },
{
    let t = chars_of(text);
    let ms = chars_of(start_marker());
    let me = chars_of(end_marker());
    proof {
        reveal_strlit("<!-- stk-instructions v1 -->");
        reveal_strlit("<!-- /stk-instructions -->");
    }
    let start_count = count_occurrences(&t, &ms);
    let end_count = count_occurrences(&t, &me);
    if start_count == 0 && end_count == 0 {
        return Ok(None);
    }
    if start_count == 1 && end_count == 1 {
        let found = find_exec(&t, &ms);
        match found {
            Some(start) => {
                let rest = slice_chars(&t, start, t.len());
                match find_exec(&rest, &me) {
                    Some(end_rel) => {
                        let q = start + end_rel;
                        proof {
                            assert forall|k: int| 0 <= k < me@.len() implies t@[q + k] == me@[k] by {
                                assert(rest@.subrange(end_rel as int, end_rel + me@.len())[k] == me@[k]);
                            }
                            assert(t@.subrange(q as int, q + me@.len()) == me@);
                            assert(occurs_at(t@, me@, q as int));
                            let (s2, q2) = choose|s: int, q: int| occurs_at(t@, marker_start(), s) && occurs_at(t@, marker_end(), q) && s <= q;
                            lemma_count_one_unique(t@, ms@, t@.len() + 1int, s2, start as int);
                            lemma_count_one_unique(t@, me@, t@.len() + 1int, q2, q as int);
                        }
                        let mut end = q + me.len();
                        if end < t.len() && t[end] == '\n' {
                            end += 1;
                        }
                        return Ok(Some((start, end)));
                    },
                    None => {
                        proof {
                            if well_formed(t@) {
                                let (s2, q2) = choose|s: int, q: int| occurs_at(t@, marker_start(), s) && occurs_at(t@, marker_end(), q) && s <= q;
                                lemma_count_one_unique(t@, ms@, t@.len() + 1int, s2, start as int);
                                assert(rest@.subrange(q2 - start, q2 - start + me@.len()) == me@);
                                assert(occurs_at(rest@, me@, q2 - start));
                            }
                        }
                    },
                }
            },
            None => {},
        }
    }
    proof {
        if well_formed(t@) {
            let (s2, q2) = choose|s: int, q: int| occurs_at(t@, marker_start(), s) && occurs_at(t@, marker_end(), q) && s <= q;
            assert(crate::text::contains(t@, ms@) ==> true);
            assert(occurs_at(t@, ms@, s2));
        }
    }
    let mut msg = chars_of("'");
    push_str(&mut msg, start_marker());
    push_str(&mut msg, "' / '");
    push_str(&mut msg, end_marker());
    push_str(&mut msg, "' markers look malformed or duplicated -- resolve manually before running `stk init` again");
    Err(string_of(&msg))
}


/// The managed block of `t` as [`managed_block_spec`] gives it, its span measured in bytes
/// of `t`'s UTF-8 encoding rather than in characters.
pub open spec fn managed_block_bytes(t: Seq<char>) -> Result<Option<(int, int)>, Seq<char>> {
    match managed_block_spec(t) {
        Ok(Some((s, e))) => Ok(Some((encode_utf8(t.take(s)).len() as int, encode_utf8(t.take(e)).len() as int))),
        Ok(None) => Ok(None),
        Err(m) => Err(m),
    }
}

proof fn lemma_encode_utf8_concat(a: Seq<char>, b: Seq<char>)
    ensures
        encode_utf8(a + b) == encode_utf8(a) + encode_utf8(b),
    decreases a.len(),
{
    if a.len() == 0 {
        assert(a + b == b);
        assert(encode_utf8(a) + encode_utf8(b) == encode_utf8(b));
    } else {
        assert((a + b).drop_first() == a.drop_first() + b);
        assert((a + b)[0] == a[0]);
        lemma_encode_utf8_concat(a.drop_first(), b);
        assert(encode_utf8(a + b) == encode_scalar(a[0] as u32) + (encode_utf8(a.drop_first()) + encode_utf8(b)));
    }
}

/// The number of bytes UTF-8 takes for `c`.
fn utf8_width(c: char) -> (r: usize)
    ensures
        r == encode_scalar(c as u32).len(),
{
    proof {
        vstd::utf8::char_is_scalar(c);
    }
    let v = c as u32;
    if v < 0x80 {
        1
    } else if v < 0x800 {
        2
    } else if v < 0x10000 {
        3
    } else {
        4
    }
}

/// The byte offset, in the UTF-8 encoding of `t` (which takes `total` bytes), of its
/// character position `i`.
fn byte_offset(t: &[char], i: usize, total: usize) -> (r: usize)
    requires
        i <= t.len(),
        total == encode_utf8(t@).len(),
    ensures
        r == encode_utf8(t@.take(i as int)).len(),
{
    let mut r: usize = 0;
    let mut j: usize = 0;
    assert(t@.take(0) == Seq::<char>::empty());
    while j < i
        invariant
            j <= i <= t.len(),
            total == encode_utf8(t@).len(),
            r == encode_utf8(t@.take(j as int)).len(),
        decreases i - j,
    {
        proof {
            let c = t@[j as int];
            let one = seq![c];
            assert(one[0] == c);
            assert(one.drop_first() == Seq::<char>::empty());
            assert(encode_utf8(Seq::<char>::empty()) == Seq::<u8>::empty());
            assert(encode_utf8(one) == encode_scalar(c as u32) + encode_utf8(one.drop_first()));
            assert(encode_utf8(one) == encode_scalar(c as u32));
            assert(t@.take(j as int) + seq![c] == t@.take(j + 1));
            lemma_encode_utf8_concat(t@.take(j as int), seq![c]);
            assert(t@.take(j + 1) + t@.skip(j + 1) == t@);
            lemma_encode_utf8_concat(t@.take(j + 1), t@.skip(j + 1));
        }
        r = r + utf8_width(t[j]);
        j += 1;
    }
    r
}

/// Locates the managed block of `text` (see [`managed_block_spec`]), as byte offsets into
/// `text`: the block is `&text[start..end]`.
pub fn find_managed_block(text: &str) -> (r: Result<Option<(usize, usize)>, String>)
    ensures
        match r {
            Ok(Some((s, e))) => managed_block_bytes(text@) == Ok::<Option<(int, int)>, Seq<char>>(Some((s as int, e as int))),
            Ok(None) => managed_block_bytes(text@) == Ok::<Option<(int, int)>, Seq<char>>(None),
            Err(m) => managed_block_bytes(text@) == Err::<Option<(int, int)>, Seq<char>>(m@),
        },
{
    match locate_block(text) {
        Ok(Some((start, end))) => {
            let t = chars_of(text);
            let total = text.as_bytes().len();
            proof {
                let (s2, q2) = choose|s: int, q: int| occurs_at(t@, marker_start(), s) && occurs_at(t@, marker_end(), q) && s <= q;
                assert(occurs_at(t@, marker_end(), q2));
            }
            Ok(Some((byte_offset(&t, start, total), byte_offset(&t, end, total))))
        },
        Ok(None) => Ok(None),
        Err(m) => Err(m),
    }
}

/// The text of an agent instructions file holding `existing` (or nothing) once the managed block is
/// installed: the block replaces an existing well-formed one, is appended after a blank
/// line otherwise, and malformed markers are refused.
pub open spec fn installed_content(existing: Option<Seq<char>>) -> Result<Seq<char>, Seq<char>> {
    let block = block_text(instructions());
    match existing {
        None => Ok(block),
        Some(t) => match managed_block_spec(t) {
            Ok(Some((s, e))) => Ok(t.take(s) + block + t.skip(e)),
            Ok(None) => Ok(
                if t.len() == 0 || t.last() == '\n' {
                    t + "\n"@ + block
                } else {
                    t + "\n\n"@ + block
                },
            ),
            Err(m) => Err(m),
        },
    }
}

pub open spec fn opt_chars(s: Option<&str>) -> Option<Seq<char>> {
    match s {
        Some(s) => Some(s@),
        None => None,
    }
}

/// The content to write for installing the managed block into a file holding `existing`
/// (`None` when there is no such file), or why it cannot be installed.
pub fn install_content(existing: Option<&str>) -> (r: Result<String, String>)
    ensures
        match r {
            Ok(c) => installed_content(opt_chars(existing)) == Ok::<Seq<char>, Seq<char>>(c@),
            Err(m) => installed_content(opt_chars(existing)) == Err::<Seq<char>, Seq<char>>(m@),
        },
{
    let block = render_block();
    let text = match existing {
        None => return Ok(block),
        Some(text) => text,
    };
    let t = chars_of(text);
    match locate_block(text) {
        Ok(Some((start, end))) => {
            let mut out = slice_chars(&t, 0, start);
            push_str(&mut out, block.as_str());
            extend_chars(&mut out, &slice_chars(&t, end, t.len()));
            Ok(string_of(&out))
        },
        Ok(None) => {
            let mut out = t.clone();
            if t.len() == 0 || t[t.len() - 1] == '\n' {
                push_str(&mut out, "\n");
            } else {
                push_str(&mut out, "\n\n");
            }
            push_str(&mut out, block.as_str());
            Ok(string_of(&out))
        },
        Err(m) => Err(m),
    }
}


/// What `stk init` does with an agent instructions file that holds `existing` (`None`
/// when there is no such file): refuses malformed markers, leaves a file that already
/// holds the current block alone, and otherwise writes the installed content.
pub enum InstallPlan {
    Refused(String),
    UpToDate,
    Write { content: String, creates: bool },
}

/// Decides what `stk init` does with a file holding `existing` (see [`installed_content`]).
pub fn plan_install(existing: Option<&str>) -> (r: InstallPlan)
    ensures
        match installed_content(opt_chars(existing)) {
            Err(m) => r matches InstallPlan::Refused(msg) && msg@ == m,
            Ok(c) => if opt_chars(existing) == Some(c) {
                r is UpToDate
            } else {
                r matches InstallPlan::Write { content, creates } && content@ == c && creates == (existing is None)
            },
        },
{
    match install_content(existing) {
        Err(m) => InstallPlan::Refused(m),
        Ok(content) => {
            let same = match existing {
                Some(text) => crate::text::eq_chars(&chars_of(text), &chars_of(content.as_str())),
                None => false,
            };
            if same {
                InstallPlan::UpToDate
            } else {
                InstallPlan::Write { content, creates: existing.is_none() }
            }
        },
    }
}

/// `c` is nowhere in `s` from position `i` on.
pub open spec fn lacks_from(s: Seq<char>, c: char, i: int) -> bool
    decreases s.len() - i,
{
    if i >= s.len() { true } else { s[i] != c && lacks_from(s, c, i + 1) }
}

proof fn lemma_lacks(s: Seq<char>, c: char, i: int, j: int)
    requires
        lacks_from(s, c, i),
        i <= j < s.len(),
    ensures
        s[j] != c,
    decreases j - i,
{
    if i < j {
        lemma_lacks(s, c, i + 1, j);
    }
}

/// No `<` in `s` is followed by `!` from position `i` on.
pub open spec fn no_open_bang_from(s: Seq<char>, i: int) -> bool
    decreases s.len() - i,
{
    if i + 1 >= s.len() { true } else { !(s[i] == '<' && s[i + 1] == '!') && no_open_bang_from(s, i + 1) }
}

proof fn lemma_no_open_bang(s: Seq<char>, i: int, j: int)
    requires
        no_open_bang_from(s, i),
        i <= j,
        j + 1 < s.len(),
    ensures
        !(s[j] == '<' && s[j + 1] == '!'),
    decreases j - i,
{
    if i < j {
        lemma_no_open_bang(s, i + 1, j);
    }
}

/// What the proofs below use of the two markers: each starts with `<!` and holds no
/// other `<`, neither holds a line break, and they differ at their sixth character.
proof fn lemma_marker_facts()
    ensures
        marker_start().len() == 28,
        marker_end().len() == 26,
        marker_start()[0] == '<' && marker_start()[1] == '!',
        marker_end()[0] == '<' && marker_end()[1] == '!',
        marker_start()[5] != marker_end()[5],
        forall|i: int| 0 <= i < marker_start().len() ==> marker_start()[i] != '\n',
        forall|i: int| 0 <= i < marker_end().len() ==> marker_end()[i] != '\n',
        forall|i: int| 1 <= i < marker_start().len() ==> marker_start()[i] != '<',
        forall|i: int| 1 <= i < marker_end().len() ==> marker_end()[i] != '<',
{
    reveal_strlit("<!-- stk-instructions v1 -->");
    reveal_strlit("<!-- /stk-instructions -->");
    reveal_with_fuel(lacks_from, 30);
    assert(lacks_from(marker_start(), '\n', 0));
    assert(lacks_from(marker_end(), '\n', 0));
    assert(lacks_from(marker_start(), '<', 1));
    assert(lacks_from(marker_end(), '<', 1));
    assert forall|i: int| 0 <= i < marker_start().len() implies marker_start()[i] != '\n' by {
        lemma_lacks(marker_start(), '\n', 0, i);
    }
    assert forall|i: int| 0 <= i < marker_end().len() implies marker_end()[i] != '\n' by {
        lemma_lacks(marker_end(), '\n', 0, i);
    }
    assert forall|i: int| 1 <= i < marker_start().len() implies marker_start()[i] != '<' by {
        lemma_lacks(marker_start(), '<', 1, i);
    }
    assert forall|i: int| 1 <= i < marker_end().len() implies marker_end()[i] != '<' by {
        lemma_lacks(marker_end(), '<', 1, i);
    }
}


/// No `<` in the instructions is followed by `!`, so neither marker occurs in them.
proof fn lemma_instructions_lack_markers()
    ensures
        instructions().len() == 743,
        forall|j: int| 0 <= j && j + 1 < instructions().len() ==> !(instructions()[j] == '<' && #[trigger] instructions()[j + 1] == '!'),
{
    reveal_strlit("# STK (Stateful Token Killer)\n\nPrefix commands with `stk` to render their output within a token budget instead of raw tool noise.\n\n## Commands\n\n- `stk cargo <args>` / `stk git <args>` -- Specialist-aware compression for Cargo and Git.\n- `stk compile` -- generic budgeted pipeline for any other command's output (or piped stdin).\n- `stk read` / `stk grep` / `stk find` -- native, budget-aware filesystem filters.\n- `stk log` / `stk err` / `stk summary` / `stk diff` / `stk json` -- native stream filters.\n- `stk run` / `stk proxy` -- unfiltered passthrough, or transparent usage tracking.\n- `stk gain` -- token-savings summary. `stk config` -- show/create configuration.\n\nAdd `--budget N` before the subcommand to set an explicit token ceiling.");
    reveal_with_fuel(no_open_bang_from, 51);
    assert(no_open_bang_from(instructions(), 743));
    assert(no_open_bang_from(instructions(), 693));
    assert(no_open_bang_from(instructions(), 643));
    assert(no_open_bang_from(instructions(), 593));
    assert(no_open_bang_from(instructions(), 543));
    assert(no_open_bang_from(instructions(), 493));
    assert(no_open_bang_from(instructions(), 443));
    assert(no_open_bang_from(instructions(), 393));
    assert(no_open_bang_from(instructions(), 343));
    assert(no_open_bang_from(instructions(), 293));
    assert(no_open_bang_from(instructions(), 243));
    assert(no_open_bang_from(instructions(), 193));
    assert(no_open_bang_from(instructions(), 143));
    assert(no_open_bang_from(instructions(), 93));
    assert(no_open_bang_from(instructions(), 43));
    assert(no_open_bang_from(instructions(), 0));
    assert forall|j: int| 0 <= j && j + 1 < instructions().len() implies !(instructions()[j] == '<' && #[trigger] instructions()[j + 1] == '!') by {
        lemma_no_open_bang(instructions(), 0, j);
    }
}

/// The positions in `0..n` at which `p` occurs in `x + y` are those at which it occurs
/// in `x`, when no occurrence straddles the end of `x`.
proof fn lemma_count_prefix(x: Seq<char>, y: Seq<char>, p: Seq<char>, n: int)
    requires
        p.len() > 0,
        0 <= n <= x.len(),
        forall|i: int| x.len() - p.len() < i < x.len() ==> !occurs_at(x + y, p, i),
    ensures
        count_upto(x + y, p, n) == count_upto(x, p, n),
    decreases n,
{
    if n > 0 {
        lemma_count_prefix(x, y, p, n - 1);
        let i = n - 1;
        if i + p.len() <= x.len() {
            assert((x + y).subrange(i, i + p.len()) == x.subrange(i, i + p.len()));
        }
    }
}

proof fn lemma_count_suffix(x: Seq<char>, y: Seq<char>, p: Seq<char>, k: int)
    requires
        p.len() > 0,
        0 <= k <= y.len() + 1,
        forall|i: int| x.len() - p.len() < i < x.len() ==> !occurs_at(x + y, p, i),
    ensures
        count_upto(x + y, p, x.len() + k) == count_upto(x, p, x.len() as int) + count_upto(y, p, k),
    decreases k,
{
    if k == 0 {
        lemma_count_prefix(x, y, p, x.len() as int);
    } else {
        lemma_count_suffix(x, y, p, k - 1);
        let i = x.len() + k - 1;
        if i + p.len() <= x.len() + y.len() {
            assert((x + y).subrange(i, i + p.len()) == y.subrange(k - 1, k - 1 + p.len()));
        }
    }
}

/// Occurrences add up over a concatenation that no occurrence straddles.
proof fn lemma_occurrences_concat(x: Seq<char>, y: Seq<char>, p: Seq<char>)
    requires
        p.len() > 0,
        forall|i: int| x.len() - p.len() < i < x.len() ==> !occurs_at(x + y, p, i),
    ensures
        occurrences(x + y, p) == occurrences(x, p) + occurrences(y, p),
{
    lemma_count_suffix(x, y, p, y.len() + 1int);
    assert(!occurs_at(x, p, x.len() as int));
}

/// No occurrence of a pattern without line breaks straddles a line break.
proof fn lemma_no_straddle_newline(x: Seq<char>, y: Seq<char>, p: Seq<char>)
    requires
        p.len() > 0,
        forall|j: int| 0 <= j < p.len() ==> p[j] != '\n',
        (y.len() > 0 && y[0] == '\n') || (x.len() > 0 && x.last() == '\n'),
    ensures
        forall|i: int| x.len() - p.len() < i < x.len() ==> !occurs_at(x + y, p, i),
{
    assert forall|i: int| x.len() - p.len() < i < x.len() implies !occurs_at(x + y, p, i) by {
        if occurs_at(x + y, p, i) {
            if y.len() > 0 && y[0] == '\n' {
                assert((x + y).subrange(i, i + p.len())[x.len() - i] == (x + y)[x.len() as int]);
            } else {
                assert((x + y).subrange(i, i + p.len())[x.len() - 1 - i] == (x + y)[x.len() - 1]);
            }
        }
    }
}

/// No occurrence of a pattern with a `<` only at its start straddles a `<`.
proof fn lemma_no_straddle_open(x: Seq<char>, y: Seq<char>, p: Seq<char>)
    requires
        p.len() > 0,
        forall|j: int| 1 <= j < p.len() ==> p[j] != '<',
        y.len() > 0 && y[0] == '<',
    ensures
        forall|i: int| x.len() - p.len() < i < x.len() ==> !occurs_at(x + y, p, i),
{
    assert forall|i: int| x.len() - p.len() < i < x.len() implies !occurs_at(x + y, p, i) by {
        if occurs_at(x + y, p, i) {
            assert((x + y).subrange(i, i + p.len())[x.len() - i] == (x + y)[x.len() as int]);
        }
    }
}

/// A text at no position of which `p` occurs holds no occurrence of it.
proof fn lemma_count_none(s: Seq<char>, p: Seq<char>, n: int)
    requires
        forall|i: int| 0 <= i < n ==> !occurs_at(s, p, i),
    ensures
        count_upto(s, p, n) == 0,
    decreases n,
{
    if n > 0 {
        lemma_count_none(s, p, n - 1);
    }
}


/// A pattern occurs once in itself.
proof fn lemma_occurs_in_itself(p: Seq<char>, n: int)
    requires
        p.len() > 0,
        1 <= n <= p.len() + 1,
    ensures
        count_upto(p, p, n) == 1,
    decreases n,
{
    if n == 1 {
        assert(p.subrange(0, p.len() as int) == p);
        assert(count_upto(p, p, 0) == 0);
    } else {
        lemma_occurs_in_itself(p, n - 1);
    }
}

/// A marker (which starts with `<!`) does not occur in a text where no `<` is followed by `!`.
proof fn lemma_no_open_bang_no_marker(s: Seq<char>, p: Seq<char>)
    requires
        p.len() >= 2,
        p[0] == '<' && p[1] == '!',
        forall|j: int| 0 <= j && j + 1 < s.len() ==> !(s[j] == '<' && #[trigger] s[j + 1] == '!'),
    ensures
        occurrences(s, p) == 0,
{
    assert forall|i: int| 0 <= i < s.len() + 1 implies !occurs_at(s, p, i) by {
        if occurs_at(s, p, i) {
            assert(s.subrange(i, i + p.len())[0] == s[i]);
            assert(s.subrange(i, i + p.len())[1] == s[i + 1]);
        }
    }
    lemma_count_none(s, p, s.len() + 1int);
}

/// A pattern longer than a text does not occur in it.
proof fn lemma_too_short(s: Seq<char>, p: Seq<char>)
    requires
        s.len() < p.len(),
    ensures
        occurrences(s, p) == 0,
{
    lemma_count_none(s, p, s.len() + 1int);
}

/// Where the end marker sits in the managed block.
pub open spec fn end_offset() -> int {
    marker_start().len() + 1int + instructions().len() + 1int
}

/// Each marker occurs exactly once in the managed block: the start marker at its start,
/// the end marker on its last line.
proof fn lemma_block_markers()
    ensures
        occurrences(block_text(instructions()), marker_start()) == 1,
        occurrences(block_text(instructions()), marker_end()) == 1,
        occurs_at(block_text(instructions()), marker_start(), 0),
        occurs_at(block_text(instructions()), marker_end(), end_offset()),
        block_text(instructions()).len() == end_offset() + marker_end().len() + 1,
        block_text(instructions())[0] == '<',
        block_text(instructions()).last() == '\n',
{
    lemma_marker_facts();
    lemma_instructions_lack_markers();
    let ms = marker_start();
    let me = marker_end();
    let nl = "\n"@;
    reveal_strlit("\n");
    let instr = instructions();
    let b1 = ms + nl;
    let b2 = b1 + instr;
    let b3 = b2 + nl;
    let b4 = b3 + me;
    let block = b4 + nl;
    assert(block == block_text(instr));
    lemma_occurs_in_itself(ms, ms.len() + 1int);
    lemma_occurs_in_itself(me, me.len() + 1int);
    lemma_too_short(nl, ms);
    lemma_too_short(nl, me);
    lemma_too_short(me, ms);
    lemma_no_open_bang_no_marker(instr, ms);
    lemma_no_open_bang_no_marker(instr, me);
    assert forall|i: int| 0 <= i < ms.len() + 1 implies !occurs_at(ms, me, i) by {
        if occurs_at(ms, me, i) {
            assert(ms.subrange(i, i + me.len())[0] == ms[i]);
            if i == 0 {
                assert(ms.subrange(0, me.len() as int)[5] == ms[5]);
            }
        }
    }
    lemma_count_none(ms, me, ms.len() + 1int);
    lemma_no_straddle_newline(ms, nl, ms);
    lemma_no_straddle_newline(ms, nl, me);
    lemma_occurrences_concat(ms, nl, ms);
    lemma_occurrences_concat(ms, nl, me);
    lemma_no_straddle_newline(b1, instr, ms);
    lemma_no_straddle_newline(b1, instr, me);
    lemma_occurrences_concat(b1, instr, ms);
    lemma_occurrences_concat(b1, instr, me);
    lemma_no_straddle_newline(b2, nl, ms);
    lemma_no_straddle_newline(b2, nl, me);
    lemma_occurrences_concat(b2, nl, ms);
    lemma_occurrences_concat(b2, nl, me);
    lemma_no_straddle_newline(b3, me, ms);
    lemma_no_straddle_newline(b3, me, me);
    lemma_occurrences_concat(b3, me, ms);
    lemma_occurrences_concat(b3, me, me);
    lemma_no_straddle_newline(b4, nl, ms);
    lemma_no_straddle_newline(b4, nl, me);
    lemma_occurrences_concat(b4, nl, ms);
    lemma_occurrences_concat(b4, nl, me);
    assert(block.subrange(0, ms.len() as int) == ms);
    assert(block.subrange(end_offset(), end_offset() + me.len()) == me);
}


/// A text made of marker-free text, the managed block, and marker-free text has that
/// block as its managed block, so installing it again gives the same text.
#[verifier::rlimit(50)]
#[verifier::spinoff_prover]
proof fn lemma_reinstall(pre: Seq<char>, post: Seq<char>)
    requires
        occurrences(pre, marker_start()) == 0,
        occurrences(pre, marker_end()) == 0,
        occurrences(post, marker_start()) == 0,
        occurrences(post, marker_end()) == 0,
    ensures
        installed_content(Some(pre + block_text(instructions()) + post))
            == Ok::<Seq<char>, Seq<char>>(pre + block_text(instructions()) + post),
        well_formed(pre + block_text(instructions()) + post),
{
    lemma_marker_facts();
    lemma_block_markers();
    let ms = marker_start();
    let me = marker_end();
    let block = block_text(instructions());
    let x = pre + block;
    let c = x + post;
    lemma_no_straddle_open(pre, block, ms);
    lemma_no_straddle_open(pre, block, me);
    lemma_occurrences_concat(pre, block, ms);
    lemma_occurrences_concat(pre, block, me);
    assert(x.last() == '\n');
    lemma_no_straddle_newline(x, post, ms);
    lemma_no_straddle_newline(x, post, me);
    lemma_occurrences_concat(x, post, ms);
    lemma_occurrences_concat(x, post, me);
    let p0 = pre.len() as int;
    let q0 = p0 + end_offset();
    assert(c.subrange(p0, p0 + ms.len()) == block.subrange(0, ms.len() as int));
    assert(c.subrange(q0, q0 + me.len()) == block.subrange(end_offset(), end_offset() + me.len()));
    assert(occurs_at(c, ms, p0));
    assert(occurs_at(c, me, q0));
    assert(well_formed(c));
    let (s0, q1) = choose|s: int, q: int| occurs_at(c, marker_start(), s) && occurs_at(c, marker_end(), q) && s <= q;
    lemma_count_one_unique(c, ms, c.len() + 1int, s0, p0);
    lemma_count_one_unique(c, me, c.len() + 1int, q1, q0);
    let e = q0 + me.len();
    assert(e == p0 + block.len() - 1);
    assert(c[e] == block.last());
    assert(block_span(c) == (p0, p0 + block.len()));
    assert(c.take(p0) == pre);
    assert(c.skip(p0 + block.len()) == post);
    assert(c.take(p0) + block + c.skip(p0 + block.len()) == c);
}

/// Installing the managed block is idempotent: whatever `stk init` wrote to a file (or
/// created), running it again on that content finds nothing to change. What it wrote
/// holds the start marker and the end marker exactly once each.
pub proof fn lemma_install_idempotent(existing: Option<Seq<char>>)
    requires
        installed_content(existing) is Ok,
    ensures
        installed_content(Some(installed_content(existing)->Ok_0)) == installed_content(existing),
        occurrences(installed_content(existing)->Ok_0, marker_start()) == 1,
        occurrences(installed_content(existing)->Ok_0, marker_end()) == 1,
{
    lemma_marker_facts();
    let ms = marker_start();
    let me = marker_end();
    let block = block_text(instructions());
    let empty = Seq::<char>::empty();
    lemma_too_short(empty, ms);
    lemma_too_short(empty, me);
    match existing {
        None => {
            assert(empty + block + empty == block);
            lemma_reinstall(empty, empty);
        },
        Some(t) => {
            match managed_block_spec(t) {
                Ok(None) => {
                    let sep: Seq<char> = if t.len() == 0 || t.last() == '\n' { "\n"@ } else { "\n\n"@ };
                    reveal_strlit("\n");
                    reveal_strlit("\n\n");
                    lemma_too_short(sep, ms);
                    lemma_too_short(sep, me);
                    lemma_no_straddle_newline(t, sep, ms);
                    lemma_no_straddle_newline(t, sep, me);
                    lemma_occurrences_concat(t, sep, ms);
                    lemma_occurrences_concat(t, sep, me);
                    assert(t + sep + block == (t + sep) + block + empty);
                    lemma_reinstall(t + sep, empty);
                },
                Ok(Some((s, e))) => {
                    let (s0, q0) = choose|s: int, q: int| occurs_at(t, marker_start(), s) && occurs_at(t, marker_end(), q) && s <= q;
                    assert(s == s0);
                    assert(e >= q0 + me.len());
                    let pre = t.take(s);
                    let post = t.skip(e);
                    assert forall|i: int| 0 <= i < pre.len() + 1 implies !occurs_at(pre, ms, i) by {
                        if occurs_at(pre, ms, i) {
                            assert(t.subrange(i, i + ms.len()) == pre.subrange(i, i + ms.len()));
                            lemma_count_one_unique(t, ms, t.len() + 1int, i, s0);
                        }
                    }
                    assert forall|i: int| 0 <= i < pre.len() + 1 implies !occurs_at(pre, me, i) by {
                        if occurs_at(pre, me, i) {
                            assert(t.subrange(i, i + me.len()) == pre.subrange(i, i + me.len()));
                            lemma_count_one_unique(t, me, t.len() + 1int, i, q0);
                        }
                    }
                    assert forall|i: int| 0 <= i < post.len() + 1 implies !occurs_at(post, ms, i) by {
                        if occurs_at(post, ms, i) {
                            assert(t.subrange(i + e, i + e + ms.len()) == post.subrange(i, i + ms.len()));
                            lemma_count_one_unique(t, ms, t.len() + 1int, i + e, s0);
                        }
                    }
                    assert forall|i: int| 0 <= i < post.len() + 1 implies !occurs_at(post, me, i) by {
                        if occurs_at(post, me, i) {
                            assert(t.subrange(i + e, i + e + me.len()) == post.subrange(i, i + me.len()));
                            lemma_count_one_unique(t, me, t.len() + 1int, i + e, q0);
                        }
                    }
                    lemma_count_none(pre, ms, pre.len() + 1int);
                    lemma_count_none(pre, me, pre.len() + 1int);
                    lemma_count_none(post, ms, post.len() + 1int);
                    lemma_count_none(post, me, post.len() + 1int);
                    lemma_reinstall(pre, post);
                },
                Err(_) => {},
            }
        },
    }
}

} // verus!
