//! Truncation of pathologically long lines (minified blobs and the like).
use vstd::prelude::*;

use crate::text::{chars_of, decimal, push_decimal, push_str, slice_chars, extend_chars, string_of};

verus! {

/// Past this many characters a line keeps only its head and tail.
pub const MAX_LINE_CHARS: usize = 2000;

pub const KEEP_HEAD_CHARS: usize = 200;

pub const KEEP_TAIL_CHARS: usize = 200;

pub open spec fn truncate_line_spec(line: Seq<char>) -> Seq<char> {
    if line.len() <= MAX_LINE_CHARS {
        line
    } else {
        line.take(KEEP_HEAD_CHARS as int) + " ... [stk: line truncated, "@ + decimal(
            (line.len() - KEEP_HEAD_CHARS - KEEP_TAIL_CHARS) as nat,
        ) + " chars omitted] ... "@ + line.skip(line.len() - KEEP_TAIL_CHARS)
    }
}

fn truncate_line(line: &str) -> (r: String)
    ensures
        r@ == truncate_line_spec(line@),
{
    let chars = chars_of(line);
    if chars.len() <= MAX_LINE_CHARS {
        return string_of(&chars);
    }
    let n = chars.len();
    let mut out = slice_chars(&chars, 0, KEEP_HEAD_CHARS);
    push_str(&mut out, " ... [stk: line truncated, ");
    push_decimal(&mut out, n - KEEP_HEAD_CHARS - KEEP_TAIL_CHARS);
    push_str(&mut out, " chars omitted] ... ");
    let tail = slice_chars(&chars, n - KEEP_TAIL_CHARS, n);
    extend_chars(&mut out, &tail);
    proof {
        assert(chars@.subrange(0, 200) == chars@.take(200));
        assert(chars@.subrange(n - 200, n as int) == chars@.skip(n - 200));
    }
    string_of(&out)
}

/// Keeps a single pathological line from defeating the rest of compression on its own:
/// past `MAX_LINE_CHARS`, keep the head and tail and mark the rest.
pub fn truncate(lines: Vec<String>) -> (out: Vec<String>)
    ensures
        out.deep_view() == lines.deep_view().map_values(|l: Seq<char>| truncate_line_spec(l)),
{
    let ghost s = lines.deep_view();
    let mut out: Vec<String> = Vec::new();
    let mut i: usize = 0;
    while i < lines.len()
        invariant
            s == lines.deep_view(),
            i <= lines.len(),
            out.deep_view() == s.take(i as int).map_values(|l: Seq<char>| truncate_line_spec(l)),
        decreases lines.len() - i,
    {
        let ghost before = out.deep_view();
        let ghost f = |l: Seq<char>| truncate_line_spec(l);
        out.push(truncate_line(lines[i].as_str()));
        assert(s.take(i + 1) == s.take(i as int).push(s[i as int]));
        assert(out.deep_view() =~= before.push(f(s[i as int])));
        assert(s.take(i + 1).map_values(f) =~= s.take(i as int).map_values(f).push(f(s[i as int])));
        i += 1;
    }
    assert(s.take(lines.len() as int) == s);
    out
}

/// A truncated line keeps at most 400 characters of the original plus the marker, and
/// a line within the limit is left exactly as it was.
pub proof fn lemma_truncate_line_bounds(line: Seq<char>)
    ensures
        line.len() <= MAX_LINE_CHARS ==> truncate_line_spec(line) == line,
        line.len() > MAX_LINE_CHARS ==> truncate_line_spec(line).take(200) == line.take(200)
            && truncate_line_spec(line).len() < line.len(),
{
    if line.len() > MAX_LINE_CHARS {
        reveal_strlit(" ... [stk: line truncated, ");
        reveal_strlit(" chars omitted] ... ");
        let t = truncate_line_spec(line);
        assert(t.take(200) =~= line.take(200));
        lemma_decimal_len((line.len() - 400) as nat);
    }
}

proof fn lemma_decimal_len(n: nat)
    ensures
        decimal(n).len() <= n / 10 + 1,
    decreases n,
{
    if n >= 10 {
        lemma_decimal_len(n / 10);
    }
}

} // verus!
