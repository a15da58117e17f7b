//! The Janitor + Aggregator fast path: deterministic cleanup of raw command output
//! into lines, with no scoring or budget selection.
use vstd::prelude::*;
use vstd::utf8::{decode_utf8, encode_utf8, valid_utf8};

use crate::aggregation::repetition::{collapse, collapse_spec};
use crate::normalize::ansi::{strip, strip_spec};
use crate::normalize::boilerplate::{filter, filter_spec};
use crate::normalize::long_lines::{truncate, truncate_line_spec};
use crate::normalize::whitespace::{normalize, normalize_spec};
use crate::text::{chars_of, concat_terminated, string_of};

verus! {

/// What `String::from_utf8_lossy` decodes `bytes` to: their characters when they are
/// valid UTF-8, with each invalid sequence replaced by U+FFFD otherwise.
pub uninterp spec fn utf8_lossy(bytes: Seq<u8>) -> Seq<char>;

/// `String::from_utf8_lossy`. Claims that the result is a function of the bytes, and,
/// as std documents, that valid UTF-8 comes back decoded unchanged; how invalid
/// sequences are replaced is left unsaid.
#[verifier::external_body]
pub(crate) fn decode_lossy(bytes: &[u8]) -> (r: String)
    ensures
        r@ == utf8_lossy(bytes@),
        valid_utf8(bytes@) ==> r@ == decode_utf8(bytes@),
{
    String::from_utf8_lossy(bytes).into_owned()
}

/// `s` with one trailing carriage return removed, if it has one.
pub open spec fn strip_cr(s: Seq<char>) -> Seq<char> {
    if s.len() > 0 && s.last() == '\r' {
        s.drop_last()
    } else {
        s
    }
}

/// The position of the first newline in `s`, or `s.len()` when there is none.
pub open spec fn first_newline(s: Seq<char>) -> int
    decreases s.len(),
{
    if s.len() == 0 {
        0
    } else if s[0] == '\n' {
        0
    } else {
        1 + first_newline(s.drop_first())
    }
}

pub proof fn lemma_first_newline(s: Seq<char>)
    ensures
        0 <= first_newline(s) <= s.len(),
        first_newline(s) < s.len() ==> s[first_newline(s)] == '\n',
        forall|k: int| 0 <= k < first_newline(s) ==> s[k] != '\n',
    decreases s.len(),
{
    if s.len() > 0 && s[0] != '\n' {
        lemma_first_newline(s.drop_first());
        assert forall|k: int| 0 <= k < first_newline(s) implies s[k] != '\n' by {
            if k > 0 {
                assert(s[k] == s.drop_first()[k - 1]);
            }
        }
    }
}

proof fn lemma_first_newline_at(s: Seq<char>, i: int)
    requires
        0 <= i <= s.len(),
        i < s.len() ==> s[i] == '\n',
        forall|k: int| 0 <= k < i ==> s[k] != '\n',
    ensures
        first_newline(s) == i,
    decreases s.len(),
{
    lemma_first_newline(s);
    if first_newline(s) < i {
        assert(s[first_newline(s)] == '\n');
    } else if first_newline(s) > i {
        assert(s[i] == '\n');
    }
}

/// `str::lines`: split at each `\n`, dropping a `\r` right before it, with no empty
/// line after a final `\n`.
pub open spec fn lines_spec(s: Seq<char>) -> Seq<Seq<char>>
    decreases s.len(),
{
    if s.len() == 0 {
        Seq::empty()
    } else {
        let i = first_newline(s);
        proof {
            lemma_first_newline(s);
        }
        if i < s.len() {
            seq![strip_cr(s.take(i))] + lines_spec(s.skip(i + 1))
        } else {
            seq![s]
        }
    }
}

fn strip_cr_exec(cur: Vec<char>) -> (r: String)
    ensures
        r@ == strip_cr(cur@),
{
    let n = cur.len();
    if n > 0 && cur[n - 1] == '\r' {
        let t = crate::text::slice_chars(&cur, 0, n - 1);
        assert(cur@.drop_last() == cur@.subrange(0, n - 1));
        string_of(&t)
    } else {
        string_of(&cur)
    }
}

/// The lines of `text`, as `str::lines` splits them.
pub fn split_lines(text: &str) -> (out: Vec<String>)
    ensures
        out.deep_view() == lines_spec(text@),
{
    let s = chars_of(text);
    let mut out: Vec<String> = Vec::new();
    let mut cur: Vec<char> = Vec::new();
    let mut start: usize = 0;
    let mut i: usize = 0;
    assert(s@.skip(0) == s@);
    assert(out.deep_view() + lines_spec(s@) == lines_spec(s@));
    while i < s.len()
        invariant
            s@ == text@,
            start <= i <= s.len(),
            cur@ == s@.subrange(start as int, i as int),
            forall|k: int| start <= k < i ==> s@[k] != '\n',
            lines_spec(s@) == out.deep_view() + lines_spec(s@.skip(start as int)),
        decreases s.len() - i,
    {
        if s[i] == '\n' {
            proof {
                let rest = s@.skip(start as int);
                lemma_first_newline_at(rest, i - start);
                assert(rest.take(i - start) == cur@);
                assert(rest.skip(i - start + 1) == s@.skip(i + 1));
            }
            let ghost before = out.deep_view();
            let line = strip_cr_exec(cur);
            out.push(line);
            assert(out.deep_view() == before.push(strip_cr(s@.subrange(start as int, i as int))));
            cur = Vec::new();
            i += 1;
            start = i;
            assert(cur@ == s@.subrange(start as int, i as int));
        } else {
            cur.push(s[i]);
            i += 1;
            assert(cur@ == s@.subrange(start as int, i as int));
        }
    }
    proof {
        let rest = s@.skip(start as int);
        assert(rest == cur@);
        if rest.len() > 0 {
            lemma_first_newline_at(rest, rest.len() as int);
        }
    }
    if cur.len() > 0 {
        let ghost before = out.deep_view();
        out.push(string_of(&cur));
        assert(out.deep_view() == before + seq![cur@]);
    } else {
        assert(out.deep_view() + lines_spec(cur@) == out.deep_view());
    }
    out
}

/// The cleaned-up lines of raw output `input`: ANSI codes stripped, then decoded,
/// split, whitespace-normalized, repeats collapsed, separators dropped, and
/// pathologically long lines truncated -- in that order.
pub open spec fn lines_from_spec(input: Seq<u8>) -> Seq<Seq<char>> {
    if input.len() == 0 {
        Seq::empty()
    } else {
        filter_spec(
            collapse_spec(normalize_spec(lines_spec(utf8_lossy(strip_spec(input))))),
        ).map_values(|l: Seq<char>| truncate_line_spec(l))
    }
}

/// The Janitor + Aggregator fast-path transforms, stopping at the line-sequence stage
/// (before final rendering) so the `Budget`-aware pipeline can chunk and select from the
/// same cleaned-up lines `run` would otherwise just join and print directly.
pub fn lines_from(input: &[u8]) -> (out: Vec<String>)
    ensures
        out.deep_view() == lines_from_spec(input@),
{
    if input.len() == 0 {
        return Vec::new();
    }
    let stripped = strip(input);
    let text = decode_lossy(&stripped);
    let lines = split_lines(text.as_str());
    // Repetition must run against the true, unmodified line sequence: boilerplate
    // removal or long-line truncation happening first can fabricate false adjacency
    // or false equality.
    let lines = normalize(lines);
    let lines = collapse(lines);
    let lines = filter(lines);
    truncate(lines)
}

/// Every line followed by a newline, as bytes.
pub fn render_lines(lines: &Vec<String>) -> (out: Vec<u8>)
    ensures
        out@ == encode_utf8(concat_terminated(lines.deep_view(), "\n"@)),
{
    let mut cs: Vec<char> = Vec::new();
    let mut i: usize = 0;
    while i < lines.len()
        invariant
            i <= lines.len(),
            cs@ == concat_terminated(lines.deep_view().take(i as int), "\n"@),
        decreases lines.len() - i,
    {
        let lc = chars_of(lines[i].as_str());
        crate::text::extend_chars(&mut cs, &lc);
        crate::text::push_str(&mut cs, "\n");
        proof {
            let t = lines.deep_view().take(i + 1);
            assert(t.drop_last() == lines.deep_view().take(i as int));
            assert(t.last() == lines[i as int]@);
        }
        i += 1;
    }
    assert(lines.deep_view().take(lines.len() as int) == lines.deep_view());
    let s = string_of(&cs);
    vstd::slice::slice_to_vec(s.as_str().as_bytes())
}

/// The fast path's rendered output for `input`.
pub open spec fn run_spec(input: Seq<u8>) -> Seq<u8> {
    encode_utf8(concat_terminated(lines_from_spec(input), "\n"@))
}

/// The Janitor + Aggregator fast path: deterministic cleanup, no scoring or budget
/// selection.
pub fn run(input: &[u8]) -> (out: Vec<u8>)
    ensures
        out@ == run_spec(input@),
{
    let lines = lines_from(input);
    render_lines(&lines)
}

} // verus!
