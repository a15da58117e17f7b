//! Filtering of known-boilerplate lines: pure visual separator lines (`----------`),
//! common across many tools' output regardless of command.
use vstd::prelude::*;

use crate::aggregation::repetition::{strip_marker, strip_marker_spec};
use crate::text::{chars_of, trim, trim_chars};

verus! {

pub open spec fn is_separator_char(c: char) -> bool {
    c == '-' || c == '=' || c == '*' || c == '_' || c == '~' || c == '#'
}

/// At least four characters, all the same separator character, once trimmed.
pub open spec fn is_pure_separator_spec(line: Seq<char>) -> bool {
    let t = trim(line);
    &&& t.len() >= 4
    &&& is_separator_char(t[0])
    &&& forall|k: int| 0 <= k < t.len() ==> #[trigger] t[k] == t[0]
}

/// A separator line, judged by its content before any repeat marker was appended.
pub open spec fn is_boilerplate_spec(line: Seq<char>) -> bool {
    is_pure_separator_spec(strip_marker_spec(line))
}

/// The lines of `s` that are not boilerplate, in order.
pub open spec fn filter_spec(s: Seq<Seq<char>>) -> Seq<Seq<char>>
    decreases s.len(),
{
    if s.len() == 0 {
        Seq::empty()
    } else if is_boilerplate_spec(s.last()) {
        filter_spec(s.drop_last())
    } else {
        filter_spec(s.drop_last()).push(s.last())
    }
}

fn is_pure_separator(line: &str) -> (r: bool)
    ensures
        r == is_pure_separator_spec(line@),
{
    let lc = chars_of(line);
    let t = trim_chars(&lc);
    if t.len() < 4 {
        return false;
    }
    let first = t[0];
    if !(first == '-' || first == '=' || first == '*' || first == '_' || first == '~' || first
        == '#') {
        return false;
    }
    let mut k: usize = 0;
    while k < t.len()
        invariant
            k <= t.len(),
            t.len() >= 4,
            first == t@[0],
            t@ == trim(line@),
            forall|m: int| 0 <= m < k ==> #[trigger] t@[m] == first,
        decreases t.len() - k,
    {
        if t[k] != first {
            assert(t@[k as int] != t@[0]);
            return false;
        }
        k += 1;
    }
    true
}

fn is_boilerplate(line: &str) -> (r: bool)
    ensures
        r == is_boilerplate_spec(line@),
{
    // Runs after repetition::collapse, so a repeated run of separator lines carries a
    // "[repeated Nx]" suffix by now -- check the line's original content.
    is_pure_separator(strip_marker(line))
}

/// Drops the boilerplate lines, keeping the rest in order.
pub fn filter(lines: Vec<String>) -> (out: Vec<String>)
    ensures
        out.deep_view() == filter_spec(lines.deep_view()),
{
    let ghost s = lines.deep_view();
    let mut out: Vec<String> = Vec::new();
    let mut i: usize = 0;
    while i < lines.len()
        invariant
            s == lines.deep_view(),
            i <= lines.len(),
            out.deep_view() == filter_spec(s.take(i as int)),
        decreases lines.len() - i,
    {
        proof {
            assert(s.take(i + 1).drop_last() == s.take(i as int));
            assert(s.take(i + 1).last() == s[i as int]);
        }
        if !is_boilerplate(lines[i].as_str()) {
            out.push(lines[i].clone());
        }
        i += 1;
    }
    assert(s.take(lines.len() as int) == s);
    out
}

/// Every line the filter keeps is an input line that is not boilerplate.
pub proof fn lemma_filter_keeps_only_content(s: Seq<Seq<char>>)
    ensures
        forall|k: int|
            0 <= k < filter_spec(s).len() ==> s.contains(#[trigger] filter_spec(s)[k])
                && !is_boilerplate_spec(filter_spec(s)[k]),
    decreases s.len(),
{
    if s.len() > 0 {
        lemma_filter_keeps_only_content(s.drop_last());
        let f = filter_spec(s.drop_last());
        assert forall|k: int| 0 <= k < filter_spec(s).len() implies s.contains(
            #[trigger] filter_spec(s)[k],
        ) && !is_boilerplate_spec(filter_spec(s)[k]) by {
            if k < f.len() {
                assert(filter_spec(s)[k] == f[k]);
                let w = choose|w: int| 0 <= w < s.drop_last().len() && s.drop_last()[w] == f[k];
                assert(s[w] == f[k]);
            } else {
                assert(s[s.len() - 1] == s.last());
            }
        }
    }
}

/// A line whose trimmed content (before any repeat marker) is four or more copies of one
/// of `-`, `=`, `*`, `_`, `~`, `#` is boilerplate, and the filter drops it wherever it
/// stands: appending it to any input leaves the output unchanged.
pub proof fn lemma_separator_lines_removed(s: Seq<Seq<char>>, line: Seq<char>, c: char, n: nat)
    requires
        c == '-' || c == '=' || c == '*' || c == '_' || c == '~' || c == '#',
        n >= 4,
        trim(strip_marker_spec(line)) == Seq::new(n, |_k: int| c),
    ensures
        is_boilerplate_spec(line),
        filter_spec(s.push(line)) == filter_spec(s),
{
    let t = trim(strip_marker_spec(line));
    assert(t[0] == c);
    assert forall|k: int| 0 <= k < t.len() implies #[trigger] t[k] == t[0] by {
        assert(t[k] == c);
    }
    assert(s.push(line).drop_last() == s);
}

/// A line is never dropped as a separator when its trimmed content (before any repeat
/// marker) is shorter than four characters or holds a letter or a digit (at position
/// `k`): the filter keeps it, after whatever it kept before.
pub proof fn lemma_content_lines_kept(s: Seq<Seq<char>>, line: Seq<char>, k: int)
    requires
        trim(strip_marker_spec(line)).len() < 4 || (0 <= k < trim(strip_marker_spec(line)).len()
            && ({
            let c = trim(strip_marker_spec(line))[k];
            ('a' <= c && c <= 'z') || ('A' <= c && c <= 'Z') || ('0' <= c && c <= '9')
        })),
    ensures
        !is_boilerplate_spec(line),
        filter_spec(s.push(line)) == filter_spec(s).push(line),
{
    assert(s.push(line).drop_last() == s);
    assert(s.push(line).last() == line);
}

} // verus!
