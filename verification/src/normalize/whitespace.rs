//! Trailing-whitespace trimming and blank-line collapsing.
use vstd::prelude::*;

use crate::text::{chars_of, string_of, trim_end, trim_end_chars};

verus! {

/// The lines emitted after reading the first `n` lines of `s`, and whether the last
/// line read was blank.
pub open spec fn normalize_prefix(s: Seq<Seq<char>>, n: int) -> (Seq<Seq<char>>, bool)
    decreases n,
{
    if n <= 0 {
        (Seq::empty(), false)
    } else {
        let (out, prev_blank) = normalize_prefix(s, n - 1);
        let t = trim_end(s[n - 1]);
        let blank = t.len() == 0;
        if blank && prev_blank {
            (out, prev_blank)
        } else {
            (out.push(t), blank)
        }
    }
}

pub open spec fn normalize_spec(s: Seq<Seq<char>>) -> Seq<Seq<char>> {
    normalize_prefix(s, s.len() as int).0
}

/// Trims trailing whitespace per line and collapses runs of blank lines to a single one.
pub fn normalize(lines: Vec<String>) -> (out: Vec<String>)
    ensures
        out.deep_view() == normalize_spec(lines.deep_view()),
{
    let ghost s = lines.deep_view();
    let mut out: Vec<String> = Vec::new();
    let mut prev_blank = false;
    let mut i: usize = 0;
    while i < lines.len()
        invariant
            s == lines.deep_view(),
            i <= lines.len(),
            (out.deep_view(), prev_blank) == normalize_prefix(s, i as int),
        decreases lines.len() - i,
    {
        let lc = chars_of(lines[i].as_str());
        let tc = trim_end_chars(&lc);
        let is_blank = tc.len() == 0;
        let ghost before = out.deep_view();
        if !(is_blank && prev_blank) {
            prev_blank = is_blank;
            out.push(string_of(&tc));
            assert(out.deep_view() == before.push(tc@));
        }
        i += 1;
    }
    out
}

/// Lines already in normal form: each trimmed, no two consecutive blank.
pub open spec fn is_normal(s: Seq<Seq<char>>) -> bool {
    &&& forall|k: int| 0 <= k < s.len() ==> trim_end(#[trigger] s[k]) == s[k]
    &&& forall|k: int| 0 < k < s.len() && (#[trigger] s[k]).len() == 0 ==> s[k - 1].len() != 0
}

pub proof fn lemma_trim_end_idempotent(x: Seq<char>)
    ensures
        trim_end(trim_end(x)) == trim_end(x),
    decreases x.len(),
{
    if x.len() > 0 && crate::text::is_ws(x.last()) {
        lemma_trim_end_idempotent(x.drop_last());
    }
}

proof fn lemma_normalize_prefix_normal(s: Seq<Seq<char>>, n: int)
    requires
        0 <= n <= s.len(),
    ensures
        is_normal(normalize_prefix(s, n).0),
        normalize_prefix(s, n).1 == (normalize_prefix(s, n).0.len() > 0
            && normalize_prefix(s, n).0.last().len() == 0),
    decreases n,
{
    if n > 0 {
        lemma_normalize_prefix_normal(s, n - 1);
        lemma_trim_end_idempotent(s[n - 1]);
        let (out, pb) = normalize_prefix(s, n - 1);
        let t = trim_end(s[n - 1]);
        if !(t.len() == 0 && pb) {
            let o2 = out.push(t);
            assert forall|k: int| 0 <= k < o2.len() implies trim_end(#[trigger] o2[k]) == o2[k] by {
                if k < out.len() {
                    assert(o2[k] == out[k]);
                }
            }
            assert forall|k: int| 0 < k < o2.len() && (#[trigger] o2[k]).len() == 0 implies o2[k
                - 1].len() != 0 by {
                if k < out.len() {
                    assert(o2[k] == out[k]);
                    assert(o2[k - 1] == out[k - 1]);
                }
            }
        }
    }
}

proof fn lemma_normalize_prefix_of_normal(s: Seq<Seq<char>>, n: int)
    requires
        is_normal(s),
        0 <= n <= s.len(),
    ensures
        normalize_prefix(s, n) == (s.take(n), n > 0 && s[n - 1].len() == 0),
    decreases n,
{
    if n > 0 {
        lemma_normalize_prefix_of_normal(s, n - 1);
        assert(trim_end(s[n - 1]) == s[n - 1]);
        assert(s.take(n - 1).push(s[n - 1]) == s.take(n));
    } else {
        assert(s.take(0) == Seq::<Seq<char>>::empty());
    }
}

/// Normalizing twice is the same as normalizing once.
pub proof fn lemma_normalize_idempotent(s: Seq<Seq<char>>)
    ensures
        normalize_spec(normalize_spec(s)) == normalize_spec(s),
{
    lemma_normalize_prefix_normal(s, s.len() as int);
    let n = normalize_spec(s);
    lemma_normalize_prefix_of_normal(n, n.len() as int);
    assert(n.take(n.len() as int) == n);
}

} // verus!
