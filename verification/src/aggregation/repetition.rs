//! Collapsing runs of identical consecutive lines, and recognizing the marker that
//! collapsing leaves behind.
use vstd::prelude::*;

use crate::text::{
    all_digits, chars_of, contains, decimal, ends_with, ends_with_str, is_digit, occurs_at,
    push_decimal, push_str, rfind_exec, slice_chars, string_of,
};

verus! {

pub open spec fn marker_prefix() -> Seq<char> {
    " [repeated "@
}

pub open spec fn marker_suffix() -> Seq<char> {
    "x]"@
}

/// The last position at which `p` occurs in `s`.
pub open spec fn last_occurrence(s: Seq<char>, p: Seq<char>) -> int {
    choose|i: int| occurs_at(s, p, i) && forall|j: int| i < j ==> !occurs_at(s, p, j)
}

/// `line` without a trailing ` [repeated Nx]` marker, or `line` itself when it carries none.
pub open spec fn strip_marker_spec(line: Seq<char>) -> Seq<char> {
    if !contains(line, marker_prefix()) {
        line
    } else {
        let idx = last_occurrence(line, marker_prefix());
        let rest = line.subrange(idx + marker_prefix().len(), line.len() as int);
        if ends_with(rest, marker_suffix()) {
            let digits = rest.subrange(0, rest.len() - 2);
            if digits.len() > 0 && all_digits(digits) {
                line.subrange(0, idx)
            } else {
                line
            }
        } else {
            line
        }
    }
}

/// `line` as it stands after collapsing a run of `count` copies of it.
pub open spec fn marked(line: Seq<char>, count: nat) -> Seq<char> {
    if count >= 2 {
        line + marker_prefix() + decimal(count) + marker_suffix()
    } else {
        line
    }
}

/// The end (exclusive) of the run of lines equal to `s[i]` that continues at `j`.
pub open spec fn run_end(s: Seq<Seq<char>>, i: int, j: int) -> int
    decreases s.len() - j,
{
    if 0 <= j < s.len() && s[j] == s[i] {
        run_end(s, i, j + 1)
    } else {
        j
    }
}

pub proof fn lemma_run_end(s: Seq<Seq<char>>, i: int, j: int)
    requires
        0 <= i < j <= s.len(),
        forall|k: int| i <= k < j ==> s[k] == s[i],
    ensures
        j <= run_end(s, i, j) <= s.len(),
        forall|k: int| i <= k < run_end(s, i, j) ==> s[k] == s[i],
        run_end(s, i, j) < s.len() ==> s[run_end(s, i, j)] != s[i],
    decreases s.len() - j,
{
    if j < s.len() && s[j] == s[i] {
        lemma_run_end(s, i, j + 1);
    }
}

/// The collapsed form of `s` from position `i` on.
pub open spec fn collapse_from(s: Seq<Seq<char>>, i: int) -> Seq<Seq<char>>
    decreases s.len() - i,
{
    if 0 <= i < s.len() {
        let j = run_end(s, i, i + 1);
        proof {
            lemma_run_end(s, i, i + 1);
        }
        seq![marked(s[i], (j - i) as nat)] + collapse_from(s, j)
    } else {
        Seq::empty()
    }
}

pub open spec fn collapse_spec(s: Seq<Seq<char>>) -> Seq<Seq<char>> {
    collapse_from(s, 0)
}

proof fn lemma_last_occurrence(s: Seq<char>, p: Seq<char>, i: int)
    requires
        occurs_at(s, p, i),
        forall|j: int| i < j ==> !occurs_at(s, p, j),
    ensures
        contains(s, p),
        last_occurrence(s, p) == i,
{
    let c = last_occurrence(s, p);
    assert(occurs_at(s, p, c) && forall|j: int| c < j ==> !occurs_at(s, p, j));
    if c < i {
        assert(!occurs_at(s, p, i));
    } else if c > i {
        assert(!occurs_at(s, p, c));
    }
}

/// If `line` ends with the ` [repeated Nx]` marker [`collapse`] appends, returns the line
/// without it; otherwise returns `line` unchanged.
#[verifier::loop_isolation(false)]
pub fn strip_marker(line: &str) -> (r: &str)
    ensures
        r@ == strip_marker_spec(line@),
{
    let chars = chars_of(line);
    let prefix = chars_of(" [repeated ");
    let idx = match rfind_exec(&chars, &prefix) {
        Some(idx) => idx,
        None => return line,
    };
    proof {
        lemma_last_occurrence(chars@, prefix@, idx as int);
    }
    assert(occurs_at(chars@, prefix@, idx as int));
    assert(idx + prefix@.len() <= chars@.len());
    let plen = prefix.len();
    assert(idx + plen <= chars.len());
    let rest = slice_chars(&chars, idx + plen, chars.len());
    if !ends_with_str(&rest, "x]") {
        return line;
    }
    proof {
        reveal_strlit("x]");
    }
    let mut k: usize = 0;
    let dlen = rest.len() - 2;
    while k < dlen
        invariant
            dlen == rest@.len() - 2,
            k <= dlen,
            forall|m: int| 0 <= m < k ==> is_digit(#[trigger] rest@[m]),
        decreases dlen - k,
    {
        if !('0' <= rest[k] && rest[k] <= '9') {
            assert(!is_digit(rest@.subrange(0, rest@.len() - 2)[k as int]));
            assert(!all_digits(rest@.subrange(0, rest@.len() - 2)));
            return line;
        }
        k += 1;
    }
    if dlen == 0 {
        return line;
    }
    assert(all_digits(rest@.subrange(0, rest@.len() - 2)));
    line.substring_char(0, idx)
}

proof fn lemma_decimal_digits(n: nat)
    ensures
        decimal(n).len() > 0,
        all_digits(decimal(n)),
    decreases n,
{
    if n >= 10 {
        lemma_decimal_digits(n / 10);
        let d = decimal(n / 10);
        assert forall|i: int| 0 <= i < decimal(n).len() implies #[trigger] is_digit(
            decimal(n)[i],
        ) by {
            if i < d.len() {
                assert(decimal(n)[i] == d[i]);
            }
        }
    }
}

proof fn lemma_no_later_marker(line: Seq<char>, d: Seq<char>)
    requires
        d.len() > 0,
        all_digits(d),
    ensures
        forall|j: int|
            line.len() < j ==> !occurs_at(line + marker_prefix() + d + marker_suffix(), marker_prefix(), j),
{
    reveal_strlit(" [repeated ");
    reveal_strlit("x]");
    let p = marker_prefix();
    let m = line + p + d + marker_suffix();
    let n = line.len() as int;
    assert(p.len() == 11);
    assert forall|j: int| n < j implies !occurs_at(m, p, j) by {
        if occurs_at(m, p, j) {
            let w = m.subrange(j, j + p.len());
            assert(w[0] == p[0]);
            assert(m[j] == ' ');
            if j < n + 10 {
                assert(m[j] == p[j - n]);
            } else if j == n + 10 {
                assert(w[1] == p[1]);
                assert(m[j + 1] == d[0]);
                assert(is_digit(d[0]));
            } else if j < n + 11 + d.len() {
                assert(m[j] == d[j - n - 11]);
                assert(is_digit(d[j - n - 11]));
            } else {
                assert(m[j] == marker_suffix()[j - n - 11 - d.len()]);
            }
        }
    }
}

/// Stripping takes off exactly one trailing marker, whatever its digits: for any line and
/// any nonempty run of ASCII digits `d`, the line with ` [repeated <d>x]` appended strips
/// back to the line.
pub proof fn lemma_strip_marker_removes_marker(line: Seq<char>, d: Seq<char>)
    requires
        d.len() > 0,
        all_digits(d),
    ensures
        strip_marker_spec(line + marker_prefix() + d + marker_suffix()) == line,
{
    reveal_strlit(" [repeated ");
    reveal_strlit("x]");
    let p = marker_prefix();
    let m = line + p + d + marker_suffix();
    let n = line.len() as int;
    assert(m.subrange(n, n + p.len()) == p);
    assert(occurs_at(m, p, n));
    lemma_no_later_marker(line, d);
    lemma_last_occurrence(m, p, n);
    let rest = m.subrange(n + p.len(), m.len() as int);
    assert(rest == d + marker_suffix());
    assert(rest.subrange(rest.len() - 2, rest.len() as int) =~= marker_suffix());
    assert(ends_with(rest, marker_suffix()));
    assert(rest.subrange(0, rest.len() - 2) =~= d);
    assert(m.subrange(0, n) == line);
}

/// For any count `n` -- 0 and 1 included -- `strip_marker(format!("{s} [repeated {n}x]"))`
/// gives back `s`.
pub proof fn lemma_strip_marker_of_count(line: Seq<char>, n: nat)
    ensures
        strip_marker_spec(line + marker_prefix() + decimal(n) + marker_suffix()) == line,
{
    lemma_decimal_digits(n);
    lemma_strip_marker_removes_marker(line, decimal(n));
}

/// Stripping the marker off a collapsed line gives back the line that was repeated:
/// [`strip_marker`] undoes what [`collapse`] appends, whatever the line's own content
/// for a run of two or more; a line that occurred once is left unmarked, so it comes back
/// unchanged unless it already ends in something that reads as a marker.
pub proof fn lemma_strip_marker_undoes_marking(line: Seq<char>, count: nat)
    requires
        count >= 2 || strip_marker_spec(line) == line,
    ensures
        strip_marker_spec(marked(line, count)) == line,
{
    if count >= 2 {
        lemma_strip_marker_of_count(line, count);
    }
}

proof fn lemma_last_occurrence_exists(s: Seq<char>, p: Seq<char>, i: int)
    requires
        occurs_at(s, p, i),
    ensures
        occurs_at(s, p, last_occurrence(s, p)),
        forall|j: int| last_occurrence(s, p) < j ==> !occurs_at(s, p, j),
    decreases s.len() - i,
{
    if forall|j: int| i < j ==> !occurs_at(s, p, j) {
        lemma_last_occurrence(s, p, i);
    } else {
        let j = choose|j: int| i < j && occurs_at(s, p, j);
        lemma_last_occurrence_exists(s, p, j);
    }
}

/// What stripping leaves is always a head of the line: the line itself, or the line with
/// one trailing ` [repeated <d>x]` taken off, `d` a nonempty run of ASCII digits.
pub proof fn lemma_strip_marker_shape(line: Seq<char>)
    ensures
        strip_marker_spec(line).len() <= line.len(),
        line.take(strip_marker_spec(line).len() as int) == strip_marker_spec(line),
        strip_marker_spec(line) == line || exists|d: Seq<char>|
            d.len() > 0 && all_digits(d) && line == strip_marker_spec(line) + marker_prefix() + d + marker_suffix(),
{
    reveal_strlit("x]");
    let p = marker_prefix();
    if contains(line, p) {
        let i = choose|i: int| occurs_at(line, p, i);
        lemma_last_occurrence_exists(line, p, i);
        let idx = last_occurrence(line, p);
        let rest = line.subrange(idx + p.len(), line.len() as int);
        if ends_with(rest, marker_suffix()) {
            let digits = rest.subrange(0, rest.len() - 2);
            if digits.len() > 0 && all_digits(digits) {
                let head = line.subrange(0, idx);
                assert(line.subrange(idx, idx + p.len()) == p);
                assert(rest.subrange(rest.len() - 2, rest.len() as int) == marker_suffix());
                assert(rest =~= digits + marker_suffix());
                assert(line == head + p + digits + marker_suffix());
                assert(line.take(head.len() as int) == head);
            }
        }
    }
}

/// Collapses runs of exactly-repeated consecutive lines into `<line> [repeated Nx]`.
pub fn collapse(lines: Vec<String>) -> (out: Vec<String>)
    ensures
        out.deep_view() == collapse_spec(lines.deep_view()),
{
    let ghost s = lines.deep_view();
    let mut out: Vec<String> = Vec::new();
    let mut i: usize = 0;
    while i < lines.len()
        invariant
            s == lines.deep_view(),
            i <= lines.len(),
            collapse_spec(s) == out.deep_view() + collapse_from(s, i as int),
        decreases lines.len() - i,
    {
        let mut j = i + 1;
        while j < lines.len() && lines[j] == lines[i]
            invariant
                s == lines.deep_view(),
                i < j <= lines.len(),
                forall|k: int| i <= k < j ==> s[k] == s[i as int],
            decreases lines.len() - j,
        {
            assert(s[j as int] == lines[j as int]@);
            j += 1;
        }
        proof {
            lemma_run_end(s, i as int, j as int);
            if j < lines.len() {
                assert(s[j as int] != s[i as int]);
            }
            assert(run_end(s, i as int, j as int) == j);
            lemma_run_end_shift(s, i as int, i + 1, j as int);
        }
        let count = j - i;
        let ghost before = out.deep_view();
        if count >= 2 {
            let mut cs = chars_of(lines[i].as_str());
            push_str(&mut cs, " [repeated ");
            push_decimal(&mut cs, count);
            push_str(&mut cs, "x]");
            out.push(string_of(&cs));
        } else {
            out.push(lines[i].clone());
        }
        assert(out.deep_view() == before.push(marked(s[i as int], count as nat)));
        i = j;
    }
    out
}

proof fn lemma_run_end_shift(s: Seq<Seq<char>>, i: int, j: int, e: int)
    requires
        0 <= i < j <= e <= s.len(),
        forall|k: int| i <= k < e ==> s[k] == s[i],
        e < s.len() ==> s[e] != s[i],
    ensures
        run_end(s, i, j) == e,
    decreases e - j,
{
    if j < e {
        lemma_run_end_shift(s, i, j + 1, e);
    }
}

} // verus!
