//! The tab-separated line format of the usage history: field escaping and the
//! splitting and joining of fields.
use vstd::prelude::*;

use crate::text::{decimal, join, parse_u128, parse_usize};

verus! {

/// The escaped form of one character: backslash, tab, newline and carriage return
/// become two-character escapes; everything else stands for itself.
pub open spec fn escape_char(c: char) -> Seq<char> {
    if c == '\\' {
        seq!['\\', '\\']
    } else if c == '\t' {
        seq!['\\', 't']
    } else if c == '\n' {
        seq!['\\', 'n']
    } else if c == '\r' {
        seq!['\\', 'r']
    } else {
        seq![c]
    }
}

/// `s` with every character escaped, so that it can never be confused with the tab
/// field separator or split a logical entry across lines.
pub open spec fn escape(s: Seq<char>) -> Seq<char>
    decreases s.len(),
{
    if s.len() == 0 {
        Seq::empty()
    } else {
        escape_char(s[0]) + escape(s.drop_first())
    }
}

/// Undoes `escape`; a backslash before any other character (or at the very end) is kept.
pub open spec fn unescape(s: Seq<char>) -> Seq<char>
    decreases s.len(),
{
    if s.len() == 0 {
        Seq::empty()
    } else if s[0] != '\\' {
        seq![s[0]] + unescape(s.drop_first())
    } else if s.len() == 1 {
        seq!['\\']
    } else {
        let decoded = if s[1] == '\\' {
            seq!['\\']
        } else if s[1] == 't' {
            seq!['\t']
        } else if s[1] == 'n' {
            seq!['\n']
        } else if s[1] == 'r' {
            seq!['\r']
        } else {
            seq!['\\', s[1]]
        };
        decoded + unescape(s.skip(2))
    }
}

pub open spec fn is_line_break_or_tab(c: char) -> bool {
    c == '\t' || c == '\n' || c == '\r'
}

pub proof fn lemma_escape_append(a: Seq<char>, b: Seq<char>)
    ensures
        escape(a + b) == escape(a) + escape(b),
    decreases a.len(),
{
    if a.len() > 0 {
        lemma_escape_append(a.drop_first(), b);
        assert((a + b).drop_first() == a.drop_first() + b);
    } else {
        assert(a + b == b);
    }
}

/// Unescaping an escaped field gives the field back, whatever it holds.
pub proof fn lemma_unescape_escape(s: Seq<char>)
    ensures
        unescape(escape(s)) == s,
    decreases s.len(),
{
    if s.len() > 0 {
        lemma_unescape_escape(s.drop_first());
        let c = s[0];
        let rest = escape(s.drop_first());
        let e = escape_char(c) + rest;
        assert(escape(s) == e);
        if c == '\\' || c == '\t' || c == '\n' || c == '\r' {
            assert(e.skip(2) == rest);
        } else {
            assert(e.drop_first() == rest);
        }
        assert(s == seq![c] + s.drop_first());
    }
}

/// An escaped field holds no tab, newline or carriage return.
pub proof fn lemma_escape_has_no_separator(s: Seq<char>)
    ensures
        forall|k: int| 0 <= k < escape(s).len() ==> !is_line_break_or_tab(#[trigger] escape(s)[k]),
    decreases s.len(),
{
    if s.len() > 0 {
        lemma_escape_has_no_separator(s.drop_first());
        let e = escape_char(s[0]);
        assert forall|k: int| 0 <= k < escape(s).len() implies !is_line_break_or_tab(#[trigger] escape(s)[k]) by {
            if k >= e.len() {
                assert(escape(s)[k] == escape(s.drop_first())[k - e.len()]);
            }
        }
    }
}

/// The position of the last tab of `s`, or -1 when it has none.
pub open spec fn last_tab(s: Seq<char>) -> int
    decreases s.len(),
{
    if s.len() == 0 {
        -1
    } else if s.last() == '\t' {
        s.len() - 1
    } else {
        last_tab(s.drop_last())
    }
}

pub proof fn lemma_last_tab_bounds(s: Seq<char>)
    ensures
        -1 <= last_tab(s) < s.len(),
        last_tab(s) >= 0 ==> s[last_tab(s)] == '\t',
        forall|j: int| last_tab(s) < j < s.len() ==> s[j] != '\t',
    decreases s.len(),
{
    if s.len() > 0 && s.last() != '\t' {
        lemma_last_tab_bounds(s.drop_last());
        assert forall|j: int| last_tab(s) < j < s.len() implies s[j] != '\t' by {
            if j < s.len() - 1 {
                assert(s[j] == s.drop_last()[j]);
            }
        }
    }
}

pub proof fn lemma_last_tab(s: Seq<char>, i: int)
    requires
        0 <= i < s.len(),
        s[i] == '\t',
        forall|j: int| i < j < s.len() ==> s[j] != '\t',
    ensures
        last_tab(s) == i,
{
    lemma_last_tab_bounds(s);
    if last_tab(s) < i {
        assert(s[i] != '\t');
    } else if last_tab(s) > i {
        assert(s[last_tab(s)] != '\t');
    }
}

/// The pieces of `s` between tab characters (`str::split('\t')`): never empty, one more
/// piece than there are tabs.
pub open spec fn split_tabs(s: Seq<char>) -> Seq<Seq<char>>
    decreases s.len(),
{
    let i = last_tab(s);
    proof {
        lemma_last_tab_bounds(s);
    }
    if i >= 0 {
        split_tabs(s.take(i)).push(s.skip(i + 1))
    } else {
        seq![s]
    }
}

pub open spec fn has_no_tab(s: Seq<char>) -> bool {
    forall|k: int| 0 <= k < s.len() ==> s[k] != '\t'
}

/// Splitting a tab-joined list of tab-free fields gives the fields back.
pub proof fn lemma_split_join(parts: Seq<Seq<char>>)
    requires
        parts.len() >= 1,
        forall|k: int| 0 <= k < parts.len() ==> has_no_tab(#[trigger] parts[k]),
    ensures
        split_tabs(join(parts, seq!['\t'])) == parts,
    decreases parts.len(),
{
    if parts.len() == 1 {
        let s = join(parts, seq!['\t']);
        assert(s == parts[0]);
        assert(has_no_tab(parts[0]));
        lemma_last_tab_bounds(s);
        if last_tab(s) >= 0 {
            assert(s[last_tab(s)] == '\t');
        }
        assert(seq![s] == parts);
    } else {
        let init = parts.drop_last();
        let a = join(init, seq!['\t']);
        let s = join(parts, seq!['\t']);
        let last = parts.last();
        assert(s == a + seq!['\t'] + last);
        let i = a.len() as int;
        assert(s[i] == '\t');
        assert forall|j: int| i < j < s.len() implies s[j] != '\t' by {
            assert(s[j] == last[j - i - 1]);
            assert(has_no_tab(parts[parts.len() - 1]));
        }
        lemma_last_tab(s, i);
        assert(s.take(i) == a);
        assert(s.skip(i + 1) == last);
        assert forall|k: int| 0 <= k < init.len() implies has_no_tab(#[trigger] init[k]) by {
            assert(init[k] == parts[k]);
        }
        lemma_split_join(init);
        assert(init.push(last) == parts);
    }
}

/// A count field: `-` for none, its decimal digits otherwise.
pub open spec fn opt_count_field(value: Option<usize>) -> Seq<char> {
    match value {
        Some(n) => decimal(n as nat),
        None => "-"@,
    }
}

/// Reads a count field back: `-` is none, anything else that does not parse is none too.
pub open spec fn parse_opt_count_field(field: Seq<char>) -> Option<usize> {
    if field == "-"@ {
        None
    } else {
        parse_usize(field)
    }
}

/// An optional text field: `-` for none, the escaped text otherwise, except that a text
/// that is `-` itself is written `\-` so that it cannot be taken for none.
pub open spec fn opt_text_field(value: Option<Seq<char>>) -> Seq<char> {
    match value {
        Some(s) => if s == "-"@ { "\\-"@ } else { escape(s) },
        None => "-"@,
    }
}

/// Reads an optional text field back: `-` is none, `\-` the text `-`, anything else the
/// unescaped text.
pub open spec fn parse_opt_text_field(field: Seq<char>) -> Option<Seq<char>> {
    if field == "-"@ {
        None
    } else if field == "\\-"@ {
        Some("-"@)
    } else {
        Some(unescape(field))
    }
}

proof fn lemma_digit_char_value(d: nat)
    requires
        d < 10,
    ensures
        (crate::text::digit_char(d) as nat) - ('0' as nat) == d,
        crate::text::is_digit(crate::text::digit_char(d)),
{
}

pub proof fn lemma_digits_value_decimal(n: nat)
    ensures
        crate::text::all_digits(decimal(n)),
        decimal(n).len() > 0,
        crate::text::digits_value(decimal(n)) == n,
        decimal(n)[0] != '+',
    decreases n,
{
    lemma_digit_char_value(n % 10);
    if n >= 10 {
        lemma_digits_value_decimal(n / 10);
        let d = decimal(n / 10);
        let e = decimal(n);
        assert(e.drop_last() == d);
        assert forall|i: int| 0 <= i < e.len() implies #[trigger] crate::text::is_digit(e[i]) by {
            if i < d.len() {
                assert(e[i] == d[i]);
            }
        }
        assert(e[0] == d[0]);
        assert(e.last() == crate::text::digit_char(n % 10));
        assert(crate::text::digits_value(e) == crate::text::digits_value(d) * 10 + (n % 10));
        assert(crate::text::digits_value(e) == n);
    } else {
        let e = decimal(n);
        assert(e.drop_last() =~= Seq::<char>::empty());
        assert(e.last() == crate::text::digit_char(n));
        assert(crate::text::digits_value(e.drop_last()) == 0);
        assert(crate::text::digits_value(e) == n);
    }
}

/// A number written in decimal reads back as itself.
pub proof fn lemma_parse_decimal(n: usize)
    ensures
        parse_usize(decimal(n as nat)) == Some(n),
{
    lemma_digits_value_decimal(n as nat);
}

pub proof fn lemma_parse_decimal_u128(n: u128)
    ensures
        parse_u128(decimal(n as nat)) == Some(n),
{
    lemma_digits_value_decimal(n as nat);
}

} // verus!
