//! Usage history: one recorded invocation per entry, persisted as one tab-separated
//! line per entry.
use vstd::prelude::*;

use crate::budget::tokenizer::TokenCounter;
use crate::fastpath::{lines_spec, split_lines};

pub mod line_format;

use crate::text::{all_digits, chars_of, decimal, decimal_chars, decimal_chars_u128, digits_value, eq_str, is_digit, join, join_chars, parse_u128, parse_usize, slice_chars, string_of};
use line_format::{escape, escape_char, is_line_break_or_tab, lemma_digits_value_decimal, lemma_escape_append, lemma_escape_has_no_separator, lemma_parse_decimal, lemma_parse_decimal_u128, lemma_split_join, lemma_unescape_escape, has_no_tab, lemma_last_tab, lemma_last_tab_bounds, last_tab, opt_count_field, opt_text_field, parse_opt_count_field, parse_opt_text_field, split_tabs, unescape};

verus! {

/// One recorded invocation: which verb ran what, when, and (for verbs that compress
/// something) how many tokens it saw going in and rendered going out.
#[derive(Debug, Clone, PartialEq, Eq)]
pub struct UsageEntry {
    pub verb: String,
    pub command: String,
    pub args: Vec<String>,
    pub timestamp_unix_millis: u128,
    pub input_tokens: Option<usize>,
    pub output_tokens: Option<usize>,
    pub cwd: Option<String>,
}

/// The content of a `UsageEntry`, as plain values.
#[verifier::ext_equal]
pub struct EntryView {
    pub verb: Seq<char>,
    pub command: Seq<char>,
    pub args: Seq<Seq<char>>,
    pub timestamp_unix_millis: u128,
    pub input_tokens: Option<usize>,
    pub output_tokens: Option<usize>,
    pub cwd: Option<Seq<char>>,
}

pub open spec fn opt_view(s: Option<String>) -> Option<Seq<char>> {
    match s {
        Some(s) => Some(s@),
        None => None,
    }
}

impl View for UsageEntry {
    type V = EntryView;

    open spec fn view(&self) -> EntryView {
        EntryView {
            verb: self.verb@,
            command: self.command@,
            args: self.args@.map_values(|a: String| a@),
            timestamp_unix_millis: self.timestamp_unix_millis,
            input_tokens: self.input_tokens,
            output_tokens: self.output_tokens,
            cwd: opt_view(self.cwd),
        }
    }
}

/// The fields of an entry's line, in order: timestamp, input tokens, output tokens,
/// working directory, verb, command, then one per argument.
pub open spec fn line_fields(e: EntryView) -> Seq<Seq<char>> {
    seq![
        decimal(e.timestamp_unix_millis as nat),
        opt_count_field(e.input_tokens),
        opt_count_field(e.output_tokens),
        opt_text_field(e.cwd),
        escape(e.verb),
        escape(e.command),
    ] + e.args.map_values(|a: Seq<char>| escape(a))
}

/// An entry's history line: its fields joined by tabs.
pub open spec fn to_line_spec(e: EntryView) -> Seq<char> {
    join(line_fields(e), seq!['\t'])
}

/// The entry a history line describes, or `None` for a line that cannot be read (a
/// partial write from a crash mid-append, say).
pub open spec fn from_line_spec(line: Seq<char>) -> Option<EntryView> {
    let f = split_tabs(line);
    if f.len() < 6 || parse_u128(f[0]) is None {
        None
    } else {
        Some(
            EntryView {
                timestamp_unix_millis: parse_u128(f[0])->0,
                input_tokens: parse_opt_count_field(f[1]),
                output_tokens: parse_opt_count_field(f[2]),
                cwd: parse_opt_text_field(f[3]),
                verb: unescape(f[4]),
                command: unescape(f[5]),
                args: f.skip(6).map_values(|a: Seq<char>| unescape(a)),
            },
        )
    }
}

/// Escapes backslash/tab/newline/carriage-return so a field can never be confused with
/// the tab field-separator or split a logical entry across lines.
fn escape_chars(field: &[char]) -> (r: Vec<char>)
    ensures
        r@ == escape(field@),
{
    let mut out: Vec<char> = Vec::new();
    let mut i: usize = 0;
    while i < field.len()
        invariant
            i <= field.len(),
            out@ == escape(field@.take(i as int)),
        decreases field.len() - i,
    {
        let c = field[i];
        proof {
            lemma_escape_append(field@.take(i as int), seq![c]);
            assert(field@.take(i + 1) == field@.take(i as int) + seq![c]);
            assert(seq![c].drop_first() == Seq::<char>::empty());
            assert(escape(seq![c]) == escape_char(c) + escape(Seq::<char>::empty()));
            assert(escape(seq![c]) == escape_char(c));
        }
        if c == '\\' {
            out.push('\\');
            out.push('\\');
        } else if c == '\t' {
            out.push('\\');
            out.push('t');
        } else if c == '\n' {
            out.push('\\');
            out.push('n');
        } else if c == '\r' {
            out.push('\\');
            out.push('r');
        } else {
            out.push(c);
        }
        assert(out@ == escape(field@.take(i as int)) + escape_char(c));
        i += 1;
    }
    assert(field@.take(field.len() as int) == field@);
    out
}

fn unescape_chars(field: &[char]) -> (r: Vec<char>)
    ensures
        r@ == unescape(field@),
{
    let s = field;
    let mut out: Vec<char> = Vec::new();
    let mut i: usize = 0;
    assert(s@.skip(0) == s@);
    while i < s.len()
        invariant
            i <= s.len(),
            unescape(s@) == out@ + unescape(s@.skip(i as int)),
        decreases s.len() - i,
    {
        let ghost rest = s@.skip(i as int);
        let ghost before = out@;
        let c = s[i];
        if c != '\\' {
            out.push(c);
            assert(rest.drop_first() == s@.skip(i + 1));
            i += 1;
            assert(out@ + unescape(s@.skip(i as int)) == before + unescape(rest));
            continue;
        }
        if i + 1 == s.len() {
            out.push('\\');
            i += 1;
            assert(s@.skip(i as int) == Seq::<char>::empty());
            assert(out@ + unescape(s@.skip(i as int)) == before + unescape(rest));
            continue;
        }
        let next = s[i + 1];
        if next == '\\' {
            out.push('\\');
        } else if next == 't' {
            out.push('\t');
        } else if next == 'n' {
            out.push('\n');
        } else if next == 'r' {
            out.push('\r');
        } else {
            out.push('\\');
            out.push(next);
        }
        assert(rest[1] == next);
        assert(rest.skip(2) == s@.skip(i + 2));
        i += 2;
        assert(out@ + unescape(s@.skip(i as int)) == before + unescape(rest));
    }
    assert(s@.skip(i as int) == Seq::<char>::empty());
    out
}

/// Reads a decimal number as `str::parse::<usize>` does.
pub fn parse_usize_chars(s: &[char]) -> (r: Option<usize>)
    ensures
        r == parse_usize(s@),
{
    let start: usize = if s.len() > 0 && s[0] == '+' { 1 } else { 0 };
    let ghost body = if s@.len() > 0 && s@[0] == '+' { s@.drop_first() } else { s@ };
    assert(body == s@.skip(start as int));
    if start == s.len() {
        return None;
    }
    let mut value: usize = 0;
    let mut i = start;
    while i < s.len()
        invariant
            start <= i <= s.len(),
            start < s.len(),
            body == s@.skip(start as int),
            body == (if s@.len() > 0 && s@[0] == '+' { s@.drop_first() } else { s@ }),
            all_digits(body.take(i - start)),
            value == digits_value(body.take(i - start)),
        decreases s.len() - i,
    {
        let c = s[i];
        let ghost pre = body.take(i - start);
        let ghost nxt = body.take(i + 1 - start);
        assert(nxt.drop_last() == pre);
        assert(nxt.last() == c);
        if !('0' <= c && c <= '9') {
            assert(!is_digit(body[i - start]));
            return None;
        }
        let d = (c as u32 - '0' as u32) as usize;
        assert(d == (c as nat) - ('0' as nat));
        if value > (usize::MAX - d) / 10 {
            proof {
                assert(value * 10 + d > usize::MAX);
                assert(digits_value(nxt) > usize::MAX);
                crate::history::lemma_digits_value_prefix(body, i + 1 - start);
            }
            return None;
        }
        value = value * 10 + d;
        i += 1;
        assert(all_digits(body.take(i - start)));
    }
    assert(body.take(s.len() - start) == body);
    Some(value)
}

/// Reads a decimal number as `str::parse::<u128>` does.
pub fn parse_u128_chars(s: &[char]) -> (r: Option<u128>)
    ensures
        r == parse_u128(s@),
{
    let start: usize = if s.len() > 0 && s[0] == '+' { 1 } else { 0 };
    let ghost body = if s@.len() > 0 && s@[0] == '+' { s@.drop_first() } else { s@ };
    assert(body == s@.skip(start as int));
    if start == s.len() {
        return None;
    }
    let mut value: u128 = 0;
    let mut i = start;
    while i < s.len()
        invariant
            start <= i <= s.len(),
            start < s.len(),
            body == s@.skip(start as int),
            body == (if s@.len() > 0 && s@[0] == '+' { s@.drop_first() } else { s@ }),
            all_digits(body.take(i - start)),
            value == digits_value(body.take(i - start)),
        decreases s.len() - i,
    {
        let c = s[i];
        let ghost pre = body.take(i - start);
        let ghost nxt = body.take(i + 1 - start);
        assert(nxt.drop_last() == pre);
        assert(nxt.last() == c);
        if !('0' <= c && c <= '9') {
            assert(!is_digit(body[i - start]));
            return None;
        }
        let d = (c as u32 - '0' as u32) as u128;
        assert(d == (c as nat) - ('0' as nat));
        if value > (u128::MAX - d) / 10 {
            proof {
                assert(value * 10 + d > u128::MAX);
                assert(digits_value(nxt) > u128::MAX);
                crate::history::lemma_digits_value_prefix(body, i + 1 - start);
            }
            return None;
        }
        value = value * 10 + d;
        i += 1;
        assert(all_digits(body.take(i - start)));
    }
    assert(body.take(s.len() - start) == body);
    Some(value)
}

/// A longer run of digits is worth at least as much as its prefix.
pub proof fn lemma_digits_value_prefix(s: Seq<char>, k: int)
    requires
        0 <= k <= s.len(),
    ensures
        all_digits(s) ==> digits_value(s.take(k)) <= digits_value(s),
    decreases s.len() - k,
{
    if k < s.len() {
        lemma_digits_value_prefix(s, k + 1);
        let t = s.take(k + 1);
        assert(t.drop_last() == s.take(k));
        if all_digits(s) {
            assert(is_digit(s[k]));
            assert(t.last() == s[k]);
        }
    } else {
        assert(s.take(k) == s);
    }
}

/// The pieces of `line` between tabs.
fn split_tab_fields(line: &[char]) -> (r: Vec<Vec<char>>)
    ensures
        r@.map_values(|f: Vec<char>| f@) == split_tabs(line@),
{
    let mut rev_fields: Vec<Vec<char>> = Vec::new();
    let mut end = line.len();
    let mut i = line.len();
    assert(line@.take(line.len() as int) == line@);
    assert(rev_fields@.map_values(|f: Vec<char>| f@).reverse() == Seq::<Seq<char>>::empty());
    while i > 0
        invariant
            i <= end <= line.len(),
            forall|j: int| i <= j < end ==> line@[j] != '\t',
            split_tabs(line@) == split_tabs(line@.take(end as int)) + rev_fields@.map_values(|f: Vec<char>| f@).reverse(),
        decreases i,
    {
        if line[i - 1] == '\t' {
            let ghost t = line@.take(end as int);
            proof {
                lemma_last_tab(t, i - 1);
                assert(t.take(i - 1) == line@.take(i - 1));
            }
            let field = slice_chars(line, i, end);
            assert(t.skip(i as int) == field@);
            let ghost prev = rev_fields@.map_values(|f: Vec<char>| f@);
            rev_fields.push(field);
            assert(rev_fields@.map_values(|f: Vec<char>| f@) == prev.push(field@));
            assert(prev.push(field@).reverse() == seq![field@] + prev.reverse());
            end = i - 1;
        }
        i -= 1;
    }
    proof {
        let t = line@.take(end as int);
        lemma_last_tab_bounds(t);
        if last_tab(t) >= 0 {
            assert(t[last_tab(t)] == '\t');
        }
    }
    let first = slice_chars(line, 0, end);
    let mut fields: Vec<Vec<char>> = Vec::new();
    fields.push(first);
    let mut k = rev_fields.len();
    while k > 0
        invariant
            k <= rev_fields.len(),
            split_tabs(line@) == fields@.map_values(|f: Vec<char>| f@) + rev_fields@.take(k as int).map_values(|f: Vec<char>| f@).reverse(),
        decreases k,
    {
        let ghost before = fields@.map_values(|f: Vec<char>| f@);
        let ghost rt = rev_fields@.take(k as int).map_values(|f: Vec<char>| f@);
        let f = slice_chars(&rev_fields[k - 1], 0, rev_fields[k - 1].len());
        assert(f@ == rev_fields@[k - 1]@);
        fields.push(f);
        k -= 1;
        proof {
            let rt2 = rev_fields@.take(k as int).map_values(|f: Vec<char>| f@);
            assert(rt == rt2.push(f@));
            assert(rt.reverse() == seq![f@] + rt2.reverse());
            assert(fields@.map_values(|f: Vec<char>| f@) == before.push(f@));
        }
    }
    fields
}


pub open spec fn opt_entry_view(o: Option<UsageEntry>) -> Option<EntryView> {
    match o {
        Some(e) => Some(e@),
        None => None,
    }
}

/// The count field of `value`.
fn opt_count_chars(value: Option<usize>) -> (r: Vec<char>)
    ensures
        r@ == opt_count_field(value),
{
    match value {
        Some(n) => decimal_chars(n),
        None => {
            let mut v = Vec::new();
            v.push('-');
            proof {
                reveal_strlit("-");
            }
            v
        },
    }
}

/// The text field of `value`.
fn opt_text_chars(value: &Option<String>) -> (r: Vec<char>)
    ensures
        r@ == opt_text_field(opt_view(*value)),
{
    proof {
        reveal_strlit("-");
        reveal_strlit("\\-");
    }
    match value {
        Some(s) => {
            let cs = chars_of(s.as_str());
            if eq_str(&cs, "-") {
                chars_of("\\-")
            } else {
                escape_chars(&cs)
            }
        },
        None => {
            let mut v = Vec::new();
            v.push('-');
            proof {
                reveal_strlit("-");
            }
            v
        },
    }
}

fn parse_opt_count_chars(field: &[char]) -> (r: Option<usize>)
    ensures
        r == parse_opt_count_field(field@),
{
    if eq_str(field, "-") {
        None
    } else {
        parse_usize_chars(field)
    }
}

fn parse_opt_text_chars(field: &[char]) -> (r: Option<String>)
    ensures
        opt_view(r) == parse_opt_text_field(field@),
{
    proof {
        reveal_strlit("-");
        reveal_strlit("\\-");
    }
    if eq_str(field, "-") {
        None
    } else if eq_str(field, "\\-") {
        Some("-".to_string())
    } else {
        Some(string_of(&unescape_chars(field)))
    }
}

impl UsageEntry {
    /// This entry as one history line, without its line break.
    pub fn to_line(&self) -> (r: String)
        ensures
            r@ == to_line_spec(self@),
    {
        let ghost e = self@;
        let mut fields: Vec<Vec<char>> = Vec::new();
        fields.push(decimal_chars_u128(self.timestamp_unix_millis));
        fields.push(opt_count_chars(self.input_tokens));
        fields.push(opt_count_chars(self.output_tokens));
        fields.push(opt_text_chars(&self.cwd));
        fields.push(escape_chars(&chars_of(self.verb.as_str())));
        fields.push(escape_chars(&chars_of(self.command.as_str())));
        let ghost head = fields@.map_values(|f: Vec<char>| f@);
        assert(head == line_fields(e).take(6));
        let mut i: usize = 0;
        while i < self.args.len()
            invariant
                i <= self.args.len(),
                e == self@,
                fields@.map_values(|f: Vec<char>| f@) == line_fields(e).take(6 + i),
            decreases self.args.len() - i,
        {
            let a = escape_chars(&chars_of(self.args[i].as_str()));
            let ghost before = fields@.map_values(|f: Vec<char>| f@);
            fields.push(a);
            assert(fields@.map_values(|f: Vec<char>| f@) == before.push(a@));
            assert(line_fields(e)[6 + i] == escape(e.args[i as int]));
            assert(line_fields(e).take(6 + i + 1) == line_fields(e).take(6 + i).push(line_fields(e)[6 + i]));
            i += 1;
        }
        assert(line_fields(e).take(6 + self.args.len()) == line_fields(e));
        string_of(&join_chars(&fields, '\t'))
    }

    /// Reads back a line written by `to_line`; `None` for a line that can't be parsed (a
    /// partial write from a crash mid-append, say) rather than an error for the whole read:
    /// one bad line shouldn't make the rest of the history unreadable.
    pub fn from_line(line: &str) -> (r: Option<UsageEntry>)
        ensures
            opt_entry_view(r) == from_line_spec(line@),
    {
        let cs = chars_of(line);
        let f = split_tab_fields(&cs);
        let ghost fs = split_tabs(line@);
        assert(f@.map_values(|x: Vec<char>| x@) == fs);
        if f.len() < 6 {
            return None;
        }
        assert(f[0]@ == fs[0]);
        let timestamp_unix_millis = match parse_u128_chars(&f[0]) {
            Some(t) => t,
            None => return None,
        };
        assert(f[1]@ == fs[1]);
        assert(f[2]@ == fs[2]);
        assert(f[3]@ == fs[3]);
        assert(f[4]@ == fs[4]);
        assert(f[5]@ == fs[5]);
        let input_tokens = parse_opt_count_chars(&f[1]);
        let output_tokens = parse_opt_count_chars(&f[2]);
        let cwd = parse_opt_text_chars(&f[3]);
        let verb = string_of(&unescape_chars(&f[4]));
        let command = string_of(&unescape_chars(&f[5]));
        let mut args: Vec<String> = Vec::new();
        let mut i: usize = 6;
        while i < f.len()
            invariant
                6 <= i <= f.len(),
                fs == f@.map_values(|x: Vec<char>| x@),
                args@.map_values(|a: String| a@) == fs.skip(6).take(i - 6).map_values(|a: Seq<char>| unescape(a)),
            decreases f.len() - i,
        {
            let a = string_of(&unescape_chars(&f[i]));
            let ghost before = args@.map_values(|a: String| a@);
            args.push(a);
            assert(args@.map_values(|a: String| a@) == before.push(a@));
            assert(fs.skip(6).take(i + 1 - 6) == fs.skip(6).take(i - 6).push(fs[i as int]));
            i += 1;
        }
        assert(fs.skip(6).take(f.len() - 6) == fs.skip(6));
        let r = UsageEntry {
            verb,
            command,
            args,
            timestamp_unix_millis,
            input_tokens,
            output_tokens,
            cwd,
        };
        assert(r@ == from_line_spec(line@)->0);
        Some(r)
    }
}


proof fn lemma_count_field_round_trip(value: Option<usize>)
    ensures
        parse_opt_count_field(opt_count_field(value)) == value,
        has_no_tab(opt_count_field(value)),
{
    reveal_strlit("-");
    match value {
        Some(n) => {
            lemma_digits_value_decimal(n as nat);
            lemma_parse_decimal(n);
            let d = decimal(n as nat);
            assert(is_digit(d[0]));
            assert(d != "-"@);
            assert forall|k: int| 0 <= k < d.len() implies d[k] != '\t' by {
                assert(is_digit(d[k]));
            }
        },
        None => {},
    }
}

proof fn lemma_escaped_has_no_tab(s: Seq<char>)
    ensures
        has_no_tab(escape(s)),
{
    lemma_escape_has_no_separator(s);
    assert forall|k: int| 0 <= k < escape(s).len() implies escape(s)[k] != '\t' by {
        assert(!is_line_break_or_tab(escape(s)[k]));
    }
}

proof fn lemma_text_field_round_trip(value: Option<Seq<char>>)
    ensures
        parse_opt_text_field(opt_text_field(value)) == value,
        has_no_tab(opt_text_field(value)),
{
    reveal_strlit("-");
    reveal_strlit("\\-");
    match value {
        Some(s) => {
            lemma_unescape_escape(s);
            lemma_escaped_has_no_tab(s);
            if s == "-"@ {
                let f = "\\-"@;
                assert(f[0] == '\\' && f[1] == '-');
                assert(f != "-"@);
                return;
            }
            if escape(s) == "\\-"@ {
                let e = escape(s);
                assert(s.len() > 0);
                assert(escape(s) == escape_char(s[0]) + escape(s.drop_first()));
                assert(e[0] == escape_char(s[0])[0]);
                if escape_char(s[0]).len() == 1 {
                    assert(e[0] == s[0]);
                    assert(s[0] == '\\');
                    assert(false);
                } else {
                    assert(e[1] == escape_char(s[0])[1]);
                    assert(false);
                }
            }
            if escape(s) == "-"@ {
                let dash = "-"@;
                assert(dash.len() == 1 && dash[0] == '-');
                assert(unescape(dash) == seq!['-'] + unescape(dash.drop_first()));
                assert(dash.drop_first() =~= Seq::<char>::empty());
                assert(unescape(dash) =~= dash);
                assert(false);
            }
        },
        None => {},
    }
}

/// Writing an entry as a history line and reading that line back gives the entry again,
/// whatever its verb, command and arguments hold (tabs, line breaks and backslashes
/// included), and whatever its working directory.
pub proof fn lemma_line_round_trip(e: EntryView)
    ensures
        from_line_spec(to_line_spec(e)) == Some(e),
{
    let fields = line_fields(e);
    lemma_digits_value_decimal(e.timestamp_unix_millis as nat);
    lemma_parse_decimal_u128(e.timestamp_unix_millis);
    lemma_count_field_round_trip(e.input_tokens);
    lemma_count_field_round_trip(e.output_tokens);
    lemma_text_field_round_trip(e.cwd);
    lemma_escaped_has_no_tab(e.verb);
    lemma_escaped_has_no_tab(e.command);
    lemma_unescape_escape(e.verb);
    lemma_unescape_escape(e.command);
    assert forall|k: int| 0 <= k < fields.len() implies has_no_tab(#[trigger] fields[k]) by {
        if k == 0 {
            let d = decimal(e.timestamp_unix_millis as nat);
            assert forall|j: int| 0 <= j < d.len() implies d[j] != '\t' by {
                assert(is_digit(d[j]));
            }
        } else if k >= 6 {
            lemma_escaped_has_no_tab(e.args[k - 6]);
        }
    }
    lemma_split_join(fields);
    let f = split_tabs(to_line_spec(e));
    assert(f == fields);
    let args = f.skip(6).map_values(|a: Seq<char>| unescape(a));
    assert forall|k: int| 0 <= k < e.args.len() implies args[k] == e.args[k] by {
        lemma_unescape_escape(e.args[k]);
    }
    assert(args =~= e.args);
    let r = from_line_spec(to_line_spec(e))->0;
    assert(r =~= e);
}


#[verifier::external_type_specification]
#[verifier::external_body]
pub struct ExSystemTime(std::time::SystemTime);

/// `SystemTime::now`: the clock's current reading. Nothing is promised of it.
#[verifier::external_body]
fn system_now() -> std::time::SystemTime {
    std::time::SystemTime::now()
}

/// `SystemTime::duration_since(UNIX_EPOCH)`: the time elapsed since the epoch, or `None`
/// for a clock set before it. Nothing is promised of the value.
#[verifier::external_body]
fn elapsed_since_epoch(t: &std::time::SystemTime) -> Option<std::time::Duration> {
    match t.duration_since(std::time::UNIX_EPOCH) {
        Ok(d) => Some(d),
        Err(_) => None,
    }
}

/// `Duration::as_millis`: the whole milliseconds of `d`. Nothing is promised of the value.
#[verifier::external_body]
fn duration_millis(d: &std::time::Duration) -> u128 {
    d.as_millis()
}

/// Milliseconds since the Unix epoch by the system clock, 0 for a clock set before it.
fn unix_millis_now() -> u128 {
    match elapsed_since_epoch(&system_now()) {
        Some(d) => duration_millis(&d),
        None => 0,
    }
}

/// A copy of `args`.
fn copy_args(args: &[String]) -> (r: Vec<String>)
    ensures
        r@ == args@,
{
    let mut out: Vec<String> = Vec::new();
    let mut i: usize = 0;
    while i < args.len()
        invariant
            i <= args.len(),
            out@ == args@.take(i as int),
        decreases args.len() - i,
    {
        out.push(args[i].clone());
        i += 1;
        assert(out@ == args@.take(i as int));
    }
    assert(args@.take(args.len() as int) == args@);
    out
}

fn copy_opt_string(s: &Option<String>) -> (r: Option<String>)
    ensures
        r == *s,
{
    match s {
        Some(s) => Some(s.clone()),
        None => None,
    }
}

impl UsageEntry {
    /// An entry for `verb` running `command` with `args`, stamped with the current time,
    /// with no token counts and no working directory.
    pub fn now(verb: &str, command: &str, args: &[String]) -> (r: UsageEntry)
        ensures
            r.verb@ == verb@,
            r.command@ == command@,
            r.args@ == args@,
            r.input_tokens is None,
            r.output_tokens is None,
            r.cwd is None,
    {
        Self::now_with_tokens(verb, command, args, None, None, None)
    }

    /// An entry stamped with the current time, holding everything else it is given.
    pub fn now_with_tokens(
        verb: &str,
        command: &str,
        args: &[String],
        input_tokens: Option<usize>,
        output_tokens: Option<usize>,
        cwd: Option<String>,
    ) -> (r: UsageEntry)
        ensures
            r.verb@ == verb@,
            r.command@ == command@,
            r.args@ == args@,
            r.input_tokens == input_tokens,
            r.output_tokens == output_tokens,
            r.cwd == cwd,
    {
        let timestamp_unix_millis = unix_millis_now();
        UsageEntry {
            verb: verb.to_string(),
            command: command.to_string(),
            args: copy_args(args),
            timestamp_unix_millis,
            input_tokens,
            output_tokens,
            cwd,
        }
    }

    /// A copy of this entry, field for field.
    pub fn duplicate(&self) -> (r: UsageEntry)
        ensures
            r@ == self@,
    {
        UsageEntry {
            verb: self.verb.clone(),
            command: self.command.clone(),
            args: copy_args(&self.args),
            timestamp_unix_millis: self.timestamp_unix_millis,
            input_tokens: self.input_tokens,
            output_tokens: self.output_tokens,
            cwd: copy_opt_string(&self.cwd),
        }
    }
}

/// A history file's entries: one per line that reads back as an entry, in file order;
/// lines that cannot be read are skipped.
pub open spec fn entries_of_text(text: Seq<char>) -> Seq<EntryView> {
    lines_spec(text).filter_map(|l: Seq<char>| from_line_spec(l))
}

/// Reads the entries out of a history file's text, skipping lines that cannot be read.
pub fn entries_from_text(text: &str) -> (r: Vec<UsageEntry>)
    ensures
        r@.map_values(|e: UsageEntry| e@) == entries_of_text(text@),
{
    let lines = split_lines(text);
    let ghost ls = lines_spec(text@);
    assert(lines@.map_values(|l: String| l@) == ls);
    let mut out: Vec<UsageEntry> = Vec::new();
    let mut i: usize = 0;
    while i < lines.len()
        invariant
            i <= lines.len(),
            ls == lines@.map_values(|l: String| l@),
            out@.map_values(|e: UsageEntry| e@) == ls.take(i as int).filter_map(
                |l: Seq<char>| from_line_spec(l),
            ),
        decreases lines.len() - i,
    {
        let parsed = UsageEntry::from_line(lines[i].as_str());
        let ghost before = out@.map_values(|e: UsageEntry| e@);
        proof {
            ls.lemma_filter_map_take_succ(|l: Seq<char>| from_line_spec(l), i as int);
        }
        match parsed {
            Some(e) => {
                out.push(e);
                assert(out@.map_values(|e: UsageEntry| e@) == before.push(e@));
            },
            None => {},
        }
        i += 1;
    }
    assert(ls.take(lines.len() as int) == ls);
    out
}

/// Where usage entries are kept. A store that keeps a record (`keeps_record`) has in
/// `recorded` what it holds, oldest first. One the library does not model (the history
/// file) leaves both at their defaults: no record, and nothing in it.
pub trait HistoryStore {
    open spec fn keeps_record(&self) -> bool {
        false
    }

    open spec fn recorded(&self) -> Seq<EntryView> {
        Seq::empty()
    }

    /// The store never fails a call (an in-memory store); one the library does not model
    /// leaves this at its default, no such promise.
    open spec fn always_succeeds(&self) -> bool {
        false
    }

    /// Adds `entry` after everything recorded so far; a failed write records nothing.
    fn record(&mut self, entry: &UsageEntry) -> (r: Result<(), String>)
        ensures
            final(self).keeps_record() == old(self).keeps_record(),
            final(self).always_succeeds() == old(self).always_succeeds(),
            old(self).always_succeeds() ==> r is Ok,
            final(self).recorded() == if old(self).keeps_record() && r is Ok {
                old(self).recorded().push(entry@)
            } else {
                old(self).recorded()
            },
    ;

    /// All recorded entries, oldest first. A store with nothing recorded yet returns an
    /// empty `Vec`, not an error.
    fn read_all(&self) -> (r: Result<Vec<UsageEntry>, String>)
        ensures
            self.keeps_record() ==> (r matches Ok(v) ==> v@.map_values(|e: UsageEntry| e@) == self.recorded()),
            self.always_succeeds() ==> r is Ok,
    ;

    /// Clears every recorded entry.
    fn reset(&mut self) -> (r: Result<(), String>)
        ensures
            final(self).keeps_record() == old(self).keeps_record(),
            final(self).always_succeeds() == old(self).always_succeeds(),
            old(self).always_succeeds() ==> r is Ok,
            old(self).keeps_record() && r is Ok ==> final(self).recorded() == Seq::<EntryView>::empty(),
            !old(self).keeps_record() ==> final(self).recorded() == old(self).recorded(),
    ;
}

/// Test double for [`HistoryStore`]: records entries in memory instead of writing to disk.
pub struct FakeHistoryStore {
    entries: Vec<UsageEntry>,
}

impl FakeHistoryStore {
    pub fn new() -> (r: FakeHistoryStore)
        ensures
            r.recorded() == Seq::<EntryView>::empty(),
    {
        FakeHistoryStore { entries: Vec::new() }
    }

    /// A copy of everything recorded, oldest first.
    pub fn entries(&self) -> (r: Vec<UsageEntry>)
        ensures
            r@.map_values(|e: UsageEntry| e@) == self.recorded(),
    {
        let mut out: Vec<UsageEntry> = Vec::new();
        let mut i: usize = 0;
        while i < self.entries.len()
            invariant
                i <= self.entries.len(),
                out@.map_values(|e: UsageEntry| e@) == self.entries@.take(i as int).map_values(
                    |e: UsageEntry| e@,
                ),
            decreases self.entries.len() - i,
        {
            let ghost before = out@.map_values(|e: UsageEntry| e@);
            let e = self.entries[i].duplicate();
            out.push(e);
            assert(out@.map_values(|e: UsageEntry| e@) == before.push(e@));
            assert(self.entries@.take(i + 1) == self.entries@.take(i as int).push(self.entries@[i as int]));
            i += 1;
        }
        assert(self.entries@.take(self.entries.len() as int) == self.entries@);
        out
    }
}

impl HistoryStore for FakeHistoryStore {
    open spec fn keeps_record(&self) -> bool {
        true
    }

    open spec fn always_succeeds(&self) -> bool {
        true
    }

    closed spec fn recorded(&self) -> Seq<EntryView> {
        self.entries@.map_values(|e: UsageEntry| e@)
    }

    fn record(&mut self, entry: &UsageEntry) -> (r: Result<(), String>) {
        let e = entry.duplicate();
        self.entries.push(e);
        assert(self.entries@.map_values(|e: UsageEntry| e@) == old(self).entries@.map_values(|e: UsageEntry| e@).push(e@));
        Ok(())
    }

    fn read_all(&self) -> (r: Result<Vec<UsageEntry>, String>) {
        Ok(self.entries())
    }

    fn reset(&mut self) -> (r: Result<(), String>) {
        self.entries = Vec::new();
        assert(self.entries@.map_values(|e: UsageEntry| e@) == Seq::<EntryView>::empty());
        Ok(())
    }
}

/// A fake store that entries are recorded on one after another, starting fresh, holds
/// exactly those entries, oldest first, none lost or reordered: `stores[i]` is the store
/// after the first `i` calls, each `record` appending its entry (as its contract says), and
/// the last store's `entries()` and `read_all()` (which give back what it recorded) are
/// then `es`.
pub proof fn lemma_fake_history_keeps_every_entry_in_order(stores: Seq<FakeHistoryStore>, es: Seq<EntryView>)
    requires
        stores.len() == es.len() + 1,
        stores[0].recorded() == Seq::<EntryView>::empty(),
        forall|i: int| 0 <= i < es.len() ==> #[trigger] stores[i + 1].recorded() == stores[i].recorded().push(es[i]),
    ensures
        forall|i: int| 0 <= i < stores.len() ==> #[trigger] stores[i].recorded() == es.take(i),
        stores.last().recorded() == es,
    decreases es.len(),
{
    if es.len() > 0 {
        let n = es.len() - 1;
        lemma_fake_history_keeps_every_entry_in_order(stores.drop_last(), es.drop_last());
        assert forall|i: int| 0 <= i < stores.len() implies #[trigger] stores[i].recorded() == es.take(i) by {
            if i < stores.len() - 1 {
                assert(stores.drop_last()[i] == stores[i]);
                assert(es.drop_last().take(i) == es.take(i));
            } else {
                assert(stores.drop_last()[n] == stores[n]);
                assert(es.drop_last().take(n) == es.take(n));
                assert(es.take(n).push(es[n]) == es.take(n + 1));
            }
        }
        assert(es.take(es.len() as int) == es);
    } else {
        assert(es.take(0) == es);
    }
}

/// Counts `input`/`output` with `counter` and records the result against `history`, run
/// from the working directory `cwd`. The one place every compressing verb reports its
/// savings, so `stk gain` has real data regardless of which verb produced it. A failed
/// write is ignored: the history either stays as it was or gains exactly that entry.
pub fn record_savings<H: HistoryStore, C: TokenCounter>(
    history: &mut H,
    counter: &C,
    verb: &str,
    command: &str,
    args: &[String],
    input: &str,
    output: &str,
    cwd: Option<String>,
)
    ensures
        final(history).keeps_record() == old(history).keeps_record(),
        final(history).always_succeeds() == old(history).always_succeeds(),
        final(history).recorded() == old(history).recorded() || (
        final(history).recorded().drop_last() == old(history).recorded()
            && final(history).recorded().len() == old(history).recorded().len() + 1
            && savings_entry(final(history).recorded().last(), counter, verb@, command@, args@, input@, output@, opt_view(cwd))),
        old(history).keeps_record() && old(history).always_succeeds() ==> (
        final(history).recorded().drop_last() == old(history).recorded()
            && final(history).recorded().len() == old(history).recorded().len() + 1
            && savings_entry(final(history).recorded().last(), counter, verb@, command@, args@, input@, output@, opt_view(cwd))),
{
    let input_tokens = counter.count(input);
    let output_tokens = counter.count(output);
    let entry = UsageEntry::now_with_tokens(
        verb,
        command,
        args,
        Some(input_tokens),
        Some(output_tokens),
        cwd,
    );
    let _ = history.record(&entry);
}

/// `e` is the entry `record_savings` writes for these arguments, at whatever time.
pub open spec fn savings_entry<C: TokenCounter>(
    e: EntryView,
    counter: &C,
    verb: Seq<char>,
    command: Seq<char>,
    args: Seq<String>,
    input: Seq<char>,
    output: Seq<char>,
    cwd: Option<Seq<char>>,
) -> bool {
    &&& e.verb == verb
    &&& e.command == command
    &&& e.args == args.map_values(|a: String| a@)
    &&& e.input_tokens == Some(counter.spec_count(input) as usize)
    &&& e.output_tokens == Some(counter.spec_count(output) as usize)
    &&& e.cwd == cwd
}

} // verus!
