//! `stk gain`'s report in its three formats (text, JSON, CSV), as a list of pieces: text,
//! and the percentages, which are floating point and printed by the caller.
use vstd::prelude::*;

use crate::history::{EntryView, UsageEntry};
use crate::text::{chars_of, decimal, decimal_chars_u128, extend_chars, push_decimal, push_str, string_of};
use crate::verbs::gain::{count_of, csv_field, csv_field_spec, entry_views, group_by, group_views, groups_spec, all_keyable, summarize, sum_input, sum_output, GroupKey, Options, OptionsView};

verus! {

/// A piece of the report: text, or the percentage `part / whole * 100` (0 when `whole` is
/// 0) printed with `places` decimals.
pub enum Piece {
    Text(String),
    Percent { part: u128, whole: u128, places: usize },
}

/// The content of a `Piece`, as plain values.
pub enum PieceView {
    Text(Seq<char>),
    Percent { part: u128, whole: u128, places: usize },
}

impl View for Piece {
    type V = PieceView;

    open spec fn view(&self) -> PieceView {
        match self {
            Piece::Text(s) => PieceView::Text(s@),
            Piece::Percent { part, whole, places } => PieceView::Percent { part: *part, whole: *whole, places: *places },
        }
    }
}

pub open spec fn pieces_view(ps: Seq<Piece>) -> Seq<PieceView> {
    ps.map_values(|p: Piece| p@)
}

pub open spec fn text(s: Seq<char>) -> Seq<PieceView> {
    seq![PieceView::Text(s)]
}

pub open spec fn percent(part: nat, whole: nat, places: usize) -> Seq<PieceView> {
    seq![PieceView::Percent { part: part as u128, whole: whole as u128, places }]
}

/// `n` copies of `c`.
pub open spec fn rule(c: char, n: nat) -> Seq<char> {
    Seq::new(n, |i: int| c)
}

/// `s` padded with spaces on the right to `width` characters (`{:<width}`).
pub open spec fn pad_right(s: Seq<char>, width: nat) -> Seq<char> {
    if s.len() < width { s + rule(' ', (width - s.len()) as nat) } else { s }
}

/// `s` padded with spaces on the left to `width` characters (`{:>width}`).
pub open spec fn pad_left(s: Seq<char>, width: nat) -> Seq<char> {
    if s.len() < width { rule(' ', (width - s.len()) as nat) + s } else { s }
}

/// What was saved: what went in less what came out, or nothing when more came out.
pub open spec fn saved_of(input: nat, output: nat) -> nat {
    if input >= output { (input - output) as nat } else { 0 }
}

fn push_rule(out: &mut Vec<char>, c: char, n: usize)
    ensures
        final(out)@ == old(out)@ + rule(c, n as nat),
{
    let mut i: usize = 0;
    while i < n
        invariant
            i <= n,
            out@ == old(out)@ + rule(c, i as nat),
        decreases n - i,
    {
        out.push(c);
        i += 1;
        assert(out@ =~= old(out)@ + rule(c, i as nat));
    }
}

fn push_pad_right(out: &mut Vec<char>, s: &[char], width: usize)
    ensures
        final(out)@ == old(out)@ + pad_right(s@, width as nat),
{
    extend_chars(out, s);
    if s.len() < width {
        push_rule(out, ' ', width - s.len());
    }
}

fn push_pad_left(out: &mut Vec<char>, s: &[char], width: usize)
    ensures
        final(out)@ == old(out)@ + pad_left(s@, width as nat),
{
    if s.len() < width {
        push_rule(out, ' ', width - s.len());
    }
    extend_chars(out, s);
}

fn push_text(pieces: &mut Vec<Piece>, s: &[char])
    ensures
        pieces_view(final(pieces)@) == pieces_view(old(pieces)@) + text(s@),
{
    let ghost before = pieces_view(pieces@);
    pieces.push(Piece::Text(string_of(s)));
    assert(pieces_view(pieces@) =~= before + text(s@));
}

fn push_percent(pieces: &mut Vec<Piece>, part: u128, whole: u128, places: usize)
    ensures
        pieces_view(final(pieces)@) == pieces_view(old(pieces)@) + percent(part as nat, whole as nat, places),
{
    let ghost before = pieces_view(pieces@);
    pieces.push(Piece::Percent { part, whole, places });
    assert(pieces_view(pieces@) =~= before + percent(part as nat, whole as nat, places));
}

/// The report's title, and the scope for a project-scoped report.
pub open spec fn header(project_scope: bool, cwd: Option<Seq<char>>) -> Seq<PieceView> {
    if project_scope {
        text(
            "STK Token Savings (Project Scope)\nScope: "@ + (match cwd {
                Some(c) => c,
                None => "?"@,
            }) + "\n"@,
        )
    } else {
        text("STK Token Savings (Global Scope)\n"@)
    }
}

/// The overall totals.
pub open spec fn totals_lines(es: Seq<EntryView>) -> Seq<PieceView> {
    let input = sum_input(es);
    let saved = saved_of(input, sum_output(es));
    text(
        rule('=', 50) + "\n\nTotal commands:  "@ + decimal(es.len()) + "\nInput tokens:    "@ + decimal(input)
            + "\nOutput tokens:   "@ + decimal(sum_output(es)) + "\nTokens saved:    "@ + decimal(saved) + " ("@,
    ) + percent(saved, input, 1) + text("%)\n"@)
}

/// One command's line in the per-command table.
pub open spec fn command_line(name: Seq<char>, group: Seq<EntryView>) -> Seq<PieceView> {
    let input = sum_input(group);
    let saved = saved_of(input, sum_output(group));
    text("  "@ + pad_right(name, 30) + " "@ + pad_left(decimal(group.len()), 5) + "  "@ + pad_left(decimal(saved), 6) + " ("@)
        + percent(saved, input, 1) + text("%)\n"@)
}

pub open spec fn command_lines(groups: Seq<(Seq<char>, Seq<EntryView>)>) -> Seq<PieceView>
    decreases groups.len(),
{
    if groups.len() == 0 {
        Seq::empty()
    } else {
        command_lines(groups.drop_last()) + command_line(groups.last().0, groups.last().1)
    }
}

/// The per-command table.
pub open spec fn command_table(es: Seq<EntryView>) -> Seq<PieceView> {
    text("\nBy Command\n"@ + rule('-', 60) + "\n"@) + command_lines(groups_spec(es, GroupKey::Command))
}

fn header_pieces(pieces: &mut Vec<Piece>, project_scope: bool, cwd: &Option<String>)
    ensures
        pieces_view(final(pieces)@) == pieces_view(old(pieces)@) + header(project_scope, crate::history::opt_view(*cwd)),
{
    if project_scope {
        let mut t = chars_of("STK Token Savings (Project Scope)\nScope: ");
        match cwd {
            Some(c) => push_str(&mut t, c.as_str()),
            None => push_str(&mut t, "?"),
        }
        push_str(&mut t, "\n");
        push_text(pieces, &t);
    } else {
        push_text(pieces, &chars_of("STK Token Savings (Global Scope)\n"));
    }
}

fn totals_pieces(pieces: &mut Vec<Piece>, entries: &[UsageEntry])
    ensures
        pieces_view(final(pieces)@) == pieces_view(old(pieces)@) + totals_lines(entry_views(entries@)),
{
    let s = summarize(entries);
    let mut t: Vec<char> = Vec::new();
    push_rule(&mut t, '=', 50);
    push_str(&mut t, "\n\nTotal commands:  ");
    push_decimal(&mut t, s.commands);
    push_str(&mut t, "\nInput tokens:    ");
    extend_chars(&mut t, &decimal_chars_u128(s.input));
    push_str(&mut t, "\nOutput tokens:   ");
    extend_chars(&mut t, &decimal_chars_u128(s.output));
    push_str(&mut t, "\nTokens saved:    ");
    extend_chars(&mut t, &decimal_chars_u128(s.saved));
    push_str(&mut t, " (");
    push_text(pieces, &t);
    push_percent(pieces, s.saved, s.input, 1);
    push_text(pieces, &chars_of("%)\n"));
}

fn command_line_pieces(pieces: &mut Vec<Piece>, name: &str, group: &[UsageEntry])
    ensures
        pieces_view(final(pieces)@) == pieces_view(old(pieces)@) + command_line(name@, entry_views(group@)),
{
    let s = summarize(group);
    let mut t = chars_of("  ");
    push_pad_right(&mut t, &chars_of(name), 30);
    push_str(&mut t, " ");
    push_pad_left(&mut t, &crate::text::decimal_chars(s.commands), 5);
    push_str(&mut t, "  ");
    push_pad_left(&mut t, &decimal_chars_u128(s.saved), 6);
    push_str(&mut t, " (");
    push_text(pieces, &t);
    push_percent(pieces, s.saved, s.input, 1);
    push_text(pieces, &chars_of("%)\n"));
}

fn command_table_pieces(pieces: &mut Vec<Piece>, entries: &[UsageEntry])
    ensures
        pieces_view(final(pieces)@) == pieces_view(old(pieces)@) + command_table(entry_views(entries@)),
{
    let mut t = chars_of("\nBy Command\n");
    push_rule(&mut t, '-', 60);
    push_str(&mut t, "\n");
    push_text(pieces, &t);
    proof {
        assert(all_keyable(entry_views(entries@), GroupKey::Command));
    }
    let groups = group_by(entries, GroupKey::Command);
    let ghost gs = group_views(groups@);
    let ghost start = pieces_view(pieces@);
    let mut k: usize = 0;
    while k < groups.len()
        invariant
            k <= groups.len(),
            gs == group_views(groups@),
            pieces_view(pieces@) == start + command_lines(gs.take(k as int)),
        decreases groups.len() - k,
    {
        assert(gs.take(k + 1).drop_last() == gs.take(k as int));
        command_line_pieces(pieces, groups[k].0.as_str(), groups[k].1.as_slice());
        k += 1;
    }
    assert(gs.take(groups.len() as int) == gs);
}


/// What one entry saved.
pub open spec fn entry_saved(e: EntryView) -> nat {
    saved_of(count_of(e.input_tokens), count_of(e.output_tokens))
}

/// `sorted` (newest first) with `e` placed after every entry at least as new as it.
pub open spec fn insert_newest(sorted: Seq<EntryView>, e: EntryView) -> Seq<EntryView>
    decreases sorted.len(),
{
    if sorted.len() == 0 {
        seq![e]
    } else if sorted.last().timestamp_unix_millis >= e.timestamp_unix_millis {
        sorted.push(e)
    } else {
        insert_newest(sorted.drop_last(), e).push(sorted.last())
    }
}

/// `es` newest first; entries recorded at the same moment keep their order.
pub open spec fn newest_first(es: Seq<EntryView>) -> Seq<EntryView>
    decreases es.len(),
{
    if es.len() == 0 {
        Seq::empty()
    } else {
        insert_newest(newest_first(es.drop_last()), es.last())
    }
}

/// `s` back to front.
pub open spec fn rev<T>(s: Seq<T>) -> Seq<T>
    decreases s.len(),
{
    if s.len() == 0 {
        Seq::empty()
    } else {
        seq![s.last()] + rev(s.drop_last())
    }
}

pub open spec fn recent_line(e: EntryView) -> Seq<PieceView> {
    text("  "@ + decimal((e.timestamp_unix_millis / 1000) as nat) + " "@ + pad_right(crate::verbs::gain::display_name_spec(e), 30) + " "@)
        + percent(entry_saved(e), count_of(e.input_tokens), 0) + text("%\n"@)
}

pub open spec fn recent_lines(es: Seq<EntryView>) -> Seq<PieceView>
    decreases es.len(),
{
    if es.len() == 0 { Seq::empty() } else { recent_lines(es.drop_last()) + recent_line(es.last()) }
}

/// The twenty newest entries, each with what it saved.
pub open spec fn recent_section(es: Seq<EntryView>) -> Seq<PieceView> {
    let sorted = newest_first(es);
    text("\nRecent Commands\n"@ + rule('-', 60) + "\n"@) + recent_lines(
        sorted.take(if sorted.len() < 20 { sorted.len() as int } else { 20 }),
    )
}

fn newest_first_entries(entries: &[UsageEntry]) -> (r: Vec<UsageEntry>)
    ensures
        entry_views(r@) == newest_first(entry_views(entries@)),
{
    let ghost es = entry_views(entries@);
    let mut out: Vec<UsageEntry> = Vec::new();
    let mut i: usize = 0;
    while i < entries.len()
        invariant
            i <= entries.len(),
            es == entry_views(entries@),
            entry_views(out@) == newest_first(es.take(i as int)),
        decreases entries.len() - i,
    {
        assert(es.take(i + 1).drop_last() == es.take(i as int));
        let e = entries[i].duplicate();
        let ghost target = insert_newest(entry_views(out@), e@);
        let mut tail: Vec<UsageEntry> = Vec::new();
        while out.len() > 0 && out[out.len() - 1].timestamp_unix_millis < e.timestamp_unix_millis
            invariant
                target == insert_newest(entry_views(out@), e@) + rev(entry_views(tail@)),
            decreases out.len(),
        {
            let ghost before = entry_views(out@);
            let ghost tb = entry_views(tail@);
            let x = out.pop().unwrap();
            assert(entry_views(out@) == before.drop_last());
            assert(x@ == before.last());
            tail.push(x);
            assert(entry_views(tail@) == tb.push(x@));
            assert(rev(tb.push(x@)).drop_first() == rev(tb)) by {
                assert(tb.push(x@).drop_last() == tb);
            }
            assert(rev(entry_views(tail@)) == seq![x@] + rev(tb)) by {
                assert(entry_views(tail@).drop_last() == tb);
            }
        }
        let ghost tv = entry_views(tail@);
        proof {
            if entry_views(out@).len() > 0 {
                assert(entry_views(out@).last() == out@[out@.len() - 1]@);
            }
        }
        let ghost placed = entry_views(out@).push(e@);
        assert(target == placed + rev(tv));
        out.push(e);
        while tail.len() > 0
            invariant
                target == entry_views(out@) + rev(entry_views(tail@)),
            decreases tail.len(),
        {
            let ghost ob = entry_views(out@);
            let ghost tb = entry_views(tail@);
            let y = tail.pop().unwrap();
            assert(entry_views(tail@) == tb.drop_last());
            assert(y@ == tb.last());
            out.push(y);
            assert(entry_views(out@) == ob.push(y@));
            assert(rev(tb) == seq![y@] + rev(tb.drop_last()));
            assert(ob + rev(tb) == ob.push(y@) + rev(tb.drop_last()));
        }
        assert(entry_views(out@) == target);
        i += 1;
    }
    assert(es.take(entries.len() as int) == es);
    out
}

fn recent_pieces(pieces: &mut Vec<Piece>, entries: &[UsageEntry])
    ensures
        pieces_view(final(pieces)@) == pieces_view(old(pieces)@) + recent_section(entry_views(entries@)),
{
    let mut t = chars_of("\nRecent Commands\n");
    push_rule(&mut t, '-', 60);
    push_str(&mut t, "\n");
    push_text(pieces, &t);
    let sorted = newest_first_entries(entries);
    let ghost sv = entry_views(sorted@);
    let n: usize = if sorted.len() < 20 { sorted.len() } else { 20 };
    let ghost start = pieces_view(pieces@);
    let mut k: usize = 0;
    while k < n
        invariant
            k <= n <= sorted.len(),
            sv == entry_views(sorted@),
            pieces_view(pieces@) == start + recent_lines(sv.take(k as int)),
        decreases n - k,
    {
        assert(sv.take(k + 1).drop_last() == sv.take(k as int));
        let e = &sorted[k];
        let mut line = chars_of("  ");
        extend_chars(&mut line, &decimal_chars_u128(e.timestamp_unix_millis / 1000));
        push_str(&mut line, " ");
        push_pad_right(&mut line, &chars_of(crate::verbs::gain::display_name(e).as_str()), 30);
        push_str(&mut line, " ");
        push_text(pieces, &line);
        let input: u128 = match e.input_tokens { Some(v) => v as u128, None => 0 };
        let output: u128 = match e.output_tokens { Some(v) => v as u128, None => 0 };
        push_percent(pieces, if input >= output { input - output } else { 0 }, input, 0);
        push_text(pieces, &chars_of("%\n"));
        k += 1;
    }
}

pub open spec fn breakdown_line(bucket: Seq<char>, group: Seq<EntryView>) -> Seq<PieceView> {
    let input = sum_input(group);
    let saved = saved_of(input, sum_output(group));
    text("  "@ + pad_right(bucket, 20) + " "@ + pad_left(decimal(group.len()), 5) + " cmds  "@ + pad_left(decimal(saved), 6)
        + " saved  "@) + percent(saved, input, 1) + text("%\n"@)
}

pub open spec fn breakdown_lines(groups: Seq<(Seq<char>, Seq<EntryView>)>) -> Seq<PieceView>
    decreases groups.len(),
{
    if groups.len() == 0 {
        Seq::empty()
    } else {
        breakdown_lines(groups.drop_last()) + breakdown_line(groups.last().0, groups.last().1)
    }
}

/// The entries grouped by calendar bucket (day, week or month), buckets in order.
pub open spec fn breakdown(es: Seq<EntryView>, label: Seq<char>, key: GroupKey) -> Seq<PieceView> {
    text("\n"@ + label + " Breakdown\n"@ + rule('-', 60) + "\n"@) + breakdown_lines(groups_spec(es, key))
}

fn breakdown_pieces(pieces: &mut Vec<Piece>, entries: &[UsageEntry], label: &str, key: GroupKey)
    requires
        all_keyable(entry_views(entries@), key),
    ensures
        pieces_view(final(pieces)@) == pieces_view(old(pieces)@) + breakdown(entry_views(entries@), label@, key),
{
    let mut t = chars_of("\n");
    push_str(&mut t, label);
    push_str(&mut t, " Breakdown\n");
    push_rule(&mut t, '-', 60);
    push_str(&mut t, "\n");
    push_text(pieces, &t);
    let groups = group_by(entries, key);
    let ghost gs = group_views(groups@);
    let ghost start = pieces_view(pieces@);
    let mut k: usize = 0;
    while k < groups.len()
        invariant
            k <= groups.len(),
            gs == group_views(groups@),
            pieces_view(pieces@) == start + breakdown_lines(gs.take(k as int)),
        decreases groups.len() - k,
    {
        assert(gs.take(k + 1).drop_last() == gs.take(k as int));
        let s = summarize(groups[k].1.as_slice());
        let mut line = chars_of("  ");
        push_pad_right(&mut line, &chars_of(groups[k].0.as_str()), 20);
        push_str(&mut line, " ");
        push_pad_left(&mut line, &crate::text::decimal_chars(s.commands), 5);
        push_str(&mut line, " cmds  ");
        push_pad_left(&mut line, &decimal_chars_u128(s.saved), 6);
        push_str(&mut line, " saved  ");
        push_text(pieces, &line);
        push_percent(pieces, s.saved, s.input, 1);
        push_text(pieces, &chars_of("%\n"));
        k += 1;
    }
    assert(gs.take(groups.len() as int) == gs);
}


/// What the entries of `es` saved between them, entry by entry.
pub open spec fn saved_total(es: Seq<EntryView>) -> nat
    decreases es.len(),
{
    if es.len() == 0 { 0 } else { saved_total(es.drop_last()) + entry_saved(es.last()) }
}

proof fn lemma_saved_total_bounded(es: Seq<EntryView>)
    ensures
        saved_total(es) <= es.len() * (usize::MAX as nat),
    decreases es.len(),
{
    if es.len() > 0 {
        lemma_saved_total_bounded(es.drop_last());
        assert(entry_saved(es.last()) <= usize::MAX);
        assert(saved_total(es) <= (es.len() - 1) * (usize::MAX as nat) + usize::MAX) by (nonlinear_arith)
            requires
                saved_total(es.drop_last()) <= (es.len() - 1) * (usize::MAX as nat),
                entry_saved(es.last()) <= usize::MAX,
                saved_total(es) == saved_total(es.drop_last()) + entry_saved(es.last()),
        {
        }
        assert((es.len() - 1) * (usize::MAX as nat) + usize::MAX == es.len() * (usize::MAX as nat)) by (nonlinear_arith);
    }
}

/// The largest day total among `groups`, 0 when there are none.
pub open spec fn max_total(groups: Seq<(Seq<char>, Seq<EntryView>)>) -> nat
    decreases groups.len(),
{
    if groups.len() == 0 {
        0
    } else {
        let rest = max_total(groups.drop_last());
        let t = saved_total(groups.last().1);
        if t > rest { t } else { rest }
    }
}

/// The length of a day's bar: its share of the largest day's 40 characters, at least one
/// character for a day that saved anything.
pub open spec fn bar(saved: nat, largest: nat) -> nat {
    let scaled = saved * 40 / largest;
    if scaled == 0 && saved > 0 { 1 } else { scaled }
}

pub open spec fn graph_line(day: Seq<char>, saved: nat, largest: nat) -> Seq<PieceView> {
    text("  "@ + day + " "@ + rule('#', bar(saved, largest)) + " "@ + decimal(saved) + "\n"@)
}

pub open spec fn graph_lines(groups: Seq<(Seq<char>, Seq<EntryView>)>, largest: nat) -> Seq<PieceView>
    decreases groups.len(),
{
    if groups.len() == 0 {
        Seq::empty()
    } else {
        graph_lines(groups.drop_last(), largest) + graph_line(groups.last().0, saved_total(groups.last().1), largest)
    }
}

/// A bar per day of what was saved that day, scaled to the best day.
pub open spec fn graph_section(es: Seq<EntryView>) -> Seq<PieceView> {
    let groups = groups_spec(es, GroupKey::Day);
    let m = max_total(groups);
    text("\nDaily Savings\n"@ + rule('-', 60) + "\n"@) + graph_lines(groups, if m == 0 { 1 } else { m })
}

fn saved_total_of(entries: &[UsageEntry]) -> (r: u128)
    ensures
        r == saved_total(entry_views(entries@)),
{
    let ghost es = entry_views(entries@);
    let mut total: u128 = 0;
    let mut i: usize = 0;
    while i < entries.len()
        invariant
            i <= entries.len(),
            es == entry_views(entries@),
            total == saved_total(es.take(i as int)),
        decreases entries.len() - i,
    {
        assert(es.take(i + 1).drop_last() == es.take(i as int));
        proof {
            lemma_saved_total_bounded(es.take(i + 1));
            assert((i + 1) * (usize::MAX as nat) <= (usize::MAX as nat) * (usize::MAX as nat)) by (nonlinear_arith)
                requires
                    i + 1 <= usize::MAX,
            ;
        }
        let e = &entries[i];
        let input: u128 = match e.input_tokens { Some(v) => v as u128, None => 0 };
        let output: u128 = match e.output_tokens { Some(v) => v as u128, None => 0 };
        let saved = if input >= output { input - output } else { 0 };
        total = total + saved;
        i += 1;
    }
    assert(es.take(entries.len() as int) == es);
    total
}

/// `saved * 40 / largest`, without overflow, and at least 1 when `saved` is positive.
fn bar_len(saved: u128, largest: u128) -> (r: usize)
    requires
        1 <= largest,
        saved <= largest,
    ensures
        r == bar(saved as nat, largest as nat),
{
    let whole: u128 = if saved == largest { 1 } else { 0 };
    let part: u128 = if saved == largest { 0 } else { saved };
    let mut value: usize = 0;
    let mut rem: u128 = 0;
    let mut i: usize = 0;
    while i < 40
        invariant
            i <= 40,
            part < largest,
            rem < largest,
            value <= i,
            rem + value * largest == i * part,
        decreases 40 - i,
    {
        let ghost (r0, v0, i0) = (rem as int, value as int, i as int);
        if rem >= largest - part {
            rem = rem - (largest - part);
            value = value + 1;
        } else {
            rem = rem + part;
        }
        i += 1;
        assert(rem + value * largest == i * part) by (nonlinear_arith)
            requires
                r0 + v0 * largest == i0 * part,
                (rem == r0 - (largest - part) && value == v0 + 1) || (rem == r0 + part && value == v0),
                i == i0 + 1,
        ;
    }
    proof {
        let s = saved as int;
        let m = largest as int;
        let v = value as int;
        let q = whole as int * 40 + v;
        assert(s == whole * m + part);
        assert(rem + v * m == 40 * part);
        assert(q * m + rem == 40 * s) by (nonlinear_arith)
            requires
                s == whole * m + part,
                rem + v * m == 40 * part,
                q == whole * 40 + v,
        ;
        assert(q == (40 * s) / m) by (nonlinear_arith)
            requires
                q * m + rem == 40 * s,
                0 <= rem < m,
        {
            vstd::arithmetic::div_mod::lemma_fundamental_div_mod_converse(40 * s, m, q, rem as int);
        }
        assert(saved as nat * 40 == 40 * s);
    }
    let scaled: usize = whole as usize * 40 + value;
    if scaled == 0 && saved > 0 { 1 } else { scaled }
}

fn graph_pieces(pieces: &mut Vec<Piece>, entries: &[UsageEntry])
    requires
        all_keyable(entry_views(entries@), GroupKey::Day),
    ensures
        pieces_view(final(pieces)@) == pieces_view(old(pieces)@) + graph_section(entry_views(entries@)),
{
    let mut t = chars_of("\nDaily Savings\n");
    push_rule(&mut t, '-', 60);
    push_str(&mut t, "\n");
    push_text(pieces, &t);
    let groups = group_by(entries, GroupKey::Day);
    let ghost gs = group_views(groups@);
    let mut totals: Vec<u128> = Vec::new();
    let mut largest: u128 = 0;
    let mut k: usize = 0;
    while k < groups.len()
        invariant
            k <= groups.len(),
            gs == group_views(groups@),
            totals@.len() == k,
            forall|j: int| 0 <= j < k ==> totals@[j] == saved_total(#[trigger] gs[j].1),
            largest == max_total(gs.take(k as int)),
        decreases groups.len() - k,
    {
        assert(gs.take(k + 1).drop_last() == gs.take(k as int));
        let t = saved_total_of(groups[k].1.as_slice());
        totals.push(t);
        if t > largest {
            largest = t;
        }
        k += 1;
    }
    assert(gs.take(groups.len() as int) == gs);
    let m: u128 = if largest == 0 { 1 } else { largest };
    let ghost start = pieces_view(pieces@);
    let mut k: usize = 0;
    while k < groups.len()
        invariant
            k <= groups.len(),
            gs == group_views(groups@),
            totals@.len() == groups.len(),
            forall|j: int| 0 <= j < groups.len() ==> totals@[j] == saved_total(#[trigger] gs[j].1),
            largest == max_total(gs),
            m == (if largest == 0 { 1 } else { largest }),
            pieces_view(pieces@) == start + graph_lines(gs.take(k as int), m as nat),
        decreases groups.len() - k,
    {
        assert(gs.take(k + 1).drop_last() == gs.take(k as int));
        proof {
            lemma_max_total_bounds(gs, k as int);
        }
        let saved = totals[k];
        let mut line = chars_of("  ");
        push_str(&mut line, groups[k].0.as_str());
        push_str(&mut line, " ");
        push_rule(&mut line, '#', bar_len(saved, m));
        push_str(&mut line, " ");
        extend_chars(&mut line, &decimal_chars_u128(saved));
        push_str(&mut line, "\n");
        push_text(pieces, &line);
        k += 1;
    }
    assert(gs.take(groups.len() as int) == gs);
}

proof fn lemma_max_total_bounds(gs: Seq<(Seq<char>, Seq<EntryView>)>, k: int)
    requires
        0 <= k < gs.len(),
    ensures
        saved_total(gs[k].1) <= max_total(gs),
    decreases gs.len(),
{
    if k < gs.len() - 1 {
        lemma_max_total_bounds(gs.drop_last(), k);
    }
}

/// The monthly token quota assumed for a subscription tier.
pub open spec fn baseline(tier: Seq<char>) -> nat {
    if tier == "pro"@ {
        6_000_000
    } else if tier == "5x"@ {
        30_000_000
    } else {
        120_000_000
    }
}

/// What share of the tier's monthly quota the lifetime savings amount to.
pub open spec fn quota_section(tier: Seq<char>, saved: nat) -> Seq<PieceView> {
    text("\nMonthly Quota Analysis\n"@ + rule('-', 60) + "\nSubscription tier: "@ + tier + "\nEstimated monthly quota: ~"@
        + decimal(baseline(tier)) + "\nTokens saved (lifetime): "@ + decimal(saved) + "\nQuota preserved: "@)
        + percent(saved, baseline(tier), 4)
        + text("%\n\nNote: heuristic estimate, not a guarantee against any real subscription quota.\n"@)
}

fn quota_pieces(pieces: &mut Vec<Piece>, tier: &str, saved: u128)
    ensures
        pieces_view(final(pieces)@) == pieces_view(old(pieces)@) + quota_section(tier@, saved as nat),
{
    let tc = chars_of(tier);
    proof {
        reveal_strlit("pro");
        reveal_strlit("5x");
    }
    let base: u128 = if crate::text::eq_str(&tc, "pro") {
        6_000_000
    } else if crate::text::eq_str(&tc, "5x") {
        30_000_000
    } else {
        120_000_000
    };
    let mut t = chars_of("\nMonthly Quota Analysis\n");
    push_rule(&mut t, '-', 60);
    push_str(&mut t, "\nSubscription tier: ");
    push_str(&mut t, tier);
    push_str(&mut t, "\nEstimated monthly quota: ~");
    extend_chars(&mut t, &decimal_chars_u128(base));
    push_str(&mut t, "\nTokens saved (lifetime): ");
    extend_chars(&mut t, &decimal_chars_u128(saved));
    push_str(&mut t, "\nQuota preserved: ");
    push_text(pieces, &t);
    push_percent(pieces, saved, base, 4);
    push_text(pieces, &chars_of("%\n\nNote: heuristic estimate, not a guarantee against any real subscription quota.\n"));
}


/// The totals as a JSON object.
pub open spec fn json_report(es: Seq<EntryView>) -> Seq<PieceView> {
    let input = sum_input(es);
    let saved = saved_of(input, sum_output(es));
    text("{\n  \"total_commands\": "@ + decimal(es.len()) + ",\n  \"total_input\": "@ + decimal(input)
        + ",\n  \"total_output\": "@ + decimal(sum_output(es)) + ",\n  \"total_saved\": "@ + decimal(saved)
        + ",\n  \"avg_savings_pct\": "@) + percent(saved, input, 4) + text("\n}\n"@)
}

pub open spec fn csv_line(name: Seq<char>, group: Seq<EntryView>) -> Seq<PieceView> {
    let input = sum_input(group);
    let saved = saved_of(input, sum_output(group));
    text(csv_field_spec(name) + ","@ + decimal(group.len()) + ","@ + decimal(input) + ","@ + decimal(sum_output(group))
        + ","@ + decimal(saved) + ","@) + percent(saved, input, 1) + text("\n"@)
}

pub open spec fn csv_lines(groups: Seq<(Seq<char>, Seq<EntryView>)>) -> Seq<PieceView>
    decreases groups.len(),
{
    if groups.len() == 0 {
        Seq::empty()
    } else {
        csv_lines(groups.drop_last()) + csv_line(groups.last().0, groups.last().1)
    }
}

/// A header, then one row per command, in name order.
pub open spec fn csv_report(es: Seq<EntryView>) -> Seq<PieceView> {
    text("command,count,input,output,saved,pct\n"@) + csv_lines(groups_spec(es, GroupKey::Command))
}

/// The text report: the title, the totals, the per-command table, then the sections the
/// flags ask for, in the order history, daily, weekly, monthly, graph, quota.
pub open spec fn text_report(es: Seq<EntryView>, o: OptionsView, cwd: Option<Seq<char>>) -> Seq<PieceView> {
    let saved = saved_of(sum_input(es), sum_output(es));
    header(o.project_scope, cwd) + totals_lines(es) + command_table(es)
        + (if o.show_history { recent_section(es) } else { Seq::empty() })
        + (if o.daily { breakdown(es, "Daily"@, GroupKey::Day) } else { Seq::empty() })
        + (if o.weekly { breakdown(es, "Weekly"@, GroupKey::Week) } else { Seq::empty() })
        + (if o.monthly { breakdown(es, "Monthly"@, GroupKey::Month) } else { Seq::empty() })
        + (if o.show_graph { graph_section(es) } else { Seq::empty() })
        + (if o.show_quota { quota_section(o.tier, saved) } else { Seq::empty() })
}

/// The report in the format asked for: `json`, `csv`, or text for anything else.
pub open spec fn report_spec(es: Seq<EntryView>, o: OptionsView, cwd: Option<Seq<char>>) -> Seq<PieceView> {
    if o.format == "json"@ {
        json_report(es)
    } else if o.format == "csv"@ {
        csv_report(es)
    } else {
        text_report(es, o, cwd)
    }
}

/// The report asks for calendar sections (daily, weekly, monthly breakdowns or the graph).
pub open spec fn uses_calendar(o: OptionsView) -> bool {
    o.format != "json"@ && o.format != "csv"@ && (o.daily || o.weekly || o.monthly || o.show_graph)
}

/// Every entry's timestamp can be placed on the calendar.
pub open spec fn calendar_fits(es: Seq<EntryView>) -> bool {
    forall|i: int| 0 <= i < es.len() ==> crate::verbs::gain::days_fit(#[trigger] es[i].timestamp_unix_millis)
}

/// Whether every entry's timestamp can be placed on the calendar.
pub fn timestamps_fit(entries: &[UsageEntry]) -> (r: bool)
    ensures
        r == calendar_fits(entry_views(entries@)),
{
    let ghost es = entry_views(entries@);
    let mut i: usize = 0;
    while i < entries.len()
        invariant
            i <= entries.len(),
            es == entry_views(entries@),
            forall|j: int| 0 <= j < i ==> crate::verbs::gain::days_fit(#[trigger] es[j].timestamp_unix_millis),
        decreases entries.len() - i,
    {
        if entries[i].timestamp_unix_millis / 86_400_000 > 9_223_372_036_854_056_333u128 {
            assert(!crate::verbs::gain::days_fit(es[i as int].timestamp_unix_millis));
            return false;
        }
        i += 1;
    }
    true
}

fn csv_pieces(pieces: &mut Vec<Piece>, entries: &[UsageEntry])
    ensures
        pieces_view(final(pieces)@) == pieces_view(old(pieces)@) + csv_report(entry_views(entries@)),
{
    push_text(pieces, &chars_of("command,count,input,output,saved,pct\n"));
    proof {
        assert(all_keyable(entry_views(entries@), GroupKey::Command));
    }
    let groups = group_by(entries, GroupKey::Command);
    let ghost gs = group_views(groups@);
    let ghost start = pieces_view(pieces@);
    let mut k: usize = 0;
    while k < groups.len()
        invariant
            k <= groups.len(),
            gs == group_views(groups@),
            pieces_view(pieces@) == start + csv_lines(gs.take(k as int)),
        decreases groups.len() - k,
    {
        assert(gs.take(k + 1).drop_last() == gs.take(k as int));
        let s = summarize(groups[k].1.as_slice());
        let mut line = chars_of(csv_field(groups[k].0.as_str()).as_str());
        push_str(&mut line, ",");
        push_decimal(&mut line, s.commands);
        push_str(&mut line, ",");
        extend_chars(&mut line, &decimal_chars_u128(s.input));
        push_str(&mut line, ",");
        extend_chars(&mut line, &decimal_chars_u128(s.output));
        push_str(&mut line, ",");
        extend_chars(&mut line, &decimal_chars_u128(s.saved));
        push_str(&mut line, ",");
        push_text(pieces, &line);
        push_percent(pieces, s.saved, s.input, 1);
        push_text(pieces, &chars_of("\n"));
        k += 1;
    }
    assert(gs.take(groups.len() as int) == gs);
}

fn json_pieces(pieces: &mut Vec<Piece>, entries: &[UsageEntry])
    ensures
        pieces_view(final(pieces)@) == pieces_view(old(pieces)@) + json_report(entry_views(entries@)),
{
    let s = summarize(entries);
    let mut t = chars_of("{\n  \"total_commands\": ");
    push_decimal(&mut t, s.commands);
    push_str(&mut t, ",\n  \"total_input\": ");
    extend_chars(&mut t, &decimal_chars_u128(s.input));
    push_str(&mut t, ",\n  \"total_output\": ");
    extend_chars(&mut t, &decimal_chars_u128(s.output));
    push_str(&mut t, ",\n  \"total_saved\": ");
    extend_chars(&mut t, &decimal_chars_u128(s.saved));
    push_str(&mut t, ",\n  \"avg_savings_pct\": ");
    push_text(pieces, &t);
    push_percent(pieces, s.saved, s.input, 4);
    push_text(pieces, &chars_of("\n}\n"));
}

/// `gain`'s report on `entries` when it can be made: `None` when it has calendar sections
/// and some timestamp lies beyond the calendar, the report (see [`report`]) otherwise.
pub fn report_if_placeable(entries: &[UsageEntry], options: &Options, cwd: &Option<String>) -> (r: Option<Vec<Piece>>)
    ensures
        r is None <==> uses_calendar(options@) && !calendar_fits(entry_views(entries@)),
        r matches Some(ps) ==> pieces_view(ps@) == report_spec(entry_views(entries@), options@, crate::history::opt_view(*cwd)),
{
    let format = chars_of(options.format.as_str());
    proof {
        reveal_strlit("json");
        reveal_strlit("csv");
    }
    let calendar = !crate::text::eq_str(&format, "json") && !crate::text::eq_str(&format, "csv") && (options.daily
        || options.weekly || options.monthly || options.show_graph);
    if calendar && !timestamps_fit(entries) {
        return None;
    }
    Some(report(entries, options, cwd))
}

/// `gain`'s report on `entries` (see [`report_spec`]); `cwd` is shown as the scope of a
/// project-scoped report. Calendar sections need every timestamp on the calendar.
pub fn report(entries: &[UsageEntry], options: &Options, cwd: &Option<String>) -> (r: Vec<Piece>)
    requires
        uses_calendar(options@) ==> calendar_fits(entry_views(entries@)),
    ensures
        pieces_view(r@) == report_spec(entry_views(entries@), options@, crate::history::opt_view(*cwd)),
{
    let mut pieces: Vec<Piece> = Vec::new();
    let format = chars_of(options.format.as_str());
    proof {
        reveal_strlit("json");
        reveal_strlit("csv");
    }
    if crate::text::eq_str(&format, "json") {
        json_pieces(&mut pieces, entries);
        assert(pieces_view(pieces@) == Seq::<PieceView>::empty() + json_report(entry_views(entries@)));
        return pieces;
    }
    if crate::text::eq_str(&format, "csv") {
        csv_pieces(&mut pieces, entries);
        assert(pieces_view(pieces@) == Seq::<PieceView>::empty() + csv_report(entry_views(entries@)));
        return pieces;
    }
    let ghost es = entry_views(entries@);
    let ghost empty = Seq::<PieceView>::empty();
    header_pieces(&mut pieces, options.project_scope, cwd);
    totals_pieces(&mut pieces, entries);
    command_table_pieces(&mut pieces, entries);
    let ghost p0 = pieces_view(pieces@);
    assert(p0 == header(options.project_scope, crate::history::opt_view(*cwd)) + totals_lines(es) + command_table(es));
    if options.show_history {
        recent_pieces(&mut pieces, entries);
    }
    let ghost p1 = pieces_view(pieces@);
    assert(p1 == p0 + (if options.show_history { recent_section(es) } else { empty }));
    if options.daily {
        assert(all_keyable(es, GroupKey::Day));
        breakdown_pieces(&mut pieces, entries, "Daily", GroupKey::Day);
    }
    let ghost p2 = pieces_view(pieces@);
    assert(p2 == p1 + (if options.daily { breakdown(es, "Daily"@, GroupKey::Day) } else { empty }));
    if options.weekly {
        assert(all_keyable(es, GroupKey::Week));
        breakdown_pieces(&mut pieces, entries, "Weekly", GroupKey::Week);
    }
    let ghost p3 = pieces_view(pieces@);
    assert(p3 == p2 + (if options.weekly { breakdown(es, "Weekly"@, GroupKey::Week) } else { empty }));
    if options.monthly {
        assert(all_keyable(es, GroupKey::Month));
        breakdown_pieces(&mut pieces, entries, "Monthly", GroupKey::Month);
    }
    let ghost p4 = pieces_view(pieces@);
    assert(p4 == p3 + (if options.monthly { breakdown(es, "Monthly"@, GroupKey::Month) } else { empty }));
    if options.show_graph {
        assert(all_keyable(es, GroupKey::Day));
        graph_pieces(&mut pieces, entries);
    }
    let ghost p5 = pieces_view(pieces@);
    assert(p5 == p4 + (if options.show_graph { graph_section(es) } else { empty }));
    if options.show_quota {
        let s = summarize(entries);
        quota_pieces(&mut pieces, options.tier.as_str(), s.saved);
    }
    let ghost p6 = pieces_view(pieces@);
    assert(p6 == p5 + (if options.show_quota { quota_section(options.tier@, saved_of(sum_input(es), sum_output(es))) } else { empty }));
    pieces
}

} // verus!
