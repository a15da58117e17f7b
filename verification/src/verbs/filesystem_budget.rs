//! `--budget` truncation shared by the file and listing verbs: head+tail slicing of one
//! file's content, and prefix truncation of a flat list of items.
use vstd::prelude::*;

use crate::budget::selector::{omission_marker_text, omission_text, views};
use crate::budget::tokenizer::TokenCounter;
use crate::fastpath::{lines_spec, split_lines};
use crate::io::{line_bytes, sent, write_line, OutputSink};
use crate::text::{
    chars_of, decimal, extend_chars, join, join_chars, push_decimal, push_str, slice_chars,
    string_of,
};

verus! {

/// The budget was below the smallest one that can be honored.
#[derive(Debug)]
pub struct TooSmall {
    pub minimum: usize,
}

/// `s` with a trailing newline added unless it is empty or already ends with one.
pub open spec fn terminated_spec(s: Seq<char>) -> Seq<char> {
    if s.len() > 0 && s.last() != '\n' {
        s.push('\n')
    } else {
        s
    }
}

/// Ensures a trailing newline (matching `cat`/`grep`/`find`'s own convention) without
/// adding one to genuinely empty output (e.g. zero matches).
pub fn terminated(s: String) -> (r: String)
    ensures
        r@ == terminated_spec(s@),
{
    let mut cs = chars_of(s.as_str());
    if cs.len() > 0 && cs[cs.len() - 1] != '\n' {
        cs.push('\n');
    }
    string_of(&cs)
}

pub(crate) fn terminated_chars(cs: Vec<char>) -> (r: Vec<char>)
    ensures
        r@ == terminated_spec(cs@),
{
    let mut cs = cs;
    if cs.len() > 0 && cs[cs.len() - 1] != '\n' {
        cs.push('\n');
    }
    cs
}

/// The marker standing for `count` characters cut out of the middle of a blob.
pub open spec fn omission_chars_text(count: nat) -> Seq<char> {
    if count == 1 {
        "[stk: omitted 1 char]"@
    } else {
        "[stk: omitted "@ + decimal(count) + " chars]"@
    }
}

fn omission_marker_chars(count: usize) -> (r: Vec<char>)
    ensures
        r@ == omission_chars_text(count as nat),
{
    if count == 1 {
        chars_of("[stk: omitted 1 char]")
    } else {
        let mut cs = chars_of("[stk: omitted ");
        push_decimal(&mut cs, count);
        push_str(&mut cs, " chars]");
        cs
    }
}

/// The count `counter` gives the characters `cs`.
fn count_chars<C: TokenCounter>(counter: &C, cs: &[char]) -> (r: usize)
    ensures
        r == counter.spec_count(cs@),
{
    let s = string_of(cs);
    counter.count(s.as_str())
}

/// `a + b <= limit`, with no overflow on the way.
fn sum_within(a: usize, b: usize, limit: usize) -> (r: bool)
    ensures
        r == (a + b <= limit),
{
    a <= limit && b <= limit - a
}

/// A `k` in `0..=max_k` at which `fits` holds (or 0) and just past which it fails (or
/// `max_k`): the largest such `k` when `fits` holds up to some point and fails beyond it.
/// The shared core of both head+tail truncation strategies below, which differ only in
/// what a "unit" is (chars vs. lines) and how the kept portions get joined back.
fn largest_k_that_fits<F: Fn(usize) -> bool>(max_k: usize, fits: F, Ghost(holds): Ghost<spec_fn(usize) -> bool>) -> (r: usize)
    requires
        forall|k: usize| k <= max_k ==> #[trigger] fits.requires((k,)),
        forall|k: usize, b: bool| fits.ensures((k,), b) ==> b == holds(k),
    ensures
        r <= max_k,
        r == 0 || holds(r),
        r == max_k || !holds((r + 1) as usize),
{
    let mut lo: usize = 0;
    let mut hi: usize = max_k;
    while lo < hi
        invariant
            lo <= hi <= max_k,
            lo == 0 || holds(lo),
            hi == max_k || !holds((hi + 1) as usize),
            forall|k: usize| k <= max_k ==> #[trigger] fits.requires((k,)),
            forall|k: usize, b: bool| fits.ensures((k,), b) ==> b == holds(k),
        decreases hi - lo,
    {
        let gap = hi - lo;
        let mid = lo + gap / 2 + gap % 2;
        if fits(mid) {
            lo = mid;
        } else {
            hi = mid - 1;
        }
    }
    lo
}

/// The blob `cs` cut down to its first and last `k` characters around a marker for the
/// `len - 2k` in between.
pub open spec fn chars_head_tail_text(cs: Seq<char>, k: int) -> Seq<char> {
    cs.take(k) + omission_chars_text((cs.len() - 2 * k) as nat) + cs.skip(cs.len() - k)
}

/// Keeping the first and last `k` characters of `cs` renders within `budget` tokens.
pub open spec fn chars_fit<C: TokenCounter>(counter: &C, cs: Seq<char>, budget: int, k: int) -> bool {
    counter.spec_count(chars_head_tail_text(cs, k)) <= budget
}

/// The first and last `k` characters of `cs` count, together, at most `room` tokens.
pub open spec fn chars_ends_fit<C: TokenCounter>(counter: &C, cs: Seq<char>, room: int, k: int) -> bool {
    counter.spec_count(cs.take(k)) + counter.spec_count(cs.skip(cs.len() - k)) <= room
}

/// `k`, or fewer characters at each end when keeping `k` would render past `budget`: the
/// most at which the rendered text fits (0 at the least).
pub open spec fn chars_cut<C: TokenCounter>(counter: &C, cs: Seq<char>, budget: int, k: int) -> int
    decreases k,
{
    if k <= 0 || chars_fit(counter, cs, budget, k) {
        k
    } else {
        chars_cut(counter, cs, budget, k - 1)
    }
}

/// `r` is the head+tail truncation of the blob `cs` to `budget` tokens: the first and last
/// `k` characters around a marker for the `len - 2k` in between, `k` being the point up to
/// which both ends' counts fit what the marker leaves of the budget -- cut further only
/// where that rendering would still go over the budget.
pub open spec fn chars_head_tail_result<C: TokenCounter>(counter: &C, cs: Seq<char>, budget: int, r: Seq<char>) -> bool {
    let room = budget - counter.spec_count(omission_chars_text(cs.len()));
    exists|k: int|
        0 <= k <= cs.len() / 2 && (k == 0 || chars_ends_fit(counter, cs, room, k)) && (k == cs.len() / 2
            || !chars_ends_fit(counter, cs, room, k + 1)) && r == chars_head_tail_text(cs, chars_cut(counter, cs, budget, k))
}

fn render_chars_head_tail(chars: &Vec<char>, k: usize) -> (r: Vec<char>)
    requires
        k <= chars.len() / 2,
    ensures
        r@ == chars_head_tail_text(chars@, k as int),
{
    let n = chars.len();
    let mut out = slice_chars(chars, 0, k);
    let marker = omission_marker_chars(n - 2 * k);
    extend_chars(&mut out, &marker);
    let tail = slice_chars(chars, n - k, n);
    extend_chars(&mut out, &tail);
    out
}

/// Character-based head+tail truncation for a single long blob with no natural line
/// breaks (e.g. compacted JSON) -- `truncate_head_tail` operates on lines, which degrades
/// to "keep nothing" for content that's just one unbroken line.
pub fn truncate_chars_head_tail<C: TokenCounter>(content: &str, budget: usize, counter: &C) -> (r: Result<String, TooSmall>)
    ensures
        counter.spec_count(content@) <= budget ==> (r matches Ok(s) && s@ == content@),
        counter.spec_count(content@) > budget && budget < counter.spec_count(omission_chars_text(content@.len())) ==> (r
            matches Err(e) && e.minimum == counter.spec_count(omission_chars_text(content@.len()))),
        counter.spec_count(content@) > budget && budget >= counter.spec_count(omission_chars_text(content@.len())) ==> (r
            matches Ok(s) && chars_head_tail_result(counter, content@, budget as int, s@)),
        r matches Ok(s) ==> counter.spec_count(s@) <= budget,
{
    if counter.count(content) <= budget {
        return Ok(content.to_string());
    }
    let chars = chars_of(content);
    let n = chars.len();
    let marker_reserve = count_chars(counter, &omission_marker_chars(n));
    if budget < marker_reserve {
        return Err(TooSmall { minimum: marker_reserve });
    }
    let room = budget - marker_reserve;
    let ghost cs = chars@;
    let fits = |k: usize| -> (b: bool)
        requires
            k <= n / 2,
            n == chars@.len(),
        ensures
            b == chars_ends_fit(counter, chars@, room as int, k as int),
        {
            let head = slice_chars(&chars, 0, k);
            let tail = slice_chars(&chars, n - k, n);
            sum_within(count_chars(counter, &head), count_chars(counter, &tail), room)
        };
    let picked = largest_k_that_fits(n / 2, fits, Ghost(|k: usize| chars_ends_fit(counter, cs, room as int, k as int)));
    let mut k = picked;
    while k > 0 && count_chars(counter, &render_chars_head_tail(&chars, k)) > budget
        invariant
            k <= picked <= n / 2,
            n == chars@.len(),
            cs == chars@,
            chars_cut(counter, cs, budget as int, picked as int) == chars_cut(counter, cs, budget as int, k as int),
        decreases k,
    {
        k = k - 1;
    }
    let out = render_chars_head_tail(&chars, k);
    proof {
        if k == 0 {
            assert(chars_head_tail_text(cs, 0) == omission_chars_text(n as nat));
        }
    }
    Ok(string_of(&out))
}

/// `items` joined with line breaks.
pub open spec fn joined(items: Seq<Seq<char>>) -> Seq<char> {
    join(items, seq!['\n'])
}

/// The characters of each string, joined with line breaks.
pub(crate) fn join_lines(items: &[String]) -> (r: Vec<char>)
    ensures
        r@ == joined(views(items@)),
{
    let mut parts: Vec<Vec<char>> = Vec::new();
    let mut i: usize = 0;
    while i < items.len()
        invariant
            i <= items.len(),
            parts@.map_values(|p: Vec<char>| p@) == views(items@).take(i as int),
        decreases items.len() - i,
    {
        let ghost before = parts@.map_values(|p: Vec<char>| p@);
        let cs = chars_of(items[i].as_str());
        parts.push(cs);
        assert(parts@.map_values(|p: Vec<char>| p@) == before.push(cs@));
        assert(views(items@).take(i + 1) == views(items@).take(i as int).push(items@[i as int]@));
        i += 1;
    }
    assert(views(items@).take(items.len() as int) == views(items@));
    join_chars(&parts, '\n')
}

/// The head `k` and tail `k` lines of `ls` around a marker for the lines in between.
pub open spec fn head_tail_text(ls: Seq<Seq<char>>, k: int) -> Seq<char> {
    terminated_spec(
        joined(ls.take(k)) + seq!['\n'] + omission_text((ls.len() - 2 * k) as nat) + seq!['\n'] + joined(
            ls.skip(ls.len() - k),
        ),
    )
}

/// Keeping the head and tail `k` lines of `ls` renders within `budget` tokens.
pub open spec fn lines_fit<C: TokenCounter>(counter: &C, ls: Seq<Seq<char>>, budget: int, k: int) -> bool {
    counter.spec_count(head_tail_text(ls, k)) <= budget
}

/// The head `k` and tail `k` lines of `ls`, each end joined, count together at most
/// `room` tokens.
pub open spec fn lines_ends_fit<C: TokenCounter>(counter: &C, ls: Seq<Seq<char>>, room: int, k: int) -> bool {
    counter.spec_count(joined(ls.take(k))) + counter.spec_count(joined(ls.skip(ls.len() - k))) <= room
}

/// `k`, or fewer lines at each end when keeping `k` would render past `budget`: the most at
/// which the rendered text fits (0 at the least).
pub open spec fn lines_cut<C: TokenCounter>(counter: &C, ls: Seq<Seq<char>>, budget: int, k: int) -> int
    decreases k,
{
    if k <= 0 || lines_fit(counter, ls, budget, k) {
        k
    } else {
        lines_cut(counter, ls, budget, k - 1)
    }
}

/// The smallest budget a head+tail truncation of `content` honors: the marker for every
/// line must fit, counted alone and as rendered.
pub open spec fn head_tail_floor<C: TokenCounter>(counter: &C, content: Seq<char>) -> nat {
    let ls = lines_spec(content);
    let marker = counter.spec_count(omission_text(ls.len()));
    let rendered = counter.spec_count(head_tail_text(ls, 0));
    if marker >= rendered { marker } else { rendered }
}

/// `r` is the head+tail truncation of `content`'s lines to `budget` tokens: the first and
/// last `k` lines around a marker for the ones in between, `k` being the point up to which
/// both ends' counts fit what the marker leaves of the budget -- cut further only where
/// that rendering would still go over the budget.
pub open spec fn head_tail_result<C: TokenCounter>(counter: &C, content: Seq<char>, budget: int, r: Seq<char>) -> bool {
    let ls = lines_spec(content);
    let room = budget - counter.spec_count(omission_text(ls.len()));
    exists|k: int|
        0 <= k <= ls.len() / 2 && (k == 0 || lines_ends_fit(counter, ls, room, k)) && (k == ls.len() / 2
            || !lines_ends_fit(counter, ls, room, k + 1)) && r == head_tail_text(ls, lines_cut(counter, ls, budget, k))
}

fn render_head_tail(lines: &Vec<String>, k: usize) -> (r: Vec<char>)
    requires
        k <= lines.len() / 2,
    ensures
        r@ == head_tail_text(views(lines@), k as int),
{
    let ghost ls = views(lines@);
    let n = lines.len();
    let mut out = join_lines(vstd::slice::slice_subrange(lines.as_slice(), 0, k));
    assert(views(lines@.subrange(0, k as int)) == ls.take(k as int));
    out.push('\n');
    let middle = omission_marker_text(n - 2 * k);
    extend_chars(&mut out, &chars_of(middle.as_str()));
    out.push('\n');
    let tail = join_lines(vstd::slice::slice_subrange(lines.as_slice(), n - k, n));
    assert(views(lines@.subrange(n - k, n as int)) == ls.skip(n - k));
    extend_chars(&mut out, &tail);
    let out = terminated_chars(out);
    assert(out@ == head_tail_text(ls, k as int));
    out
}

/// Conservative text-based slicing for a single file's content: keeps the head and tail
/// lines, dropping the middle, rather than any structural understanding.
pub fn truncate_head_tail<C: TokenCounter>(content: &str, budget: usize, counter: &C) -> (r: Result<String, TooSmall>)
    ensures
        counter.spec_count(terminated_spec(content@)) <= budget ==> (r matches Ok(s) && s@ == terminated_spec(content@)),
        counter.spec_count(terminated_spec(content@)) > budget && budget < head_tail_floor(counter, content@) ==> (r
            matches Err(e) && e.minimum == head_tail_floor(counter, content@)),
        counter.spec_count(terminated_spec(content@)) > budget && budget >= head_tail_floor(counter, content@) ==> (r
            matches Ok(s) && head_tail_result(counter, content@, budget as int, s@)),
        r matches Ok(s) ==> counter.spec_count(s@) <= budget,
{
    let whole = terminated(content.to_string());
    if counter.count(whole.as_str()) <= budget {
        return Ok(whole);
    }
    let lines = split_lines(content);
    let ghost ls = lines_spec(content@);
    assert(views(lines@) == ls);
    let n = lines.len();
    let marker = omission_marker_text(n);
    let marker_reserve = counter.count(marker.as_str());
    let rendered_floor = count_chars(counter, &render_head_tail(&lines, 0));
    let floor = if marker_reserve >= rendered_floor { marker_reserve } else { rendered_floor };
    if budget < floor {
        return Err(TooSmall { minimum: floor });
    }
    let room = budget - marker_reserve;
    let fits = |k: usize| -> (b: bool)
        requires
            k <= n / 2,
            n == lines@.len(),
        ensures
            b == lines_ends_fit(counter, views(lines@), room as int, k as int),
        {
            let head = join_lines(vstd::slice::slice_subrange(lines.as_slice(), 0, k));
            let tail = join_lines(vstd::slice::slice_subrange(lines.as_slice(), n - k, n));
            assert(views(lines@.subrange(0, k as int)) == views(lines@).take(k as int));
            assert(views(lines@.subrange(n - k, n as int)) == views(lines@).skip(n - k));
            sum_within(count_chars(counter, &head), count_chars(counter, &tail), room)
        };
    let picked = largest_k_that_fits(n / 2, fits, Ghost(|k: usize| lines_ends_fit(counter, ls, room as int, k as int)));
    let mut k = picked;
    while k > 0 && count_chars(counter, &render_head_tail(&lines, k)) > budget
        invariant
            k <= picked <= n / 2,
            n == lines@.len(),
            ls == views(lines@),
            lines_cut(counter, ls, budget as int, picked as int) == lines_cut(counter, ls, budget as int, k as int),
        decreases k,
    {
        k = k - 1;
    }
    Ok(string_of(&render_head_tail(&lines, k)))
}

/// The first `j` of `items` followed by one marker for the rest.
pub open spec fn prefix_text(items: Seq<Seq<char>>, j: int) -> Seq<char> {
    terminated_spec(joined(items.take(j)) + seq!['\n'] + omission_text((items.len() - j) as nat))
}

/// Keeping the first `j` of `items` renders within `budget` tokens.
pub open spec fn prefix_fits<C: TokenCounter>(counter: &C, items: Seq<Seq<char>>, budget: int, j: int) -> bool {
    counter.spec_count(prefix_text(items, j)) <= budget
}

/// How many of `items`, from the start, fit one after another into `room` tokens by their
/// own counts: counting stops at the first item that does not fit.
pub open spec fn greedy_kept<C: TokenCounter>(counter: &C, items: Seq<Seq<char>>, room: int) -> nat
    decreases items.len(),
{
    if items.len() == 0 || counter.spec_count(items[0]) > room {
        0
    } else {
        1 + greedy_kept(counter, items.drop_first(), room - counter.spec_count(items[0]))
    }
}

proof fn lemma_greedy_kept_bound<C: TokenCounter>(counter: &C, items: Seq<Seq<char>>, room: int)
    ensures
        greedy_kept(counter, items, room) <= items.len(),
    decreases items.len(),
{
    if items.len() > 0 && counter.spec_count(items[0]) <= room {
        lemma_greedy_kept_bound(counter, items.drop_first(), room - counter.spec_count(items[0]));
    }
}

/// The smallest budget a prefix truncation of `items` honors: the marker for all of them
/// must fit, counted alone and as rendered.
pub open spec fn sequential_floor<C: TokenCounter>(counter: &C, items: Seq<Seq<char>>) -> nat {
    let marker = counter.spec_count(omission_text(items.len()));
    let rendered = counter.spec_count(prefix_text(items, 0));
    if marker >= rendered { marker } else { rendered }
}

/// `j`, or fewer items when keeping `j` would render past `budget`: the most at which the
/// rendered text fits (0 at the least).
pub open spec fn prefix_cut<C: TokenCounter>(counter: &C, items: Seq<Seq<char>>, budget: int, j: int) -> int
    decreases j,
{
    if j <= 0 || prefix_fits(counter, items, budget, j) {
        j
    } else {
        prefix_cut(counter, items, budget, j - 1)
    }
}

/// The number of items `truncate_sequential` keeps before the marker once the whole list
/// does not fit: the items that fit one after another into what the marker leaves of the
/// budget (at most all but one), cut further only where that rendering would still go
/// over the budget.
pub open spec fn sequential_kept<C: TokenCounter>(counter: &C, items: Seq<Seq<char>>, budget: int) -> int {
    let g = greedy_kept(counter, items, budget - counter.spec_count(omission_text(items.len())));
    let start = if g == items.len() && items.len() > 0 { g - 1 } else { g as int };
    prefix_cut(counter, items, budget, start)
}

/// The text `truncate_sequential` renders for `items` once the whole list does not fit
/// and `budget` is at least the floor: the items kept from the start, then one marker for
/// the rest.
pub open spec fn sequential_text<C: TokenCounter>(counter: &C, items: Seq<Seq<char>>, budget: int) -> Seq<char> {
    prefix_text(items, sequential_kept(counter, items, budget))
}

fn render_prefix(items: &[String], j: usize) -> (r: Vec<char>)
    requires
        j <= items.len(),
    ensures
        r@ == prefix_text(views(items@), j as int),
{
    let mut out = join_lines(vstd::slice::slice_subrange(items, 0, j));
    assert(views(items@.subrange(0, j as int)) == views(items@).take(j as int));
    out.push('\n');
    let m = omission_marker_text(items.len() - j);
    extend_chars(&mut out, &chars_of(m.as_str()));
    terminated_chars(out)
}

/// Keeps items from the start until the budget runs out, then a single omission marker
/// for the rest -- suited to a flat, order-independent-importance list (grep matches,
/// find results), unlike a single file's head/tail-preserving shape above.
pub fn truncate_sequential<C: TokenCounter>(items: &[String], budget: usize, counter: &C) -> (r: Result<String, TooSmall>)
    ensures
        counter.spec_count(terminated_spec(joined(views(items@)))) <= budget ==> (r matches Ok(s) && s@
            == terminated_spec(joined(views(items@)))),
        counter.spec_count(terminated_spec(joined(views(items@)))) > budget && budget < sequential_floor(counter, views(items@))
            ==> (r matches Err(e) && e.minimum == sequential_floor(counter, views(items@))),
        counter.spec_count(terminated_spec(joined(views(items@)))) > budget && budget >= sequential_floor(counter, views(items@))
            ==> (r matches Ok(s) && s@ == sequential_text(counter, views(items@), budget as int)),
        r matches Ok(s) ==> counter.spec_count(s@) <= budget,
{
    let ghost its = views(items@);
    let whole = terminated_chars(join_lines(items));
    if count_chars(counter, &whole) <= budget {
        return Ok(string_of(&whole));
    }
    let marker = omission_marker_text(items.len());
    let marker_reserve = counter.count(marker.as_str());
    let rendered_floor = count_chars(counter, &render_prefix(items, 0));
    let floor = if marker_reserve >= rendered_floor { marker_reserve } else { rendered_floor };
    if budget < floor {
        return Err(TooSmall { minimum: floor });
    }
    let ghost start_room = (budget - marker_reserve) as int;
    let mut remaining = budget - marker_reserve;
    let mut kept: usize = 0;
    let mut done = false;
    assert(its.skip(0) == its);
    while kept < items.len() && !done
        invariant
            kept <= items.len(),
            its == views(items@),
            done ==> greedy_kept(counter, its, start_room) == kept,
            !done ==> greedy_kept(counter, its, start_room) == kept + greedy_kept(counter, its.skip(kept as int), remaining as int),
        decreases items.len() - kept + (if done { 0int } else { 1int }),
    {
        let cost = counter.count(items[kept].as_str());
        let ghost rest = its.skip(kept as int);
        assert(rest[0] == items@[kept as int]@);
        if cost > remaining {
            done = true;
        } else {
            assert(rest.drop_first() == its.skip(kept + 1));
            remaining = remaining - cost;
            kept = kept + 1;
        }
    }
    proof {
        if !done {
            assert(its.skip(kept as int).len() == 0);
        }
        lemma_greedy_kept_bound(counter, its, start_room);
    }
    let mut j = if kept == items.len() && items.len() > 0 { kept - 1 } else { kept };
    let ghost start = j;
    while j > 0 && count_chars(counter, &render_prefix(items, j)) > budget
        invariant
            j <= start <= items.len(),
            its == views(items@),
            prefix_cut(counter, its, budget as int, start as int) == prefix_cut(counter, its, budget as int, j as int),
        decreases j,
    {
        j = j - 1;
    }
    Ok(string_of(&render_prefix(items, j)))
}

/// The error reported when `budget` is below the `minimum` needed to render `what`.
pub open spec fn budget_too_small_message(budget: nat, what: Seq<char>, minimum: nat) -> Seq<char> {
    "stk: --budget "@ + decimal(budget) + " is too small to render "@ + what + " (minimum: "@ + decimal(minimum) + ")"@
}

/// What a flat line list comes to under an optional budget: all of it (each line
/// terminated) when there is no budget or it fits, else as much from the start as fits
/// with a marker for the rest, or -- when even the marker alone does not fit -- the
/// minimum budget that would.
pub open spec fn budgeted_text<C: TokenCounter>(counter: &C, items: Seq<Seq<char>>, budget: Option<usize>) -> Result<Seq<char>, nat> {
    let all = terminated_spec(joined(items));
    let minimum = sequential_floor(counter, items);
    match budget {
        None => Ok(all),
        Some(b) => if counter.spec_count(all) <= b {
            Ok(all)
        } else if b < minimum {
            Err(minimum)
        } else {
            Ok(sequential_text(counter, items, b as int))
        },
    }
}

/// Applies `Budget` truncation if given (else joins everything), writing a clear error to
/// `stderr` and returning the exit code to use if the budget is below the floor. Shared by
/// every verb whose content is a flat, sequentially-truncatable line list.
pub fn render_optionally_budgeted<C: TokenCounter, E: OutputSink>(
    items: &[String],
    budget: Option<usize>,
    counter: &C,
    what: &str,
    stderr: &mut E,
) -> (r: Result<String, i32>)
    ensures
        match budgeted_text(counter, views(items@), budget) {
            Ok(t) => (r matches Ok(s) && s@ == t) && *final(stderr) == *old(stderr),
            Err(m) => r == Err::<String, i32>(2) && sent(
                *old(stderr),
                *final(stderr),
                line_bytes(budget_too_small_message(budget->0 as nat, what@, m)),
            ),
        },
        budget is Some ==> (r matches Ok(s) ==> counter.spec_count(s@) <= budget->0),
{
    match budget {
        None => Ok(string_of(&terminated_chars(join_lines(items)))),
        Some(b) => match truncate_sequential(items, b, counter) {
            Ok(rendered) => Ok(rendered),
            Err(TooSmall { minimum }) => {
                let mut msg: Vec<char> = Vec::new();
                push_str(&mut msg, "stk: --budget ");
                push_decimal(&mut msg, b);
                push_str(&mut msg, " is too small to render ");
                push_str(&mut msg, what);
                push_str(&mut msg, " (minimum: ");
                push_decimal(&mut msg, minimum);
                push_str(&mut msg, ")");
                let _ = write_line(stderr, &msg);
                Err(2)
            },
        },
    }
}

} // verus!
