//! The Budget Selection Algorithm: always includes P0 chunks (shrinking them if they
//! alone exceed budget), packs optional chunks by score into what remains, and renders
//! with omission-marker chunks for whatever didn't fit.
use vstd::prelude::*;
use vstd::utf8::encode_utf8;

use super::tokenizer::{approximate_count, lemma_word_count_le_len, ApproximateCounter, TokenCounter};
use crate::chunk::{classify_spec, Chunk, ChunkId, ChunkKind, Classifier, Priority, SourceMetadata, Stream};
use crate::scoring::relevance::{score, score_gt, score_spec, Score};
use crate::text::{chars_of, concat_terminated, decimal, extend_chars, push_decimal, push_str, slice_chars, string_of};

verus! {

broadcast use {vstd::seq_lib::group_to_multiset_ensures, vstd::multiset::group_multiset_axioms};

#[derive(Debug, Clone, Copy, PartialEq, Eq, Structural)]
pub enum BudgetError {
    /// `--budget` was below `marker_reserve + min_p0_floor`: too small to honor even in
    /// principle, refused rather than rendered degenerately.
    TooSmall { budget: usize, minimum: usize },
    /// The render-and-recount pass found the rendered output still over budget after
    /// dropping every optional chunk -- an internal-consistency failure, not a
    /// user-facing case.
    Internal,
}

#[derive(Debug)]
pub struct BudgetedOutput {
    pub stdout: Vec<u8>,
    pub stderr: Vec<u8>,
}

pub open spec fn shrink_marker_text() -> Seq<char> {
    "[stk: P0 content truncated to fit budget]"@
}

/// The omission marker for `count` dropped lines.
pub open spec fn omission_text(count: nat) -> Seq<char> {
    if count == 1 {
        "[stk: omitted 1 line]"@
    } else {
        "[stk: omitted "@ + decimal(count) + " lines]"@
    }
}

pub open spec fn is_marker_text(t: Seq<char>) -> bool {
    t == shrink_marker_text() || exists|n: nat| t == omission_text(n)
}

/// Tokens held back for markers: in the worst case each stream needs its own shrink
/// marker and its own omission marker.
pub open spec fn marker_reserve<C: TokenCounter>(counter: &C) -> int {
    (2 * (counter.spec_count(shrink_marker_text()) + counter.spec_count(omission_text(999_999)))) as int
}

/// The smallest budget that is honored at all: the marker reserve plus room for a
/// shrink marker's worth of mandatory content.
pub open spec fn minimum_budget<C: TokenCounter>(counter: &C) -> int {
    marker_reserve(counter) + counter.spec_count(shrink_marker_text()) as int
}

/// The counter's marker counts are small enough for the reserve arithmetic to fit a `usize`.
pub open spec fn marker_counts_fit<C: TokenCounter>(counter: &C) -> bool {
    minimum_budget(counter) <= usize::MAX
}

/// `t` is a head of one of `lines` followed by `...`: a mandatory line shrunk to fit.
pub open spec fn is_shrunk_line(t: Seq<char>, lines: Seq<Seq<char>>) -> bool {
    exists|k: int, n: int|
        0 <= k < lines.len() && 0 <= n <= lines[k].len() && t == #[trigger] lines[k].take(n) + "..."@
}

/// Where a rendered line of a stream can come from: one of that stream's input lines,
/// a shrunk mandatory line, or a marker.
pub open spec fn line_origin(t: Seq<char>, lines: Seq<Seq<char>>) -> bool {
    lines.contains(t) || is_shrunk_line(t, lines) || is_marker_text(t)
}

pub open spec fn stream_lines(stream: Stream, so: Seq<Seq<char>>, se: Seq<Seq<char>>) -> Seq<Seq<char>> {
    match stream {
        Stream::Stdout => so,
        Stream::Stderr => se,
    }
}

/// A chunk built from line `k` of a stream of `total` lines.
pub open spec fn built_chunk<C: TokenCounter>(
    c: Chunk,
    line: Seq<char>,
    stream: Stream,
    k: int,
    total: int,
    classifier: Classifier,
    counter: &C,
) -> bool {
    &&& c.text@ == line
    &&& c.source == SourceMetadata { stream, line_number: k as usize }
    &&& (c.kind, c.priority) == classify_spec(classifier, line)
    &&& c.token_count == counter.spec_count(line)
    &&& c.score == score_spec(c.priority, k as usize, total as usize)
}

/// The chunk carries its own text's token count and the score of its place.
pub open spec fn counted<C: TokenCounter>(c: Chunk, so: Seq<Seq<char>>, se: Seq<Seq<char>>, counter: &C) -> bool {
    &&& c.token_count == counter.spec_count(c.text@)
    &&& c.score == score_spec(c.priority, c.source.line_number, stream_lines(c.source.stream, so, se).len() as usize)
}

/// A chunk whose text can be traced back to its own stream's input.
pub open spec fn traced(c: Chunk, so: Seq<Seq<char>>, se: Seq<Seq<char>>) -> bool {
    line_origin(c.text@, stream_lines(c.source.stream, so, se))
}

fn shrink_marker() -> (r: &'static str)
    ensures
        r@ == shrink_marker_text(),
{
    "[stk: P0 content truncated to fit budget]"
}

pub fn omission_marker_text(count: usize) -> (r: String)
    ensures
        r@ == omission_text(count as nat),
{
    if count == 1 {
        let cs = chars_of("[stk: omitted 1 line]");
        string_of(&cs)
    } else {
        let mut cs = chars_of("[stk: omitted ");
        push_decimal(&mut cs, count);
        push_str(&mut cs, " lines]");
        string_of(&cs)
    }
}

fn build_chunks<C: TokenCounter>(
    lines: &[String],
    stream: Stream,
    next_id: &mut usize,
    counter: &C,
    classifier: Classifier,
) -> (r: Vec<Chunk>)
    requires
        *old(next_id) + lines.len() <= usize::MAX,
    ensures
        *final(next_id) == *old(next_id) + lines.len(),
        r.len() == lines.len(),
        forall|k: int|
            0 <= k < r.len() ==> built_chunk(
                #[trigger] r@[k],
                lines@[k]@,
                stream,
                k,
                lines.len() as int,
                classifier,
                counter,
            ),
{
    let total = lines.len();
    let mut out: Vec<Chunk> = Vec::new();
    let mut i: usize = 0;
    while i < total
        invariant
            total == lines.len(),
            i <= total,
            *next_id == *old(next_id) + i,
            *old(next_id) + total <= usize::MAX,
            out.len() == i,
            forall|k: int|
                0 <= k < i ==> built_chunk(
                    #[trigger] out@[k],
                    lines@[k]@,
                    stream,
                    k,
                    total as int,
                    classifier,
                    counter,
                ),
        decreases total - i,
    {
        let text = lines[i].clone();
        let (kind, priority) = classifier.classify(text.as_str());
        let id = ChunkId(*next_id);
        *next_id = *next_id + 1;
        let token_count = counter.count(text.as_str());
        let chunk = Chunk {
            id,
            kind,
            token_count,
            score: score(priority, i, total),
            priority,
            source: SourceMetadata { stream, line_number: i },
            text,
            relationships: Vec::new(),
        };
        out.push(chunk);
        i += 1;
    }
    out
}

/// `v` in reverse order, so that popping yields `v` front to back.
fn reversed(v: Vec<Chunk>) -> (r: Vec<Chunk>)
    ensures
        r@ == v@.reverse(),
{
    let mut v = v;
    let ghost orig = v@;
    let mut r: Vec<Chunk> = Vec::new();
    while v.len() > 0
        invariant
            orig.len() == v.len() + r.len(),
            v@ == orig.take(v.len() as int),
            r@ == orig.skip(v.len() as int).reverse(),
        decreases v.len(),
    {
        let ghost n = v.len();
        let c = v.pop().unwrap();
        r.push(c);
        assert(v@ == orig.take(n - 1));
        assert(r@ =~= orig.skip(n - 1).reverse());
    }
    assert(orig.skip(0) == orig);
    r
}

/// Splits `chunks` into the mandatory (P0) ones and the rest, each in original order.
fn partition(chunks: Vec<Chunk>) -> (r: (Vec<Chunk>, Vec<Chunk>))
    ensures
        r.0@.to_multiset().add(r.1@.to_multiset()) == chunks@.to_multiset(),
        forall|k: int| 0 <= k < r.0.len() ==> (#[trigger] r.0@[k]).priority == Priority::P0,
        forall|k: int| 0 <= k < r.1.len() ==> (#[trigger] r.1@[k]).priority != Priority::P0,
{
    let ghost orig = chunks@;
    let mut rev = reversed(chunks);
    proof {
        orig.lemma_reverse_to_multiset();
    }
    let mut mandatory: Vec<Chunk> = Vec::new();
    let mut optional: Vec<Chunk> = Vec::new();
    while rev.len() > 0
        invariant
            mandatory@.to_multiset().add(optional@.to_multiset()).add(rev@.to_multiset())
                == orig.to_multiset(),
            forall|k: int| 0 <= k < mandatory.len() ==> (#[trigger] mandatory@[k]).priority
                == Priority::P0,
            forall|k: int| 0 <= k < optional.len() ==> (#[trigger] optional@[k]).priority
                != Priority::P0,
        decreases rev.len(),
    {
        let ghost before = rev@;
        let c = rev.pop().unwrap();
        proof {
            assert(before == rev@.push(c));
        }
        if c.priority == Priority::P0 {
            mandatory.push(c);
        } else {
            optional.push(c);
        }
        proof {
            broadcast use vstd::multiset::group_multiset_axioms;

            assert(mandatory@.to_multiset().add(optional@.to_multiset()).add(rev@.to_multiset())
                =~= orig.to_multiset());
        }
    }
    (mandatory, optional)
}

/// The sum of the chunks' token counts.
pub open spec fn sum_tokens(s: Seq<Chunk>) -> int
    decreases s.len(),
{
    if s.len() == 0 {
        0
    } else {
        sum_tokens(s.drop_last()) + s.last().token_count
    }
}

/// The token counts of the mandatory (P0) lines of `lines`, summed.
pub open spec fn mandatory_tokens<C: TokenCounter>(counter: &C, classifier: Classifier, lines: Seq<Seq<char>>) -> int
    decreases lines.len(),
{
    if lines.len() == 0 {
        0
    } else {
        mandatory_tokens(counter, classifier, lines.drop_last()) + if mandatory_line(classifier, lines.last()) {
            counter.spec_count(lines.last()) as int
        } else {
            0
        }
    }
}

/// The mandatory lines of both streams together count more than the budget leaves them
/// once the markers' reserve is set aside: the one case in which they are shrunk.
pub open spec fn mandatory_overflows<C: TokenCounter>(
    counter: &C,
    classifier: Classifier,
    so: Seq<Seq<char>>,
    se: Seq<Seq<char>>,
    budget: int,
) -> bool {
    mandatory_tokens(counter, classifier, so) + mandatory_tokens(counter, classifier, se) > budget - marker_reserve(counter)
}

/// The token counts of the P0 chunks of `s`, summed.
pub open spec fn p0_tokens(s: Seq<Chunk>) -> int
    decreases s.len(),
{
    if s.len() == 0 {
        0
    } else {
        p0_tokens(s.drop_last()) + if s.last().priority == Priority::P0 {
            s.last().token_count as int
        } else {
            0
        }
    }
}

/// The token counts of the optional (non-P0) chunks of `s`, summed.
pub open spec fn optional_tokens(s: Seq<Chunk>) -> int
    decreases s.len(),
{
    if s.len() == 0 {
        0
    } else {
        optional_tokens(s.drop_last()) + if s.last().priority != Priority::P0 {
            s.last().token_count as int
        } else {
            0
        }
    }
}

/// The token counts of the optional chunks of `s` that a line scoring `sc` does not
/// strictly outscore, summed.
pub open spec fn optional_tokens_from(s: Seq<Chunk>, sc: Score) -> int
    decreases s.len(),
{
    if s.len() == 0 {
        0
    } else {
        optional_tokens_from(s.drop_last(), sc) + if s.last().priority != Priority::P0 && !score_gt(sc, s.last().score) {
            s.last().token_count as int
        } else {
            0
        }
    }
}

/// When `sc` outscores none of the optional chunks of `s`, they all count.
proof fn lemma_optional_tokens_from_all(s: Seq<Chunk>, sc: Score)
    requires
        forall|k: int| 0 <= k < s.len() && (#[trigger] s[k]).priority != Priority::P0 ==> !score_gt(sc, s[k].score),
    ensures
        optional_tokens_from(s, sc) == optional_tokens(s),
    decreases s.len(),
{
    if s.len() > 0 {
        assert forall|k: int| 0 <= k < s.drop_last().len() && (#[trigger] s.drop_last()[k]).priority != Priority::P0 implies !score_gt(sc, s.drop_last()[k].score) by {
            assert(s.drop_last()[k] == s[k]);
        }
        lemma_optional_tokens_from_all(s.drop_last(), sc);
        assert(s.last() == s[s.len() - 1]);
    }
}

/// The P0 and the optional totals make up the whole total.
proof fn lemma_tokens_split(s: Seq<Chunk>)
    ensures
        p0_tokens(s) + optional_tokens(s) == sum_tokens(s),
        optional_tokens(s) >= 0,
    decreases s.len(),
{
    if s.len() > 0 {
        lemma_tokens_split(s.drop_last());
    }
}

proof fn lemma_p0_tokens_concat(a: Seq<Chunk>, b: Seq<Chunk>)
    ensures
        p0_tokens(a + b) == p0_tokens(a) + p0_tokens(b),
    decreases b.len(),
{
    if b.len() == 0 {
        assert(a + b == a);
    } else {
        lemma_p0_tokens_concat(a, b.drop_last());
        assert((a + b).drop_last() == a + b.drop_last());
        assert((a + b).last() == b.last());
    }
}

/// Sequences holding the same chunks, in any order, have the same P0 total.
proof fn lemma_p0_tokens_multiset(a: Seq<Chunk>, b: Seq<Chunk>)
    requires
        a.to_multiset() == b.to_multiset(),
    ensures
        p0_tokens(a) == p0_tokens(b),
    decreases a.len(),
{
    if a.len() == 0 {
        assert(b.to_multiset().len() == 0);
        assert(b.len() == 0);
    } else {
        let x = a.last();
        let rest = a.drop_last();
        assert(a == rest.push(x));
        assert(a.to_multiset().count(x) > 0);
        assert(b.contains(x));
        let i = choose|i: int| 0 <= i < b.len() && b[i] == x;
        let b2 = b.remove(i);
        assert(rest.to_multiset() =~= b2.to_multiset());
        lemma_p0_tokens_multiset(rest, b2);
        assert(b == b.take(i) + (seq![x] + b.skip(i + 1)));
        assert(b2 == b.take(i) + b.skip(i + 1));
        lemma_p0_tokens_concat(b.take(i), seq![x] + b.skip(i + 1));
        lemma_p0_tokens_concat(seq![x], b.skip(i + 1));
        lemma_p0_tokens_concat(b.take(i), b.skip(i + 1));
        let term: int = if x.priority == Priority::P0 { x.token_count as int } else { 0 };
        assert(seq![x].drop_last() == Seq::<Chunk>::empty());
        assert(seq![x].last() == x);
        assert(p0_tokens(seq![x]) == p0_tokens(Seq::<Chunk>::empty()) + term);
        assert(p0_tokens(a) == p0_tokens(rest) + term);
        assert(p0_tokens(b) == p0_tokens(b.take(i)) + term + p0_tokens(b.skip(i + 1)));
    }
}

/// For chunks all P0, the P0 total is the whole total; for chunks none P0, it is zero.
proof fn lemma_p0_tokens_uniform(s: Seq<Chunk>)
    ensures
        (forall|k: int| 0 <= k < s.len() ==> (#[trigger] s[k]).priority == Priority::P0) ==> p0_tokens(s) == sum_tokens(s),
        (forall|k: int| 0 <= k < s.len() ==> (#[trigger] s[k]).priority != Priority::P0) ==> p0_tokens(s) == 0,
    decreases s.len(),
{
    if s.len() > 0 {
        lemma_p0_tokens_uniform(s.drop_last());
        assert(s.last() == s[s.len() - 1]);
        assert forall|k: int| 0 <= k < s.drop_last().len() implies s.drop_last()[k] == s[k] by {}
    }
}

/// The P0 total of the chunks built line by line from `lines` is their mandatory total.
proof fn lemma_p0_tokens_lines<C: TokenCounter>(cs: Seq<Chunk>, lines: Seq<Seq<char>>, classifier: Classifier, counter: &C)
    requires
        cs.len() == lines.len(),
        forall|k: int| 0 <= k < cs.len() ==> (#[trigger] cs[k]).priority == classify_spec(classifier, lines[k]).1
            && cs[k].token_count == counter.spec_count(lines[k]),
    ensures
        p0_tokens(cs) == mandatory_tokens(counter, classifier, lines),
    decreases cs.len(),
{
    if cs.len() > 0 {
        assert forall|k: int| 0 <= k < cs.drop_last().len() implies (#[trigger] cs.drop_last()[k]).priority == classify_spec(
            classifier,
            lines.drop_last()[k],
        ).1 && cs.drop_last()[k].token_count == counter.spec_count(lines.drop_last()[k]) by {
            assert(cs.drop_last()[k] == cs[k]);
        }
        lemma_p0_tokens_lines(cs.drop_last(), lines.drop_last(), classifier, counter);
        assert(cs[cs.len() - 1] == cs.last());
    }
}

/// Where `c` goes in `s`: before the first chunk it strictly outscores, or at the end.
pub open spec fn first_outscored(s: Seq<Chunk>, c: Chunk) -> int
    decreases s.len(),
{
    if s.len() == 0 {
        0
    } else if score_gt(c.score, s[0].score) {
        0
    } else {
        1 + first_outscored(s.drop_first(), c)
    }
}

/// `v` sorted by descending score, stably: each chunk in turn goes before the first chunk
/// placed so far that it strictly outscores, so chunks of equal score keep their order.
pub open spec fn by_score(v: Seq<Chunk>) -> Seq<Chunk>
    decreases v.len(),
{
    if v.len() == 0 {
        Seq::empty()
    } else {
        let s = by_score(v.drop_last());
        s.insert(first_outscored(s, v.last()), v.last())
    }
}

/// No chunk of `s` strictly outscores one before it.
pub open spec fn descending(s: Seq<Chunk>) -> bool {
    forall|i: int, j: int| 0 <= i < j < s.len() ==> !score_gt(#[trigger] s[j].score, #[trigger] s[i].score)
}

proof fn lemma_first_outscored(s: Seq<Chunk>, c: Chunk, p: int)
    requires
        0 <= p <= s.len(),
        forall|q: int| 0 <= q < p ==> !score_gt(c.score, #[trigger] s[q].score),
        p == s.len() || score_gt(c.score, s[p].score),
    ensures
        first_outscored(s, c) == p,
    decreases p,
{
    if p > 0 {
        assert(!score_gt(c.score, s[0].score));
        assert forall|q: int| 0 <= q < p - 1 implies !score_gt(c.score, #[trigger] s.drop_first()[q].score) by {
            assert(s.drop_first()[q] == s[q + 1]);
        }
        if p < s.len() {
            assert(s.drop_first()[p - 1] == s[p]);
        }
        lemma_first_outscored(s.drop_first(), c, p - 1);
    }
}

/// Scoring strictly higher is transitive.
proof fn lemma_score_gt_transitive(a: Score, b: Score, c: Score)
    requires
        score_gt(a, b),
        score_gt(b, c),
    ensures
        score_gt(a, c),
{
    if a.weight == b.weight && b.weight == c.weight {
        let (ap, as_, bp, bs, cp, cs) = (a.position as int, a.span as int, b.position as int, b.span as int,
            c.position as int, c.span as int);
        assert(ap * cs > cp * as_) by (nonlinear_arith)
            requires
                ap * bs > bp * as_,
                bp * cs > cp * bs,
                ap >= 0 && as_ >= 0 && bp >= 0 && bs >= 0 && cp >= 0 && cs >= 0,
        {
            assert(bs > 0 && bp > 0);
            assert((ap * bs) * (bp * cs) > (bp * as_) * (cp * bs));
            assert((bs * bp) * (ap * cs) > (bs * bp) * (as_ * cp));
        }
    }
}

/// `v` in descending score order; chunks of equal score keep their relative order.
fn sort_by_score(v: Vec<Chunk>) -> (r: Vec<Chunk>)
    ensures
        r@ == by_score(v@),
        descending(r@),
        r@.to_multiset() == v@.to_multiset(),
{
    let ghost orig = v@;
    let mut rev = reversed(v);
    proof {
        orig.lemma_reverse_to_multiset();
        assert(orig.skip(0) == orig);
        assert(orig.take(0) == Seq::<Chunk>::empty());
    }
    let mut out: Vec<Chunk> = Vec::new();
    while rev.len() > 0
        invariant
            rev.len() <= orig.len(),
            rev@ == orig.skip(orig.len() - rev.len()).reverse(),
            out@ == by_score(orig.take(orig.len() - rev.len())),
            descending(out@),
            out@.to_multiset().add(rev@.to_multiset()) == orig.to_multiset(),
        decreases rev.len(),
    {
        let ghost before = rev@;
        let ghost k = orig.len() - rev.len();
        let c = rev.pop().unwrap();
        proof {
            assert(before == rev@.push(c));
            assert(c == orig[k]);
            assert(rev@ =~= orig.skip(k + 1).reverse());
            assert(orig.take(k + 1).drop_last() == orig.take(k));
            assert(orig.take(k + 1).last() == c);
        }
        // Stable: `c` goes after every chunk it does not strictly outscore.
        let mut p: usize = 0;
        while p < out.len() && !c.score.exceeds(&out[p].score)
            invariant
                p <= out.len(),
                forall|q: int| 0 <= q < p ==> !score_gt(c.score, #[trigger] out@[q].score),
            decreases out.len() - p,
        {
            p += 1;
        }
        let ghost prev = out@;
        proof {
            lemma_first_outscored(prev, c, p as int);
        }
        out.insert(p, c);
        proof {
            assert(out@ == prev.insert(p as int, c));
            assert forall|i: int, j: int| 0 <= i < j < out@.len() implies !score_gt(#[trigger] out@[j].score, #[trigger] out@[i].score) by {
                if i == p {
                    // c against a later chunk
                    let y = prev[j - 1];
                    assert(out@[j] == y);
                    if score_gt(y.score, c.score) {
                        if j - 1 == p {
                            lemma_score_gt_transitive(c.score, y.score, c.score);
                        } else {
                            assert(!score_gt(prev[j - 1].score, prev[p as int].score));
                            lemma_score_gt_transitive(y.score, c.score, prev[p as int].score);
                        }
                    }
                } else if j == p {
                    assert(out@[i] == prev[i]);
                } else {
                    let pi = if i < p { i } else { i - 1 };
                    let pj = if j < p { j } else { j - 1 };
                    assert(out@[i] == prev[pi]);
                    assert(out@[j] == prev[pj]);
                }
            }
            assert(out@.to_multiset() == prev.to_multiset().insert(c));
            assert(out@.to_multiset().add(rev@.to_multiset()) =~= orig.to_multiset());
        }
    }
    proof {
        assert(orig.take(orig.len() as int) == orig);
    }
    out
}

/// The longest head of `text` (plus a "...") that the counter confirms fits within
/// `remaining`, found by binary search over the head's length.
fn truncate_to_fit<C: TokenCounter>(text: &String, remaining: usize, counter: &C) -> (r: String)
    ensures
        exists|n: int| 0 <= n <= text@.len() && r@ == text@.take(n) + "..."@,
{
    let chars = chars_of(text.as_str());
    let mut lo: usize = 0;
    let mut hi: usize = chars.len();
    while lo < hi
        invariant
            lo <= hi <= chars.len(),
        decreases hi - lo,
    {
        let gap = hi - lo;
        let mid = lo + (gap / 2 + gap % 2);
        let mut candidate = slice_chars(&chars, 0, mid);
        push_str(&mut candidate, "...");
        let cs = string_of(&candidate);
        if counter.count(cs.as_str()) <= remaining {
            lo = mid;
        } else {
            hi = mid - 1;
        }
    }
    let mut kept = slice_chars(&chars, 0, lo);
    push_str(&mut kept, "...");
    assert(chars@.subrange(0, lo as int) == text@.take(lo as int));
    string_of(&kept)
}

/// A mandatory chunk as built from the input: P0, not a marker, its text a line of its stream.
pub open spec fn pristine_mandatory(c: Chunk, so: Seq<Seq<char>>, se: Seq<Seq<char>>) -> bool {
    &&& c.priority == Priority::P0
    &&& c.kind != ChunkKind::OmissionMarker
    &&& stream_lines(c.source.stream, so, se).contains(c.text@)
}

/// A mandatory chunk that survived shrinking: P0, not a marker, traced to its stream.
pub open spec fn surviving_mandatory(c: Chunk, so: Seq<Seq<char>>, se: Seq<Seq<char>>) -> bool {
    &&& c.priority == Priority::P0
    &&& c.kind != ChunkKind::OmissionMarker
    &&& traced(c, so, se)
}

/// `c`, a mandatory chunk of `stream` as built at its place, has lost its line: no chunk
/// of `surv` stands there with its text, and none of `rest` stands there at all.
pub open spec fn lost_in(
    c: Chunk,
    stream: Stream,
    surv: Seq<Chunk>,
    rest: Seq<Chunk>,
    so: Seq<Seq<char>>,
    se: Seq<Seq<char>>,
    classifier: Classifier,
) -> bool {
    &&& c.source.stream == stream
    &&& at_place(c, so, se)
    &&& c.priority == Priority::P0
    &&& well_placed(c, so, se, classifier, false, false)
    &&& forall|j: int| 0 <= j < surv.len() && (#[trigger] surv[j]).source == c.source ==> surv[j].text@ != c.text@
    &&& forall|k: int| 0 <= k < rest.len() ==> (#[trigger] rest[k]).source != c.source
}

/// Keeps the highest-scoring chunks first, truncating or dropping once budget runs out.
/// Returns the survivors, whether each stream had anything shrunk, and per-stream drop
/// counts.
fn shrink_mandatory<C: TokenCounter>(
    mandatory: Vec<Chunk>,
    available: usize,
    counter: &C,
    Ghost(so): Ghost<Seq<Seq<char>>>,
    Ghost(se): Ghost<Seq<Seq<char>>>,
    Ghost(classifier): Ghost<Classifier>,
) -> (r: (Vec<Chunk>, bool, bool, usize, usize))
    requires
        forall|k: int| 0 <= k < mandatory.len() ==> well_placed(#[trigger] mandatory@[k], so, se, classifier, false, false),
        forall|k: int| 0 <= k < mandatory.len() ==> pristine_mandatory(#[trigger] mandatory@[k], so, se),
        forall|k: int| 0 <= k < mandatory.len() ==> at_place(#[trigger] mandatory@[k], so, se),
        distinct_sources(mandatory@),
        forall|k: int| 0 <= k < mandatory.len() ==> counted(#[trigger] mandatory@[k], so, se, counter),
    ensures
        forall|k: int| 0 <= k < r.0.len() ==> counted(#[trigger] r.0@[k], so, se, counter),
        !r.1 && !r.2 ==> sum_tokens(mandatory@) <= available,
        r.1 ==> exists|c: Chunk| lost_in(c, Stream::Stdout, r.0@, Seq::empty(), so, se, classifier),
        r.2 ==> exists|c: Chunk| lost_in(c, Stream::Stderr, r.0@, Seq::empty(), so, se, classifier),
        forall|k: int| 0 <= k < r.0.len() ==> surviving_mandatory(#[trigger] r.0@[k], so, se),
        forall|k: int| 0 <= k < r.0.len() ==> placed(#[trigger] r.0@[k], so, se) && inside(r.0@[k], so, se),
        distinct_sources(r.0@),
        forall|k: int| 0 <= k < r.0.len() ==> exists|j: int| 0 <= j < mandatory.len() && mandatory@[j].source == (#[trigger] r.0@[k]).source,
        forall|k: int| 0 <= k < r.0.len() ==> well_placed(#[trigger] r.0@[k], so, se, classifier, r.1, r.2),
        sum_tokens(r.0@) <= available,
        r.0.len() + r.3 + r.4 <= mandatory.len(),
        forall|c: Chunk|
            mandatory@.contains(c) ==> r.0@.contains(c) || (c.source.stream == Stream::Stdout
                && r.1) || (c.source.stream == Stream::Stderr && r.2),
{
    let ghost m = mandatory@;
    let sorted = sort_by_score(mandatory);
    assert forall|k: int| 0 <= k < sorted.len() implies pristine_mandatory(#[trigger] sorted@[k], so, se) by {
        assert(sorted@.contains(sorted@[k]));
        assert(sorted@.to_multiset().count(sorted@[k]) > 0);
        assert(m.contains(sorted@[k]));
    }
    assert(sorted@.to_multiset().len() == m.to_multiset().len());
    let ghost sorted_view = sorted@;
    let mut rev = reversed(sorted);
    assert forall|c: Chunk| m.contains(c) implies rev@.contains(c) by {
        assert(m.to_multiset().count(c) > 0);
        assert(sorted_view.to_multiset().count(c) > 0);
        let j = choose|j: int| 0 <= j < sorted_view.len() && sorted_view[j] == c;
        assert(rev@[sorted_view.len() - 1 - j] == c);
    }
    proof {
        sorted_view.lemma_reverse_to_multiset();
        lemma_distinct_sub(m, rev@);
        assert forall|k: int| 0 <= k < rev.len() implies at_place(#[trigger] rev@[k], so, se) && well_placed(rev@[k], so, se, classifier, false, false)
            && counted(rev@[k], so, se, counter) && exists|j: int|
            0 <= j < m.len() && m[j].source == rev@[k].source by {
            let c = rev@[k];
            assert(rev@.to_multiset().count(c) > 0);
            assert(m.to_multiset().count(c) > 0);
            assert(m.contains(c));
            let j = choose|j: int| 0 <= j < m.len() && m[j] == c;
        }
        assert(Seq::<Chunk>::empty() + rev@ == rev@);
        assert(rev@.to_multiset() == m.to_multiset());
        lemma_p0_tokens_multiset(rev@, m);
        assert forall|k: int| 0 <= k < m.len() implies (#[trigger] m[k]).priority == Priority::P0 by {
            assert(pristine_mandatory(m[k], so, se));
        }
        lemma_p0_tokens_uniform(rev@);
        lemma_p0_tokens_uniform(m);
    }
    let ghost n = rev.len();
    let mut survivors: Vec<Chunk> = Vec::new();
    let mut shrunk_out = false;
    let mut shrunk_err = false;
    let mut dropped_out: usize = 0;
    let mut dropped_err: usize = 0;
    let mut remaining = available;
    let ghost mut wo: Chunk = arbitrary();
    let ghost mut we: Chunk = arbitrary();
    while rev.len() > 0
        invariant
            shrunk_out ==> lost_in(wo, Stream::Stdout, survivors@, rev@, so, se, classifier),
            shrunk_err ==> lost_in(we, Stream::Stderr, survivors@, rev@, so, se, classifier),
            n == m.len(),
            forall|k: int| 0 <= k < rev.len() ==> pristine_mandatory(#[trigger] rev@[k], so, se),
            forall|k: int| 0 <= k < survivors.len() ==> surviving_mandatory(#[trigger] survivors@[k], so, se),
            sum_tokens(survivors@) + remaining == available,
            survivors.len() + dropped_out + dropped_err + rev.len() == n,
            forall|c: Chunk|
                m.contains(c) ==> rev@.contains(c) || survivors@.contains(c) || (c.source.stream
                    == Stream::Stdout && shrunk_out) || (c.source.stream == Stream::Stderr
                    && shrunk_err),
            forall|k: int| 0 <= k < rev.len() ==> at_place(#[trigger] rev@[k], so, se),
            forall|k: int| 0 <= k < rev.len() ==> exists|j: int| 0 <= j < m.len() && m[j].source == (#[trigger] rev@[k]).source,
            forall|k: int| 0 <= k < survivors.len() ==> placed(#[trigger] survivors@[k], so, se) && inside(survivors@[k], so, se),
            forall|k: int| 0 <= k < survivors.len() ==> exists|j: int| 0 <= j < m.len() && m[j].source == (#[trigger] survivors@[k]).source,
            distinct_sources(survivors@ + rev@),
            forall|k: int| 0 <= k < rev.len() ==> well_placed(#[trigger] rev@[k], so, se, classifier, false, false),
            forall|k: int| 0 <= k < survivors.len() ==> well_placed(#[trigger] survivors@[k], so, se, classifier, shrunk_out, shrunk_err),
            forall|k: int| 0 <= k < rev.len() ==> counted(#[trigger] rev@[k], so, se, counter),
            forall|k: int| 0 <= k < survivors.len() ==> counted(#[trigger] survivors@[k], so, se, counter),
            !shrunk_out && !shrunk_err ==> sum_tokens(survivors@) + sum_tokens(rev@) == sum_tokens(m),
        decreases rev.len(),
    {
        let ghost before = rev@;
        let ghost before_surv = survivors@;
        let mut chunk = rev.pop().unwrap();
        proof {
            assert(before == rev@.push(chunk));
            assert(pristine_mandatory(before[before.len() - 1], so, se));
            assert(at_place(before[before.len() - 1], so, se));
            assert(exists|j: int| 0 <= j < m.len() && m[j].source == before[before.len() - 1].source);
            assert(before.drop_last() == rev@);
            assert((survivors@ + rev@) + seq![chunk] == survivors@ + before);
            lemma_distinct_split(survivors@ + rev@, seq![chunk]);
            assert forall|k: int| 0 <= k < rev.len() implies at_place(#[trigger] rev@[k], so, se) && well_placed(rev@[k], so, se, classifier, false, false)
                && counted(rev@[k], so, se, counter) && exists|j: int|
                0 <= j < m.len() && m[j].source == rev@[k].source by {
                assert(rev@[k] == before[k]);
            }
            assert(well_placed(before[before.len() - 1], so, se, classifier, false, false));
            assert(counted(before[before.len() - 1], so, se, counter));
        }
        let ghost popped = chunk;
        proof {
            assert forall|c: Chunk| before.contains(c) && c != popped implies rev@.contains(c) by {
                let j = choose|j: int| 0 <= j < before.len() && before[j] == c;
                assert(j < rev@.len());
                assert(rev@[j] == c);
            }
        }
        if chunk.token_count <= remaining {
            remaining -= chunk.token_count;
            let ghost prev = survivors@;
            survivors.push(chunk);
            assert(survivors@.drop_last() == prev);
            assert(survivors@[survivors@.len() - 1] == popped);
            assert forall|c: Chunk| prev.contains(c) implies survivors@.contains(c) by {
                let j = choose|j: int| 0 <= j < prev.len() && prev[j] == c;
                assert(survivors@[j] == c);
            }
            proof {
                lemma_distinct_move(prev, before, popped);
                assert forall|k: int| 0 <= k < survivors.len() implies placed(#[trigger] survivors@[k], so, se) && inside(survivors@[k], so, se)
                    && well_placed(survivors@[k], so, se, classifier, shrunk_out, shrunk_err) && counted(survivors@[k], so, se, counter)
                    && exists|j: int| 0 <= j < m.len() && m[j].source == survivors@[k].source by {
                    if k < prev.len() {
                        assert(survivors@[k] == prev[k]);
                    }
                }
                if shrunk_out {
                    assert(before[before.len() - 1].source != wo.source);
                    assert forall|k: int| 0 <= k < rev.len() implies (#[trigger] rev@[k]).source != wo.source by {
                        assert(rev@[k] == before[k]);
                    }
                    assert forall|j: int| 0 <= j < survivors.len() && (#[trigger] survivors@[j]).source == wo.source implies survivors@[j].text@ != wo.text@ by {
                        if j < prev.len() {
                            assert(survivors@[j] == prev[j]);
                        }
                    }
                }
                if shrunk_err {
                    assert(before[before.len() - 1].source != we.source);
                    assert forall|k: int| 0 <= k < rev.len() implies (#[trigger] rev@[k]).source != we.source by {
                        assert(rev@[k] == before[k]);
                    }
                    assert forall|j: int| 0 <= j < survivors.len() && (#[trigger] survivors@[j]).source == we.source implies survivors@[j].text@ != we.text@ by {
                        if j < prev.len() {
                            assert(survivors@[j] == prev[j]);
                        }
                    }
                }
            }
            continue;
        }
        proof {
            assert forall|k: int| 0 <= k < rev.len() implies (#[trigger] rev@[k]).source != popped.source by {
                assert(rev@[k] == before[k]);
                assert(survivors@ + before == (survivors@ + rev@) + seq![popped]);
                assert((survivors@ + before)[survivors.len() + k] == before[k]);
                assert((survivors@ + before)[survivors.len() + before.len() - 1] == popped);
            }
            assert forall|j: int| 0 <= j < survivors.len() implies (#[trigger] survivors@[j]).source != popped.source by {
                assert((survivors@ + before)[j] == survivors@[j]);
                assert((survivors@ + before)[survivors.len() + before.len() - 1] == popped);
            }
            assert forall|k: int| 0 <= k < rev.len() && shrunk_out implies (#[trigger] rev@[k]).source != wo.source by {
                assert(rev@[k] == before[k]);
            }
            assert forall|k: int| 0 <= k < rev.len() && shrunk_err implies (#[trigger] rev@[k]).source != we.source by {
                assert(rev@[k] == before[k]);
            }
        }
        match chunk.source.stream {
            Stream::Stdout => {
                shrunk_out = true;
                proof {
                    wo = popped;
                }
            },
            Stream::Stderr => {
                shrunk_err = true;
                proof {
                    we = popped;
                }
            },
        }
        if remaining == 0 {
            // No room left at all: drop entirely.
            match chunk.source.stream {
                Stream::Stdout => dropped_out += 1,
                Stream::Stderr => dropped_err += 1,
            }
            continue;
        }
        let ghost original = chunk.text@;
        chunk.text = truncate_to_fit(&chunk.text, remaining, counter);
        chunk.token_count = counter.count(chunk.text.as_str());
        proof {
            let lines = stream_lines(chunk.source.stream, so, se);
            let k = choose|k: int| 0 <= k < lines.len() && lines[k] == original;
            let t = chunk.text@;
            let w = choose|w: int| 0 <= w <= original.len() && t == original.take(w) + "..."@;
            assert(t == lines[k].take(w) + "..."@);
            assert(is_shrunk_line(t, lines));
            assert(original == lines[popped.source.line_number as int]);
            assert(shrunk_of(t, lines[popped.source.line_number as int]));
            assert(placed(chunk, so, se) && inside(chunk, so, se));
            assert(popped.priority == Priority::P0);
        }
        if chunk.token_count <= remaining {
            assert(chunk.text@ != popped.text@) by {
                if chunk.text@ == popped.text@ {
                    assert(counted(popped, so, se, counter));
                }
            }
            remaining -= chunk.token_count;
            let ghost prev = survivors@;
            survivors.push(chunk);
            assert(survivors@.drop_last() == prev);
            assert forall|c: Chunk| prev.contains(c) implies survivors@.contains(c) by {
                let j = choose|j: int| 0 <= j < prev.len() && prev[j] == c;
                assert(survivors@[j] == c);
            }
            proof {
                if shrunk_out {
                    assert forall|j: int| 0 <= j < survivors.len() && (#[trigger] survivors@[j]).source == wo.source implies survivors@[j].text@ != wo.text@ by {
                        if j < prev.len() {
                            assert(survivors@[j] == prev[j]);
                        }
                    }
                }
                if shrunk_err {
                    assert forall|j: int| 0 <= j < survivors.len() && (#[trigger] survivors@[j]).source == we.source implies survivors@[j].text@ != we.text@ by {
                        if j < prev.len() {
                            assert(survivors@[j] == prev[j]);
                        }
                    }
                }
                lemma_distinct_move(prev, before, chunk);
                assert forall|k: int| 0 <= k < survivors.len() implies placed(#[trigger] survivors@[k], so, se) && inside(survivors@[k], so, se)
                    && well_placed(survivors@[k], so, se, classifier, shrunk_out, shrunk_err) && counted(survivors@[k], so, se, counter)
                    && exists|j: int| 0 <= j < m.len() && m[j].source == survivors@[k].source by {
                    if k < prev.len() {
                        assert(survivors@[k] == prev[k]);
                    }
                }
            }
        } else {
            match chunk.source.stream {
                Stream::Stdout => dropped_out += 1,
                Stream::Stderr => dropped_err += 1,
            }
        }
    }
    proof {
        assert(survivors@ + rev@ == survivors@);
        if shrunk_out {
            assert(lost_in(wo, Stream::Stdout, survivors@, Seq::empty(), so, se, classifier));
            assert(exists|c: Chunk| lost_in(c, Stream::Stdout, survivors@, Seq::empty(), so, se, classifier));
        }
        if shrunk_err {
            assert(lost_in(we, Stream::Stderr, survivors@, Seq::empty(), so, se, classifier));
            assert(exists|c: Chunk| lost_in(c, Stream::Stderr, survivors@, Seq::empty(), so, se, classifier));
        }
    }
    let ghost surv_final = survivors@;
    let result = (survivors, shrunk_out, shrunk_err, dropped_out, dropped_err);
    proof {
        assert(result.0@ == surv_final);
        if shrunk_out {
            assert(lost_in(wo, Stream::Stdout, result.0@, Seq::empty(), so, se, classifier));
        }
        if shrunk_err {
            assert(lost_in(we, Stream::Stderr, result.0@, Seq::empty(), so, se, classifier));
        }
    }
    result
}

/// `t` is a head of `line` followed by `...`.
pub open spec fn shrunk_of(t: Seq<char>, line: Seq<char>) -> bool {
    exists|n: int| 0 <= n <= line.len() && t == line.take(n) + "..."@
}

/// The chunk stands for its own place in its stream: below the stream's length, the line
/// at its line number (or a shrunk head of it); past it, a marker.
pub open spec fn placed(c: Chunk, so: Seq<Seq<char>>, se: Seq<Seq<char>>) -> bool {
    let lines = stream_lines(c.source.stream, so, se);
    let k = c.source.line_number as int;
    if k < lines.len() {
        c.text@ == lines[k] || shrunk_of(c.text@, lines[k])
    } else {
        is_marker_text(c.text@)
    }
}

/// No two of `s` stand for the same place.
pub open spec fn distinct_sources(s: Seq<Chunk>) -> bool {
    forall|i: int, j: int| 0 <= i < s.len() && 0 <= j < s.len() && i != j ==> s[i].source != s[j].source
}

/// The chunk's line number is within its stream's lines.
pub open spec fn inside(c: Chunk, so: Seq<Seq<char>>, se: Seq<Seq<char>>) -> bool {
    (c.source.line_number as int) < stream_lines(c.source.stream, so, se).len()
}

/// The chunk holds exactly the input line at its place.
pub open spec fn at_place(c: Chunk, so: Seq<Seq<char>>, se: Seq<Seq<char>>) -> bool {
    &&& inside(c, so, se)
    &&& c.text@ == stream_lines(c.source.stream, so, se)[c.source.line_number as int]
}

proof fn lemma_distinct_split(a: Seq<Chunk>, b: Seq<Chunk>)
    requires
        distinct_sources(a + b),
    ensures
        distinct_sources(a),
        distinct_sources(b),
{
    let ab = a + b;
    assert forall|i: int, j: int| 0 <= i < a.len() && 0 <= j < a.len() && i != j implies a[i].source != a[j].source by {
        assert(ab[i] == a[i] && ab[j] == a[j]);
    }
    assert forall|i: int, j: int| 0 <= i < b.len() && 0 <= j < b.len() && i != j implies b[i].source != b[j].source by {
        assert(ab[a.len() + i] == b[i] && ab[a.len() + j] == b[j]);
    }
}

/// Chunks standing for places of `m` (and distinct among themselves) stand for places
/// distinct from those of `o` when `m + o` does.
proof fn lemma_distinct_via_sources(sv: Seq<Chunk>, m: Seq<Chunk>, o: Seq<Chunk>)
    requires
        distinct_sources(sv),
        distinct_sources(m + o),
        forall|k: int| 0 <= k < sv.len() ==> exists|j: int| 0 <= j < m.len() && m[j].source == (#[trigger] sv[k]).source,
    ensures
        distinct_sources(sv + o),
{
    let mo = m + o;
    let so = sv + o;
    lemma_distinct_split(m, o);
    assert forall|i: int, j: int| 0 <= i < so.len() && 0 <= j < so.len() && i != j implies so[i].source != so[j].source by {
        if i < sv.len() && j >= sv.len() {
            let p = choose|p: int| 0 <= p < m.len() && m[p].source == sv[i].source;
            assert(mo[p] == m[p] && mo[m.len() + j - sv.len()] == o[j - sv.len()]);
        } else if j < sv.len() && i >= sv.len() {
            let p = choose|p: int| 0 <= p < m.len() && m[p].source == sv[j].source;
            assert(mo[p] == m[p] && mo[m.len() + i - sv.len()] == o[i - sv.len()]);
        } else if i < sv.len() {
            assert(so[i] == sv[i] && so[j] == sv[j]);
        } else {
            assert(so[i] == o[i - sv.len()] && so[j] == o[j - sv.len()]);
        }
    }
}

/// A sequence whose elements occur no more often than in one whose chunks stand for
/// distinct places has distinct places too.
proof fn lemma_distinct_sub(a: Seq<Chunk>, b: Seq<Chunk>)
    requires
        distinct_sources(a),
        forall|x: Chunk| b.to_multiset().count(x) <= a.to_multiset().count(x),
    ensures
        distinct_sources(b),
{
    assert(a.no_duplicates());
    a.lemma_multiset_has_no_duplicates();
    assert forall|x: Chunk| b.to_multiset().contains(x) implies b.to_multiset().count(x) == 1 by {
        assert(b.to_multiset().count(x) <= a.to_multiset().count(x));
        assert(a.to_multiset().contains(x));
    }
    b.lemma_multiset_has_no_duplicates_conv();
    assert forall|i: int, j: int| 0 <= i < b.len() && 0 <= j < b.len() && i != j implies b[i].source != b[j].source by {
        assert(b.to_multiset().count(b[i]) > 0);
        assert(b.to_multiset().count(b[j]) > 0);
        assert(a.to_multiset().count(b[i]) > 0);
        assert(a.to_multiset().count(b[j]) > 0);
        assert(a.contains(b[i]));
        assert(a.contains(b[j]));
        let p = choose|p: int| 0 <= p < a.len() && a[p] == b[i];
        let q = choose|q: int| 0 <= q < a.len() && a[q] == b[j];
        assert(b[i] != b[j]);
    }
}

/// Moving the last of `r` (as `y`, standing for the same place) to the end of `s` keeps
/// the places of `s + r` distinct.
proof fn lemma_distinct_move(s: Seq<Chunk>, r: Seq<Chunk>, y: Chunk)
    requires
        r.len() > 0,
        y.source == r.last().source,
        distinct_sources(s + r),
    ensures
        distinct_sources(s.push(y) + r.drop_last()),
{
    let before = s + r;
    let after = s.push(y) + r.drop_last();
    assert forall|i: int, j: int| 0 <= i < after.len() && 0 <= j < after.len() && i != j implies after[i].source
        != after[j].source by {
        let fi = if i < s.len() { i } else if i == s.len() { before.len() - 1 } else { i - 1 };
        let fj = if j < s.len() { j } else if j == s.len() { before.len() - 1 } else { j - 1 };
        assert(after[i].source == before[fi].source);
        assert(after[j].source == before[fj].source);
    }
}

/// The positions in `selected` of the chunks of `stream`, ordered by line number
/// (chunks on the same line number keep their relative order).
#[verifier::rlimit(60)]
fn stream_order(selected: &Vec<Chunk>, stream: Stream) -> (r: Vec<usize>)
    ensures
        forall|a: int| 0 <= a < r.len() ==> r@[a] < selected.len() && selected@[r@[a] as int].source.stream == stream,
        forall|i: int| 0 <= i < selected.len() && (#[trigger] selected@[i]).source.stream == stream ==> r@.contains(i as usize),
        forall|a: int, b: int|
            0 <= a < b < r.len() ==> selected@[r@[a] as int].source.line_number <= selected@[r@[b] as int].source.line_number,
        forall|a: int, b: int| 0 <= a < b < r.len() ==> r@[a] != r@[b],
{
    let mut out: Vec<usize> = Vec::new();
    let mut i: usize = 0;
    while i < selected.len()
        invariant
            i <= selected.len(),
            forall|a: int| 0 <= a < out.len() ==> out@[a] < i && selected@[out@[a] as int].source.stream == stream,
            forall|j: int| 0 <= j < i && (#[trigger] selected@[j]).source.stream == stream ==> out@.contains(j as usize),
            sorted_by(out@, |j: usize| selected@[j as int].source.line_number as int),
            forall|a: int, b: int| 0 <= a < b < out.len() ==> out@[a] != out@[b],
        decreases selected.len() - i,
    {
        if selected[i].source.stream == stream {
            let key = selected[i].source.line_number;
            let mut p: usize = 0;
            while p < out.len() && selected[out[p]].source.line_number <= key
                invariant
                    p <= out.len(),
                    forall|a: int| 0 <= a < out.len() ==> out@[a] < i,
                    i < selected.len(),
                    key == selected@[i as int].source.line_number,
                    forall|q: int| 0 <= q < p ==> selected@[out@[q] as int].source.line_number <= key,
                decreases out.len() - p,
            {
                p += 1;
            }
            let ghost prev = out@;
            let ghost key = |j: usize| selected@[j as int].source.line_number as int;
            out.insert(p, i);
            proof {
                lemma_insert_sorted(prev, p as int, i, key);
                assert forall|a: int, b: int| 0 <= a < b < out.len() implies out@[a] != out@[b] by {
                    if a < p as int {
                        assert(out@[a] == prev[a]);
                    } else if a > p as int {
                        assert(out@[a] == prev[a - 1]);
                    }
                    if b < p as int {
                        assert(out@[b] == prev[b]);
                    } else if b > p as int {
                        assert(out@[b] == prev[b - 1]);
                    }
                }
                assert forall|j: int| 0 <= j <= i && (#[trigger] selected@[j]).source.stream == stream implies out@.contains(j as usize) by {
                    if j < i {
                        assert(prev.contains(j as usize));
                    }
                }
                assert forall|a: int| 0 <= a < out.len() implies out@[a] < i + 1 && selected@[out@[a] as int].source.stream == stream by {
                    if out@[a] != i {
                        assert(prev.contains(out@[a]));
                    }
                }
            }
        }
        i += 1;
    }
    out
}

pub open spec fn sorted_by(s: Seq<usize>, key: spec_fn(usize) -> int) -> bool {
    forall|a: int, b: int| 0 <= a < b < s.len() ==> key(s[a]) <= key(s[b])
}

proof fn lemma_insert_sorted(prev: Seq<usize>, p: int, x: usize, key: spec_fn(usize) -> int)
    requires
        sorted_by(prev, key),
        0 <= p <= prev.len(),
        forall|q: int| 0 <= q < p ==> key(prev[q]) <= key(x),
        p < prev.len() ==> key(prev[p]) > key(x),
    ensures
        sorted_by(prev.insert(p, x), key),
        forall|e: usize| prev.contains(e) ==> prev.insert(p, x).contains(e),
        prev.insert(p, x).contains(x),
        forall|a: int| 0 <= a < prev.len() + 1 ==> prev.insert(p, x)[a] == x || prev.contains(prev.insert(p, x)[a]),
{
    let out = prev.insert(p, x);
    assert(out[p] == x);
    assert forall|e: usize| prev.contains(e) implies out.contains(e) by {
        let q = choose|q: int| 0 <= q < prev.len() && prev[q] == e;
        if q < p {
            assert(out[q] == e);
        } else {
            assert(out[q + 1] == e);
        }
    }
    assert forall|a: int| 0 <= a < prev.len() + 1 implies out[a] == x || prev.contains(out[a]) by {
        if a < p {
            assert(out[a] == prev[a]);
        } else if a > p {
            assert(out[a] == prev[a - 1]);
        }
    }
    assert forall|a: int, b: int| 0 <= a < b < out.len() implies key(out[a]) <= key(out[b]) by {
        if b < p {
            assert(out[a] == prev[a] && out[b] == prev[b]);
        } else if b == p {
            if a < p {
                assert(out[a] == prev[a]);
            }
        } else if a < p {
            assert(out[a] == prev[a] && out[b] == prev[b - 1]);
            assert(key(prev[p]) <= key(prev[b - 1]) || b - 1 == p);
        } else if a == p {
            assert(out[b] == prev[b - 1]);
            assert(key(prev[p]) <= key(prev[b - 1]) || b - 1 == p);
        } else {
            assert(out[a] == prev[a - 1] && out[b] == prev[b - 1]);
        }
    }
}

/// The texts of `selected`'s chunks at positions `order`, in that order.
pub open spec fn texts_at(selected: Seq<Chunk>, order: Seq<usize>) -> Seq<Seq<char>> {
    order.map_values(|j: usize| selected[j as int].text@)
}

/// The line number of the chunk at position `a` of `order`.
pub open spec fn line_of(selected: Seq<Chunk>, order: Seq<usize>, a: int) -> int {
    selected[order[a] as int].source.line_number as int
}

/// Whether `stream`'s mandatory lines were shrunk.
pub open spec fn shrunk_for(stream: Stream, shrunk_out: bool, shrunk_err: bool) -> bool {
    match stream {
        Stream::Stdout => shrunk_out,
        Stream::Stderr => shrunk_err,
    }
}

/// The line is mandatory (P0) under `classifier`.
pub open spec fn mandatory_line(classifier: Classifier, line: Seq<char>) -> bool {
    classify_spec(classifier, line).1 == Priority::P0
}

/// The chunk stands where it belongs: at a line of its stream, with that line's class, and
/// with that line's text -- or, for a mandatory chunk of a stream whose mandatory lines were
/// shrunk, a shrunk head of it.
pub open spec fn well_placed(
    c: Chunk,
    so: Seq<Seq<char>>,
    se: Seq<Seq<char>>,
    classifier: Classifier,
    shrunk_out: bool,
    shrunk_err: bool,
) -> bool {
    let lines = stream_lines(c.source.stream, so, se);
    let k = c.source.line_number as int;
    &&& k < lines.len()
    &&& c.priority == classify_spec(classifier, lines[k]).1
    &&& (c.text@ == lines[k] || (shrunk_for(c.source.stream, shrunk_out, shrunk_err) && c.priority == Priority::P0
        && shrunk_of(c.text@, lines[k])))
}

/// `kept` holds, at the increasing positions `ks` of `lines`, those lines -- or, when the
/// stream's mandatory lines were `shrunk`, a shrunk head of a mandatory one.
pub open spec fn kept_lines(
    lines: Seq<Seq<char>>,
    kept: Seq<Seq<char>>,
    ks: Seq<int>,
    shrunk: bool,
    classifier: Classifier,
) -> bool {
    &&& ks.len() == kept.len()
    &&& forall|a: int, b: int| 0 <= a < b < ks.len() ==> #[trigger] ks[a] < #[trigger] ks[b]
    &&& forall|a: int|
        0 <= a < ks.len() ==> 0 <= #[trigger] ks[a] < lines.len() && (kept[a] == lines[ks[a]] || (shrunk
            && mandatory_line(classifier, lines[ks[a]]) && shrunk_of(kept[a], lines[ks[a]])))
}

/// The lines a stream ends with after its kept lines: the shrink marker when its mandatory
/// lines were shrunk, then one omission marker counting the `dropped` lines not rendered.
pub open spec fn marker_lines(shrunk: bool, dropped: nat) -> Seq<Seq<char>> {
    (if shrunk {
        seq![shrink_marker_text()]
    } else {
        Seq::<Seq<char>>::empty()
    }) + (if dropped > 0 {
        seq![omission_text(dropped)]
    } else {
        Seq::<Seq<char>>::empty()
    })
}

/// `rendered` is a stream's output for its input `lines`: the lines kept at positions `ks`
/// (see [`kept_lines`]), then its markers, the omission marker counting exactly the lines of
/// `lines` that are not kept.
pub open spec fn stream_shape(
    lines: Seq<Seq<char>>,
    rendered: Seq<Seq<char>>,
    ks: Seq<int>,
    shrunk: bool,
    classifier: Classifier,
) -> bool {
    &&& ks.len() <= rendered.len()
    &&& kept_lines(lines, rendered.take(ks.len() as int), ks, shrunk, classifier)
    &&& rendered.skip(ks.len() as int) == marker_lines(shrunk, (lines.len() - ks.len()) as nat)
}

/// Unless the stream's mandatory lines were shrunk, every mandatory line of it is kept.
pub open spec fn keeps_mandatory_at(lines: Seq<Seq<char>>, ks: Seq<int>, shrunk: bool, classifier: Classifier) -> bool {
    !shrunk ==> forall|k: int| 0 <= k < lines.len() && #[trigger] mandatory_line(classifier, lines[k]) ==> ks.contains(k)
}

/// Each position in `ks` is that of a chunk of `stream` in `selected`.
pub open spec fn positions_backed(selected: Seq<Chunk>, stream: Stream, ks: Seq<int>) -> bool {
    forall|a: int| #![trigger ks[a]] 0 <= a < ks.len() ==> exists|j: int|
        0 <= j < selected.len() && (#[trigger] selected[j]).source.stream == stream
            && selected[j].source.line_number as int == ks[a]
}

/// The place `src` is among those the rendering `w` keeps.
pub open spec fn kept_at(w: Rendering, src: SourceMetadata) -> bool {
    match src.stream {
        Stream::Stdout => w.2.contains(src.line_number as int),
        Stream::Stderr => w.3.contains(src.line_number as int),
    }
}

/// Some chunk of `stream` in `selected` stands at position `k` with text `t`.
pub open spec fn has_text_at(selected: Seq<Chunk>, stream: Stream, k: int, t: Seq<char>) -> bool {
    exists|j: int|
        0 <= j < selected.len() && (#[trigger] selected[j]).source.stream == stream && selected[j].source.line_number as int
            == k && selected[j].text@ == t
}

/// Each kept line `rendered[a]` (at position `ks[a]`) is the text of the chunk of `stream`
/// in `selected` that stands there.
pub open spec fn texts_backed(selected: Seq<Chunk>, stream: Stream, rendered: Seq<Seq<char>>, ks: Seq<int>) -> bool {
    forall|a: int| 0 <= a < ks.len() ==> #[trigger] has_text_at(selected, stream, ks[a], rendered[a])
}

proof fn lemma_texts_backed_prefix(
    selected: Seq<Chunk>,
    stream: Stream,
    kept: Seq<Seq<char>>,
    ks: Seq<int>,
    rendered: Seq<Seq<char>>,
)
    requires
        texts_backed(selected, stream, kept, ks),
        ks.len() == kept.len(),
        ks.len() <= rendered.len(),
        rendered.take(ks.len() as int) == kept,
    ensures
        texts_backed(selected, stream, rendered, ks),
{
    assert forall|a: int| 0 <= a < ks.len() implies #[trigger] has_text_at(selected, stream, ks[a], rendered[a]) by {
        assert(rendered[a] == rendered.take(ks.len() as int)[a]);
        assert(has_text_at(selected, stream, ks[a], kept[a]));
    }
}

/// The positions a strictly increasing sequence of positions in `0..n` holds number at most `n`.
proof fn lemma_increasing_len(ks: Seq<int>, n: int)
    requires
        0 <= n,
        forall|a: int, b: int| 0 <= a < b < ks.len() ==> #[trigger] ks[a] < #[trigger] ks[b],
        forall|a: int| 0 <= a < ks.len() ==> 0 <= #[trigger] ks[a] < n,
    ensures
        ks.len() <= n,
    decreases ks.len(),
{
    if ks.len() > 0 {
        let d = ks.drop_last();
        assert forall|a: int| 0 <= a < d.len() implies 0 <= #[trigger] d[a] < ks.last() by {
            assert(d[a] == ks[a]);
        }
        assert forall|a: int, b: int| 0 <= a < b < d.len() implies #[trigger] d[a] < #[trigger] d[b] by {
            assert(d[a] == ks[a] && d[b] == ks[b]);
        }
        assert(0 <= ks[ks.len() - 1] < n);
        lemma_increasing_len(d, ks.last());
        assert(ks.len() == d.len() + 1);
    }
}

/// The rendered text of one stream: each of its chunks' text, in line-number order,
/// followed by a newline; also the positions the chunks stand for, and how many there are.
fn render_stream(
    selected: &Vec<Chunk>,
    stream: Stream,
    Ghost(so): Ghost<Seq<Seq<char>>>,
    Ghost(se): Ghost<Seq<Seq<char>>>,
    Ghost(classifier): Ghost<Classifier>,
    Ghost(shrunk_out): Ghost<bool>,
    Ghost(shrunk_err): Ghost<bool>,
) -> (r: (Vec<char>, Ghost<Seq<Seq<char>>>, Ghost<Seq<int>>, usize))
    requires
        forall|j: int| 0 <= j < selected.len() && (#[trigger] selected@[j]).source.stream == stream ==> well_placed(
            selected@[j],
            so,
            se,
            classifier,
            shrunk_out,
            shrunk_err,
        ),
        distinct_sources(selected@),
    ensures
        r.0@ == concat_terminated(r.1@, "\n"@),
        kept_lines(stream_lines(stream, so, se), r.1@, r.2@, shrunk_for(stream, shrunk_out, shrunk_err), classifier),
        r.3 == r.2@.len(),
        forall|j: int|
            0 <= j < selected.len() && (#[trigger] selected@[j]).source.stream == stream ==> r.2@.contains(
                selected@[j].source.line_number as int,
            ),
        positions_backed(selected@, stream, r.2@),
        texts_backed(selected@, stream, r.1@, r.2@),
{
    let order = stream_order(selected, stream);
    let ghost texts = texts_at(selected@, order@);
    let ghost lines = stream_lines(stream, so, se);
    let ghost shrunk = shrunk_for(stream, shrunk_out, shrunk_err);
    let ghost mut ks: Seq<int> = Seq::empty();
    let mut cs: Vec<char> = Vec::new();
    let mut k: usize = 0;
    while k < order.len()
        invariant
            k <= order.len(),
            texts == texts_at(selected@, order@),
            lines == stream_lines(stream, so, se),
            shrunk == shrunk_for(stream, shrunk_out, shrunk_err),
            forall|a: int| 0 <= a < order.len() ==> order@[a] < selected.len() && selected@[order@[a] as int].source.stream == stream,
            forall|a: int, b: int| 0 <= a < b < order.len() ==> line_of(selected@, order@, a) <= line_of(selected@, order@, b),
            forall|a: int, b: int| 0 <= a < b < order.len() ==> order@[a] != order@[b],
            forall|j: int| 0 <= j < selected.len() && (#[trigger] selected@[j]).source.stream == stream ==> well_placed(
                selected@[j],
                so,
                se,
                classifier,
                shrunk_out,
                shrunk_err,
            ),
            distinct_sources(selected@),
            cs@ == concat_terminated(texts.take(k as int), "\n"@),
            kept_lines(lines, texts.take(k as int), ks, shrunk, classifier),
            ks.len() == k,
            forall|a: int| 0 <= a < ks.len() ==> ks[a] == line_of(selected@, order@, a),
        decreases order.len() - k,
    {
        let lc = chars_of(selected[order[k]].text.as_str());
        extend_chars(&mut cs, &lc);
        push_str(&mut cs, "\n");
        proof {
            let t = texts.take(k + 1);
            assert(t.drop_last() == texts.take(k as int));
            assert(t.last() == selected@[order@[k as int] as int].text@);
            let c = selected@[order@[k as int] as int];
            assert(well_placed(c, so, se, classifier, shrunk_out, shrunk_err));
            let l = line_of(selected@, order@, k as int);
            if k > 0 {
                let p = selected@[order@[k - 1] as int];
                assert(line_of(selected@, order@, k - 1) <= l);
                assert(p.source != c.source);
                assert(ks[k - 1] < l);
            }
            let ks2 = ks.push(l);
            assert(kept_lines(lines, t, ks2, shrunk, classifier)) by {
                assert forall|a: int, b: int| 0 <= a < b < ks2.len() implies #[trigger] ks2[a] < #[trigger] ks2[b] by {
                    if b < ks.len() {
                        assert(ks2[a] == ks[a] && ks2[b] == ks[b]);
                    } else {
                        assert(ks2[a] == ks[a]);
                        assert(line_of(selected@, order@, a) <= line_of(selected@, order@, k - 1));
                    }
                }
                assert forall|a: int| 0 <= a < ks2.len() implies 0 <= #[trigger] ks2[a] < lines.len() && (t[a] == lines[ks2[a]]
                    || (shrunk && mandatory_line(classifier, lines[ks2[a]]) && shrunk_of(t[a], lines[ks2[a]]))) by {
                    if a < ks.len() {
                        assert(t[a] == texts.take(k as int)[a]);
                        assert(ks2[a] == ks[a]);
                    }
                }
            }
            ks = ks2;
        }
        k += 1;
    }
    assert(texts.take(order.len() as int) == texts);
    proof {
        assert forall|j: int|
            0 <= j < selected.len() && (#[trigger] selected@[j]).source.stream == stream implies ks.contains(
                selected@[j].source.line_number as int,
            ) by {
            assert(order@.contains(j as usize));
            let a = choose|a: int| 0 <= a < order@.len() && order@[a] == j as usize;
            assert(ks[a] == line_of(selected@, order@, a));
        }
        assert forall|a: int| #![trigger ks[a]] 0 <= a < ks.len() implies exists|j: int|
            0 <= j < selected.len() && (#[trigger] selected@[j]).source.stream == stream
                && selected@[j].source.line_number as int == ks[a] by {
            let j = order@[a] as int;
            assert(selected@[j].source.line_number as int == ks[a]);
        }
        assert forall|a: int| 0 <= a < ks.len() implies #[trigger] has_text_at(selected@, stream, ks[a], texts[a]) by {
            let j = order@[a] as int;
            assert(ks[a] == line_of(selected@, order@, a));
            assert(texts[a] == selected@[j].text@);
        }
    }
    (cs, Ghost(texts), Ghost(ks), order.len())
}

/// The first of the lowest-scoring optional (non-P0) chunks, if any remain.
fn lowest_scoring_optional_index(selected: &Vec<Chunk>) -> (r: Option<usize>)
    ensures
        match r {
            Some(idx) => idx < selected.len() && selected@[idx as int].priority != Priority::P0 && forall|j: int|
                0 <= j < selected.len() && (#[trigger] selected@[j]).priority != Priority::P0 ==> !score_gt(
                    selected@[idx as int].score,
                    selected@[j].score,
                ),
            None => forall|j: int| 0 <= j < selected.len() ==> (#[trigger] selected@[j]).priority == Priority::P0,
        },
{
    let mut best: Option<usize> = None;
    let mut i: usize = 0;
    while i < selected.len()
        invariant
            i <= selected.len(),
            match best {
                Some(b) => b < i && selected@[b as int].priority != Priority::P0 && forall|j: int|
                    0 <= j < i && (#[trigger] selected@[j]).priority != Priority::P0 ==> !score_gt(
                        selected@[b as int].score,
                        selected@[j].score,
                    ),
                None => forall|j: int| 0 <= j < i ==> (#[trigger] selected@[j]).priority == Priority::P0,
            },
        decreases selected.len() - i,
    {
        if selected[i].priority != Priority::P0 {
            match best {
                None => best = Some(i),
                Some(b) => {
                    if selected[b].score.exceeds(&selected[i].score) {
                        proof {
                            assert forall|j: int| 0 <= j < i + 1 && (#[trigger] selected@[j]).priority != Priority::P0 implies !score_gt(
                                selected@[i as int].score,
                                selected@[j].score,
                            ) by {
                                if j < i && score_gt(selected@[i as int].score, selected@[j].score) {
                                    lemma_score_gt_transitive(selected@[b as int].score, selected@[i as int].score, selected@[j].score);
                                }
                                if j == i && score_gt(selected@[i as int].score, selected@[j].score) {
                                    lemma_score_gt_transitive(selected@[i as int].score, selected@[i as int].score, selected@[i as int].score);
                                }
                            }
                        }
                        best = Some(i);
                    }
                },
            }
        }
        i += 1;
    }
    best
}

/// The characters of each string.
pub open spec fn views(s: Seq<String>) -> Seq<Seq<char>> {
    s.map_values(|x: String| x@)
}

/// The two rendered streams together cost at most `budget` tokens.
pub open spec fn within_budget<C: TokenCounter>(
    counter: &C,
    so_r: Seq<Seq<char>>,
    se_r: Seq<Seq<char>>,
    budget: int,
) -> bool {
    counter.spec_count(concat_terminated(so_r, "\n"@)) + counter.spec_count(
        concat_terminated(se_r, "\n"@),
    ) <= budget
}

/// Place `k` of `stream` holds an optional (non-mandatory) line.
pub open spec fn optional_line_at(
    so: Seq<Seq<char>>,
    se: Seq<Seq<char>>,
    classifier: Classifier,
    stream: Stream,
    k: int,
) -> bool {
    0 <= k < stream_lines(stream, so, se).len() && !mandatory_line(classifier, stream_lines(stream, so, se)[k])
}

/// Some chunk of `s` stands for place `k` of `stream`.
pub open spec fn has_place(s: Seq<Chunk>, stream: Stream, k: int) -> bool {
    exists|j: int| 0 <= j < s.len() && s[j].source == (SourceMetadata { stream, line_number: k as usize })
}

/// The score of the line at place `k` of `stream`.
pub open spec fn score_at(so: Seq<Seq<char>>, se: Seq<Seq<char>>, classifier: Classifier, stream: Stream, k: int) -> Score {
    let lines = stream_lines(stream, so, se);
    score_spec(classify_spec(classifier, lines[k]).1, k as usize, lines.len() as usize)
}

/// `packed` is how the optional lines were packed beside the mandatory ones: its chunks
/// stand at distinct places of the input, each where it belongs and with its own count and
/// score; its optional chunks fit in the room the budget leaves once the markers' reserve
/// and its mandatory chunks are set aside; and every optional line left out would not have
/// fit in that room beside the packed optional chunks that it does not outscore -- what
/// packing in descending score order, each line taken when it fits, leaves.
pub open spec fn packed_greedily<C: TokenCounter>(
    so: Seq<Seq<char>>,
    se: Seq<Seq<char>>,
    budget: int,
    counter: &C,
    classifier: Classifier,
    packed: Seq<Chunk>,
    shrunk_out: bool,
    shrunk_err: bool,
) -> bool {
    let room = budget - marker_reserve(counter) - p0_tokens(packed);
    &&& forall|j: int| 0 <= j < packed.len() ==> well_placed(#[trigger] packed[j], so, se, classifier, shrunk_out, shrunk_err)
        && counted(packed[j], so, se, counter)
    &&& distinct_sources(packed)
    &&& optional_tokens(packed) <= room
    &&& forall|stream: Stream, k: int|
        #[trigger] optional_line_at(so, se, classifier, stream, k) && !has_place(packed, stream, k) ==> counter.spec_count(
            stream_lines(stream, so, se)[k],
        ) > room - optional_tokens_from(packed, score_at(so, se, classifier, stream, k))
}

/// The rendering `w` keeps what `packed` holds but for optional chunks dropped by the render
/// check: only places of `packed`, every mandatory one of them, and each optional chunk of
/// `packed` that it leaves out scores no higher than any optional one that it keeps; and when
/// it leaves any out, the rendering that kept one of those besides went over the budget.
pub open spec fn render_checked<C: TokenCounter>(
    so: Seq<Seq<char>>,
    se: Seq<Seq<char>>,
    budget: int,
    counter: &C,
    classifier: Classifier,
    w: Rendering,
    packed: Seq<Chunk>,
) -> bool {
    &&& forall|a: int| 0 <= a < w.2.len() ==> has_place(packed, Stream::Stdout, #[trigger] w.2[a])
    &&& forall|a: int| 0 <= a < w.3.len() ==> has_place(packed, Stream::Stderr, #[trigger] w.3[a])
    &&& forall|j: int| 0 <= j < packed.len() && (#[trigger] packed[j]).priority == Priority::P0 ==> kept_at(w, packed[j].source)
    &&& forall|i: int, j: int|
        0 <= i < packed.len() && 0 <= j < packed.len() && !kept_at(w, (#[trigger] packed[i]).source) && kept_at(
            w,
            (#[trigger] packed[j]).source,
        ) && packed[j].priority != Priority::P0 ==> packed[i].priority != Priority::P0 && !score_gt(
            packed[i].score,
            packed[j].score,
        )
    &&& (exists|i: int| 0 <= i < packed.len() && !kept_at(w, (#[trigger] packed[i]).source)) ==> exists|wp: Rendering, i: int|
        #![trigger rendering_of(so, se, wp, classifier), packed[i]]
        rendering_of(so, se, wp, classifier) && wp.4 == w.4 && wp.5 == w.5 && !within_budget(counter, wp.0, wp.1, budget)
            && 0 <= i < packed.len() && !kept_at(w, packed[i].source) && forall|src: SourceMetadata|
            #[trigger] kept_at(wp, src) <==> (src == packed[i].source || kept_at(w, src))
}

/// Some mandatory line of `lines` is not among the kept ones (texts `rendered` at positions
/// `ks`) as itself: it was dropped, or is kept only as a shrunk head.
pub open spec fn loses_mandatory(
    lines: Seq<Seq<char>>,
    rendered: Seq<Seq<char>>,
    ks: Seq<int>,
    classifier: Classifier,
) -> bool {
    exists|k: int|
        0 <= k < lines.len() && #[trigger] mandatory_line(classifier, lines[k]) && !(exists|a: int|
            0 <= a < ks.len() && ks[a] == k && rendered[a] == lines[k])
}

/// A stream whose mandatory lines were not shrunk keeps each of them as itself.
proof fn lemma_unshrunk_keeps_verbatim(lines: Seq<Seq<char>>, rendered: Seq<Seq<char>>, ks: Seq<int>, classifier: Classifier)
    requires
        stream_shape(lines, rendered, ks, false, classifier),
        keeps_mandatory_at(lines, ks, false, classifier),
    ensures
        !loses_mandatory(lines, rendered, ks, classifier),
{
    assert forall|k: int| 0 <= k < lines.len() && #[trigger] mandatory_line(classifier, lines[k]) implies exists|a: int|
        0 <= a < ks.len() && ks[a] == k && rendered[a] == lines[k] by {
        assert(ks.contains(k));
        let a = choose|a: int| 0 <= a < ks.len() && ks[a] == k;
        assert(rendered.take(ks.len() as int)[a] == rendered[a]);
    }
}

/// A stream that lost a mandatory line in the shrinking keeps no chunk of it as itself.
proof fn lemma_shrunk_loses(
    so: Seq<Seq<char>>,
    se: Seq<Seq<char>>,
    classifier: Classifier,
    stream: Stream,
    rendered: Seq<Seq<char>>,
    ks: Seq<int>,
    fin: Seq<Chunk>,
    packed: Seq<Chunk>,
    surv: Seq<Chunk>,
    opt: Seq<Chunk>,
    c: Chunk,
)
    requires
        lost_in(c, stream, surv, Seq::empty(), so, se, classifier),
        texts_backed(fin, stream, rendered, ks),
        forall|x: Chunk| fin.contains(x) ==> packed.contains(x),
        forall|j: int| 0 <= j < packed.len() ==> surv.contains(#[trigger] packed[j]) || opt.contains(packed[j]),
        forall|k: int| 0 <= k < opt.len() ==> (#[trigger] opt[k]).priority != Priority::P0 && well_placed(
            opt[k],
            so,
            se,
            classifier,
            false,
            false,
        ),
    ensures
        loses_mandatory(stream_lines(stream, so, se), rendered, ks, classifier),
{
    let lines = stream_lines(stream, so, se);
    let k = c.source.line_number as int;
    assert(mandatory_line(classifier, lines[k]));
    if exists|a: int| 0 <= a < ks.len() && ks[a] == k && rendered[a] == lines[k] {
        let a = choose|a: int| 0 <= a < ks.len() && ks[a] == k && rendered[a] == lines[k];
        assert(has_text_at(fin, stream, ks[a], rendered[a]));
        let j = choose|j: int|
            0 <= j < fin.len() && (#[trigger] fin[j]).source.stream == stream && fin[j].source.line_number as int
                == ks[a] && fin[j].text@ == rendered[a];
        let x = fin[j];
        assert(fin.contains(x));
        assert(packed.contains(x));
        let p = choose|p: int| 0 <= p < packed.len() && packed[p] == x;
        assert(x.source == c.source);
        if opt.contains(x) {
            let q = choose|q: int| 0 <= q < opt.len() && opt[q] == x;
            assert(well_placed(opt[q], so, se, classifier, false, false));
        } else {
            assert(surv.contains(x));
            let q = choose|q: int| 0 <= q < surv.len() && surv[q] == x;
            assert(surv[q].source == c.source);
        }
    }
}

/// What a successful selection guarantees: each stream renders as lines, one per newline,
/// that fit the budget together -- the lines kept in input order, each at most once, a
/// mandatory one shrunk only in a stream marked so, every mandatory line kept otherwise,
/// and after them the stream's markers, its omission marker counting exactly the lines not
/// kept. A stream is marked shrunk exactly when one of its mandatory lines is not kept as
/// itself. Mandatory lines are shrunk just when they alone overflow what the reserve leaves,
/// and whenever a line is left out, the optional lines were packed greedily by score (see
/// [`packed_greedily`]) and only the lowest-scoring of them dropped after that.
pub open spec fn select_result_ok<C: TokenCounter>(
    out: BudgetedOutput,
    so: Seq<Seq<char>>,
    se: Seq<Seq<char>>,
    budget: int,
    counter: &C,
    classifier: Classifier,
) -> bool {
    exists|w: Rendering|
        {
            &&& #[trigger] rendering_of(so, se, w, classifier)
            &&& out.stdout@ == encode_utf8(concat_terminated(w.0, "\n"@))
            &&& out.stderr@ == encode_utf8(concat_terminated(w.1, "\n"@))
            &&& within_budget(counter, w.0, w.1, budget)
            &&& (w.4 || w.5) <==> mandatory_overflows(counter, classifier, so, se, budget)
            &&& w.4 <==> loses_mandatory(so, w.0, w.2, classifier)
            &&& w.5 <==> loses_mandatory(se, w.1, w.3, classifier)
            &&& (w.2.len() < so.len() || w.3.len() < se.len()) ==> exists|packed: Seq<Chunk>|
                #[trigger] packed_greedily(so, se, budget, counter, classifier, packed, w.4, w.5) && render_checked(
                    so,
                    se,
                    budget,
                    counter,
                    classifier,
                    w,
                    packed,
                )
        }
}

/// When a selection can end in an internal error: once every optional line is dropped,
/// what remains -- the mandatory lines, shrunk if their stream's were, and the markers --
/// still renders past the budget.
pub open spec fn only_mandatory_overflows<C: TokenCounter>(
    so: Seq<Seq<char>>,
    se: Seq<Seq<char>>,
    budget: int,
    counter: &C,
    classifier: Classifier,
) -> bool {
    exists|w: Rendering|
        {
            &&& #[trigger] rendering_of(so, se, w, classifier)
            &&& only_mandatory(so, w.2, classifier)
            &&& only_mandatory(se, w.3, classifier)
            &&& !within_budget(counter, w.0, w.1, budget)
            &&& (w.4 || w.5) <==> mandatory_overflows(counter, classifier, so, se, budget)
            &&& w.4 <==> loses_mandatory(so, w.0, w.2, classifier)
            &&& w.5 <==> loses_mandatory(se, w.1, w.3, classifier)
        }
}

fn tokens_within(chunks: &Vec<Chunk>, limit: usize) -> (r: bool)
    ensures
        r == (sum_tokens(chunks@) <= limit),
{
    let mut total: usize = 0;
    let mut i: usize = 0;
    while i < chunks.len()
        invariant
            i <= chunks.len(),
            total == sum_tokens(chunks@.take(i as int)),
            total <= limit,
        decreases chunks.len() - i,
    {
        assert(chunks@.take(i + 1).drop_last() == chunks@.take(i as int));
        if chunks[i].token_count > limit - total {
            proof {
                lemma_sum_tokens_prefix(chunks@, i + 1);
            }
            return false;
        }
        total = total + chunks[i].token_count;
        i += 1;
    }
    assert(chunks@.take(chunks.len() as int) == chunks@);
    true
}

proof fn lemma_sum_tokens_prefix(s: Seq<Chunk>, i: int)
    requires
        0 <= i <= s.len(),
    ensures
        sum_tokens(s.take(i)) <= sum_tokens(s),
    decreases s.len() - i,
{
    if i < s.len() {
        lemma_sum_tokens_prefix(s, i + 1);
        assert(s.take(i + 1).drop_last() == s.take(i));
    } else {
        assert(s.take(i) == s);
    }
}

fn total_tokens(chunks: &Vec<Chunk>, Ghost(limit): Ghost<int>) -> (r: usize)
    requires
        sum_tokens(chunks@) <= limit <= usize::MAX,
    ensures
        r == sum_tokens(chunks@),
{
    let mut total: usize = 0;
    let mut i: usize = 0;
    while i < chunks.len()
        invariant
            i <= chunks.len(),
            total == sum_tokens(chunks@.take(i as int)),
            sum_tokens(chunks@) <= limit <= usize::MAX,
        decreases chunks.len() - i,
    {
        assert(chunks@.take(i + 1).drop_last() == chunks@.take(i as int));
        proof {
            lemma_sum_tokens_prefix(chunks@, i + 1);
        }
        total = total + chunks[i].token_count;
        i += 1;
    }
    assert(chunks@.take(chunks.len() as int) == chunks@);
    total
}

proof fn lemma_remove_keeps_distinct(s: Seq<Chunk>, i: int)
    requires
        0 <= i < s.len(),
        distinct_sources(s),
    ensures
        distinct_sources(s.remove(i)),
{
    let r = s.remove(i);
    assert forall|a: int, b: int| 0 <= a < r.len() && 0 <= b < r.len() && a != b implies r[a].source != r[b].source by {
        let a2 = if a < i { a } else { a + 1 };
        let b2 = if b < i { b } else { b + 1 };
        assert(r[a] == s[a2]);
        assert(r[b] == s[b2]);
    }
}

proof fn lemma_push_keeps(s: Seq<Chunk>, y: Chunk, x: Chunk)
    requires
        s.contains(x),
    ensures
        s.push(y).contains(x),
{
    let j = choose|j: int| 0 <= j < s.len() && s[j] == x;
    assert(s.push(y)[j] == x);
}

/// The tokens `counter` gives each of `lines`, summed.
pub open spec fn line_tokens<C: TokenCounter>(counter: &C, lines: Seq<Seq<char>>) -> nat
    decreases lines.len(),
{
    if lines.len() == 0 {
        0
    } else {
        line_tokens(counter, lines.drop_last()) + counter.spec_count(lines.last())
    }
}

/// The mandatory lines count no more than all the lines.
proof fn lemma_mandatory_tokens_le<C: TokenCounter>(counter: &C, classifier: Classifier, lines: Seq<Seq<char>>)
    ensures
        0 <= mandatory_tokens(counter, classifier, lines) <= line_tokens(counter, lines),
    decreases lines.len(),
{
    if lines.len() > 0 {
        lemma_mandatory_tokens_le(counter, classifier, lines.drop_last());
    }
}

proof fn lemma_line_tokens_prefix<C: TokenCounter>(counter: &C, lines: Seq<Seq<char>>, i: int)
    requires
        0 <= i <= lines.len(),
    ensures
        line_tokens(counter, lines.take(i)) <= line_tokens(counter, lines),
    decreases lines.len() - i,
{
    if i < lines.len() {
        lemma_line_tokens_prefix(counter, lines, i + 1);
        assert(lines.take(i + 1).drop_last() == lines.take(i));
    } else {
        assert(lines.take(i) == lines);
    }
}

/// The summed tokens of `lines` when they come to at most `limit`.
fn line_tokens_within<C: TokenCounter>(lines: &[String], limit: usize, counter: &C) -> (r: Option<usize>)
    ensures
        match r {
            Some(t) => t == line_tokens(counter, views(lines@)) && t <= limit,
            None => line_tokens(counter, views(lines@)) > limit,
        },
{
    let ghost ls = views(lines@);
    let mut total: usize = 0;
    let mut i: usize = 0;
    while i < lines.len()
        invariant
            i <= lines.len(),
            ls == views(lines@),
            total == line_tokens(counter, ls.take(i as int)),
            total <= limit,
        decreases lines.len() - i,
    {
        let c = counter.count(lines[i].as_str());
        assert(ls.take(i + 1).drop_last() == ls.take(i as int));
        if c > limit - total {
            proof {
                lemma_line_tokens_prefix(counter, ls, i + 1);
            }
            return None;
        }
        total = total + c;
        i += 1;
    }
    assert(ls.take(lines.len() as int) == ls);
    Some(total)
}

/// Each of `lines` followed by a line break.
pub(crate) fn render_all(lines: &[String]) -> (r: Vec<char>)
    ensures
        r@ == concat_terminated(views(lines@), "\n"@),
{
    let ghost ls = views(lines@);
    let mut cs: Vec<char> = Vec::new();
    let mut i: usize = 0;
    while i < lines.len()
        invariant
            i <= lines.len(),
            ls == views(lines@),
            cs@ == concat_terminated(ls.take(i as int), "\n"@),
        decreases lines.len() - i,
    {
        let lc = chars_of(lines[i].as_str());
        extend_chars(&mut cs, &lc);
        push_str(&mut cs, "\n");
        proof {
            let t = ls.take(i + 1);
            assert(t.drop_last() == ls.take(i as int));
            assert(t.last() == lines@[i as int]@);
        }
        i += 1;
    }
    assert(ls.take(lines.len() as int) == ls);
    cs
}

/// Everything renders unchanged within `budget`: the lines' own tokens fit what the
/// marker reserve leaves, and the two rendered streams fit the budget itself.
pub open spec fn everything_fits<C: TokenCounter>(counter: &C, so: Seq<Seq<char>>, se: Seq<Seq<char>>, budget: int) -> bool {
    &&& budget >= minimum_budget(counter)
    &&& line_tokens(counter, so) + line_tokens(counter, se) <= budget - marker_reserve(counter)
    &&& within_budget(counter, so, se, budget)
}

/// The rendering of both streams with every line kept and no marker.
pub open spec fn rendered_whole(out: BudgetedOutput, so: Seq<Seq<char>>, se: Seq<Seq<char>>) -> bool {
    &&& out.stdout@ == encode_utf8(concat_terminated(so, "\n"@))
    &&& out.stderr@ == encode_utf8(concat_terminated(se, "\n"@))
}

/// Each stream rendered whole, nothing shrunk or dropped, is a rendering of the input.
proof fn lemma_whole_rendering(so: Seq<Seq<char>>, se: Seq<Seq<char>>, classifier: Classifier)
    ensures
        rendering_of(so, se, (so, se, Seq::new(so.len(), |i: int| i), Seq::new(se.len(), |i: int| i), false, false), classifier),
{
    let ko = Seq::new(so.len(), |i: int| i);
    let ke = Seq::new(se.len(), |i: int| i);
    assert(so.take(ko.len() as int) == so);
    assert(se.take(ke.len() as int) == se);
    assert(so.skip(ko.len() as int) == marker_lines(false, 0));
    assert(se.skip(ke.len() as int) == marker_lines(false, 0));
    assert(kept_lines(so, so, ko, false, classifier));
    assert(kept_lines(se, se, ke, false, classifier));
    assert forall|k: int| 0 <= k < so.len() && #[trigger] mandatory_line(classifier, so[k]) implies ko.contains(k) by {
        assert(ko[k] == k);
    }
    assert forall|k: int| 0 <= k < se.len() && #[trigger] mandatory_line(classifier, se[k]) implies ke.contains(k) by {
        assert(ke[k] == k);
    }
}

/// Both streams rendered whole, when that fits `budget` (see [`everything_fits`]).
fn render_whole_if_fits<C: TokenCounter>(
    stdout_lines: &[String],
    stderr_lines: &[String],
    budget: usize,
    reserve: usize,
    counter: &C,
) -> (r: Option<BudgetedOutput>)
    requires
        reserve == marker_reserve(counter),
        budget >= minimum_budget(counter),
    ensures
        everything_fits(counter, views(stdout_lines@), views(stderr_lines@), budget as int) <==> r is Some,
        r matches Some(out) ==> rendered_whole(out, views(stdout_lines@), views(stderr_lines@)),
{
    let room = budget - reserve;
    let out_tokens = match line_tokens_within(stdout_lines, room, counter) {
        Some(t) => t,
        None => return None,
    };
    match line_tokens_within(stderr_lines, room - out_tokens, counter) {
        Some(_) => {},
        None => return None,
    }
    let out_s = string_of(&render_all(stdout_lines));
    let err_s = string_of(&render_all(stderr_lines));
    let total = counter.count(out_s.as_str()) as u128 + counter.count(err_s.as_str()) as u128;
    if total > budget as u128 {
        return None;
    }
    let stdout = vstd::slice::slice_to_vec(out_s.as_str().as_bytes());
    let stderr = vstd::slice::slice_to_vec(err_s.as_str().as_bytes());
    Some(BudgetedOutput { stdout, stderr })
}

/// The Budget Selection Algorithm with the generic keyword classifier.
pub fn select<C: TokenCounter>(
    stdout_lines: &[String],
    stderr_lines: &[String],
    budget: usize,
    counter: &C,
) -> (r: Result<BudgetedOutput, BudgetError>)
    requires
        marker_counts_fit(counter),
        stdout_lines.len() + stderr_lines.len() + 4 <= usize::MAX,
    ensures
        r matches Err(BudgetError::TooSmall { budget: b, minimum: m }) ==> b == budget && m
            == minimum_budget(counter),
        (r matches Err(BudgetError::TooSmall { .. })) <==> budget < minimum_budget(counter),
        r matches Ok(out) ==> select_result_ok(
            out,
            views(stdout_lines@),
            views(stderr_lines@),
            budget as int,
            counter,
            Classifier::Generic,
        ),
        everything_fits(counter, views(stdout_lines@), views(stderr_lines@), budget as int) ==> (r matches Ok(out)
            && rendered_whole(out, views(stdout_lines@), views(stderr_lines@))),
        r matches Err(BudgetError::Internal) ==> only_mandatory_overflows(
            views(stdout_lines@),
            views(stderr_lines@),
            budget as int,
            counter,
            Classifier::Generic,
        ),
{
    select_with(stdout_lines, stderr_lines, budget, counter, Classifier::Generic)
}

/// Facts about the built chunks that hold for the rest of a selection: `oc`/`ec` are
/// the chunks built from each stream's lines, and every mandatory one is in `mand`.
pub open spec fn inputs_inv<C: TokenCounter>(
    so: Seq<Seq<char>>,
    se: Seq<Seq<char>>,
    oc: Seq<Chunk>,
    ec: Seq<Chunk>,
    mand: Seq<Chunk>,
    lo: Seq<String>,
    le: Seq<String>,
    classifier: Classifier,
    counter: &C,
) -> bool {
    &&& so == views(lo)
    &&& se == views(le)
    &&& oc.len() == lo.len()
    &&& ec.len() == le.len()
    &&& forall|k: int| 0 <= k < oc.len() ==> built_chunk(#[trigger] oc[k], lo[k]@, Stream::Stdout, k, lo.len() as int, classifier, counter)
    &&& forall|k: int| 0 <= k < ec.len() ==> built_chunk(#[trigger] ec[k], le[k]@, Stream::Stderr, k, le.len() as int, classifier, counter)
    &&& forall|c: Chunk| (oc + ec).contains(c) && c.priority == Priority::P0 ==> mand.contains(c)
}

/// Builds both streams' chunks and splits them into mandatory and optional ones.
fn build_and_partition<C: TokenCounter>(
    stdout_lines: &[String],
    stderr_lines: &[String],
    counter: &C,
    classifier: Classifier,
) -> (r: (Vec<Chunk>, Vec<Chunk>, Ghost<Seq<Chunk>>, Ghost<Seq<Chunk>>))
    requires
        stdout_lines.len() + stderr_lines.len() + 4 <= usize::MAX,
    ensures
        inputs_inv(views(stdout_lines@), views(stderr_lines@), r.2@, r.3@, r.0@, stdout_lines@, stderr_lines@, classifier, counter),
        forall|k: int| 0 <= k < r.0.len() ==> pristine_mandatory(#[trigger] r.0@[k], views(stdout_lines@), views(stderr_lines@)),
        forall|k: int| 0 <= k < r.1.len() ==> (#[trigger] stream_lines(r.1@[k].source.stream, views(stdout_lines@), views(stderr_lines@))).contains(r.1@[k].text@),
        forall|k: int| 0 <= k < r.1.len() ==> (#[trigger] r.1@[k]).priority != Priority::P0,
        r.0.len() + r.1.len() == stdout_lines.len() + stderr_lines.len(),
        forall|k: int| 0 <= k < r.0.len() ==> at_place(#[trigger] r.0@[k], views(stdout_lines@), views(stderr_lines@)),
        forall|k: int| 0 <= k < r.1.len() ==> at_place(#[trigger] r.1@[k], views(stdout_lines@), views(stderr_lines@)),
        distinct_sources(r.0@ + r.1@),
        forall|k: int| 0 <= k < r.0.len() ==> well_placed(#[trigger] r.0@[k], views(stdout_lines@), views(stderr_lines@), classifier, false, false),
        forall|k: int| 0 <= k < r.1.len() ==> well_placed(#[trigger] r.1@[k], views(stdout_lines@), views(stderr_lines@), classifier, false, false),
        mandatory_present(r.0@, Stream::Stdout, views(stdout_lines@), false, classifier),
        mandatory_present(r.0@, Stream::Stderr, views(stderr_lines@), false, classifier),
        sum_tokens(r.0@) == mandatory_tokens(counter, classifier, views(stdout_lines@)) + mandatory_tokens(
            counter,
            classifier,
            views(stderr_lines@),
        ),
        forall|k: int| 0 <= k < r.0.len() ==> counted(#[trigger] r.0@[k], views(stdout_lines@), views(stderr_lines@), counter),
        forall|k: int| 0 <= k < r.1.len() ==> counted(#[trigger] r.1@[k], views(stdout_lines@), views(stderr_lines@), counter),
        forall|c: Chunk| (r.2@ + r.3@).contains(c) && c.priority != Priority::P0 ==> r.1@.contains(c),
{
    let ghost so = views(stdout_lines@);
    let ghost se = views(stderr_lines@);
    let mut next_id: usize = 0;
    let out_chunks = build_chunks(stdout_lines, Stream::Stdout, &mut next_id, counter, classifier);
    let err_chunks = build_chunks(stderr_lines, Stream::Stderr, &mut next_id, counter, classifier);
    let ghost oc = out_chunks@;
    let ghost ec = err_chunks@;
    let mut chunks = out_chunks;
    let mut rest = err_chunks;
    chunks.append(&mut rest);
    let ghost all = chunks@;
    proof {
        assert(all == oc + ec);
        assert forall|c: Chunk| all.contains(c) implies (#[trigger] stream_lines(c.source.stream, so, se)).contains(c.text@) && c.kind != ChunkKind::OmissionMarker by {
            let j = choose|j: int| 0 <= j < all.len() && all[j] == c;
            if j < oc.len() {
                assert(oc[j] == c);
                assert(built_chunk(oc[j], stdout_lines@[j]@, Stream::Stdout, j, oc.len() as int, classifier, counter));
                assert(so[j] == stdout_lines@[j]@);
                crate::chunk::lemma_classify_not_marker(classifier, so[j]);
            } else {
                let k = j - oc.len();
                assert(ec[k] == c);
                assert(built_chunk(ec[k], stderr_lines@[k]@, Stream::Stderr, k, ec.len() as int, classifier, counter));
                assert(se[k] == stderr_lines@[k]@);
                crate::chunk::lemma_classify_not_marker(classifier, se[k]);
            }
        }
    }
    proof {
        assert forall|c: Chunk| all.contains(c) implies at_place(c, so, se) && well_placed(c, so, se, classifier, false, false) by {
            let j = choose|j: int| 0 <= j < all.len() && all[j] == c;
            if j < oc.len() {
                assert(oc[j] == c);
                assert(built_chunk(oc[j], stdout_lines@[j]@, Stream::Stdout, j, oc.len() as int, classifier, counter));
                assert(so[j] == stdout_lines@[j]@);
            } else {
                let k = j - oc.len();
                assert(ec[k] == c);
                assert(built_chunk(ec[k], stderr_lines@[k]@, Stream::Stderr, k, ec.len() as int, classifier, counter));
                assert(se[k] == stderr_lines@[k]@);
            }
        }
        assert forall|i: int, j: int| 0 <= i < all.len() && 0 <= j < all.len() && i != j implies all[i].source
            != all[j].source by {
            if i < oc.len() {
                assert(built_chunk(oc[i], stdout_lines@[i]@, Stream::Stdout, i, oc.len() as int, classifier, counter));
            } else {
                assert(built_chunk(ec[i - oc.len()], stderr_lines@[i - oc.len()]@, Stream::Stderr, i - oc.len(), ec.len() as int, classifier, counter));
            }
            if j < oc.len() {
                assert(built_chunk(oc[j], stdout_lines@[j]@, Stream::Stdout, j, oc.len() as int, classifier, counter));
            } else {
                assert(built_chunk(ec[j - oc.len()], stderr_lines@[j - oc.len()]@, Stream::Stderr, j - oc.len(), ec.len() as int, classifier, counter));
            }
        }
    }
    let (mandatory, optional) = partition(chunks);
    let ghost mand = mandatory@;
    proof {
        vstd::seq_lib::lemma_multiset_commutative(mandatory@, optional@);
        lemma_distinct_sub(all, mandatory@ + optional@);
        assert forall|k: int| 0 <= k < mandatory.len() implies at_place(#[trigger] mandatory@[k], so, se) && well_placed(mandatory@[k], so, se, classifier, false, false) by {
            let c = mandatory@[k];
            assert(mand.to_multiset().count(c) > 0);
            assert(all.to_multiset().count(c) > 0);
            assert(all.contains(c));
        }
        assert forall|k: int| 0 <= k < optional.len() implies at_place(#[trigger] optional@[k], so, se) && well_placed(optional@[k], so, se, classifier, false, false) by {
            let c = optional@[k];
            assert(optional@.to_multiset().count(c) > 0);
            assert(all.to_multiset().count(c) > 0);
            assert(all.contains(c));
        }
        assert forall|k: int| 0 <= k < mandatory.len() implies pristine_mandatory(#[trigger] mandatory@[k], so, se) by {
            let c = mandatory@[k];
            assert(mand.contains(c));
            assert(mand.to_multiset().count(c) > 0);
            assert(mand.to_multiset().count(c) + optional@.to_multiset().count(c) == all.to_multiset().count(c));
            assert(all.to_multiset().count(c) > 0);
            assert(all.contains(c));
            assert(stream_lines(c.source.stream, so, se).contains(c.text@));
        }
        assert forall|k: int| 0 <= k < optional.len() implies (#[trigger] stream_lines(optional@[k].source.stream, so, se)).contains(optional@[k].text@) by {
            let c = optional@[k];
            assert(optional@.contains(c));
            assert(optional@.to_multiset().count(c) > 0);
            assert(mand.to_multiset().count(c) + optional@.to_multiset().count(c) == all.to_multiset().count(c));
            assert(all.to_multiset().count(c) > 0);
            assert(all.contains(c));
        }
        assert forall|c: Chunk| all.contains(c) && c.priority == Priority::P0 implies mand.contains(c) by {
            assert(all.to_multiset().count(c) > 0);
            assert(mand.to_multiset().count(c) + optional@.to_multiset().count(c) == all.to_multiset().count(c));
            if optional@.to_multiset().count(c) > 0 {
                let j = choose|j: int| 0 <= j < optional@.len() && optional@[j] == c;
                assert(optional@[j].priority != Priority::P0);
            }
        }
        assert(mand.to_multiset().len() + optional@.to_multiset().len() == all.to_multiset().len());
        assert forall|k: int| 0 <= k < so.len() && #[trigger] mandatory_line(classifier, so[k]) implies exists|j: int|
            0 <= j < mand.len() && mand[j].source == (SourceMetadata { stream: Stream::Stdout, line_number: k as usize }) by {
            assert(built_chunk(oc[k], stdout_lines@[k]@, Stream::Stdout, k, oc.len() as int, classifier, counter));
            assert(all[k] == oc[k]);
            assert(all.contains(oc[k]));
            assert(mand.contains(oc[k]));
        }
        assert forall|k: int| 0 <= k < se.len() && #[trigger] mandatory_line(classifier, se[k]) implies exists|j: int|
            0 <= j < mand.len() && mand[j].source == (SourceMetadata { stream: Stream::Stderr, line_number: k as usize }) by {
            assert(built_chunk(ec[k], stderr_lines@[k]@, Stream::Stderr, k, ec.len() as int, classifier, counter));
            assert(all[oc.len() + k] == ec[k]);
            assert(all.contains(ec[k]));
            assert(mand.contains(ec[k]));
        }
        lemma_p0_tokens_uniform(mand);
        lemma_p0_tokens_uniform(optional@);
        lemma_p0_tokens_concat(mand, optional@);
        assert((mand + optional@).to_multiset() == all.to_multiset());
        lemma_p0_tokens_multiset(mand + optional@, all);
        lemma_p0_tokens_concat(oc, ec);
        assert forall|k: int| 0 <= k < oc.len() implies (#[trigger] oc[k]).priority == classify_spec(classifier, so[k]).1
            && oc[k].token_count == counter.spec_count(so[k]) by {
            assert(built_chunk(oc[k], stdout_lines@[k]@, Stream::Stdout, k, oc.len() as int, classifier, counter));
        }
        assert forall|k: int| 0 <= k < ec.len() implies (#[trigger] ec[k]).priority == classify_spec(classifier, se[k]).1
            && ec[k].token_count == counter.spec_count(se[k]) by {
            assert(built_chunk(ec[k], stderr_lines@[k]@, Stream::Stderr, k, ec.len() as int, classifier, counter));
        }
        lemma_p0_tokens_lines(oc, so, classifier, counter);
        lemma_p0_tokens_lines(ec, se, classifier, counter);
        assert forall|c: Chunk| all.contains(c) implies counted(c, so, se, counter) by {
            let j = choose|j: int| 0 <= j < all.len() && all[j] == c;
            if j < oc.len() {
                assert(oc[j] == c);
                assert(built_chunk(oc[j], stdout_lines@[j]@, Stream::Stdout, j, oc.len() as int, classifier, counter));
            } else {
                let k = j - oc.len();
                assert(ec[k] == c);
                assert(built_chunk(ec[k], stderr_lines@[k]@, Stream::Stderr, k, ec.len() as int, classifier, counter));
            }
        }
        assert forall|k: int| 0 <= k < mandatory.len() implies counted(#[trigger] mandatory@[k], so, se, counter) by {
            let c = mandatory@[k];
            assert(mand.to_multiset().count(c) > 0);
            assert(all.to_multiset().count(c) > 0);
            assert(all.contains(c));
        }
        assert forall|k: int| 0 <= k < optional.len() implies counted(#[trigger] optional@[k], so, se, counter) by {
            let c = optional@[k];
            assert(optional@.to_multiset().count(c) > 0);
            assert(all.to_multiset().count(c) > 0);
            assert(all.contains(c));
        }
        assert forall|c: Chunk| all.contains(c) && c.priority != Priority::P0 implies optional@.contains(c) by {
            assert(all.to_multiset().count(c) > 0);
            assert(mand.to_multiset().count(c) + optional@.to_multiset().count(c) == all.to_multiset().count(c));
            if mand.to_multiset().count(c) > 0 {
                let j = choose|j: int| 0 <= j < mand.len() && mand[j] == c;
                assert(mand[j].priority == Priority::P0);
            }
        }
    }
    (mandatory, optional, Ghost(oc), Ghost(ec))
}

/// Packs the optional chunks, highest score first, into `remaining` tokens after
/// `selected`: each goes in when it fits in what is left, and is passed over otherwise.
fn pack_optional(
    selected: Vec<Chunk>,
    optional: Vec<Chunk>,
    remaining: usize,
    Ghost(so): Ghost<Seq<Seq<char>>>,
    Ghost(se): Ghost<Seq<Seq<char>>>,
    Ghost(classifier): Ghost<Classifier>,
    Ghost(shrunk_out): Ghost<bool>,
    Ghost(shrunk_err): Ghost<bool>,
) -> (r: Vec<Chunk>)
    requires
        forall|j: int| 0 <= j < selected.len() ==> well_placed(#[trigger] selected@[j], so, se, classifier, shrunk_out, shrunk_err),
        forall|k: int| 0 <= k < optional.len() ==> well_placed(#[trigger] optional@[k], so, se, classifier, false, false),
        forall|j: int| 0 <= j < selected.len() ==> traced(#[trigger] selected@[j], so, se),
        forall|k: int| 0 <= k < optional.len() ==> (#[trigger] stream_lines(optional@[k].source.stream, so, se)).contains(optional@[k].text@),
        forall|j: int| 0 <= j < selected.len() ==> placed(#[trigger] selected@[j], so, se) && inside(selected@[j], so, se),
        forall|k: int| 0 <= k < optional.len() ==> at_place(#[trigger] optional@[k], so, se),
        forall|k: int| 0 <= k < optional.len() ==> (#[trigger] optional@[k]).priority != Priority::P0,
        forall|j: int| 0 <= j < selected.len() ==> (#[trigger] selected@[j]).priority == Priority::P0,
        distinct_sources(selected@ + optional@),
    ensures
        forall|j: int| 0 <= j < r.len() ==> traced(#[trigger] r@[j], so, se),
        forall|j: int| 0 <= j < r.len() ==> well_placed(#[trigger] r@[j], so, se, classifier, shrunk_out, shrunk_err),
        forall|j: int| 0 <= j < r.len() ==> placed(#[trigger] r@[j], so, se) && inside(r@[j], so, se),
        distinct_sources(r@),
        forall|c: Chunk| selected@.contains(c) ==> r@.contains(c),
        forall|j: int| 0 <= j < r.len() ==> selected@.contains(#[trigger] r@[j]) || optional@.contains(r@[j]),
        p0_tokens(r@) == p0_tokens(selected@),
        optional_tokens(r@) + optional_tokens(selected@) <= remaining + 2 * optional_tokens(selected@),
        optional_tokens(r@) - optional_tokens(selected@) <= remaining,
        forall|c: Chunk|
            optional@.contains(c) ==> r@.contains(c) || c.token_count > remaining + optional_tokens(selected@)
                - optional_tokens_from(r@, c.score),
{
    let ghost opt = optional@;
    assert(opt.len() == optional.len());
    let optional_sorted = sort_by_score(optional);
    let ghost opt_sorted = optional_sorted@;
    let ghost n = opt_sorted.len();
    let mut rev = reversed(optional_sorted);
    proof {
        assert forall|k: int| 0 <= k < rev.len() implies (#[trigger] stream_lines(rev@[k].source.stream, so, se)).contains(rev@[k].text@) by {
            let c = rev@[k];
            assert(opt_sorted[opt_sorted.len() - 1 - k] == c);
            assert(opt_sorted.to_multiset().count(c) > 0);
            assert(opt.to_multiset().count(c) > 0);
        }
        assert(opt_sorted.to_multiset().len() == opt.to_multiset().len());
        opt_sorted.lemma_reverse_to_multiset();
        vstd::seq_lib::lemma_multiset_commutative(selected@, opt);
        vstd::seq_lib::lemma_multiset_commutative(selected@, rev@);
        lemma_distinct_sub(selected@ + opt, selected@ + rev@);
        assert forall|k: int| 0 <= k < rev.len() implies at_place(#[trigger] rev@[k], so, se) && well_placed(rev@[k], so, se, classifier, false, false) by {
            let c = rev@[k];
            assert(opt_sorted[opt_sorted.len() - 1 - k] == c);
            assert(opt_sorted.to_multiset().count(c) > 0);
            assert(opt.to_multiset().count(c) > 0);
            assert(opt.contains(c));
        }
        assert forall|i: int| 0 <= i < n implies (#[trigger] opt_sorted[i]).priority != Priority::P0 && opt.contains(opt_sorted[i]) by {
            assert(opt_sorted.to_multiset().count(opt_sorted[i]) > 0);
            assert(opt.to_multiset().count(opt_sorted[i]) > 0);
        }
        assert(opt_sorted.skip(0) == opt_sorted);
        assert forall|c: Chunk| opt.contains(c) implies opt_sorted.contains(c) by {
            assert(opt.to_multiset().count(c) > 0);
        }
    }
    let ghost start = selected@;
    let ghost room = remaining + optional_tokens(start);
    let ghost mut m: int = 0;
    let mut selected = selected;
    let mut remaining = remaining;
    while rev.len() > 0
        invariant
            forall|k: int| 0 <= k < rev.len() ==> (#[trigger] stream_lines(rev@[k].source.stream, so, se)).contains(rev@[k].text@),
            forall|j: int| 0 <= j < selected.len() ==> traced(#[trigger] selected@[j], so, se),
            forall|k: int| 0 <= k < rev.len() ==> at_place(#[trigger] rev@[k], so, se),
            forall|j: int| 0 <= j < selected.len() ==> placed(#[trigger] selected@[j], so, se) && inside(selected@[j], so, se),
            forall|k: int| 0 <= k < rev.len() ==> well_placed(#[trigger] rev@[k], so, se, classifier, false, false),
            forall|j: int| 0 <= j < selected.len() ==> well_placed(#[trigger] selected@[j], so, se, classifier, shrunk_out, shrunk_err),
            distinct_sources(selected@ + rev@),
            forall|c: Chunk| start.contains(c) ==> selected@.contains(c),
            forall|j: int| 0 <= j < selected.len() ==> start.contains(#[trigger] selected@[j]) || opt.contains(selected@[j]),
            0 <= m <= n,
            n == opt_sorted.len(),
            rev@ == opt_sorted.skip(m).reverse(),
            descending(opt_sorted),
            forall|i: int| 0 <= i < n ==> (#[trigger] opt_sorted[i]).priority != Priority::P0 && opt.contains(opt_sorted[i]),
            forall|c: Chunk| opt.contains(c) ==> opt_sorted.contains(c),
            remaining + optional_tokens(selected@) == room,
            p0_tokens(selected@) == p0_tokens(start),
            forall|j: int, i: int|
                0 <= j < selected.len() && (#[trigger] selected@[j]).priority != Priority::P0 && m <= i < n ==> !score_gt(
                    #[trigger] opt_sorted[i].score,
                    selected@[j].score,
                ),
            forall|i: int|
                0 <= i < m ==> selected@.contains(#[trigger] opt_sorted[i]) || opt_sorted[i].token_count > room
                    - optional_tokens_from(selected@, opt_sorted[i].score),
        decreases rev.len(),
    {
        let ghost before = rev@;
        let chunk = rev.pop().unwrap();
        proof {
            assert(before == rev@.push(chunk));
            assert(stream_lines(before[before.len() - 1].source.stream, so, se).contains(before[before.len() - 1].text@));
            assert(at_place(before[before.len() - 1], so, se));
            assert(before.drop_last() == rev@);
            assert((selected@ + rev@) + seq![chunk] == selected@ + before);
            lemma_distinct_split(selected@ + rev@, seq![chunk]);
            assert forall|k: int| 0 <= k < rev.len() implies at_place(#[trigger] rev@[k], so, se) && well_placed(rev@[k], so, se, classifier, false, false) by {
                assert(rev@[k] == before[k]);
            }
            assert(well_placed(before[before.len() - 1], so, se, classifier, false, false));
            assert(chunk == opt_sorted[m]);
            assert(rev@ == opt_sorted.skip(m + 1).reverse());
        }
        let ghost prev = selected@;
        if chunk.token_count <= remaining {
            remaining -= chunk.token_count;
            selected.push(chunk);
            proof {
                assert(selected@.drop_last() == prev);
                assert(selected@.last() == chunk);
                assert forall|c: Chunk| start.contains(c) implies selected@.contains(c) by {
                    lemma_push_keeps(prev, chunk, c);
                }
                assert(traced(selected@[selected.len() - 1], so, se));
                lemma_distinct_move(prev, before, chunk);
                assert forall|j: int| 0 <= j < selected.len() implies placed(#[trigger] selected@[j], so, se) && inside(selected@[j], so, se)
                    && well_placed(selected@[j], so, se, classifier, shrunk_out, shrunk_err)
                    && (start.contains(selected@[j]) || opt.contains(selected@[j])) by {
                    if j < prev.len() {
                        assert(selected@[j] == prev[j]);
                    }
                }
                assert forall|j: int, i: int|
                    0 <= j < selected.len() && (#[trigger] selected@[j]).priority != Priority::P0 && m + 1 <= i < n implies !score_gt(
                        #[trigger] opt_sorted[i].score,
                        selected@[j].score,
                    ) by {
                    if j < prev.len() {
                        assert(selected@[j] == prev[j]);
                    } else {
                        assert(selected@[j] == opt_sorted[m]);
                    }
                }
                assert forall|i: int|
                    0 <= i < m + 1 implies selected@.contains(#[trigger] opt_sorted[i]) || opt_sorted[i].token_count > room
                        - optional_tokens_from(selected@, opt_sorted[i].score) by {
                    if i == m {
                        assert(selected@[selected.len() - 1] == opt_sorted[i]);
                    } else if prev.contains(opt_sorted[i]) {
                        lemma_push_keeps(prev, chunk, opt_sorted[i]);
                    } else {
                        assert(optional_tokens_from(selected@, opt_sorted[i].score) >= optional_tokens_from(prev, opt_sorted[i].score));
                    }
                }
                m = m + 1;
            }
        } else {
            proof {
                lemma_optional_tokens_from_all(selected@, chunk.score);
                assert forall|i: int|
                    0 <= i < m + 1 implies selected@.contains(#[trigger] opt_sorted[i]) || opt_sorted[i].token_count > room
                        - optional_tokens_from(selected@, opt_sorted[i].score) by {
                }
                m = m + 1;
            }
        }
    }
    proof {
        assert(selected@ + rev@ == selected@);
        assert forall|c: Chunk| opt.contains(c) implies selected@.contains(c) || c.token_count > room
            - optional_tokens_from(selected@, c.score) by {
            assert(opt_sorted.contains(c));
            let i = choose|i: int| 0 <= i < n && opt_sorted[i] == c;
        }
    }
    selected
}

/// One rendering of the input streams: each stream's output lines, the input positions each
/// keeps, and whether each stream's mandatory lines were shrunk.
pub type Rendering = (Seq<Seq<char>>, Seq<Seq<char>>, Seq<int>, Seq<int>, bool, bool);

/// `w` is a rendering of the input streams `so`/`se`: each stream's output has the shape
/// [`stream_shape`] gives, and keeps every mandatory line unless that stream's mandatory
/// lines were shrunk.
pub open spec fn rendering_of(so: Seq<Seq<char>>, se: Seq<Seq<char>>, w: Rendering, classifier: Classifier) -> bool {
    &&& stream_shape(so, w.0, w.2, w.4, classifier)
    &&& stream_shape(se, w.1, w.3, w.5, classifier)
    &&& keeps_mandatory_at(so, w.2, w.4, classifier)
    &&& keeps_mandatory_at(se, w.3, w.5, classifier)
}

/// Every position in `ks` holds a mandatory line.
pub open spec fn only_mandatory(lines: Seq<Seq<char>>, ks: Seq<int>, classifier: Classifier) -> bool {
    forall|a: int| 0 <= a < ks.len() ==> mandatory_line(classifier, #[trigger] lines[ks[a]])
}

proof fn lemma_concat_terminated_add(a: Seq<Seq<char>>, b: Seq<Seq<char>>, end: Seq<char>)
    ensures
        concat_terminated(a + b, end) == concat_terminated(a, end) + concat_terminated(b, end),
    decreases b.len(),
{
    if b.len() == 0 {
        assert(a + b == a);
    } else {
        lemma_concat_terminated_add(a, b.drop_last(), end);
        assert((a + b).drop_last() == a + b.drop_last());
        assert((a + b).last() == b.last());
    }
}

/// Appends a stream's marker lines (see [`marker_lines`]), each followed by a newline.
fn push_markers(cs: &mut Vec<char>, shrunk: bool, dropped: usize)
    ensures
        final(cs)@ == old(cs)@ + concat_terminated(marker_lines(shrunk, dropped as nat), "\n"@),
{
    let ghost none = Seq::<Seq<char>>::empty();
    let ghost first = if shrunk { seq![shrink_marker_text()] } else { none };
    let ghost second = if dropped > 0 { seq![omission_text(dropped as nat)] } else { none };
    if shrunk {
        push_str(cs, shrink_marker());
        push_str(cs, "\n");
    }
    if dropped > 0 {
        let m = omission_marker_text(dropped);
        push_str(cs, m.as_str());
        push_str(cs, "\n");
    }
    proof {
        reveal_strlit("\n");
        lemma_concat_terminated_add(first, second, "\n"@);
        assert(concat_terminated(none, "\n"@) == Seq::<char>::empty());
        if shrunk {
            assert(first.drop_last() == none);
        }
        if dropped > 0 {
            assert(second.drop_last() == none);
        }
        assert(marker_lines(shrunk, dropped as nat) == first + second);
    }
}

/// The output of one stream: its kept lines, then its markers.
fn render_with_markers(
    selected: &Vec<Chunk>,
    stream: Stream,
    count: usize,
    Ghost(so): Ghost<Seq<Seq<char>>>,
    Ghost(se): Ghost<Seq<Seq<char>>>,
    Ghost(classifier): Ghost<Classifier>,
    shrunk_out: bool,
    shrunk_err: bool,
) -> (r: (String, Ghost<Seq<Seq<char>>>, Ghost<Seq<int>>))
    requires
        count == stream_lines(stream, so, se).len(),
        forall|j: int| 0 <= j < selected.len() ==> well_placed(#[trigger] selected@[j], so, se, classifier, shrunk_out, shrunk_err),
        distinct_sources(selected@),
    ensures
        r.0@ == concat_terminated(r.1@, "\n"@),
        stream_shape(stream_lines(stream, so, se), r.1@, r.2@, shrunk_for(stream, shrunk_out, shrunk_err), classifier),
        forall|j: int|
            0 <= j < selected.len() && (#[trigger] selected@[j]).source.stream == stream ==> r.2@.contains(
                selected@[j].source.line_number as int,
            ),
        positions_backed(selected@, stream, r.2@),
        texts_backed(selected@, stream, r.1@, r.2@),
{
    let (mut cs, Ghost(kept), Ghost(ks), n) = render_stream(selected, stream, Ghost(so), Ghost(se), Ghost(classifier), Ghost(shrunk_out), Ghost(shrunk_err));
    proof {
        lemma_increasing_len(ks, count as int);
    }
    let shrunk = match stream {
        Stream::Stdout => shrunk_out,
        Stream::Stderr => shrunk_err,
    };
    push_markers(&mut cs, shrunk, count - n);
    let ghost rendered = kept + marker_lines(shrunk, (count - n) as nat);
    proof {
        lemma_concat_terminated_add(kept, marker_lines(shrunk, (count - n) as nat), "\n"@);
        assert(rendered.take(ks.len() as int) == kept);
        assert(rendered.skip(ks.len() as int) == marker_lines(shrunk, (count - n) as nat));
        lemma_texts_backed_prefix(selected@, stream, kept, ks, rendered);

    }
    (string_of(&cs), Ghost(rendered), Ghost(ks))
}

/// Every mandatory line of `stream` has a chunk in `selected`, unless that stream's
/// mandatory lines were shrunk.
pub open spec fn mandatory_present(
    selected: Seq<Chunk>,
    stream: Stream,
    lines: Seq<Seq<char>>,
    shrunk: bool,
    classifier: Classifier,
) -> bool {
    !shrunk ==> forall|k: int|
        0 <= k < lines.len() && #[trigger] mandatory_line(classifier, lines[k]) ==> exists|j: int|
            0 <= j < selected.len() && selected[j].source == (SourceMetadata { stream, line_number: k as usize })
}

/// Renders `selected` with each stream's markers, dropping the lowest-scoring optional
/// chunk and re-rendering while the counted output still exceeds `budget`.
#[verifier::rlimit(40)]
fn render_selection<C: TokenCounter>(
    packed: Vec<Chunk>,
    budget: usize,
    counter: &C,
    n_out: usize,
    n_err: usize,
    shrunk_out: bool,
    shrunk_err: bool,
    Ghost(so): Ghost<Seq<Seq<char>>>,
    Ghost(se): Ghost<Seq<Seq<char>>>,
    Ghost(classifier): Ghost<Classifier>,
) -> (r: Result<(BudgetedOutput, Ghost<Rendering>, Ghost<Seq<Chunk>>), BudgetError>)
    requires
        n_out == so.len(),
        n_err == se.len(),
        forall|j: int| 0 <= j < packed.len() ==> well_placed(#[trigger] packed@[j], so, se, classifier, shrunk_out, shrunk_err),
        distinct_sources(packed@),
        mandatory_present(packed@, Stream::Stdout, so, shrunk_out, classifier),
        mandatory_present(packed@, Stream::Stderr, se, shrunk_err, classifier),
    ensures
        r matches Ok((out, w, fin)) ==> {
            &&& rendering_of(so, se, w@, classifier)
            &&& w@.4 == shrunk_out && w@.5 == shrunk_err
            &&& out.stdout@ == encode_utf8(concat_terminated(w@.0, "\n"@))
            &&& out.stderr@ == encode_utf8(concat_terminated(w@.1, "\n"@))
            &&& within_budget(counter, w@.0, w@.1, budget as int)
            &&& positions_backed(fin@, Stream::Stdout, w@.2)
            &&& positions_backed(fin@, Stream::Stderr, w@.3)
            &&& texts_backed(fin@, Stream::Stdout, w@.0, w@.2)
            &&& texts_backed(fin@, Stream::Stderr, w@.1, w@.3)
            &&& forall|j: int| 0 <= j < fin@.len() ==> kept_at(w@, (#[trigger] fin@[j]).source)
            &&& forall|c: Chunk| fin@.contains(c) ==> packed@.contains(c)
            &&& forall|c: Chunk| packed@.contains(c) && c.priority == Priority::P0 ==> fin@.contains(c)
            &&& forall|x: Chunk| packed@.contains(x) && !fin@.contains(x) ==> x.priority != Priority::P0 && forall|c: Chunk|
                fin@.contains(c) && c.priority != Priority::P0 ==> !score_gt(x.score, c.score)
            &&& (exists|x: Chunk| packed@.contains(x) && !fin@.contains(x)) ==> exists|wp: Rendering, x: Chunk|
                #![trigger rendering_of(so, se, wp, classifier), packed@.contains(x)]
                rendering_of(so, se, wp, classifier) && wp.4 == shrunk_out && wp.5 == shrunk_err && !within_budget(
                    counter,
                    wp.0,
                    wp.1,
                    budget as int,
                ) && packed@.contains(x) && !fin@.contains(x) && forall|src: SourceMetadata|
                    #[trigger] kept_at(wp, src) <==> (src == x.source || kept_at(w@, src))
        },
        r is Err ==> r == Err::<(BudgetedOutput, Ghost<Rendering>, Ghost<Seq<Chunk>>), BudgetError>(BudgetError::Internal) && exists|w: Rendering|
            #[trigger] rendering_of(so, se, w, classifier) && w.4 == shrunk_out && w.5 == shrunk_err && only_mandatory(
                so,
                w.2,
                classifier,
            ) && only_mandatory(se, w.3, classifier) && !within_budget(counter, w.0, w.1, budget as int)
            && exists|f: Seq<Chunk>|
            texts_backed(f, Stream::Stdout, w.0, w.2) && texts_backed(f, Stream::Stderr, w.1, w.3) && forall|c: Chunk|
                #[trigger] f.contains(c) ==> packed@.contains(c),
{
    let ghost initial = packed@;
    let mut selected = packed;
    let ghost mut dropped = false;
    let ghost mut wp: Rendering = arbitrary();
    let ghost mut xp: Chunk = arbitrary();
    loop
        invariant
            initial == packed@,
            !dropped ==> selected@ == initial,
            dropped ==> rendering_of(so, se, wp, classifier) && wp.4 == shrunk_out && wp.5 == shrunk_err && !within_budget(
                counter,
                wp.0,
                wp.1,
                budget as int,
            ) && initial.contains(xp) && !selected@.contains(xp) && forall|src: SourceMetadata|
                #[trigger] kept_at(wp, src) <==> (src == xp.source || exists|j: int| 0 <= j < selected.len() && selected@[j].source == src),
            forall|c: Chunk| selected@.contains(c) ==> initial.contains(c),
            forall|c: Chunk| initial.contains(c) && c.priority == Priority::P0 ==> selected@.contains(c),
            forall|x: Chunk| initial.contains(x) && !selected@.contains(x) ==> x.priority != Priority::P0 && forall|c: Chunk|
                selected@.contains(c) && c.priority != Priority::P0 ==> !score_gt(x.score, c.score),
            n_out == so.len(),
            n_err == se.len(),
            forall|j: int| 0 <= j < selected.len() ==> well_placed(#[trigger] selected@[j], so, se, classifier, shrunk_out, shrunk_err),
            distinct_sources(selected@),
            mandatory_present(selected@, Stream::Stdout, so, shrunk_out, classifier),
            mandatory_present(selected@, Stream::Stderr, se, shrunk_err, classifier),
        decreases selected.len(),
    {
        let (out_s, Ghost(so_r), Ghost(ks_o)) = render_with_markers(&selected, Stream::Stdout, n_out, Ghost(so), Ghost(se), Ghost(classifier), shrunk_out, shrunk_err);
        let (err_s, Ghost(se_r), Ghost(ks_e)) = render_with_markers(&selected, Stream::Stderr, n_err, Ghost(so), Ghost(se), Ghost(classifier), shrunk_out, shrunk_err);
        let ghost w: Rendering = (so_r, se_r, ks_o, ks_e, shrunk_out, shrunk_err);
        proof {
            assert forall|k: int| 0 <= k < so.len() && #[trigger] mandatory_line(classifier, so[k]) && !shrunk_out implies ks_o.contains(k) by {
                let j = choose|j: int|
                    0 <= j < selected.len() && selected@[j].source == (SourceMetadata { stream: Stream::Stdout, line_number: k as usize });
                assert(selected@[j].source.stream == Stream::Stdout);
            }
            assert forall|k: int| 0 <= k < se.len() && #[trigger] mandatory_line(classifier, se[k]) && !shrunk_err implies ks_e.contains(k) by {
                let j = choose|j: int|
                    0 <= j < selected.len() && selected@[j].source == (SourceMetadata { stream: Stream::Stderr, line_number: k as usize });
                assert(selected@[j].source.stream == Stream::Stderr);
            }
            assert(rendering_of(so, se, w, classifier));
        }
        let total = counter.count(out_s.as_str()) as u128 + counter.count(err_s.as_str()) as u128;
        if total <= budget as u128 {
            let stdout = vstd::slice::slice_to_vec(out_s.as_str().as_bytes());
            let stderr = vstd::slice::slice_to_vec(err_s.as_str().as_bytes());
            proof {
                assert forall|j: int| 0 <= j < selected@.len() implies kept_at(w, (#[trigger] selected@[j]).source) by {
                    if selected@[j].source.stream == Stream::Stdout {
                        assert(ks_o.contains(selected@[j].source.line_number as int));
                    } else {
                        assert(ks_e.contains(selected@[j].source.line_number as int));
                    }
                }
                lemma_kept_iff(w, selected@);
                if exists|x: Chunk| initial.contains(x) && !selected@.contains(x) {
                    assert(dropped);
                    assert forall|src: SourceMetadata| #[trigger] kept_at(wp, src) <==> (src == xp.source || kept_at(w, src)) by {}
                    assert(rendering_of(so, se, wp, classifier) && initial.contains(xp));
                }
            }
            return Ok((BudgetedOutput { stdout, stderr }, Ghost(w), Ghost(selected@)));
        }
        match lowest_scoring_optional_index(&selected) {
            Some(idx) => {
                let ghost prev = selected@;
                let ghost x = prev[idx as int];
                proof {
                    assert forall|j: int| 0 <= j < prev.len() implies kept_at(w, (#[trigger] prev[j]).source) by {
                        if prev[j].source.stream == Stream::Stdout {
                            assert(ks_o.contains(prev[j].source.line_number as int));
                        } else {
                            assert(ks_e.contains(prev[j].source.line_number as int));
                        }
                    }
                    lemma_kept_iff(w, prev);
                }
                selected.remove(idx);
                proof {
                    assert(prev.contains(x));
                    assert(!selected@.contains(x)) by {
                        if selected@.contains(x) {
                            let j = choose|j: int| 0 <= j < selected@.len() && selected@[j] == x;
                            if j < idx {
                                assert(prev[j] == x);
                            } else {
                                assert(prev[j + 1] == x);
                            }
                            lemma_remove_keeps_distinct(prev, idx as int);
                        }
                    }
                    assert forall|src: SourceMetadata| #[trigger] kept_at(w, src) <==> (src == x.source || exists|j: int|
                        0 <= j < selected.len() && selected@[j].source == src) by {
                        if kept_at(w, src) && src != x.source {
                            let j = choose|j: int| 0 <= j < prev.len() && prev[j].source == src;
                            assert(j != idx);
                            if j < idx {
                                assert(selected@[j] == prev[j]);
                            } else {
                                assert(selected@[j - 1] == prev[j]);
                            }
                        }
                        if exists|j: int| 0 <= j < selected.len() && selected@[j].source == src {
                            let j = choose|j: int| 0 <= j < selected.len() && selected@[j].source == src;
                            if j < idx {
                                assert(prev[j] == selected@[j]);
                            } else {
                                assert(prev[j + 1] == selected@[j]);
                            }
                        }
                        if src == x.source {
                            assert(prev[idx as int].source == src);
                        }
                    }
                    dropped = true;
                    wp = w;
                    xp = x;
                }
                proof {
                    assert forall|c: Chunk| prev.contains(c) && c != x implies selected@.contains(c) by {
                        let j = choose|j: int| 0 <= j < prev.len() && prev[j] == c;
                        if j < idx {
                            assert(selected@[j] == c);
                        } else {
                            assert(j != idx);
                            assert(selected@[j - 1] == c);
                        }
                    }
                    assert forall|c: Chunk| selected@.contains(c) implies prev.contains(c) by {
                        let j = choose|j: int| 0 <= j < selected@.len() && selected@[j] == c;
                        if j < idx {
                            assert(prev[j] == c);
                        } else {
                            assert(prev[j + 1] == c);
                        }
                    }
                    assert forall|y: Chunk| initial.contains(y) && !selected@.contains(y) implies y.priority != Priority::P0 && forall|c: Chunk|
                        selected@.contains(c) && c.priority != Priority::P0 ==> !score_gt(y.score, c.score) by {
                        assert forall|c: Chunk| selected@.contains(c) && c.priority != Priority::P0 implies !score_gt(y.score, c.score) by {
                            assert(prev.contains(c));
                            if prev.contains(y) {
                                assert(y == x);
                                let j = choose|j: int| 0 <= j < prev.len() && prev[j] == c;
                                assert(prev[j].priority != Priority::P0);
                            }
                        }
                    }
                    assert forall|j: int| 0 <= j < selected.len() implies well_placed(#[trigger] selected@[j], so, se, classifier, shrunk_out, shrunk_err) by {
                        if j < idx {
                            assert(selected@[j] == prev[j]);
                        } else {
                            assert(selected@[j] == prev[j + 1]);
                        }
                    }
                    lemma_remove_keeps_distinct(prev, idx as int);
                    assert forall|k: int| 0 <= k < so.len() && #[trigger] mandatory_line(classifier, so[k]) && !shrunk_out implies exists|j: int|
                        0 <= j < selected.len() && selected@[j].source == (SourceMetadata { stream: Stream::Stdout, line_number: k as usize }) by {
                        let j = choose|j: int|
                            0 <= j < prev.len() && prev[j].source == (SourceMetadata { stream: Stream::Stdout, line_number: k as usize });
                        assert(well_placed(prev[j], so, se, classifier, shrunk_out, shrunk_err));
                        assert(j != idx);
                        if j < idx {
                            assert(selected@[j] == prev[j]);
                        } else {
                            assert(selected@[j - 1] == prev[j]);
                        }
                    }
                    assert forall|k: int| 0 <= k < se.len() && #[trigger] mandatory_line(classifier, se[k]) && !shrunk_err implies exists|j: int|
                        0 <= j < selected.len() && selected@[j].source == (SourceMetadata { stream: Stream::Stderr, line_number: k as usize }) by {
                        let j = choose|j: int|
                            0 <= j < prev.len() && prev[j].source == (SourceMetadata { stream: Stream::Stderr, line_number: k as usize });
                        assert(well_placed(prev[j], so, se, classifier, shrunk_out, shrunk_err));
                        assert(j != idx);
                        if j < idx {
                            assert(selected@[j] == prev[j]);
                        } else {
                            assert(selected@[j - 1] == prev[j]);
                        }
                    }
                }
            },
            None => {
                proof {
                    assert forall|a: int| 0 <= a < ks_o.len() implies mandatory_line(classifier, #[trigger] so[ks_o[a]]) by {
                        let j = choose|j: int|
                            0 <= j < selected.len() && (#[trigger] selected@[j]).source.stream == Stream::Stdout
                                && selected@[j].source.line_number as int == ks_o[a];
                        assert(well_placed(selected@[j], so, se, classifier, shrunk_out, shrunk_err));
                    }
                    assert forall|a: int| 0 <= a < ks_e.len() implies mandatory_line(classifier, #[trigger] se[ks_e[a]]) by {
                        let j = choose|j: int|
                            0 <= j < selected.len() && (#[trigger] selected@[j]).source.stream == Stream::Stderr
                                && selected@[j].source.line_number as int == ks_e[a];
                        assert(well_placed(selected@[j], so, se, classifier, shrunk_out, shrunk_err));
                    }
                    assert(texts_backed(selected@, Stream::Stdout, so_r, ks_o));
                    assert(texts_backed(selected@, Stream::Stderr, se_r, ks_e));
                    assert(forall|c: Chunk| #[trigger] selected@.contains(c) ==> packed@.contains(c));
                }
                return Err(BudgetError::Internal);
            },
        }
    }
}

/// A rendering whose kept places are exactly those of `sel`'s chunks keeps a place just
/// when some chunk of `sel` stands there.
proof fn lemma_kept_iff(w: Rendering, sel: Seq<Chunk>)
    requires
        positions_backed(sel, Stream::Stdout, w.2),
        positions_backed(sel, Stream::Stderr, w.3),
        forall|j: int| 0 <= j < sel.len() ==> kept_at(w, (#[trigger] sel[j]).source),
    ensures
        forall|src: SourceMetadata| #[trigger] kept_at(w, src) <==> exists|j: int| 0 <= j < sel.len() && sel[j].source == src,
{
    assert forall|src: SourceMetadata| #[trigger] kept_at(w, src) implies exists|j: int| 0 <= j < sel.len() && sel[j].source == src by {
        let ks = if src.stream == Stream::Stdout { w.2 } else { w.3 };
        let a = choose|a: int| 0 <= a < ks.len() && ks[a] == src.line_number as int;
        let j = choose|j: int|
            0 <= j < sel.len() && (#[trigger] sel[j]).source.stream == src.stream && sel[j].source.line_number as int == ks[a];
        assert(sel[j].source == src);
    }
    assert forall|src: SourceMetadata| (exists|j: int| 0 <= j < sel.len() && sel[j].source == src) implies #[trigger] kept_at(w, src) by {
        let j = choose|j: int| 0 <= j < sel.len() && sel[j].source == src;
        assert(kept_at(w, sel[j].source));
    }
}

/// Each optional line that packing left out is one whose chunk did not fit beside the
/// packed chunks that it does not outscore.
proof fn lemma_left_out_did_not_fit<C: TokenCounter>(
    so: Seq<Seq<char>>,
    se: Seq<Seq<char>>,
    oc: Seq<Chunk>,
    ec: Seq<Chunk>,
    opt: Seq<Chunk>,
    packed: Seq<Chunk>,
    room: int,
    counter: &C,
    classifier: Classifier,
)
    requires
        oc.len() == so.len(),
        ec.len() == se.len(),
        forall|k: int| 0 <= k < oc.len() ==> built_chunk(#[trigger] oc[k], so[k], Stream::Stdout, k, so.len() as int, classifier, counter),
        forall|k: int| 0 <= k < ec.len() ==> built_chunk(#[trigger] ec[k], se[k], Stream::Stderr, k, se.len() as int, classifier, counter),
        forall|c: Chunk| (oc + ec).contains(c) && c.priority != Priority::P0 ==> opt.contains(c),
        forall|c: Chunk| opt.contains(c) ==> packed.contains(c) || c.token_count > room - optional_tokens_from(packed, c.score),
    ensures
        forall|stream: Stream, k: int|
            #[trigger] optional_line_at(so, se, classifier, stream, k) && !has_place(packed, stream, k) ==> counter.spec_count(
                stream_lines(stream, so, se)[k],
            ) > room - optional_tokens_from(packed, score_at(so, se, classifier, stream, k)),
{
    assert forall|stream: Stream, k: int|
        #[trigger] optional_line_at(so, se, classifier, stream, k) && !has_place(packed, stream, k) implies counter.spec_count(
            stream_lines(stream, so, se)[k],
        ) > room - optional_tokens_from(packed, score_at(so, se, classifier, stream, k)) by {
        let ch = if stream == Stream::Stdout { oc[k] } else { ec[k] };
        if stream == Stream::Stdout {
            assert(built_chunk(oc[k], so[k], Stream::Stdout, k, so.len() as int, classifier, counter));
            assert((oc + ec)[k] == ch);
        } else {
            assert(built_chunk(ec[k], se[k], Stream::Stderr, k, se.len() as int, classifier, counter));
            assert((oc + ec)[oc.len() + k] == ch);
        }
        assert((oc + ec).contains(ch));
        assert(opt.contains(ch));
        if packed.contains(ch) {
            let j = choose|j: int| 0 <= j < packed.len() && packed[j] == ch;
            assert(packed[j].source == (SourceMetadata { stream, line_number: k as usize }));
        }
    }
}

/// What the render check keeps of `packed`, in terms of places (see [`render_checked`]).
proof fn lemma_render_checked<C: TokenCounter>(
    so: Seq<Seq<char>>,
    se: Seq<Seq<char>>,
    budget: int,
    counter: &C,
    classifier: Classifier,
    w: Rendering,
    f: Seq<Chunk>,
    packed: Seq<Chunk>,
)
    requires
        (exists|x: Chunk| packed.contains(x) && !f.contains(x)) ==> exists|wp: Rendering, x: Chunk|
            #![trigger rendering_of(so, se, wp, classifier), packed.contains(x)]
            rendering_of(so, se, wp, classifier) && wp.4 == w.4 && wp.5 == w.5 && !within_budget(counter, wp.0, wp.1, budget)
                && packed.contains(x) && !f.contains(x) && forall|src: SourceMetadata|
                #[trigger] kept_at(wp, src) <==> (src == x.source || kept_at(w, src)),
        positions_backed(f, Stream::Stdout, w.2),
        positions_backed(f, Stream::Stderr, w.3),
        forall|j: int| 0 <= j < f.len() ==> kept_at(w, (#[trigger] f[j]).source),
        forall|c: Chunk| f.contains(c) ==> packed.contains(c),
        forall|c: Chunk| packed.contains(c) && c.priority == Priority::P0 ==> f.contains(c),
        forall|x: Chunk| packed.contains(x) && !f.contains(x) ==> x.priority != Priority::P0 && forall|c: Chunk|
            f.contains(c) && c.priority != Priority::P0 ==> !score_gt(x.score, c.score),
        distinct_sources(packed),
    ensures
        render_checked(so, se, budget, counter, classifier, w, packed),
{
    assert forall|a: int| 0 <= a < w.2.len() implies has_place(packed, Stream::Stdout, #[trigger] w.2[a]) by {
        let j = choose|j: int|
            0 <= j < f.len() && (#[trigger] f[j]).source.stream == Stream::Stdout && f[j].source.line_number as int == w.2[a];
        assert(f.contains(f[j]));
        let i = choose|i: int| 0 <= i < packed.len() && packed[i] == f[j];
    }
    assert forall|a: int| 0 <= a < w.3.len() implies has_place(packed, Stream::Stderr, #[trigger] w.3[a]) by {
        let j = choose|j: int|
            0 <= j < f.len() && (#[trigger] f[j]).source.stream == Stream::Stderr && f[j].source.line_number as int == w.3[a];
        assert(f.contains(f[j]));
        let i = choose|i: int| 0 <= i < packed.len() && packed[i] == f[j];
    }
    assert forall|j: int| 0 <= j < packed.len() && (#[trigger] packed[j]).priority == Priority::P0 implies kept_at(w, packed[j].source) by {
        assert(packed.contains(packed[j]));
        assert(f.contains(packed[j]));
        let i = choose|i: int| 0 <= i < f.len() && f[i] == packed[j];
    }
    assert forall|i: int, j: int|
        0 <= i < packed.len() && 0 <= j < packed.len() && !kept_at(w, (#[trigger] packed[i]).source) && kept_at(
            w,
            (#[trigger] packed[j]).source,
        ) && packed[j].priority != Priority::P0 implies packed[i].priority != Priority::P0 && !score_gt(
            packed[i].score,
            packed[j].score,
        ) by {
        assert(packed.contains(packed[i]));
        if f.contains(packed[i]) {
            let q = choose|q: int| 0 <= q < f.len() && f[q] == packed[i];
        }
        let kk = packed[j].source.line_number as int;
        let ks = if packed[j].source.stream == Stream::Stdout { w.2 } else { w.3 };
        assert(ks.contains(kk));
        let a = choose|a: int| 0 <= a < ks.len() && ks[a] == kk;
        let q = choose|q: int|
            0 <= q < f.len() && (#[trigger] f[q]).source.stream == packed[j].source.stream && f[q].source.line_number as int == ks[a];
        assert(f.contains(f[q]));
        let p = choose|p: int| 0 <= p < packed.len() && packed[p] == f[q];
        assert(packed[p].source == packed[j].source);
        assert(p == j);
        assert(f.contains(packed[j]));
    }
    if exists|i: int| 0 <= i < packed.len() && !kept_at(w, (#[trigger] packed[i]).source) {
        let i = choose|i: int| 0 <= i < packed.len() && !kept_at(w, (#[trigger] packed[i]).source);
        if f.contains(packed[i]) {
            let q = choose|q: int| 0 <= q < f.len() && f[q] == packed[i];
        }
        assert(packed.contains(packed[i]));
        let (wp, x) = choose|wp: Rendering, x: Chunk|
            rendering_of(so, se, wp, classifier) && wp.4 == w.4 && wp.5 == w.5 && !within_budget(counter, wp.0, wp.1, budget)
                && packed.contains(x) && !f.contains(x) && forall|src: SourceMetadata|
                #[trigger] kept_at(wp, src) <==> (src == x.source || kept_at(w, src));
        let ix = choose|ix: int| 0 <= ix < packed.len() && packed[ix] == x;
        if kept_at(w, x.source) {
            let ks = if x.source.stream == Stream::Stdout { w.2 } else { w.3 };
            let a = choose|a: int| 0 <= a < ks.len() && ks[a] == x.source.line_number as int;
            let q = choose|q: int|
                0 <= q < f.len() && (#[trigger] f[q]).source.stream == x.source.stream && f[q].source.line_number as int == ks[a];
            assert(f.contains(f[q]));
            let p = choose|p: int| 0 <= p < packed.len() && packed[p] == f[q];
            assert(packed[p].source == packed[ix].source);
            assert(p == ix);
        }
        assert(!kept_at(w, packed[ix].source));
    }
}

/// The Budget Selection Algorithm, classifying lines with `classifier`: always includes
/// P0 chunks (shrinking them if they alone exceed budget), packs optional chunks by
/// score into what remains, and renders with omission markers for whatever didn't fit.
/// The internal error comes only when the mandatory content alone still renders past the
/// budget (see [`only_mandatory_overflows`]): a counter may count lines joined by newlines
/// higher than the lines one by one.
pub fn select_with<C: TokenCounter>(
    stdout_lines: &[String],
    stderr_lines: &[String],
    budget: usize,
    counter: &C,
    classifier: Classifier,
) -> (r: Result<BudgetedOutput, BudgetError>)
    requires
        marker_counts_fit(counter),
        stdout_lines.len() + stderr_lines.len() + 4 <= usize::MAX,
    ensures
        r matches Err(BudgetError::TooSmall { budget: b, minimum: m }) ==> b == budget && m
            == minimum_budget(counter),
        (r matches Err(BudgetError::TooSmall { .. })) <==> budget < minimum_budget(counter),
        r matches Ok(out) ==> select_result_ok(
            out,
            views(stdout_lines@),
            views(stderr_lines@),
            budget as int,
            counter,
            classifier,
        ),
        everything_fits(counter, views(stdout_lines@), views(stderr_lines@), budget as int) ==> (r matches Ok(out)
            && rendered_whole(out, views(stdout_lines@), views(stderr_lines@))),
        r matches Err(BudgetError::Internal) ==> only_mandatory_overflows(
            views(stdout_lines@),
            views(stderr_lines@),
            budget as int,
            counter,
            classifier,
        ),
{
    let ghost so = views(stdout_lines@);
    let ghost se = views(stderr_lines@);
    let (mandatory, optional, Ghost(oc), Ghost(ec)) = build_and_partition(stdout_lines, stderr_lines, counter, classifier);
    let ghost mand = mandatory@;
    let ghost opt = optional@;
    proof {
        lemma_distinct_split(mand, opt);
    }

    let shrink_count = counter.count(shrink_marker());
    let omission_max = omission_marker_text(999_999);
    let omission_count = counter.count(omission_max.as_str());
    let marker_reserve = 2 * (shrink_count + omission_count);
    let min_p0_floor = shrink_count;
    if budget < marker_reserve + min_p0_floor {
        return Err(BudgetError::TooSmall { budget, minimum: marker_reserve + min_p0_floor });
    }
    // With room for every line and the markers to spare, nothing is dropped or shrunk and
    // no marker is needed: the input goes out as it came.
    if let Some(out) = render_whole_if_fits(stdout_lines, stderr_lines, budget, marker_reserve, counter) {
        proof {
            assert(within_budget(counter, so, se, budget as int));
            assert forall|k: int| 0 <= k < so.len() implies so.contains(so[k]) by {}
            assert forall|k: int| 0 <= k < se.len() implies se.contains(se[k]) by {}
            lemma_whole_rendering(so, se, classifier);
            lemma_mandatory_tokens_le(counter, classifier, so);
            lemma_mandatory_tokens_le(counter, classifier, se);
            let w0: Rendering = (so, se, Seq::new(so.len(), |i: int| i), Seq::new(se.len(), |i: int| i), false, false);
            lemma_unshrunk_keeps_verbatim(so, w0.0, w0.2, classifier);
            lemma_unshrunk_keeps_verbatim(se, w0.1, w0.3, classifier);
        }
        return Ok(out);
    }
    let available_for_mandatory = budget - marker_reserve;

    let fits = tokens_within(&mandatory, available_for_mandatory);
    let (survivors, shrunk_out, shrunk_err, _, _) = if fits {
        proof {
            assert forall|k: int| 0 <= k < mandatory.len() implies surviving_mandatory(#[trigger] mandatory@[k], so, se) by {
                assert(pristine_mandatory(mandatory@[k], so, se));
            }
        }
        (mandatory, false, false, 0, 0)
    } else {
        let shrunk = shrink_mandatory(mandatory, available_for_mandatory, counter, Ghost(so), Ghost(se), Ghost(classifier));
        proof {
            lemma_distinct_via_sources(shrunk.0@, mand, opt);
        }
        shrunk
    };
    proof {
        assert(distinct_sources(survivors@ + opt));
        assert forall|j: int| 0 <= j < survivors.len() implies placed(#[trigger] survivors@[j], so, se) && inside(survivors@[j], so, se)
            && well_placed(survivors@[j], so, se, classifier, shrunk_out, shrunk_err) by {
            if fits {
                assert(at_place(mand[j], so, se));
                assert(well_placed(mand[j], so, se, classifier, false, false));
            }
        }
    }
    assert forall|j: int| 0 <= j < survivors.len() implies traced(#[trigger] survivors@[j], so, se) by {
        assert(surviving_mandatory(survivors@[j], so, se));
    }
    let included = total_tokens(&survivors, Ghost(available_for_mandatory as int));
    let remaining = budget - included - marker_reserve;
    let ghost surv = survivors@;
    assert(shrunk_out ==> exists|c: Chunk| lost_in(c, Stream::Stdout, surv, Seq::empty(), so, se, classifier));
    assert(shrunk_err ==> exists|c: Chunk| lost_in(c, Stream::Stderr, surv, Seq::empty(), so, se, classifier));
    proof {
        lemma_p0_tokens_uniform(surv);
        lemma_tokens_split(surv);
        assert forall|j: int| 0 <= j < survivors.len() implies (#[trigger] survivors@[j]).priority == Priority::P0 by {
            assert(surviving_mandatory(survivors@[j], so, se));
        }
    }
    let selected = pack_optional(survivors, optional, remaining, Ghost(so), Ghost(se), Ghost(classifier), Ghost(shrunk_out), Ghost(shrunk_err));
    let ghost packed = selected@;
    proof {
        assert(optional_tokens(surv) == 0);
        assert forall|j: int| 0 <= j < packed.len() implies counted(#[trigger] packed[j], so, se, counter) by {
            if surv.contains(packed[j]) {
                let i = choose|i: int| 0 <= i < surv.len() && surv[i] == packed[j];
            } else {
                let i = choose|i: int| 0 <= i < opt.len() && opt[i] == packed[j];
            }
        }
        assert forall|k: int| 0 <= k < oc.len() implies built_chunk(#[trigger] oc[k], so[k], Stream::Stdout, k, so.len() as int, classifier, counter) by {
            assert(built_chunk(oc[k], stdout_lines@[k]@, Stream::Stdout, k, oc.len() as int, classifier, counter));
        }
        assert forall|k: int| 0 <= k < ec.len() implies built_chunk(#[trigger] ec[k], se[k], Stream::Stderr, k, se.len() as int, classifier, counter) by {
            assert(built_chunk(ec[k], stderr_lines@[k]@, Stream::Stderr, k, ec.len() as int, classifier, counter));
        }
        lemma_left_out_did_not_fit(so, se, oc, ec, opt, packed, remaining as int, counter, classifier);
    }
    proof {
        assert forall|k: int| 0 <= k < so.len() && #[trigger] mandatory_line(classifier, so[k]) && !shrunk_out implies exists|j: int|
            0 <= j < selected.len() && selected@[j].source == (SourceMetadata { stream: Stream::Stdout, line_number: k as usize }) by {
            let i = choose|i: int| 0 <= i < mand.len() && mand[i].source == (SourceMetadata { stream: Stream::Stdout, line_number: k as usize });
            assert(mand.contains(mand[i]));
            assert(surv.contains(mand[i]));
            assert(selected@.contains(mand[i]));
        }
        assert forall|k: int| 0 <= k < se.len() && #[trigger] mandatory_line(classifier, se[k]) && !shrunk_err implies exists|j: int|
            0 <= j < selected.len() && selected@[j].source == (SourceMetadata { stream: Stream::Stderr, line_number: k as usize }) by {
            let i = choose|i: int| 0 <= i < mand.len() && mand[i].source == (SourceMetadata { stream: Stream::Stderr, line_number: k as usize });
            assert(mand.contains(mand[i]));
            assert(surv.contains(mand[i]));
            assert(selected@.contains(mand[i]));
        }
    }
    assert((shrunk_out || shrunk_err) <==> mandatory_overflows(counter, classifier, so, se, budget as int));
    match render_selection(selected, budget, counter, stdout_lines.len(), stderr_lines.len(), shrunk_out, shrunk_err, Ghost(so), Ghost(se), Ghost(classifier)) {
        Ok((out, w, fin)) => {
            proof {
                let ww = w@;
                let f = fin@;
                lemma_render_checked(so, se, budget as int, counter, classifier, ww, f, packed);
                assert(render_checked(so, se, budget as int, counter, classifier, ww, packed));
                if shrunk_out {
                    let c = choose|c: Chunk| lost_in(c, Stream::Stdout, surv, Seq::empty(), so, se, classifier);
                    lemma_shrunk_loses(so, se, classifier, Stream::Stdout, ww.0, ww.2, f, packed, surv, opt, c);
                } else {
                    lemma_unshrunk_keeps_verbatim(so, ww.0, ww.2, classifier);
                }
                if shrunk_err {
                    let c = choose|c: Chunk| lost_in(c, Stream::Stderr, surv, Seq::empty(), so, se, classifier);
                    lemma_shrunk_loses(so, se, classifier, Stream::Stderr, ww.1, ww.3, f, packed, surv, opt, c);
                } else {
                    lemma_unshrunk_keeps_verbatim(se, ww.1, ww.3, classifier);
                }
                assert(packed_greedily(so, se, budget as int, counter, classifier, packed, shrunk_out, shrunk_err));
            }
            Ok(out)
        },
        Err(e) => {
            proof {
                let w = choose|w: Rendering|
                    #[trigger] rendering_of(so, se, w, classifier) && w.4 == shrunk_out && w.5 == shrunk_err && only_mandatory(
                        so,
                        w.2,
                        classifier,
                    ) && only_mandatory(se, w.3, classifier) && !within_budget(counter, w.0, w.1, budget as int)
                        && exists|f: Seq<Chunk>|
                        texts_backed(f, Stream::Stdout, w.0, w.2) && texts_backed(f, Stream::Stderr, w.1, w.3) && forall|c: Chunk|
                            #[trigger] f.contains(c) ==> packed.contains(c);
                let f = choose|f: Seq<Chunk>|
                    texts_backed(f, Stream::Stdout, w.0, w.2) && texts_backed(f, Stream::Stderr, w.1, w.3) && forall|c: Chunk|
                        #[trigger] f.contains(c) ==> packed.contains(c);
                if shrunk_out {
                    let c = choose|c: Chunk| lost_in(c, Stream::Stdout, surv, Seq::empty(), so, se, classifier);
                    lemma_shrunk_loses(so, se, classifier, Stream::Stdout, w.0, w.2, f, packed, surv, opt, c);
                } else {
                    lemma_unshrunk_keeps_verbatim(so, w.0, w.2, classifier);
                }
                if shrunk_err {
                    let c = choose|c: Chunk| lost_in(c, Stream::Stderr, surv, Seq::empty(), so, se, classifier);
                    lemma_shrunk_loses(so, se, classifier, Stream::Stderr, w.1, w.3, f, packed, surv, opt, c);
                } else {
                    lemma_unshrunk_keeps_verbatim(se, w.1, w.3, classifier);
                }
                assert(rendering_of(so, se, w, classifier));
            }
            Err(e)
        },
    }
}

/// The approximate counter's marker counts are small enough for the reserve arithmetic.
pub proof fn lemma_approximate_counter_fits()
    ensures
        marker_counts_fit(&ApproximateCounter),
{
    let shrink = shrink_marker_text();
    let omitted = omission_text(999_999);
    reveal_strlit("[stk: P0 content truncated to fit budget]");
    reveal_strlit("[stk: omitted ");
    reveal_strlit(" lines]");
    reveal_with_fuel(decimal, 7);
    assert(decimal(999_999).len() == 6);
    lemma_word_count_le_len(shrink);
    lemma_word_count_le_len(omitted);
    assert(approximate_count(shrink) <= 2 * shrink.len() + 1);
    assert(approximate_count(omitted) <= 2 * omitted.len() + 1);
}

} // verus!
