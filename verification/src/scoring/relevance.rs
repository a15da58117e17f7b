//! Keyword-based line classification for the generic pipeline, and the score that
//! orders optional chunks under budget pressure.
use vstd::prelude::*;

use crate::aggregation::repetition::{strip_marker, strip_marker_spec};
use crate::chunk::{ChunkKind, Priority};
use crate::text::{chars_of, contains, contains_str, occurs_at};

verus! {

/// What `str::to_lowercase` returns for `s`: Unicode's full lowercase mapping.
pub uninterp spec fn lowercase(s: Seq<char>) -> Seq<char>;

/// `str::to_lowercase`. Claims only that the result is a function of `s`'s characters,
/// named `lowercase`; which mapping Unicode prescribes is left to std.
#[verifier::external_body]
fn to_lowercase(s: &str) -> (r: String)
    ensures
        r@ == lowercase(s@),
{
    s.to_lowercase()
}

/// The class of a line (not a repeated-line marker) by the keywords of its lowercase form.
pub open spec fn keyword_class(lower: Seq<char>) -> (ChunkKind, Priority) {
    if contains(lower, "error"@) || contains(lower, "panic"@) || contains(lower, "fatal"@) {
        (ChunkKind::Error, Priority::P0)
    } else if contains(lower, "warning"@) || contains(lower, "warn:"@) {
        (ChunkKind::Warning, Priority::P2)
    } else {
        (ChunkKind::LogGroup, Priority::P3)
    }
}

pub open spec fn classify_spec(line: Seq<char>) -> (ChunkKind, Priority) {
    if strip_marker_spec(line) != line {
        (ChunkKind::LogGroup, Priority::P5)
    } else {
        keyword_class(lowercase(line))
    }
}

/// Classifies a line's lowercase form by keyword: an error, a panic or a fatal message is
/// mandatory (P0), a warning is P2, anything else P3.
pub fn classify_lowercase(lower: &str) -> (r: (ChunkKind, Priority))
    ensures
        r == keyword_class(lower@),
        contains(lower@, "error"@) ==> r == (ChunkKind::Error, Priority::P0),
{
    let lower = chars_of(lower);
    if contains_str(&lower, "error") || contains_str(&lower, "panic") || contains_str(&lower, "fatal") {
        (ChunkKind::Error, Priority::P0)
    } else if contains_str(&lower, "warning") || contains_str(&lower, "warn:") {
        (ChunkKind::Warning, Priority::P2)
    } else {
        (ChunkKind::LogGroup, Priority::P3)
    }
}

/// Classifies one line by keyword alone: no command semantics to draw on without a
/// Specialist. An already-collapsed repeated-line marker always classifies as noise,
/// regardless of what it repeats.
pub fn classify(line: &str) -> (r: (ChunkKind, Priority))
    ensures
        r == classify_spec(line@),
{
    let stripped = strip_marker(line);
    let sc = chars_of(stripped);
    let lc = chars_of(line);
    if !crate::text::eq_chars(&sc, &lc) {
        return (ChunkKind::LogGroup, Priority::P5);
    }
    let lower_s = to_lowercase(line);
    classify_lowercase(lower_s.as_str())
}

/// A line's lowercase form that holds `error`, `panic` or `fatal` anywhere is a mandatory
/// error; one that holds none of them but `warning` or `warn:` somewhere is a warning;
/// one that holds none of these words is ordinary log output.
pub proof fn lemma_keywords_anywhere(lower: Seq<char>, i: int)
    ensures
        occurs_at(lower, "error"@, i) || occurs_at(lower, "panic"@, i) || occurs_at(
            lower,
            "fatal"@,
            i,
        ) ==> keyword_class(lower) == (ChunkKind::Error, Priority::P0),
        !contains(lower, "error"@) && !contains(lower, "panic"@) && !contains(lower, "fatal"@)
            && (occurs_at(lower, "warning"@, i) || occurs_at(lower, "warn:"@, i))
            ==> keyword_class(lower) == (ChunkKind::Warning, Priority::P2),
        !contains(lower, "error"@) && !contains(lower, "panic"@) && !contains(lower, "fatal"@)
            && !contains(lower, "warning"@) && !contains(lower, "warn:"@) ==> keyword_class(lower)
            == (ChunkKind::LogGroup, Priority::P3),
{
}

/// A line without a repeat marker whose lowercase form holds `error` at any position --
/// `src/main.c:3:5: error: ...` as much as `error[E0308]: ...` -- classifies as a
/// mandatory error.
pub proof fn lemma_error_anywhere_is_mandatory(line: Seq<char>, i: int)
    requires
        strip_marker_spec(line) == line,
        occurs_at(lowercase(line), "error"@, i),
    ensures
        classify_spec(line) == (ChunkKind::Error, Priority::P0),
{
    lemma_keywords_anywhere(lowercase(line), i);
}

/// A chunk's score: `weight + 50 * position / span`. The weight is the priority tier's
/// (a full tier always beats any recency bonus); the fraction is the line's relative
/// position in its stream, favoring later lines.
#[derive(Debug, Clone, Copy, PartialEq, Eq, Structural)]
pub struct Score {
    pub weight: u32,
    pub position: usize,
    pub span: usize,
}

pub open spec fn priority_weight(p: Priority) -> u32 {
    match p {
        Priority::P0 => 500,
        Priority::P1 => 400,
        Priority::P2 => 300,
        Priority::P3 => 200,
        Priority::P4 => 100,
        Priority::P5 => 0,
    }
}

/// The position of a tier in the order P0 (most important) .. P5.
pub open spec fn tier_rank(p: Priority) -> nat {
    match p {
        Priority::P0 => 0,
        Priority::P1 => 1,
        Priority::P2 => 2,
        Priority::P3 => 3,
        Priority::P4 => 4,
        Priority::P5 => 5,
    }
}

pub open spec fn score_spec(priority: Priority, position: usize, total: usize) -> Score {
    if total <= 1 {
        Score { weight: priority_weight(priority), position: 0, span: 1 }
    } else {
        Score { weight: priority_weight(priority), position, span: (total - 1) as usize }
    }
}

/// `a` scores strictly higher than `b`.
pub open spec fn score_gt(a: Score, b: Score) -> bool {
    a.weight > b.weight || (a.weight == b.weight && a.position * b.span > b.position * a.span)
}

/// The score of the line at `position` of a stream of `total` lines, in tier `priority`.
pub fn score(priority: Priority, position: usize, total: usize) -> (r: Score)
    ensures
        r == score_spec(priority, position, total),
{
    let weight: u32 = match priority {
        Priority::P0 => 500,
        Priority::P1 => 400,
        Priority::P2 => 300,
        Priority::P3 => 200,
        Priority::P4 => 100,
        Priority::P5 => 0,
    };
    if total <= 1 {
        Score { weight, position: 0, span: 1 }
    } else {
        Score { weight, position, span: total - 1 }
    }
}

impl Score {
    /// This score is strictly higher than `other`.
    pub fn exceeds(&self, other: &Score) -> (r: bool)
        ensures
            r == score_gt(*self, *other),
    {
        if self.weight != other.weight {
            return self.weight > other.weight;
        }
        let x1 = self.position as u128;
        let y1 = other.span as u128;
        let x2 = other.position as u128;
        let y2 = self.span as u128;
        proof {
            lemma_product_fits(x1, y1);
            lemma_product_fits(x2, y2);
        }
        let a = x1 * y1;
        let b = x2 * y2;
        a > b
    }
}

proof fn lemma_product_fits(x: u128, y: u128)
    requires
        x <= 0xffff_ffff_ffff_ffffu128,
        y <= 0xffff_ffff_ffff_ffffu128,
    ensures
        x * y <= u128::MAX,
{
    assert(x * y <= 0xffff_ffff_ffff_ffffu128 * 0xffff_ffff_ffff_ffffu128) by (nonlinear_arith)
        requires
            x <= 0xffff_ffff_ffff_ffffu128,
            y <= 0xffff_ffff_ffff_ffffu128,
    ;
}

/// A higher tier always outscores a lower one, whatever either line's position: a
/// recency bonus never overrides a full priority tier.
pub proof fn lemma_tier_dominates_recency(
    hi: Priority,
    lo: Priority,
    p1: usize,
    t1: usize,
    p2: usize,
    t2: usize,
)
    requires
        tier_rank(hi) < tier_rank(lo),
    ensures
        score_gt(score_spec(hi, p1, t1), score_spec(lo, p2, t2)),
{
}

/// Within one tier and one stream, a later line outscores an earlier one.
pub proof fn lemma_later_line_wins_ties(p: Priority, earlier: usize, later: usize, total: usize)
    requires
        earlier < later < total,
    ensures
        score_gt(score_spec(p, later, total), score_spec(p, earlier, total)),
{
    let span = (total - 1) as int;
    assert(later * span > earlier * span) by (nonlinear_arith)
        requires later > earlier, span > 0;
}

} // verus!
