use stk::chunk::{ChunkKind, Priority};
use stk::scoring::relevance::{classify, classify_lowercase, score};

#[test]
fn error_keyword_classifies_as_p0() {
    assert_eq!(
        classify("error[E0308]: mismatched types"),
        (ChunkKind::Error, Priority::P0)
    );
    assert_eq!(
        classify("panic: index out of bounds"),
        (ChunkKind::Error, Priority::P0)
    );
    assert_eq!(
        classify("fatal: not a git repository"),
        (ChunkKind::Error, Priority::P0)
    );
}

#[test]
fn warning_keyword_classifies_as_p2() {
    assert_eq!(
        classify("warning: unused variable"),
        (ChunkKind::Warning, Priority::P2)
    );
}

#[test]
fn a_collapsed_repeat_marker_classifies_as_p5_noise_even_if_it_mentions_error() {
    assert_eq!(
        classify("error: retry failed [repeated 4x]"),
        (ChunkKind::LogGroup, Priority::P5)
    );
}

#[test]
fn plain_content_classifies_as_p3() {
    assert_eq!(
        classify("Compiling stk v0.1.0"),
        (ChunkKind::LogGroup, Priority::P3)
    );
}

#[test]
fn score_never_lets_recency_override_a_full_priority_tier() {
    let best_p1 = score(Priority::P1, 0, 100);
    let worst_p0 = score(Priority::P0, 0, 100);
    assert!(worst_p0.exceeds(&best_p1));
}

#[test]
fn score_breaks_ties_within_a_tier_toward_later_lines() {
    let earlier = score(Priority::P3, 0, 10);
    let later = score(Priority::P3, 9, 10);
    assert!(later.exceeds(&earlier));
}

#[test]
fn uppercase_keywords_classify_like_lowercase_ones() {
    assert_eq!(classify("ERROR: disk full"), (ChunkKind::Error, Priority::P0));
}

#[test]
fn lowercase_keywords_decide_the_class() {
    assert_eq!(classify_lowercase("error: disk full"), (ChunkKind::Error, Priority::P0));
    assert_eq!(classify_lowercase("thread panicked"), (ChunkKind::Error, Priority::P0));
    assert_eq!(classify_lowercase("warn: low space"), (ChunkKind::Warning, Priority::P2));
    assert_eq!(classify_lowercase("compiling stk"), (ChunkKind::LogGroup, Priority::P3));
    assert_eq!(classify_lowercase("ERROR"), (ChunkKind::LogGroup, Priority::P3));
}
