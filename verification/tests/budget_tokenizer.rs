use stk::budget::tokenizer::{ApproximateCounter, TokenCounter};

#[test]
fn empty_text_counts_as_zero() {
    assert_eq!(ApproximateCounter.count(""), 0);
}

#[test]
fn short_word_heavy_text_uses_the_word_based_estimate() {
    // "a a a a a a a a a a" -- 10 tiny words: chars/3 underestimates, words*1.4 doesn't.
    let text = "a ".repeat(10);
    let by_chars = (text.chars().count() as f64 / 3.0).ceil() as usize;
    let count = ApproximateCounter.count(&text);
    assert!(
        count > by_chars,
        "word-based estimate should dominate for many tiny words"
    );
}

#[test]
fn long_unbroken_text_uses_the_char_based_estimate() {
    // One giant "word": words*1.4 rounds to ~1, chars/3 dominates.
    let text = "x".repeat(3000);
    assert_eq!(ApproximateCounter.count(&text), 1000);
}

#[test]
fn never_undercounts_a_simple_known_case() {
    // "hello world" is 2 tokens by any real tokenizer's count; our estimate must be >= that.
    assert!(ApproximateCounter.count("hello world") >= 2);
}

#[test]
fn counts_round_up_by_chars_and_by_words() {
    // 4 chars -> ceil(4/3) = 2; one word -> ceil(1.4) = 2.
    assert_eq!(ApproximateCounter.count("abcd"), 2);
    // 10 words of one char each, 19 chars -> max(ceil(19/3), ceil(14)) = 14.
    assert_eq!(ApproximateCounter.count("a a a a a a a a a a"), 14);
}
