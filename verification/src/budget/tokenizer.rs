//! Token counting: the measure every `Budget` guarantee is stated against.
use vstd::prelude::*;

use crate::text::is_ws;

verus! {

/// STK's token-counting abstraction. The `Budget` guarantee is against this counter's
/// own count, not any specific downstream model's real tokenizer.
pub trait TokenCounter {
    /// The count this counter gives `text`.
    spec fn spec_count(&self, text: Seq<char>) -> nat;

    fn count(&self, text: &str) -> (r: usize)
        ensures
            r == self.spec_count(text@),
    ;
}

/// The number of whitespace-separated words in `s` (`str::split_whitespace().count()`):
/// the positions that hold a non-whitespace character preceded by whitespace or by nothing.
pub open spec fn word_count(s: Seq<char>) -> nat
    decreases s.len(),
{
    if s.len() == 0 {
        0
    } else {
        let starts_word = !is_ws(s.last()) && (s.len() == 1 || is_ws(s[s.len() - 2]));
        word_count(s.drop_last()) + if starts_word { 1nat } else { 0nat }
    }
}

/// `ceil(max(chars / 3, words * 1.4))`, saturated at `usize::MAX` as a float-to-integer
/// conversion is.
pub open spec fn approximate_count(s: Seq<char>) -> nat {
    let by_chars = (s.len() + 2) / 3;
    let by_words = (7 * word_count(s) + 4) / 5;
    let m = if by_chars >= by_words { by_chars } else { by_words };
    if m > usize::MAX { usize::MAX as nat } else { m }
}

/// First-release `TokenCounter`: `ceil(max(chars/3, words*1.4))`, a conservative,
/// dependency-free heuristic that over-counts rather than under-counts.
pub struct ApproximateCounter;

impl TokenCounter for ApproximateCounter {
    open spec fn spec_count(&self, text: Seq<char>) -> nat {
        approximate_count(text)
    }

    fn count(&self, text: &str) -> (r: usize) {
        // Counting stops growing at `cap`, past which the result saturates anyway.
        let cap: u128 = 0x3_0000_0000_0000_0000;
        let mut chars: u128 = 0;
        let mut words: u128 = 0;
        let mut prev_ws = true;
        let ghost mut seen: Seq<char> = Seq::empty();
        for c in it: text.chars()
            invariant
                cap == 0x3_0000_0000_0000_0000u128,
                it.seq() == text@,
                seen == it.seq().take(it.index() as int),
                chars == if seen.len() < cap { seen.len() } else { cap as nat },
                words == if word_count(seen) < cap { word_count(seen) } else { cap as nat },
                prev_ws == (seen.len() == 0 || is_ws(seen.last())),
        {
            let ws = crate::text::is_whitespace(c);
            proof {
                let next = seen.push(c);
                assert(next.drop_last() == seen);
                if seen.len() > 0 {
                    assert(next[next.len() - 2] == seen.last());
                }
                seen = next;
            }
            if !ws && prev_ws && words < cap {
                words += 1;
            }
            if chars < cap {
                chars += 1;
            }
            prev_ws = ws;
            assert(seen == it.seq().take(it.index() as int + 1));
        }
        assert(seen == text@);
        proof {
            lemma_word_count_le_len(seen);
        }
        let by_chars = (chars + 2) / 3;
        let by_words = (7 * words + 4) / 5;
        let m = if by_chars >= by_words { by_chars } else { by_words };
        if m > usize::MAX as u128 {
            usize::MAX
        } else {
            m as usize
        }
    }
}

pub proof fn lemma_word_count_le_len(s: Seq<char>)
    ensures
        word_count(s) <= s.len(),
    decreases s.len(),
{
    if s.len() > 0 {
        lemma_word_count_le_len(s.drop_last());
    }
}


} // verus!
