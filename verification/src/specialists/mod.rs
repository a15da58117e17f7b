//! The Specialists: per-tool line classifiers, and which of them, if any, handles a
//! command.
use vstd::prelude::*;

pub mod cargo;
pub mod git;

use crate::aggregation::repetition::{lemma_strip_marker_undoes_marking, marked};
use crate::chunk::{ChunkKind, Classifier, Priority};
use crate::text::{chars_of, eq_str};

verus! {

pub open spec fn lookup_spec(command: Seq<char>) -> Option<Classifier> {
    if command == "cargo"@ {
        Some(Classifier::Cargo)
    } else if command == "git"@ {
        Some(Classifier::Git)
    } else {
        None
    }
}

/// The classifier registered for `command`, or `None` if no Specialist handles it --
/// callers must error as "unsupported" rather than silently falling back to generic.
pub fn lookup(command: &str) -> (r: Option<Classifier>)
    ensures
        r == lookup_spec(command@),
{
    let c = chars_of(command);
    if eq_str(&c, "cargo") {
        Some(Classifier::Cargo)
    } else if eq_str(&c, "git") {
        Some(Classifier::Git)
    } else {
        None
    }
}

/// A collapsed run (a line repeated two or more times, carrying its repeat marker) is P5
/// noise to the generic classifier and to every Specialist, whatever line it repeats.
pub proof fn lemma_collapsed_runs_are_noise(line: Seq<char>, count: nat)
    requires
        count >= 2,
    ensures
        crate::scoring::relevance::classify_spec(marked(line, count)) == (
            ChunkKind::LogGroup,
            Priority::P5,
        ),
        cargo::classify_spec(marked(line, count)) == (ChunkKind::LogGroup, Priority::P5),
        git::classify_spec(marked(line, count)) == (ChunkKind::LogGroup, Priority::P5),
{
    lemma_strip_marker_undoes_marking(line, count);
    assert(marked(line, count).len() > line.len());
}

} // verus!
