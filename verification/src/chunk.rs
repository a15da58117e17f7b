//! The unit of budget selection: one classified, scored line of a stream.
use vstd::prelude::*;

use crate::scoring::relevance::Score;

verus! {

/// Identifies a `Chunk` within one compile invocation. Not stable across invocations.
#[derive(Debug, Clone, Copy, PartialEq, Eq, Structural, Hash, PartialOrd, Ord)]
pub struct ChunkId(pub usize);

/// P0 is mandatory; P1-P5 are optional, packed into the budget by score.
#[derive(Debug, Clone, Copy, PartialEq, Eq, Structural, PartialOrd, Ord)]
pub enum Priority {
    P0,
    P1,
    P2,
    P3,
    P4,
    P5,
}

#[derive(Debug, Clone, Copy, PartialEq, Eq, Structural)]
pub enum ChunkKind {
    Error,
    Warning,
    StackFrame,
    SourceFunction,
    SourceClass,
    SourceWindow,
    TestFailure,
    TestSuccess,
    DiffHunk,
    LogGroup,
    CommandSummary,
    Documentation,
    Boilerplate,
    /// A real `Chunk`, selected, scored and counted through the same path as everything else.
    OmissionMarker,
}

#[derive(Debug, Clone, Copy, PartialEq, Eq, Structural, Hash)]
pub enum Stream {
    Stdout,
    Stderr,
}

#[derive(Debug, Clone, Copy, PartialEq, Eq, Structural)]
pub struct SourceMetadata {
    pub stream: Stream,
    /// 0-indexed position of this chunk's line within its stream, after the fast-path
    /// transforms -- used to render selected chunks back in original order.
    pub line_number: usize,
}

#[derive(Debug, Clone)]
pub struct Chunk {
    pub id: ChunkId,
    pub kind: ChunkKind,
    pub text: String,
    pub source: SourceMetadata,
    pub token_count: usize,
    pub score: Score,
    pub priority: Priority,
    /// Unused until dependency-aware selection lands; always empty for now.
    pub relationships: Vec<ChunkId>,
}

/// Which line classifier a pipeline uses: the generic keyword classifier or one of the
/// Specialists. Each maps one line to a `ChunkKind`/`Priority` pair.
#[derive(Debug, Clone, Copy, PartialEq, Eq, Structural)]
pub enum Classifier {
    Generic,
    Cargo,
    Git,
}

#[verifier::opaque]
pub open spec fn classify_spec(c: Classifier, line: Seq<char>) -> (ChunkKind, Priority) {
    match c {
        Classifier::Generic => crate::scoring::relevance::classify_spec(line),
        Classifier::Cargo => crate::specialists::cargo::classify_spec(line),
        Classifier::Git => crate::specialists::git::classify_spec(line),
    }
}

/// No classifier ever labels an input line as an omission marker.
pub proof fn lemma_classify_not_marker(c: Classifier, line: Seq<char>)
    ensures
        classify_spec(c, line).0 != ChunkKind::OmissionMarker,
{
    reveal(classify_spec);
}

impl Classifier {
    /// Classifies one line with this classifier.
    pub fn classify(&self, line: &str) -> (r: (ChunkKind, Priority))
        ensures
            r == classify_spec(*self, line@),
    {
        reveal(classify_spec);
        match self {
            Classifier::Generic => crate::scoring::relevance::classify(line),
            Classifier::Cargo => crate::specialists::cargo::classify(line),
            Classifier::Git => crate::specialists::git::classify(line),
        }
    }
}

} // verus!
