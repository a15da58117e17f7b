//! Where verbs read their input from and write their output to.
use vstd::prelude::*;
use vstd::utf8::encode_utf8;

use crate::text::{extend_chars, string_of};

verus! {

/// Why writing to a sink failed.
#[derive(Debug, Clone, PartialEq, Eq)]
pub enum WriteError {
    /// The reader went away (`| head`, say): a normal early pipeline shutdown.
    BrokenPipe,
    /// Any other failure, with its description.
    Failed(String),
}

/// `after` is what a sink holds once a write of `data` to a sink holding `before` has
/// gone out in part: everything before it, then a first part of `data`.
pub open spec fn wrote_part(before: Seq<u8>, after: Seq<u8>, data: Seq<u8>) -> bool {
    before.is_prefix_of(after) && after.is_prefix_of(before + data)
}

/// `after` is a sink that was `before` until `data` was written to it: a first part of
/// `data` went out, and all of it when the sink takes every write.
pub open spec fn sent<O: OutputSink>(before: O, after: O, data: Seq<u8>) -> bool {
    &&& wrote_part(before.written(), after.written(), data)
    &&& before.accepts_all() ==> after.accepts_all() && after.written() == before.written() + data
    &&& after.fails_only_by_broken_pipe() == before.fails_only_by_broken_pipe()
}

/// A byte sink such as the process's stdout. `written` is everything written to it so
/// far; `accepts_all` holds of a sink known to take every write (an in-memory buffer). A
/// sink the library keeps no account of (the process's own stdout, say) leaves both at
/// their defaults, nothing written and no promise to take every write; the contracts then
/// promise nothing about what reached it.
pub trait OutputSink {
    open spec fn written(&self) -> Seq<u8> {
        Seq::empty()
    }

    open spec fn accepts_all(&self) -> bool {
        false
    }

    /// Every write to this sink that fails does so with a broken pipe.
    open spec fn fails_only_by_broken_pipe(&self) -> bool {
        false
    }

    /// Writes `data`: what the sink holds afterwards is what it held before, then a first
    /// part of `data`; a sink that takes every write takes all of it and reports success.
    fn write_bytes(&mut self, data: &[u8]) -> (r: Result<(), WriteError>)
        ensures
            wrote_part(old(self).written(), final(self).written(), data@),
            old(self).accepts_all() ==> r is Ok && final(self).accepts_all() && final(self).written() == old(self).written() + data@,
            final(self).fails_only_by_broken_pipe() == old(self).fails_only_by_broken_pipe(),
            old(self).fails_only_by_broken_pipe() ==> !(r matches Err(WriteError::Failed(_))),
    ;
}

/// An in-memory sink: writing to it always succeeds.
impl OutputSink for Vec<u8> {
    open spec fn written(&self) -> Seq<u8> {
        self@
    }

    open spec fn accepts_all(&self) -> bool {
        true
    }

    open spec fn fails_only_by_broken_pipe(&self) -> bool {
        true
    }

    fn write_bytes(&mut self, data: &[u8]) -> (r: Result<(), WriteError>)
        ensures
            r is Ok,
    {
        let ghost before = self@;
        let mut i: usize = 0;
        while i < data.len()
            invariant
                i <= data.len(),
                self@ == old(self)@ + data@.take(i as int),
            decreases data.len() - i,
        {
            self.push(data[i]);
            i += 1;
            assert(self@ == old(self)@ + data@.take(i as int));
        }
        assert(data@.take(data.len() as int) == data@);
        assert(before.is_prefix_of(self@));
        Ok(())
    }
}

/// A sink whose reader has gone away: every write fails with a broken pipe.
pub struct ClosedPipe;

impl OutputSink for ClosedPipe {
    open spec fn written(&self) -> Seq<u8> {
        Seq::empty()
    }

    open spec fn accepts_all(&self) -> bool {
        false
    }

    open spec fn fails_only_by_broken_pipe(&self) -> bool {
        true
    }

    fn write_bytes(&mut self, data: &[u8]) -> (r: Result<(), WriteError>)
        ensures
            r == Err::<(), WriteError>(WriteError::BrokenPipe),
    {
        Err(WriteError::BrokenPipe)
    }
}

/// A byte source such as the process's stdin, read to its end at most once.
pub trait InputSource {
    /// `r` is what reading this source to its end may give. A source the library does not
    /// model leaves this at its default: anything at all.
    open spec fn may_read(&self, r: Result<Vec<u8>, String>) -> bool {
        true
    }

    fn read_to_end(&mut self) -> (r: Result<Vec<u8>, String>)
        ensures
            old(self).may_read(r),
    ;
}

/// Reading a byte slice gives its bytes.
impl<'a> InputSource for &'a [u8] {
    open spec fn may_read(&self, r: Result<Vec<u8>, String>) -> bool {
        r matches Ok(v) && v@ == self@
    }

    fn read_to_end(&mut self) -> (r: Result<Vec<u8>, String>)
        ensures
            r matches Ok(v) && v@ == old(self)@,
    {
        Ok(vstd::slice::slice_to_vec(*self))
    }
}

/// The bytes of `text` followed by a line break (what `writeln!` writes).
pub open spec fn line_bytes(text: Seq<char>) -> Seq<u8> {
    encode_utf8(text + seq!['\n'])
}

/// The UTF-8 bytes of `cs`.
pub fn utf8_of(cs: &[char]) -> (r: Vec<u8>)
    ensures
        r@ == encode_utf8(cs@),
{
    let s = string_of(cs);
    vstd::slice::slice_to_vec(s.as_str().as_bytes())
}

/// Writes `text` and a line break to `sink` (`writeln!`).
pub fn write_line<O: OutputSink>(sink: &mut O, text: &[char]) -> (r: Result<(), WriteError>)
    ensures
        sent(*old(sink), *final(sink), line_bytes(text@)),
        old(sink).accepts_all() ==> r is Ok,
{
    let mut line: Vec<char> = Vec::new();
    extend_chars(&mut line, text);
    line.push('\n');
    assert(line@ == text@ + seq!['\n']);
    let bytes = utf8_of(&line);
    sink.write_bytes(&bytes)
}

} // verus!
