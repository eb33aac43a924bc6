//! Half-open byte ranges into a source buffer.

use vstd::prelude::*;
use vstd::slice::slice_subrange;

verus! {

/// A half-open byte range `[lo, hi)` into a source buffer.
///
/// A span is used both to locate a diagnostic and as the target range of a
/// textual edit, so it has to bound a construct exactly.
#[derive(Clone, Copy, Debug, PartialEq, Eq, Structural)]
pub struct SourceSpan {
    pub lo: usize,
    pub hi: usize,
}

impl SourceSpan {
    /// The span lies inside a buffer of `len` bytes and is not inverted.
    pub open spec fn fits(self, len: nat) -> bool {
        self.lo <= self.hi && self.hi <= len
    }

    /// The bytes of `source` that the span selects.
    pub open spec fn slice(self, source: Seq<u8>) -> Seq<u8>
        recommends
            self.fits(source.len()),
    {
        source.subrange(self.lo as int, self.hi as int)
    }

    /// Every position of `inner` is a position of `self`.
    pub open spec fn covers(self, inner: SourceSpan) -> bool {
        self.lo <= inner.lo && inner.hi <= self.hi
    }

    pub fn new(lo: usize, hi: usize) -> (span: SourceSpan)
        ensures
            span.lo == lo,
            span.hi == hi,
    {
        SourceSpan { lo, hi }
    }

    pub fn is_within(&self, len: usize) -> (ok: bool)
        ensures
            ok == self.fits(len as nat),
    {
        self.lo <= self.hi && self.hi <= len
    }

    pub fn contains(&self, inner: &SourceSpan) -> (ok: bool)
        ensures
            ok == self.covers(*inner),
    {
        self.lo <= inner.lo && inner.hi <= self.hi
    }

    /// The selected bytes, or `None` when the span does not fit the buffer.
    pub fn snippet<'a>(&self, source: &'a [u8]) -> (text: Option<&'a [u8]>)
        ensures
            text is Some <==> self.fits(source@.len()),
            text matches Some(t) ==> t@ == self.slice(source@),
    {
        if self.is_within(source.len()) {
            Some(slice_subrange(source, self.lo, self.hi))
        } else {
            None
        }
    }
}

} // verus!
