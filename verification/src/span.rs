//! Byte ranges over the original source text.
//!
//! A `Span` is an immutable half-open range of byte offsets into a single
//! source buffer; every diagnostic carries at least one. Unioning a set of
//! spans yields the minimal covering span.

use vstd::prelude::*;

verus! {

/// A half-open byte range `start..end` into the source buffer.
#[derive(Clone, Copy, Debug, PartialEq, Eq, Structural)]
pub struct Span {
    pub start: u32,
    pub end: u32,
}

impl Span {
    /// A span is well formed when it does not run backwards.
    pub open spec fn wf(self) -> bool {
        self.start <= self.end
    }

    pub fn new(start: u32, end: u32) -> (s: Span)
        requires
            start <= end,
        ensures
            s == (Span { start, end }),
            s.wf(),
    {
        Span { start, end }
    }

    /// The span used where no source position is available.
    pub fn unknown() -> (s: Span)
        ensures
            s == (Span { start: 0, end: 0 }),
            s.wf(),
    {
        Span { start: 0, end: 0 }
    }

    /// True when `pos` lies inside the range.
    pub fn contains(self, pos: u32) -> (r: bool)
        ensures
            r == (self.start <= pos && pos < self.end),
    {
        self.start <= pos && pos < self.end
    }
}

/// The least start offset among `spans[0..i]`, taking `spans[0].start` as seed.
pub open spec fn min_start(spans: Seq<Span>, i: int) -> int
    recommends
        1 <= i <= spans.len(),
    decreases i,
{
    if i <= 1 {
        spans[0].start as int
    } else if spans[i - 1].start < min_start(spans, i - 1) {
        spans[i - 1].start as int
    } else {
        min_start(spans, i - 1)
    }
}

/// The greatest end offset among `spans[0..i]`, taking `spans[0].end` as seed.
pub open spec fn max_end(spans: Seq<Span>, i: int) -> int
    recommends
        1 <= i <= spans.len(),
    decreases i,
{
    if i <= 1 {
        spans[0].end as int
    } else if spans[i - 1].end > max_end(spans, i - 1) {
        spans[i - 1].end as int
    } else {
        max_end(spans, i - 1)
    }
}

/// The minimal span covering every span in the list: its start is the least
/// start and its end is the greatest end. An empty list yields the unknown
/// span.
pub fn span(spans: &Vec<Span>) -> (r: Span)
    ensures
        spans@.len() == 0 ==> r == (Span { start: 0, end: 0 }),
        spans@.len() > 0 ==> r.start == min_start(spans@, spans@.len() as int) && r.end == max_end(
            spans@,
            spans@.len() as int,
        ),
{
    if spans.len() == 0 {
        Span::unknown()
    } else {
        let mut start = spans[0].start;
        let mut end = spans[0].end;
        let mut i: usize = 1;
        while i < spans.len()
            invariant
                1 <= i <= spans@.len(),
                start == min_start(spans@, i as int),
                end == max_end(spans@, i as int),
            decreases spans@.len() - i,
        {
            if spans[i].start < start {
                start = spans[i].start;
            }
            if spans[i].end > end {
                end = spans[i].end;
            }
            i = i + 1;
        }
        Span { start, end }
    }
}

} // verus!
