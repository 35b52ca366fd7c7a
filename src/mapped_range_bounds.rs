//! Ranges of typed indices turned into ranges of offsets.
use std::ops::{Bound, RangeBounds};
use vstd::prelude::*;
use vstd::std_specs::convert::FromSpec;

verus! {

/// One end of a range.
#[derive(Clone, Copy, Debug, PartialEq, Eq)]
pub enum RangeEdge<T> {
    Included(T),
    Excluded(T),
    Unbounded,
}

/// Relies on `RangeBounds::start_bound` of the caller's range type, copying the index out.
#[verifier::external_body]
fn start_edge<Index: Copy, R: RangeBounds<Index>>(range: &R) -> (r: RangeEdge<Index>) {
    match range.start_bound() {
        Bound::Included(i) => RangeEdge::Included(*i),
        Bound::Excluded(i) => RangeEdge::Excluded(*i),
        Bound::Unbounded => RangeEdge::Unbounded,
    }
}

/// Relies on `RangeBounds::end_bound` of the caller's range type, copying the index out.
#[verifier::external_body]
fn end_edge<Index: Copy, R: RangeBounds<Index>>(range: &R) -> (r: RangeEdge<Index>) {
    match range.end_bound() {
        Bound::Included(i) => RangeEdge::Included(*i),
        Bound::Excluded(i) => RangeEdge::Excluded(*i),
        Bound::Unbounded => RangeEdge::Unbounded,
    }
}

/// The offset that an edge of typed indices stands for.
pub open spec fn edge_offset<Index>(e: RangeEdge<Index>) -> RangeEdge<usize>
    where
        usize: From<Index>,
{
    match e {
        RangeEdge::Included(i) => RangeEdge::Included(usize::from_spec(i)),
        RangeEdge::Excluded(i) => RangeEdge::Excluded(usize::from_spec(i)),
        RangeEdge::Unbounded => RangeEdge::Unbounded,
    }
}

/// The first offset at or after a start edge, cut at `len`.
pub open spec fn start_offset(e: RangeEdge<usize>, len: usize) -> usize {
    let s: int = match e {
        RangeEdge::Included(i) => i as int,
        RangeEdge::Excluded(i) => i + 1,
        RangeEdge::Unbounded => 0,
    };
    if s < len {
        s as usize
    } else {
        len
    }
}

/// The offset just past an end edge, cut at `len`.
pub open spec fn end_offset(e: RangeEdge<usize>, len: usize) -> usize {
    let s: int = match e {
        RangeEdge::Included(i) => i + 1,
        RangeEdge::Excluded(i) => i as int,
        RangeEdge::Unbounded => len as int,
    };
    if s < len {
        s as usize
    } else {
        len
    }
}

/// Converts an edge of typed indices into an edge of offsets.
pub fn map_edge<Index>(e: RangeEdge<Index>) -> (r: RangeEdge<usize>)
    where
        usize: From<Index>,
    ensures
        <usize as FromSpec<Index>>::obeys_from_spec() ==> r == edge_offset(e),
        r is Unbounded <==> e is Unbounded,
{
    match e {
        RangeEdge::Included(i) => RangeEdge::Included(usize::from(i)),
        RangeEdge::Excluded(i) => RangeEdge::Excluded(usize::from(i)),
        RangeEdge::Unbounded => RangeEdge::Unbounded,
    }
}

/// A range of offsets made from a range of typed indices.
pub struct MappedRangeBounds {
    start_bound: RangeEdge<usize>,
    end_bound: RangeEdge<usize>,
}

impl View for MappedRangeBounds {
    /// The start and the end of the range.
    type V = (RangeEdge<usize>, RangeEdge<usize>);

    closed spec fn view(&self) -> (RangeEdge<usize>, RangeEdge<usize>) {
        (self.start_bound, self.end_bound)
    }
}

impl MappedRangeBounds {
    /// Converts both ends of `range` from indices into offsets.
    ///
    /// The ends of the caller's range type are read through its own `RangeBounds` impl, so
    /// all that is known is that each end of the result is the offset of some end of indices;
    /// `from_index_edges` states the conversion itself.
    pub fn new<Index, R: RangeBounds<Index>>(range: R) -> (r: Self)
        where
            usize: From<Index>,
            Index: Copy,
        ensures
            <usize as FromSpec<Index>>::obeys_from_spec() ==> exists|
                s: RangeEdge<Index>,
                e: RangeEdge<Index>,
            |
                r@ == (edge_offset(s), edge_offset(e)),
    {
        Self::from_index_edges(start_edge(&range), end_edge(&range))
    }

    /// Converts the two ends of a range of indices into a range of offsets.
    pub fn from_index_edges<Index>(start: RangeEdge<Index>, end: RangeEdge<Index>) -> (r: Self)
        where
            usize: From<Index>,
        ensures
            <usize as FromSpec<Index>>::obeys_from_spec() ==> r@ == (
                edge_offset(start),
                edge_offset(end),
            ),
    {
        let start_bound = map_edge(start);
        let end_bound = map_edge(end);
        MappedRangeBounds { start_bound, end_bound }
    }

    /// Creates the range of offsets with the given ends.
    pub fn from_edges(start_bound: RangeEdge<usize>, end_bound: RangeEdge<usize>) -> (r: Self)
        ensures
            r@ == (start_bound, end_bound),
    {
        MappedRangeBounds { start_bound, end_bound }
    }

    /// Returns the start of the range.
    pub fn start_bound(&self) -> (r: RangeEdge<usize>)
        ensures
            r == self@.0,
    {
        self.start_bound
    }

    /// Returns the end of the range.
    pub fn end_bound(&self) -> (r: RangeEdge<usize>)
        ensures
            r == self@.1,
    {
        self.end_bound
    }

    /// The offsets `lo..hi` of a container of length `len` that the range covers: both ends
    /// are cut at `len`, and a range that ends before it starts is empty at its end.
    pub open spec fn spec_clamp(&self, len: usize) -> (usize, usize) {
        let hi = end_offset(self@.1, len);
        let lo = start_offset(self@.0, len);
        if lo <= hi {
            (lo, hi)
        } else {
            (hi, hi)
        }
    }

    /// Returns the offsets `lo..hi` of a container of length `len` that the range covers.
    pub fn clamp(&self, len: usize) -> (r: (usize, usize))
        ensures
            r == self.spec_clamp(len),
            r.0 <= r.1 <= len,
    {
        let lo = match self.start_bound {
            RangeEdge::Included(i) => if i < len { i } else { len },
            RangeEdge::Excluded(i) => if i < len { i + 1 } else { len },
            RangeEdge::Unbounded => 0,
        };
        let hi = match self.end_bound {
            RangeEdge::Included(i) => if i < len { i + 1 } else { len },
            RangeEdge::Excluded(i) => if i < len { i } else { len },
            RangeEdge::Unbounded => len,
        };
        if lo <= hi {
            (lo, hi)
        } else {
            (hi, hi)
        }
    }
}

} // verus!
