//! A double-ended generator of the typed indices of a range of offsets.
use std::marker::PhantomData;
use vstd::prelude::*;
use vstd::std_specs::convert::FromSpec;

verus! {

/// Hands out the indices of the offsets `start..end`, from either end, each once.
pub struct IndexIterator<Index> {
    start_inclusive: usize,
    end_exclusive: usize,
    marker: PhantomData<Index>,
}

impl<Index> View for IndexIterator<Index> {
    /// The offsets that are still to come, in ascending order.
    type V = Seq<usize>;

    closed spec fn view(&self) -> Seq<usize> {
        let n = if self.start_inclusive < self.end_exclusive {
            self.end_exclusive - self.start_inclusive
        } else {
            0
        };
        Seq::new(n as nat, |k: int| (self.start_inclusive + k) as usize)
    }
}

/// The offsets `start..end` in ascending order (none when `start >= end`).
pub open spec fn offset_range(start: usize, end: usize) -> Seq<usize> {
    let n = if start < end {
        end - start
    } else {
        0
    };
    Seq::new(n as nat, |k: int| (start + k) as usize)
}

/// The offsets `0..n` come out in order, each once; taken from the back, the `k`-th is
/// `n - 1 - k`, so the back-to-front order is the exact reverse.
pub proof fn lemma_offset_range_order(n: usize)
    ensures
        offset_range(0, n).len() == n,
        forall|k: int| 0 <= k < n ==> offset_range(0, n)[k] == k,
        forall|k: int, l: int| 0 <= k < l < n ==> offset_range(0, n)[k] < offset_range(0, n)[l],
        forall|k: int|
            0 <= k < n ==> #[trigger] offset_range(0, n).subrange(0, n - k).last() == n - 1 - k,
{
}

impl<Index> IndexIterator<Index> {
    /// Creates a generator for the offsets `start_inclusive..end_exclusive`.
    pub fn new(start_inclusive: usize, end_exclusive: usize) -> (r: Self)
        ensures
            r@ == offset_range(start_inclusive, end_exclusive),
    {
        IndexIterator { start_inclusive, end_exclusive, marker: PhantomData }
    }

    /// The number of indices still to come.
    pub fn len(&self) -> (r: usize)
        ensures
            r == self@.len(),
    {
        if self.start_inclusive < self.end_exclusive {
            self.end_exclusive - self.start_inclusive
        } else {
            0
        }
    }

    /// Hands out the lowest index still to come, or `None` when none is left.
    pub fn next(&mut self) -> (r: Option<Index>)
        where
            Index: From<usize>,
        ensures
            old(self)@.len() == 0 ==> r is None && final(self)@ == old(self)@,
            old(self)@.len() > 0 ==> {
                &&& r is Some
                &&& final(self)@ == old(self)@.drop_first()
                &&& Index::obeys_from_spec() ==> r.unwrap() == Index::from_spec(old(self)@[0])
            },
    {
        if self.start_inclusive < self.end_exclusive {
            let index = self.start_inclusive;
            self.start_inclusive = self.start_inclusive + 1;
            assert(self@ =~= old(self)@.drop_first());
            Some(Index::from(index))
        } else {
            None
        }
    }

    /// Hands out the highest index still to come, or `None` when none is left.
    pub fn next_back(&mut self) -> (r: Option<Index>)
        where
            Index: From<usize>,
        ensures
            old(self)@.len() == 0 ==> r is None && final(self)@ == old(self)@,
            old(self)@.len() > 0 ==> {
                &&& r is Some
                &&& final(self)@ == old(self)@.drop_last()
                &&& Index::obeys_from_spec() ==> r.unwrap() == Index::from_spec(
                    old(self)@.last(),
                )
            },
    {
        if self.start_inclusive < self.end_exclusive {
            self.end_exclusive = self.end_exclusive - 1;
            assert(self@ =~= old(self)@.drop_last());
            Some(Index::from(self.end_exclusive))
        } else {
            None
        }
    }
}

} // verus!
