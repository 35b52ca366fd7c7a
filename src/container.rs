//! The container itself.
use crate::index_iterator::{offset_range, IndexIterator};
use crate::mapped_range_bounds::{MappedRangeBounds, RangeEdge};
use std::marker::PhantomData;
use std::ops::RangeBounds;
use vstd::prelude::*;
use vstd::std_specs::cmp::PartialEqSpec;
use vstd::std_specs::convert::FromSpec;
use vstd::std_specs::iter::IteratorSpec;

verus! {

/// The values of `s` whose matching flag in `keep` is set, in the order they stand in `s`.
pub open spec fn filtered<V>(s: Seq<V>, keep: Seq<bool>) -> Seq<V>
    decreases s.len(),
{
    if s.len() == 0 {
        Seq::empty()
    } else {
        let rest = filtered(s.drop_last(), keep);
        if keep[s.len() - 1] {
            rest.push(s.last())
        } else {
            rest
        }
    }
}

/// `s` with the values at the positions listed in `d` taken out, the others in their order.
pub open spec fn without_positions<V>(s: Seq<V>, d: Seq<usize>) -> Seq<V> {
    filtered(s, Seq::new(s.len(), |i: int| !d.contains(i as usize)))
}

/// Every entry of `d` is below `n`, and each entry is greater than the one before it.
pub open spec fn ascending_below(d: Seq<usize>, n: nat) -> bool {
    &&& forall|i: int| 0 <= i < d.len() ==> d[i] < n
    &&& forall|i: int, j: int| 0 <= i < j < d.len() ==> d[i] < d[j]
}

/// The offsets that the indices of `s` stand for.
pub open spec fn offsets_of<Index>(s: Seq<Index>) -> Seq<usize>
    where
        usize: From<Index>,
{
    s.map_values(|i: Index| usize::from_spec(i))
}

/// `filtered` looks only at the flags of the positions of `s`.
proof fn lemma_filtered_prefix<V>(s: Seq<V>, k1: Seq<bool>, k2: Seq<bool>)
    requires
        forall|i: int| 0 <= i < s.len() ==> k1[i] == k2[i],
    ensures
        filtered(s, k1) == filtered(s, k2),
    decreases s.len(),
{
    if s.len() > 0 {
        lemma_filtered_prefix(s.drop_last(), k1, k2);
    }
}

/// `e` pairs the offsets `lo..hi` of `s`, in order, with the values stored there.
pub open spec fn is_entries<Index, V>(e: Seq<(Index, &V)>, s: Seq<V>, lo: int, hi: int) -> bool
    where
        Index: From<usize>,
{
    &&& 0 <= lo <= hi <= s.len()
    &&& e.len() == hi - lo
    &&& forall|k: int| 0 <= k < e.len() ==> *e[k].1 == s[lo + k]
    &&& Index::obeys_from_spec() ==> forall|k: int|
        0 <= k < e.len() ==> e[k].0 == Index::from_spec((lo + k) as usize)
}

/// Relies on `Vec::capacity`: the room allocated, which is never below the length.
#[verifier::external_body]
fn vec_capacity<V>(v: &Vec<V>) -> (r: usize)
    ensures
        r >= v@.len(),
{
    v.capacity()
}

/// Pushing a value and popping right after leaves the values as they were, and the pop hands
/// back the pushed value with the index the push returned.
pub proof fn lemma_push_then_pop<V>(s: Seq<V>, v: V)
    ensures
        s.push(v).len() > 0,
        s.push(v).drop_last() == s,
        s.push(v).last() == v,
        (s.push(v).len() - 1) as usize == s.len() as usize,
{
    assert(s.push(v).drop_last() =~= s);
}

/// After inserting `v` at offset `i`, popping as many values as stood from `i` on leaves the
/// values before `i` followed by `v`; the popped values are those that stood from `i` on,
/// each one place further to the right.
pub proof fn lemma_insert_then_pop<V>(s: Seq<V>, i: int, v: V)
    requires
        0 <= i <= s.len(),
    ensures
        s.insert(i, v).len() == s.len() + 1,
        s.insert(i, v)[i] == v,
        forall|k: int| 0 <= k < i ==> s.insert(i, v)[k] == s[k],
        forall|k: int| i <= k < s.len() ==> s.insert(i, v)[k + 1] == s[k],
        s.insert(i, v).subrange(0, s.insert(i, v).len() - (s.len() - i)) == s.subrange(0, i).push(
            v,
        ),
        forall|k: int|
            0 <= k <= s.len() - i ==> #[trigger] s.insert(i, v).subrange(0, s.len() + 1 - k).last()
                == (if k < s.len() - i {
                s[s.len() - 1 - k]
            } else {
                v
            }),
{
    assert(s.insert(i, v).subrange(0, i + 1) =~= s.subrange(0, i).push(v));
}

/// Taken from the back, the entries of the offsets `lo..hi` come out as `hi - 1` down to `lo`,
/// each with the value stored there: the exact reverse of the order from the front.
pub proof fn lemma_entries_reversed<Index, V>(e: Seq<(Index, &V)>, s: Seq<V>, lo: int, hi: int)
    where
        Index: From<usize>,
    requires
        is_entries(e, s, lo, hi),
    ensures
        forall|k: int| 0 <= k < e.len() ==> *(#[trigger] e[e.len() - 1 - k]).1 == s[hi - 1 - k],
        Index::obeys_from_spec() ==> forall|k: int|
            0 <= k < e.len() ==> (#[trigger] e[e.len() - 1 - k]).0 == Index::from_spec(
                (hi - 1 - k) as usize,
            ),
{
}

/// A list of offsets with a repeated entry, or with an entry not above the one before it, is
/// not accepted for removal.
pub proof fn lemma_unordered_offsets_refused(d: Seq<usize>, n: nat, i: int, j: int)
    requires
        0 <= i < j < d.len(),
        d[i] >= d[j],
    ensures
        !ascending_below(d, n),
{
}

/// A `Vec` wrapper that is accessed only through the `Index` type.
///
/// For actual operation `Index` converts from `usize` (to hand out positions) and
/// `usize` converts from `Index` (to take them back).
///
/// What the contracts say of an index goes through the conversion's `FromSpec` law: the
/// methods that take an index (`insert`, `get`, `get_mut`, `set`, `remove_multi`, `[]`)
/// require that `usize::from` on `Index` obeys it, and the clauses on indices handed out
/// hold where `Index::from` obeys it. std's identity conversion of `usize` has no such law,
/// so verified callers that hold plain offsets use `remove_multi_offsets` and
/// `splice_offsets`.
#[derive(Debug, PartialOrd, Ord)]
pub struct TaggedVec<Index, Value> {
    index_type: PhantomData<Index>,
    vec: Vec<Value>,
}

impl<Index, Value> View for TaggedVec<Index, Value> {
    type V = Seq<Value>;

    closed spec fn view(&self) -> Seq<Value> {
        self.vec@
    }
}

impl<Index, Value> TaggedVec<Index, Value> {
    /// Creates a new empty container.
    pub fn new() -> (r: Self)
        ensures
            r@ == Seq::<Value>::empty(),
    {
        TaggedVec { index_type: PhantomData, vec: Vec::new() }
    }

    /// Creates a new empty container with room for at least `capacity` values.
    pub fn with_capacity(capacity: usize) -> (r: Self)
        ensures
            r@ == Seq::<Value>::empty(),
    {
        TaggedVec { index_type: PhantomData, vec: Vec::with_capacity(capacity) }
    }

    /// Wraps the values of `vec`, in order.
    pub fn from_vec(vec: Vec<Value>) -> (r: Self)
        ensures
            r@ == vec@,
    {
        TaggedVec { index_type: PhantomData, vec }
    }

    /// Unwraps the values, in order.
    pub fn into_vec(self) -> (r: Vec<Value>)
        ensures
            r@ == self@,
    {
        self.vec
    }

    /// Returns the number of values.
    pub fn len(&self) -> (r: usize)
        ensures
            r == self@.len(),
    {
        self.vec.len()
    }

    /// Returns how many values the container can hold before it allocates again.
    pub fn capacity(&self) -> (r: usize)
        ensures
            r >= self@.len(),
    {
        vec_capacity(&self.vec)
    }

    /// Returns `true` if the container holds no values.
    pub fn is_empty(&self) -> (r: bool)
        ensures
            r == (self@.len() == 0),
    {
        self.vec.len() == 0
    }

    /// Appends `value` at the back and returns its index, which is the old length.
    pub fn push(&mut self, value: Value) -> (r: Index)
        where
            Index: From<usize>,
        ensures
            final(self)@ == old(self)@.push(value),
            Index::obeys_from_spec() ==> r == Index::from_spec(old(self)@.len() as usize),
    {
        let index = Index::from(self.vec.len());
        self.vec.push(value);
        index
    }

    /// Removes the value at the back and returns it with its index, or `None` when empty.
    pub fn pop(&mut self) -> (r: Option<(Index, Value)>)
        where
            Index: From<usize>,
        ensures
            old(self)@.len() == 0 ==> r is None && final(self)@ == old(self)@,
            old(self)@.len() > 0 ==> {
                &&& r is Some
                &&& r.unwrap().1 == old(self)@.last()
                &&& final(self)@ == old(self)@.drop_last()
                &&& Index::obeys_from_spec() ==> r.unwrap().0 == Index::from_spec(
                    (old(self)@.len() - 1) as usize,
                )
            },
    {
        match self.vec.pop() {
            Some(value) => Some((Index::from(self.vec.len()), value)),
            None => None,
        }
    }

    /// Moves every value out, the last one first.
    fn take_reversed(&mut self) -> (r: Vec<Value>)
        ensures
            final(self)@ == Seq::<Value>::empty(),
            r@.len() == old(self)@.len(),
            forall|j: int|
                0 <= j < r@.len() ==> r@[j] == old(self)@[old(self)@.len() - 1 - j],
    {
        let ghost s = self.vec@;
        let mut rev: Vec<Value> = Vec::with_capacity(self.vec.len());
        while self.vec.len() > 0
            invariant
                self.vec@ == s.subrange(0, self.vec@.len() as int),
                rev@.len() == s.len() - self.vec@.len(),
                forall|j: int| 0 <= j < rev@.len() ==> rev@[j] == s[s.len() - 1 - j],
            decreases self.vec@.len(),
        {
            match self.vec.pop() {
                Some(value) => rev.push(value),
                None => {},
            }
        }
        rev
    }

    /// Inserts `value` at the position of `index`, shifting the values from there on one
    /// place to the right.
    pub fn insert(&mut self, index: Index, value: Value)
        where
            usize: From<Index>,
        requires
            <usize as FromSpec<Index>>::obeys_from_spec(),
            usize::from_spec(index) <= old(self)@.len(),
        ensures
            final(self)@ == old(self)@.insert(usize::from_spec(index) as int, value),
    {
        let offset = usize::from(index);
        self.vec.insert(offset, value);
    }

    /// Removes the values at the ascending `offsets` in one pass over the container,
    /// keeping the other values in their order.
    pub fn remove_multi_offsets(&mut self, offsets: &[usize])
        requires
            ascending_below(offsets@, old(self)@.len()),
        ensures
            final(self)@ == without_positions(old(self)@, offsets@),
            final(self)@.len() == old(self)@.len() - offsets@.len(),
    {
        let ghost s = self.vec@;
        let ghost keep = Seq::new(s.len(), |i: int| !offsets@.contains(i as usize));
        let n = self.vec.len();
        let mut rev = self.take_reversed();
        let mut p: usize = 0;
        let mut k: usize = 0;
        while p < n
            invariant
                n == s.len(),
                p <= n,
                k <= offsets@.len(),
                ascending_below(offsets@, n as nat),
                keep == Seq::new(s.len(), |i: int| !offsets@.contains(i as usize)),
                rev@.len() == n - p,
                forall|j: int| 0 <= j < rev@.len() ==> rev@[j] == s[n - 1 - j],
                k > 0 ==> offsets@[k - 1] < p,
                k < offsets@.len() ==> offsets@[k as int] >= p,
                self.vec@ == filtered(s.subrange(0, p as int), keep),
                self.vec@.len() == p - k,
            decreases n - p,
        {
            let hit = k < offsets.len() && offsets[k] == p;
            proof {
                if offsets@.contains(p) {
                    let t = choose|t: int| 0 <= t < offsets@.len() && offsets@[t] == p;
                    if t < k {
                        assert(offsets@[t] <= offsets@[k - 1]);
                    } else if t > k {
                        assert(offsets@[k as int] < offsets@[t]);
                    }
                }
                if hit {
                    assert(offsets@.contains(p));
                }
            }
            match rev.pop() {
                Some(value) => {
                    if !hit {
                        self.vec.push(value);
                    }
                },
                None => {},
            }
            if hit {
                k = k + 1;
            }
            p = p + 1;
            proof {
                assert(s.subrange(0, p as int).drop_last() == s.subrange(0, p - 1));
                assert(self.vec@ == filtered(s.subrange(0, p as int), keep));
            }
        }
        proof {
            assert(s.subrange(0, n as int) == s);
            if k < offsets@.len() {
                assert(offsets@[k as int] < n);
            }
        }
    }

    /// Removes the values at the given indices, which must be strictly ascending and inside
    /// the container, keeping the other values in their order.
    pub fn remove_multi<const N: usize>(&mut self, indices: [Index; N])
        where
            usize: From<Index>,
            Index: Copy,
        requires
            <usize as FromSpec<Index>>::obeys_from_spec(),
            ascending_below(offsets_of(indices@), old(self)@.len()),
        ensures
            final(self)@ == without_positions(old(self)@, offsets_of(indices@)),
            final(self)@.len() == old(self)@.len() - N,
    {
        let mut offsets: Vec<usize> = Vec::with_capacity(N);
        let mut i: usize = 0;
        while i < N
            invariant
                i <= N,
                indices@.len() == N,
                <usize as FromSpec<Index>>::obeys_from_spec(),
                offsets@ == offsets_of(indices@).subrange(0, i as int),
            decreases N - i,
        {
            offsets.push(usize::from(indices[i]));
            i = i + 1;
        }
        assert(offsets@ == offsets_of(indices@));
        self.remove_multi_offsets(offsets.as_slice());
    }

    /// Keeps only the values for which `f` returns `true`, visiting each value once in
    /// order, and keeps the order of those that stay.
    pub fn retain<F: FnMut(&Value) -> bool>(&mut self, f: F)
        requires
            forall|v: &Value| f.requires((v,)),
        ensures
            exists|keep: Seq<bool>|
                {
                    &&& keep.len() == old(self)@.len()
                    &&& forall|i: int| 0 <= i < keep.len() ==> f.ensures((&old(self)@[i],), keep[i])
                    &&& final(self)@ == filtered(old(self)@, keep)
                },
    {
        let mut f = f;
        let ghost f0 = f;
        let ghost s = self.vec@;
        let n = self.vec.len();
        let mut rev = self.take_reversed();
        let ghost mut keep: Seq<bool> = Seq::empty();
        let mut p: usize = 0;
        while p < n
            invariant
                n == s.len(),
                p <= n,
                f == f0,
                forall|v: &Value| f.requires((v,)),
                rev@.len() == n - p,
                forall|j: int| 0 <= j < rev@.len() ==> rev@[j] == s[n - 1 - j],
                keep.len() == p,
                forall|i: int| 0 <= i < p ==> f.ensures((&s[i],), keep[i]),
                self.vec@ == filtered(s.subrange(0, p as int), keep),
            decreases n - p,
        {
            let ghost old_keep = keep;
            match rev.pop() {
                Some(value) => {
                    let stays = f(&value);
                    proof {
                        keep = keep.push(stays);
                        lemma_filtered_prefix(s.subrange(0, p as int), old_keep, keep);
                        assert(s.subrange(0, p + 1).drop_last() == s.subrange(0, p as int));
                    }
                    if stays {
                        self.vec.push(value);
                    }
                },
                None => {},
            }
            p = p + 1;
        }
        assert(s.subrange(0, n as int) == s);
    }

    /// Returns the values as a plain slice.
    pub fn as_untagged_slice(&self) -> (r: &[Value])
        ensures
            r@ == self@,
    {
        self.vec.as_slice()
    }

    /// Returns the value at `index`.
    pub fn get(&self, index: Index) -> (r: &Value)
        where
            usize: From<Index>,
        requires
            <usize as FromSpec<Index>>::obeys_from_spec(),
            usize::from_spec(index) < self@.len(),
        ensures
            *r == self@[usize::from_spec(index) as int],
    {
        &self.vec[usize::from(index)]
    }

    /// Returns the value at `index` as a reference through which it can be changed.
    pub fn get_mut(&mut self, index: Index) -> (r: &mut Value)
        where
            usize: From<Index>,
        requires
            <usize as FromSpec<Index>>::obeys_from_spec(),
            usize::from_spec(index) < old(self)@.len(),
        ensures
            *r == old(self)@[usize::from_spec(index) as int],
            final(self)@ == old(self)@.update(usize::from_spec(index) as int, *final(r)),
    {
        &mut self.vec[usize::from(index)]
    }

    /// Replaces the value at `index` by `value` and returns the value that was there.
    pub fn set(&mut self, index: Index, value: Value) -> (r: Value)
        where
            usize: From<Index>,
        requires
            <usize as FromSpec<Index>>::obeys_from_spec(),
            usize::from_spec(index) < old(self)@.len(),
        ensures
            r == old(self)@[usize::from_spec(index) as int],
            final(self)@ == old(self)@.update(usize::from_spec(index) as int, value),
    {
        let offset = usize::from(index);
        let mut value = value;
        core::mem::swap(&mut self.vec[offset], &mut value);
        value
    }

    /// Appends the value that `f` computes from the index it is going to have, and returns
    /// that index.
    pub fn push_in_place<F: FnOnce(Index) -> Value>(&mut self, f: F) -> (r: Index)
        where
            Index: From<usize> + Copy,
        requires
            forall|i: Index| f.requires((i,)),
        ensures
            final(self)@.len() == old(self)@.len() + 1,
            final(self)@.drop_last() == old(self)@,
            f.ensures((r,), final(self)@.last()),
            Index::obeys_from_spec() ==> r == Index::from_spec(old(self)@.len() as usize),
    {
        let index = Index::from(self.vec.len());
        let value = f(index);
        self.vec.push(value);
        assert(self.vec@.drop_last() =~= old(self)@);
        index
    }

    /// Replaces the values at the offsets `start..end` by those of `replace_with`, and returns
    /// the values that were there.
    pub fn splice_offsets(&mut self, start: usize, end: usize, replace_with: Vec<Value>) -> (r: Vec<
        Value,
    >)
        requires
            start <= end <= old(self)@.len(),
        ensures
            r@ == old(self)@.subrange(start as int, end as int),
            final(self)@ == old(self)@.subrange(0, start as int) + replace_with@ + old(self)@.subrange(
                end as int,
                old(self)@.len() as int,
            ),
    {
        let mut replace_with = replace_with;
        let mut tail = self.vec.split_off(end);
        let removed = self.vec.split_off(start);
        self.vec.append(&mut replace_with);
        self.vec.append(&mut tail);
        removed
    }

    /// Replaces the values that `range` covers by those of `replace_with`, and returns the
    /// values that were there, in order. A range that reaches past the end is cut there.
    pub fn splice<R: RangeBounds<Index>>(&mut self, range: R, replace_with: Vec<Value>) -> (r:
        std::vec::IntoIter<Value>)
        where
            usize: From<Index>,
            Index: Copy,
        ensures
            exists|lo: int, hi: int|
                {
                    &&& 0 <= lo <= hi <= old(self)@.len()
                    &&& r.remaining() == old(self)@.subrange(lo, hi)
                    &&& final(self)@ == old(self)@.subrange(0, lo) + replace_with@ + old(
                        self,
                    )@.subrange(hi, old(self)@.len() as int)
                },
    {
        broadcast use vstd::std_specs::vec::axiom_spec_into_iter;

        let bounds = MappedRangeBounds::new(range);
        let (lo, hi) = bounds.clamp(self.vec.len());
        self.splice_offsets(lo, hi, replace_with).into_iter()
    }

    /// Pairs the values at the offsets that `bounds` covers with their indices.
    pub fn entries(&self, bounds: &MappedRangeBounds) -> (r: Vec<(Index, &Value)>)
        where
            Index: From<usize>,
        ensures
            is_entries(
                r@,
                self@,
                bounds.spec_clamp(self@.len() as usize).0 as int,
                bounds.spec_clamp(self@.len() as usize).1 as int,
            ),
    {
        let (lo, hi) = bounds.clamp(self.vec.len());
        let mut r: Vec<(Index, &Value)> = Vec::with_capacity(hi - lo);
        let mut p: usize = lo;
        while p < hi
            invariant
                lo <= p <= hi <= self@.len(),
                is_entries(r@, self@, lo as int, p as int),
            decreases hi - p,
        {
            r.push((Index::from(p), &self.vec[p]));
            p = p + 1;
        }
        r
    }

    /// Returns the values that `range` covers, in order, each with its index. A range that
    /// reaches past the end is cut there.
    pub fn iter<R: RangeBounds<Index>>(&self, range: R) -> (r: std::vec::IntoIter<(Index, &Value)>)
        where
            Index: From<usize> + Copy,
            usize: From<Index>,
        ensures
            exists|lo: int, hi: int| is_entries(r.remaining(), self@, lo, hi),
    {
        broadcast use vstd::std_specs::vec::axiom_spec_into_iter;

        let bounds = MappedRangeBounds::new(range);
        self.entries(&bounds).into_iter()
    }

    /// Returns every value, in order, each with its index.
    pub fn iter_all(&self) -> (r: std::vec::IntoIter<(Index, &Value)>)
        where
            Index: From<usize>,
        ensures
            is_entries(r.remaining(), self@, 0, self@.len() as int),
    {
        broadcast use vstd::std_specs::vec::axiom_spec_into_iter;

        let bounds = MappedRangeBounds::from_edges(RangeEdge::Unbounded, RangeEdge::Unbounded);
        let n = self.vec.len();
        let e = self.entries(&bounds);
        assert(bounds.spec_clamp(n) == (0usize, n));
        e.into_iter()
    }

    /// Returns the values, in order.
    pub fn iter_values(&self) -> (r: std::slice::Iter<'_, Value>)
        ensures
            r.remaining() == self@.as_ref(),
    {
        broadcast use vstd::std_specs::slice::axiom_spec_slice_iter;

        self.vec.as_slice().iter()
    }

    /// Returns the values, in order, each as a reference through which it can be changed.
    pub fn iter_values_mut(&mut self) -> (r: std::vec::IntoIter<&mut Value>)
        ensures
            r.remaining().len() == old(self)@.len(),
            forall|k: int| 0 <= k < r.remaining().len() ==> *r.remaining()[k] == old(self)@[k],
            final(self)@.len() == old(self)@.len(),
            forall|k: int|
                0 <= k < r.remaining().len() ==> final(self)@[k] == *final(r.remaining()[k]),
    {
        broadcast use vstd::std_specs::vec::axiom_spec_into_iter;

        let ghost s0 = self.vec@;
        let ghost fin = final(self)@;
        let mut out: Vec<&mut Value> = Vec::new();
        let mut rest: &mut [Value] = self.vec.as_mut_slice();
        while rest.len() > 0
            invariant
                out@.len() + rest@.len() == s0.len(),
                forall|k: int| 0 <= k < out@.len() ==> *out@[k] == s0[k],
                forall|k: int| 0 <= k < rest@.len() ==> rest@[k] == s0[out@.len() + k],
                fin == Seq::new(out@.len() as nat, |k: int| *final(out@[k])) + final(rest)@,
            decreases rest@.len(),
        {
            let (head, tail) = rest.split_at_mut(1);
            match head.first_mut() {
                Some(first) => out.push(first),
                None => {},
            }
            rest = tail;
        }
        out.into_iter()
    }

    /// Returns the values, in order, each with its index and as a reference through which it
    /// can be changed.
    pub fn iter_mut(&mut self) -> (r: std::vec::IntoIter<(Index, &mut Value)>)
        where
            Index: From<usize>,
        ensures
            r.remaining().len() == old(self)@.len(),
            forall|k: int| 0 <= k < r.remaining().len() ==> *r.remaining()[k].1 == old(self)@[k],
            Index::obeys_from_spec() ==> forall|k: int|
                0 <= k < r.remaining().len() ==> r.remaining()[k].0 == Index::from_spec(
                    k as usize,
                ),
            final(self)@.len() == old(self)@.len(),
            forall|k: int|
                0 <= k < r.remaining().len() ==> final(self)@[k] == *final(r.remaining()[k].1),
    {
        broadcast use vstd::std_specs::vec::axiom_spec_into_iter;

        let ghost s0 = self.vec@;
        let ghost fin = final(self)@;
        let n = self.vec.len();
        let mut out: Vec<(Index, &mut Value)> = Vec::new();
        let mut rest: &mut [Value] = self.vec.as_mut_slice();
        let mut p: usize = 0;
        while rest.len() > 0
            invariant
                p == out@.len(),
                n == s0.len(),
                out@.len() + rest@.len() == s0.len(),
                forall|k: int| 0 <= k < out@.len() ==> *out@[k].1 == s0[k],
                Index::obeys_from_spec() ==> forall|k: int|
                    0 <= k < out@.len() ==> out@[k].0 == Index::from_spec(k as usize),
                forall|k: int| 0 <= k < rest@.len() ==> rest@[k] == s0[out@.len() + k],
                fin == Seq::new(out@.len() as nat, |k: int| *final(out@[k].1)) + final(rest)@,
            decreases rest@.len(),
        {
            let (head, tail) = rest.split_at_mut(1);
            match head.first_mut() {
                Some(first) => out.push((Index::from(p), first)),
                None => {},
            }
            rest = tail;
            p = p + 1;
        }
        out.into_iter()
    }

    /// Returns the indices of all values, in order.
    pub fn iter_indices(&self) -> (r: IndexIterator<Index>)
        ensures
            r@ == offset_range(0, self@.len() as usize),
    {
        IndexIterator::new(0, self.vec.len())
    }
}

impl<Index, Value> TaggedVec<Index, Value> {
    /// Creates a container that holds the items of `iter`, in order.
    pub fn from_iter<I: Iterator<Item = Value>>(iter: I) -> (r: Self)
        ensures
            iter.obeys_prophetic_iter_laws() ==> r@ == iter.remaining(),
    {
        TaggedVec::from_vec(collect_values(iter))
    }

    /// Appends the items of `iter` at the back, in order.
    pub fn extend<I: Iterator<Item = Value>>(&mut self, iter: I)
        ensures
            final(self)@.subrange(0, old(self)@.len() as int) == old(self)@,
            iter.obeys_prophetic_iter_laws() ==> final(self)@ == old(self)@ + iter.remaining(),
    {
        let mut more = collect_values(iter);
        self.vec.append(&mut more);
    }
}

/// Relies on `Iterator::collect` into a `Vec`: the items that `iter` hands out, in order.
#[verifier::external_body]
fn collect_values<Value, I: Iterator<Item = Value>>(iter: I) -> (r: Vec<Value>)
    ensures
        iter.obeys_prophetic_iter_laws() ==> r@ == iter.remaining(),
{
    iter.collect()
}

impl<Index, Value: PartialEq> PartialEq for TaggedVec<Index, Value> {
    fn eq(&self, other: &Self) -> (r: bool) {
        self.vec == other.vec
    }
}

impl<Index, Value: PartialEq> vstd::std_specs::cmp::PartialEqSpecImpl for TaggedVec<Index, Value> {
    open spec fn obeys_eq_spec() -> bool {
        Value::obeys_eq_spec()
    }

    open spec fn eq_spec(&self, other: &Self) -> bool {
        &&& self@.len() == other@.len()
        &&& forall|i: int| #![auto] 0 <= i < self@.len() ==> self@[i].eq_spec(&other@[i])
    }
}

impl<Index, Value: Eq> Eq for TaggedVec<Index, Value> {

}

impl<Index, Value: Clone> Clone for TaggedVec<Index, Value> {
    fn clone(&self) -> (r: Self) {
        TaggedVec { index_type: PhantomData, vec: self.vec.clone() }
    }
}

impl<Index, Value> From<Vec<Value>> for TaggedVec<Index, Value> {
    fn from(value: Vec<Value>) -> (r: Self) {
        TaggedVec { index_type: PhantomData, vec: value }
    }
}

impl<Index, Value> vstd::std_specs::convert::FromSpecImpl<Vec<Value>> for TaggedVec<Index, Value> {
    open spec fn obeys_from_spec() -> bool {
        true
    }

    closed spec fn from_spec(v: Vec<Value>) -> Self {
        TaggedVec { index_type: PhantomData, vec: v }
    }
}

impl<Index, Value> From<TaggedVec<Index, Value>> for Vec<Value> {
    fn from(value: TaggedVec<Index, Value>) -> (r: Vec<Value>)
        ensures
            r@ == value@,
    {
        value.vec
    }
}

impl<Index, Value> vstd::std_specs::convert::FromSpecImpl<TaggedVec<Index, Value>> for Vec<Value> {
    open spec fn obeys_from_spec() -> bool {
        true
    }

    closed spec fn from_spec(v: TaggedVec<Index, Value>) -> Vec<Value> {
        v.vec
    }
}

/// Converting a `Vec` keeps its values in their order.
pub proof fn lemma_from_vec<Index, Value>(v: Vec<Value>)
    ensures
        <TaggedVec<Index, Value> as FromSpec<Vec<Value>>>::from_spec(v)@ == v@,
{
}

/// Converting to a `Vec` keeps the values in their order, so converting a `Vec` in and back
/// out gives a `Vec` with the same values.
pub proof fn lemma_into_vec<Index, Value>(t: TaggedVec<Index, Value>, v: Vec<Value>)
    ensures
        <Vec<Value> as FromSpec<TaggedVec<Index, Value>>>::from_spec(t)@ == t@,
        <Vec<Value> as FromSpec<TaggedVec<Index, Value>>>::from_spec(
            <TaggedVec<Index, Value> as FromSpec<Vec<Value>>>::from_spec(v),
        )@ == v@,
{
}

impl<Index, Value> std::ops::Index<Index> for TaggedVec<Index, Value> where usize: From<Index> {
    type Output = Value;

    fn index(&self, index: Index) -> (r: &Value)
        ensures
            *r == self@[usize::from_spec(index) as int],
    {
        &self.vec[usize::from(index)]
    }
}

impl<Index, Value> vstd::std_specs::core::IndexSpecImpl<Index> for TaggedVec<Index, Value> where usize: From<Index> {
    open spec fn index_req(&self, index: &Index) -> bool {
        &&& <usize as FromSpec<Index>>::obeys_from_spec()
        &&& usize::from_spec(*index) < self@.len()
    }
}

} // verus!
