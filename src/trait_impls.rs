//! The default value of `TaggedVec`.
use crate::container::TaggedVec;
use vstd::prelude::*;

verus! {

impl<Index, Value> Default for TaggedVec<Index, Value> {
    fn default() -> (r: Self)
        ensures
            r@ == Seq::<Value>::empty(),
    {
        TaggedVec::new()
    }
}

} // verus!
