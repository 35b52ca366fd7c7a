//! A growable sequence container that is indexed with a caller-chosen index type instead of
//! a bare `usize`, so that positions of one container cannot be used on another by accident.

pub mod binary_io;
pub mod bytes;
pub mod container;
pub mod index_iterator;
pub mod mapped_range_bounds;
mod trait_impls;

pub use binary_io::CodecError;
pub use bytes::{ByteOrder, PlainValue};
pub use container::TaggedVec;
pub use index_iterator::IndexIterator;
pub use mapped_range_bounds::{MappedRangeBounds, RangeEdge};
