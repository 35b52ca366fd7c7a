use std::{
    iter,
    time::{Duration, Instant},
};

use tagged_vec::{ByteOrder, CodecError, IndexIterator, MappedRangeBounds, RangeEdge, TaggedVec};

#[test]
fn delete_multi() {
    let mut v = TaggedVec::<usize, _>::from_iter([0, 1, 2, 3, 4].into_iter());
    v.remove_multi([0, 4]);
    assert_eq!(v, vec![1, 2, 3].into());

    let mut v = TaggedVec::<usize, _>::from_iter([0, 1, 2, 3, 4].into_iter());
    v.remove_multi([0, 2, 4]);
    assert_eq!(v, vec![1, 3].into());

    let mut v = TaggedVec::<usize, _>::from_iter([0, 1, 2, 3, 4].into_iter());
    v.remove_multi([1, 3]);
    assert_eq!(v, vec![0, 2, 4].into());
}

#[derive(Copy, Clone, Debug, PartialEq)]
struct Index(usize);

impl From<usize> for Index {
    fn from(value: usize) -> Self {
        Self(value)
    }
}

impl From<Index> for usize {
    fn from(value: Index) -> Self {
        value.0
    }
}

#[test]
fn iter_skip() {
    // 128 MiB of data.
    let v = TaggedVec::<Index, u8>::from_iter(iter::repeat_n(0..255, 4 * 1024 * 128).flatten());

    let start_time = Instant::now();
    let sum: usize = v
        .iter(..Index(10))
        .map(|(index, value)| index.0 + *value as usize)
        .sum();
    let no_skip_time = start_time.elapsed();

    let start_time = Instant::now();
    let sum_skip: usize = v
        .iter(Index(v.len() - 20)..Index(v.len() - 10))
        .map(|(index, value)| index.0 + *value as usize)
        .sum();
    let skip_time = start_time.elapsed();

    println!("Sum: {sum}");
    println!("Skip sum: {sum_skip}");
    println!("Time without skip: {no_skip_time:?}");
    println!("Time with skip: {skip_time:?}");

    assert!(
        (skip_time < no_skip_time * 2 && no_skip_time < skip_time * 2)
            || skip_time < Duration::from_millis(10) && no_skip_time < Duration::from_millis(10)
    );
}

#[test]
fn remove_multi_keeps_order_and_length() {
    let mut v = TaggedVec::<usize, u32>::from_vec((0..10).collect());
    v.remove_multi([0, 3, 4, 9]);
    assert_eq!(v.as_untagged_slice(), &[1, 2, 5, 6, 7, 8]);
    assert_eq!(v.len(), 10 - 4);
}

#[test]
fn remove_multi_nothing_and_everything() {
    let mut v = TaggedVec::<usize, u32>::from_vec(vec![7, 8, 9]);
    v.remove_multi([]);
    assert_eq!(v.as_untagged_slice(), &[7, 8, 9]);
    v.remove_multi_offsets(&[0, 1, 2]);
    assert!(v.is_empty());
}

#[test]
fn remove_multi_with_typed_indices() {
    let mut v = TaggedVec::<Index, char>::from_vec(vec!['a', 'b', 'c', 'd']);
    v.remove_multi([Index(1), Index(2)]);
    assert_eq!(v.as_untagged_slice(), &['a', 'd']);
}

#[test]
fn push_returns_index_and_pop_undoes_it() {
    let mut v = TaggedVec::<Index, &str>::new();
    assert_eq!(v.push("x"), Index(0));
    assert_eq!(v.push("y"), Index(1));
    let before = v.clone();
    let index = v.push("z");
    assert_eq!(index, Index(2));
    assert_eq!(v.pop(), Some((Index(2), "z")));
    assert_eq!(v, before);
    assert_eq!(v.len(), 2);
}

#[test]
fn pop_on_empty_is_none() {
    let mut v = TaggedVec::<usize, u8>::new();
    assert_eq!(v.pop(), None);
    assert!(v.is_empty());
}

#[test]
fn insert_then_pop_shifts_right() {
    let mut v = TaggedVec::<usize, u8>::from_vec(vec![10, 20, 30, 40]);
    v.insert(1, 99);
    assert_eq!(v.as_untagged_slice(), &[10, 99, 20, 30, 40]);
    assert_eq!(v.pop(), Some((4, 40)));
    assert_eq!(v.pop(), Some((3, 30)));
    assert_eq!(v.pop(), Some((2, 20)));
    assert_eq!(v.as_untagged_slice(), &[10, 99]);
    v.insert(2, 5);
    assert_eq!(v.as_untagged_slice(), &[10, 99, 5]);
}

#[test]
fn push_in_place_sees_its_index() {
    let mut v = TaggedVec::<usize, usize>::from_vec(vec![3, 3]);
    let index = v.push_in_place(|i| i * 10);
    assert_eq!(index, 2);
    assert_eq!(v.as_untagged_slice(), &[3, 3, 20]);
}

#[test]
fn retain_keeps_order() {
    let mut v = TaggedVec::<usize, i32>::from_vec(vec![1, -2, 3, -4, 5]);
    v.retain(|x| *x > 0);
    assert_eq!(v.as_untagged_slice(), &[1, 3, 5]);
}

#[test]
fn get_and_set_by_index() {
    let mut v = TaggedVec::<Index, u8>::from_vec(vec![1, 2, 3]);
    assert_eq!(*v.get(Index(1)), 2);
    assert_eq!(v.set(Index(1), 7), 2);
    assert_eq!(v.as_untagged_slice(), &[1, 7, 3]);
    assert!(v.capacity() >= 3);
}

#[test]
fn splice_replaces_a_range() {
    let mut v = TaggedVec::<usize, u8>::from_vec(vec![0, 1, 2, 3, 4]);
    let removed: Vec<u8> = v.splice(1..3, vec![9, 9, 9]).collect();
    assert_eq!(removed, vec![1, 2]);
    assert_eq!(v.as_untagged_slice(), &[0, 9, 9, 9, 3, 4]);
    let removed: Vec<u8> = v.splice(4.., vec![]).collect();
    assert_eq!(removed, vec![3, 4]);
    assert_eq!(v.as_untagged_slice(), &[0, 9, 9, 9]);
    let removed: Vec<u8> = v.splice(..=1, vec![5]).collect();
    assert_eq!(removed, vec![0, 9]);
    assert_eq!(v.as_untagged_slice(), &[5, 9, 9]);
}

#[test]
fn splice_past_the_end_is_cut() {
    let mut v = TaggedVec::<usize, u8>::from_vec(vec![0, 1, 2]);
    let removed: Vec<u8> = v.splice(2..10, vec![7]).collect();
    assert_eq!(removed, vec![2]);
    assert_eq!(v.as_untagged_slice(), &[0, 1, 7]);
}

#[test]
fn iteration_pairs_indices_with_values() {
    let v = TaggedVec::<Index, char>::from_vec(vec!['a', 'b', 'c']);
    let all: Vec<(Index, &char)> = v.iter(..).collect();
    assert_eq!(all, vec![(Index(0), &'a'), (Index(1), &'b'), (Index(2), &'c')]);
    let back: Vec<(Index, &char)> = v.iter(..).rev().collect();
    assert_eq!(back, vec![(Index(2), &'c'), (Index(1), &'b'), (Index(0), &'a')]);
    assert_eq!(v.iter(Index(1)..).len(), 2);
    let values: Vec<&char> = v.iter_values().collect();
    assert_eq!(values, vec![&'a', &'b', &'c']);
}

#[test]
fn index_iterator_both_ends() {
    let v = TaggedVec::<Index, u8>::from_vec(vec![5, 6, 7, 8]);
    let mut it = v.iter_indices();
    assert_eq!(it.len(), 4);
    assert_eq!(it.next(), Some(Index(0)));
    assert_eq!(it.next_back(), Some(Index(3)));
    assert_eq!(it.next(), Some(Index(1)));
    assert_eq!(it.next_back(), Some(Index(2)));
    assert_eq!(it.len(), 0);
    assert_eq!(it.next(), None);
    assert_eq!(it.next_back(), None);

    let mut empty = IndexIterator::<usize>::new(5, 3);
    assert_eq!(empty.len(), 0);
    assert_eq!(empty.next(), None);
}

#[test]
fn mapped_range_clamps_to_length() {
    let r = MappedRangeBounds::new(Index(2)..=Index(4));
    assert_eq!(r.clamp(10), (2, 5));
    assert_eq!(r.clamp(3), (2, 3));
    assert_eq!(r.clamp(1), (1, 1));
    let r = MappedRangeBounds::from_edges(RangeEdge::Excluded(1), RangeEdge::Unbounded);
    assert_eq!(r.clamp(6), (2, 6));
    let r = MappedRangeBounds::from_edges(RangeEdge::Included(4), RangeEdge::Excluded(2));
    assert_eq!(r.clamp(6), (2, 2));
}

#[test]
fn conversions_and_default() {
    let v: TaggedVec<usize, u8> = vec![1, 2].into();
    let back: Vec<u8> = v.into();
    assert_eq!(back, vec![1, 2]);
    let d: TaggedVec<usize, u8> = Default::default();
    assert!(d.is_empty());
    let mut e = TaggedVec::<usize, u8>::from_vec(vec![1]);
    e.extend([2, 3].into_iter());
    assert_eq!(e.as_untagged_slice(), &[1, 2, 3]);
}

#[test]
fn test_binary_io() {
    let mut vec = TaggedVec::<usize, u64>::new();
    vec.push(42);
    vec.push(1337);

    let buffer = vec.write_binary();

    let read_vec = TaggedVec::<usize, u64>::read_binary(buffer.as_slice()).unwrap();
    assert_eq!(read_vec.as_untagged_slice(), &[42, 1337]);
}

#[test]
fn binary_image_layout_little_endian() {
    let v = TaggedVec::<usize, u16>::from_vec(vec![0x0102, 0xA0B0]);
    let bytes = v.encode_binary(ByteOrder::Little);
    let mut expected = 2usize.to_le_bytes().to_vec();
    expected.extend_from_slice(&[0x02, 0x01, 0xB0, 0xA0]);
    assert_eq!(bytes, expected);
}

#[test]
fn binary_image_layout_big_endian() {
    let v = TaggedVec::<usize, u32>::from_vec(vec![0x0102_0304]);
    let bytes = v.encode_binary(ByteOrder::Big);
    let mut expected = 1usize.to_be_bytes().to_vec();
    expected.extend_from_slice(&[0x01, 0x02, 0x03, 0x04]);
    assert_eq!(bytes, expected);
    let back = TaggedVec::<usize, u32>::decode_binary(&bytes, ByteOrder::Big).unwrap();
    assert_eq!(back.as_untagged_slice(), &[0x0102_0304]);
}

#[test]
fn binary_native_order_matches_machine() {
    let v = TaggedVec::<usize, u64>::from_vec(vec![0x1122_3344_5566_7788]);
    let bytes = v.write_binary();
    let mut expected = 1usize.to_ne_bytes().to_vec();
    expected.extend_from_slice(&0x1122_3344_5566_7788u64.to_ne_bytes());
    assert_eq!(bytes, expected);
}

#[test]
fn binary_round_trip_of_several_widths() {
    let a = TaggedVec::<usize, u8>::from_vec(vec![0, 255, 17]);
    let b = TaggedVec::<usize, usize>::from_vec(vec![usize::MAX, 0, 12345]);
    let c = TaggedVec::<usize, u32>::new();
    for order in [ByteOrder::Little, ByteOrder::Big] {
        let back = TaggedVec::<usize, u8>::decode_binary(&a.encode_binary(order), order).unwrap();
        assert_eq!(back, a);
        let back = TaggedVec::<usize, usize>::decode_binary(&b.encode_binary(order), order).unwrap();
        assert_eq!(back, b);
        let back = TaggedVec::<usize, u32>::decode_binary(&c.encode_binary(order), order).unwrap();
        assert_eq!(back, c);
    }
}

#[test]
fn binary_truncated_input_is_an_error() {
    let v = TaggedVec::<usize, u64>::from_vec(vec![1, 2]);
    let bytes = v.write_binary();
    let short = &bytes[..bytes.len() - 1];
    assert_eq!(TaggedVec::<usize, u64>::read_binary(short), Err(CodecError::Truncated));
    let no_len = &bytes[..3];
    assert_eq!(TaggedVec::<usize, u64>::read_binary(no_len), Err(CodecError::Truncated));
    let mut huge = usize::MAX.to_ne_bytes().to_vec();
    huge.extend_from_slice(&[0; 16]);
    assert_eq!(TaggedVec::<usize, u64>::read_binary(&huge), Err(CodecError::Truncated));
}

#[test]
fn binary_trailing_bytes_are_not_read() {
    let v = TaggedVec::<usize, u8>::from_vec(vec![4, 5]);
    let mut bytes = v.encode_binary(ByteOrder::Little);
    bytes.push(99);
    let back = TaggedVec::<usize, u8>::decode_binary(&bytes, ByteOrder::Little).unwrap();
    assert_eq!(back.as_untagged_slice(), &[4, 5]);
}

#[test]
fn iter_mut_changes_values_in_place() {
    let mut v = TaggedVec::<Index, u32>::from_vec(vec![1, 2, 3]);
    for (index, value) in v.iter_mut() {
        *value += index.0 as u32 * 10;
    }
    assert_eq!(v.as_untagged_slice(), &[1, 12, 23]);
    for value in v.iter_values_mut() {
        *value *= 2;
    }
    assert_eq!(v.as_untagged_slice(), &[2, 24, 46]);
    let indices: Vec<Index> = v.iter_mut().rev().map(|(i, _)| i).collect();
    assert_eq!(indices, vec![Index(2), Index(1), Index(0)]);
}

#[test]
fn index_operator_and_ordering() {
    let v = TaggedVec::<Index, u8>::from_vec(vec![4, 5, 6]);
    assert_eq!(v[Index(2)], 6);
    assert_eq!(v[Index(0)], 4);
    let a = TaggedVec::<usize, u8>::from_vec(vec![1, 2]);
    let b = TaggedVec::<usize, u8>::from_vec(vec![1, 3]);
    assert!(a < b);
    assert_eq!(a.cmp(&a.clone()), std::cmp::Ordering::Equal);
    assert_ne!(a, b);
}

#[test]
fn iter_all_covers_every_value_both_ways() {
    let v = TaggedVec::<Index, u8>::from_vec(vec![7, 8, 9]);
    let all: Vec<(Index, &u8)> = v.iter_all().collect();
    assert_eq!(all, vec![(Index(0), &7), (Index(1), &8), (Index(2), &9)]);
    let back: Vec<(Index, &u8)> = v.iter_all().rev().collect();
    assert_eq!(back, vec![(Index(2), &9), (Index(1), &8), (Index(0), &7)]);
    assert_eq!(TaggedVec::<Index, u8>::new().iter_all().len(), 0);
}

#[test]
fn get_mut_writes_in_place() {
    let mut v = TaggedVec::<Index, u8>::from_vec(vec![1, 2, 3]);
    *v.get_mut(Index(2)) = 30;
    assert_eq!(v.as_untagged_slice(), &[1, 2, 30]);
}

#[test]
fn retain_with_a_stateful_predicate() {
    let mut v = TaggedVec::<usize, u8>::from_vec(vec![5, 6, 7, 8]);
    let mut seen = 0;
    v.retain(|_| {
        seen += 1;
        seen % 2 == 0
    });
    assert_eq!(seen, 4);
    assert_eq!(v.as_untagged_slice(), &[6, 8]);
}

#[test]
fn range_from_index_edges() {
    let r = MappedRangeBounds::from_index_edges(
        RangeEdge::Included(Index(1)),
        RangeEdge::Excluded(Index(3)),
    );
    assert_eq!(r.start_bound(), RangeEdge::Included(1));
    assert_eq!(r.end_bound(), RangeEdge::Excluded(3));
    assert_eq!(r.clamp(10), (1, 3));
}

#[test]
fn vec_round_trip_keeps_values() {
    let t: TaggedVec<usize, i16> = vec![-1, 0, 300].into();
    let v: Vec<i16> = t.into();
    assert_eq!(v, vec![-1, 0, 300]);
}

#[test]
fn binary_signed_values() {
    let v = TaggedVec::<usize, i16>::from_vec(vec![-2, 258]);
    let bytes = v.encode_binary(ByteOrder::Little);
    let mut expected = 2usize.to_le_bytes().to_vec();
    expected.extend_from_slice(&[0xFE, 0xFF, 0x02, 0x01]);
    assert_eq!(bytes, expected);
    let back = TaggedVec::<usize, i16>::decode_binary(&bytes, ByteOrder::Little).unwrap();
    assert_eq!(back, v);

    let w = TaggedVec::<usize, i64>::from_vec(vec![i64::MIN, -1, i64::MAX]);
    let x = TaggedVec::<usize, isize>::from_vec(vec![isize::MIN, -7]);
    let y = TaggedVec::<usize, i8>::from_vec(vec![-128, 127]);
    let z = TaggedVec::<usize, i32>::from_vec(vec![-100000]);
    for order in [ByteOrder::Little, ByteOrder::Big] {
        assert_eq!(TaggedVec::decode_binary(&w.encode_binary(order), order), Ok(w.clone()));
        assert_eq!(TaggedVec::decode_binary(&x.encode_binary(order), order), Ok(x.clone()));
        assert_eq!(TaggedVec::decode_binary(&y.encode_binary(order), order), Ok(y.clone()));
        assert_eq!(TaggedVec::decode_binary(&z.encode_binary(order), order), Ok(z.clone()));
    }
    let native = TaggedVec::<usize, i32>::read_binary(&z.write_binary()).unwrap();
    assert_eq!(native, z);
}
