//! A raw binary image of a container: its length as a `usize`, then the bytes of each value,
//! with no other framing, in the byte order of the machine.
use crate::bytes::{
    lemma_ordered_round_trip, lemma_usize_width, ordered_bytes, ordered_value, pow256, ByteOrder,
    PlainValue,
};
use crate::container::TaggedVec;
use vstd::prelude::*;

verus! {

/// Why bytes could not be read back as a container.
#[derive(Clone, Copy, Debug, PartialEq, Eq)]
pub enum CodecError {
    /// The bytes end before the length or before the last value.
    Truncated,
}

/// The count of bytes of the length at the start of an image.
pub open spec fn len_width() -> nat {
    <usize as PlainValue>::width()
}

/// The bytes of the values of `s`, one after the other.
pub open spec fn encoded_values<V: PlainValue>(s: Seq<V>, o: ByteOrder) -> Seq<u8>
    decreases s.len(),
{
    if s.len() == 0 {
        Seq::empty()
    } else {
        encoded_values(s.drop_last(), o) + ordered_bytes(s.last().to_nat(), V::width(), o)
    }
}

/// The image of the values `s` in the byte order `o`.
pub open spec fn encoding<V: PlainValue>(s: Seq<V>, o: ByteOrder) -> Seq<u8> {
    ordered_bytes(s.len(), len_width(), o) + encoded_values(s, o)
}

/// The length that an image says it holds.
pub open spec fn stored_count(b: Seq<u8>, o: ByteOrder) -> nat {
    ordered_value(b.subrange(0, len_width() as int), o)
}

/// The bytes of the value at position `i` of an image.
pub open spec fn chunk<V: PlainValue>(b: Seq<u8>, i: int) -> Seq<u8> {
    b.subrange(len_width() + i * V::width(), len_width() + i * V::width() + V::width())
}

/// `b` holds a whole length and as many whole values as that length says.
pub open spec fn decodable<V: PlainValue>(b: Seq<u8>, o: ByteOrder) -> bool {
    &&& b.len() >= len_width()
    &&& len_width() + stored_count(b, o) * V::width() <= b.len()
}

/// `s` is what the image `b` holds: as many values as its length says, each standing for
/// the number that its bytes stand for.
pub open spec fn decodes_to<V: PlainValue>(b: Seq<u8>, o: ByteOrder, s: Seq<V>) -> bool {
    &&& decodable::<V>(b, o)
    &&& s.len() == stored_count(b, o)
    &&& forall|i: int| 0 <= i < s.len() ==> #[trigger] s[i].to_nat() == ordered_value(chunk::<V>(b, i), o)
}

/// Relies on `u16::to_ne_bytes`: the two bytes of `x` in the byte order of this machine,
/// which is one of the two orders.
#[verifier::external_body]
fn native_bytes_u16(x: u16) -> (r: [u8; 2])
    ensures
        r@ == ordered_bytes(x as nat, 2, ByteOrder::Little) || r@ == ordered_bytes(
            x as nat,
            2,
            ByteOrder::Big,
        ),
{
    x.to_ne_bytes()
}

/// Returns the byte order of this machine.
pub fn native_byte_order() -> (r: ByteOrder) {
    let b = native_bytes_u16(1);
    if b[0] == 1 {
        ByteOrder::Little
    } else {
        ByteOrder::Big
    }
}

proof fn lemma_encoded_values_len<V: PlainValue>(s: Seq<V>, o: ByteOrder)
    ensures
        encoded_values(s, o).len() == s.len() * V::width(),
    decreases s.len(),
{
    if s.len() > 0 {
        let t = s.drop_last();
        lemma_encoded_values_len(t, o);
        s.last().lemma_plain(s.last());
        lemma_ordered_round_trip(s.last().to_nat(), V::width(), o);
        let n = s.len();
        let w = V::width();
        assert((n - 1) * w + w == n * w) by (nonlinear_arith);
    }
}

proof fn lemma_encoded_chunk<V: PlainValue>(s: Seq<V>, o: ByteOrder, i: int)
    requires
        0 <= i < s.len(),
    ensures
        encoded_values(s, o).subrange(i * V::width(), i * V::width() + V::width())
            == ordered_bytes(s[i].to_nat(), V::width(), o),
    decreases s.len(),
{
    let t = s.drop_last();
    let w = V::width();
    let n = s.len();
    lemma_encoded_values_len(t, o);
    s.last().lemma_plain(s.last());
    lemma_ordered_round_trip(s.last().to_nat(), w, o);
    let e = encoded_values(s, o);
    let et = encoded_values(t, o);
    assert(e == et + ordered_bytes(s.last().to_nat(), w, o));
    if i < n - 1 {
        lemma_encoded_chunk(t, o, i);
        assert(i * w + w <= (n - 1) * w) by (nonlinear_arith)
            requires
                i < n - 1,
        ;
        assert(e.subrange(i * w, i * w + w) =~= et.subrange(i * w, i * w + w));
    } else {
        assert(e.subrange(i * w, i * w + w) =~= ordered_bytes(s.last().to_nat(), w, o));
    }
}

/// Reading back the image of any sequence of values, in the byte order it was written in,
/// gives that same sequence and no other.
pub proof fn lemma_binary_round_trip<V: PlainValue>(s: Seq<V>, o: ByteOrder)
    requires
        s.len() <= usize::MAX,
    ensures
        decodable::<V>(encoding(s, o), o),
        decodes_to(encoding(s, o), o, s),
        forall|t: Seq<V>| decodes_to(encoding(s, o), o, t) ==> t == s,
{
    let b = encoding(s, o);
    let lw = len_width();
    let w = V::width();
    let e = encoded_values(s, o);
    lemma_usize_width();
    lemma_ordered_round_trip(s.len(), lw, o);
    lemma_encoded_values_len(s, o);
    assert(b.subrange(0, lw as int) =~= ordered_bytes(s.len(), lw, o));
    assert(stored_count(b, o) == s.len());
    assert forall|i: int| 0 <= i < s.len() implies #[trigger] s[i].to_nat() == ordered_value(
        chunk::<V>(b, i),
        o,
    ) by {
        lemma_encoded_chunk(s, o, i);
        assert(i * w + w <= s.len() * w) by (nonlinear_arith)
            requires
                i < s.len(),
        ;
        assert(0 <= i * w) by (nonlinear_arith)
            requires
                0 <= i,
        ;
        assert(chunk::<V>(b, i) =~= e.subrange(i * w, i * w + w));
        s[i].lemma_plain(s[i]);
        lemma_ordered_round_trip(s[i].to_nat(), w, o);
    }
    assert forall|t: Seq<V>| decodes_to(encoding(s, o), o, t) implies t == s by {
        assert forall|i: int| 0 <= i < s.len() implies t[i] == s[i] by {
            assert(t[i].to_nat() == s[i].to_nat());
            t[i].lemma_plain(s[i]);
        }
        assert(t =~= s);
    }
}

impl<Index, Value: PlainValue> TaggedVec<Index, Value> {
    /// Returns the image of the container in the byte order `order`.
    pub fn encode_binary(&self, order: ByteOrder) -> (r: Vec<u8>)
        ensures
            r@ == encoding(self@, order),
    {
        let values = self.as_untagged_slice();
        let n = values.len();
        let mut out: Vec<u8> = Vec::new();
        n.put(order, &mut out);
        let mut i: usize = 0;
        while i < n
            invariant
                i <= n == self@.len(),
                values@ == self@,
                out@ == ordered_bytes(n as nat, len_width(), order) + encoded_values(
                    self@.subrange(0, i as int),
                    order,
                ),
            decreases n - i,
        {
            values[i].put(order, &mut out);
            i = i + 1;
            assert(self@.subrange(0, i as int).drop_last() =~= self@.subrange(0, i - 1));
        }
        assert(self@.subrange(0, n as int) =~= self@);
        out
    }

    /// Reads a container from its image in the byte order `order`. Bytes after the last
    /// value are not read.
    pub fn decode_binary(bytes: &[u8], order: ByteOrder) -> (r: Result<Self, CodecError>)
        ensures
            r is Ok <==> decodable::<Value>(bytes@, order),
            r is Ok ==> decodes_to(bytes@, order, r.unwrap()@),
            r is Err ==> r == Err::<Self, CodecError>(CodecError::Truncated),
    {
        let lw = <usize as PlainValue>::byte_width();
        let len = bytes.len();
        if len < lw {
            return Err(CodecError::Truncated);
        }
        let count = <usize as PlainValue>::get(bytes, 0, order);
        let w = Value::byte_width();
        proof {
            lemma_usize_width();
            Value::lemma_plain(arbitrary(), arbitrary());
        }
        if count > (len - lw) / w {
            proof {
                let c = count as int;
                let rest = (len - lw) as int;
                assert(c * w > rest) by (nonlinear_arith)
                    requires
                        c > rest / (w as int),
                        w >= 1,
                ;
            }
            return Err(CodecError::Truncated);
        }
        proof {
            let c = count as int;
            let rest = (len - lw) as int;
            assert(c * w <= rest) by (nonlinear_arith)
                requires
                    c <= rest / (w as int),
                    w >= 1,
            ;
        }
        let mut values: Vec<Value> = Vec::with_capacity(count);
        let mut i: usize = 0;
        let mut pos: usize = lw;
        while i < count
            invariant
                i <= count,
                lw == len_width(),
                w == Value::width(),
                1 <= w <= 8,
                len == bytes@.len(),
                count == stored_count(bytes@, order),
                lw + count * w <= len,
                pos == lw + i * w,
                values@.len() == i,
                forall|k: int| 0 <= k < i ==> #[trigger] values@[k].to_nat() == ordered_value(
                    chunk::<Value>(bytes@, k),
                    order,
                ),
            decreases count - i,
        {
            proof {
                assert(i * w + w <= count * w) by (nonlinear_arith)
                    requires
                        i < count,
                ;
                assert((i + 1) * w == i * w + w) by (nonlinear_arith);
            }
            let v = Value::get(bytes, pos, order);
            values.push(v);
            pos = pos + w;
            i = i + 1;
        }
        Ok(TaggedVec::from_vec(values))
    }

    /// Returns the count of bytes of the image whose first bytes are `prefix`, as its length
    /// says, or `None` when `prefix` is shorter than a length or that count is not a `usize`.
    pub fn binary_len(prefix: &[u8], order: ByteOrder) -> (r: Option<usize>)
        ensures
            prefix@.len() < len_width() ==> r is None,
            prefix@.len() >= len_width() ==> {
                let total = len_width() + stored_count(prefix@, order) * Value::width();
                &&& r is Some <==> total <= usize::MAX
                &&& r is Some ==> r.unwrap() == total
            },
    {
        let lw = <usize as PlainValue>::byte_width();
        if prefix.len() < lw {
            return None;
        }
        let count = <usize as PlainValue>::get(prefix, 0, order);
        let w = Value::byte_width();
        proof {
            lemma_usize_width();
            Value::lemma_plain(arbitrary(), arbitrary());
        }
        let room = (usize::MAX - lw) / w;
        if count > room {
            proof {
                let c = count as int;
                let m = (usize::MAX - lw) as int;
                assert(c * w > m) by (nonlinear_arith)
                    requires
                        c > m / (w as int),
                        w >= 1,
                ;
            }
            None
        } else {
            proof {
                let c = count as int;
                let m = (usize::MAX - lw) as int;
                assert(c * w <= m) by (nonlinear_arith)
                    requires
                        c <= m / (w as int),
                        w >= 1,
                ;
            }
            Some(lw + count * w)
        }
    }

    /// Returns the image of the container in the byte order of this machine.
    pub fn write_binary(&self) -> (r: Vec<u8>)
        ensures
            exists|o: ByteOrder| r@ == encoding(self@, o),
    {
        self.encode_binary(native_byte_order())
    }

    /// Reads a container from an image in the byte order of this machine.
    pub fn read_binary(bytes: &[u8]) -> (r: Result<Self, CodecError>)
        ensures
            exists|o: ByteOrder|
                {
                    &&& r is Ok <==> decodable::<Value>(bytes@, o)
                    &&& r is Ok ==> decodes_to(bytes@, o, r.unwrap()@)
                },
            r is Err ==> r == Err::<Self, CodecError>(CodecError::Truncated),
    {
        Self::decode_binary(bytes, native_byte_order())
    }
}

} // verus!
