//! Unsigned integers as fixed-width runs of bytes, in either byte order.
use vstd::prelude::*;

verus! {

/// The order of the bytes of an integer.
#[derive(Clone, Copy, Debug, PartialEq, Eq)]
pub enum ByteOrder {
    /// Least significant byte first.
    Little,
    /// Most significant byte first.
    Big,
}

/// `256` to the power `n`.
pub open spec fn pow256(n: nat) -> nat
    decreases n,
{
    if n == 0 {
        1
    } else {
        256 * pow256((n - 1) as nat)
    }
}

/// The `n` lowest base-256 digits of `x`, least significant first.
pub open spec fn le_bytes(x: nat, n: nat) -> Seq<u8>
    decreases n,
{
    if n == 0 {
        Seq::empty()
    } else {
        seq![(x % 256) as u8] + le_bytes(x / 256, (n - 1) as nat)
    }
}

/// The number whose base-256 digits, least significant first, are `b`.
pub open spec fn le_value(b: Seq<u8>) -> nat
    decreases b.len(),
{
    if b.len() == 0 {
        0
    } else {
        b[0] as nat + 256 * le_value(b.drop_first())
    }
}

/// `s` back to front.
pub open spec fn reversed(s: Seq<u8>) -> Seq<u8> {
    Seq::new(s.len(), |i: int| s[s.len() - 1 - i])
}

/// The `n` lowest bytes of `x` in the byte order `o`.
pub open spec fn ordered_bytes(x: nat, n: nat, o: ByteOrder) -> Seq<u8> {
    match o {
        ByteOrder::Little => le_bytes(x, n),
        ByteOrder::Big => reversed(le_bytes(x, n)),
    }
}

/// The number that the bytes `b` stand for in the byte order `o`.
pub open spec fn ordered_value(b: Seq<u8>, o: ByteOrder) -> nat {
    match o {
        ByteOrder::Little => le_value(b),
        ByteOrder::Big => le_value(reversed(b)),
    }
}

pub proof fn lemma_pow256_values()
    ensures
        pow256(1) == 0x100,
        pow256(2) == 0x1_0000,
        pow256(4) == 0x1_0000_0000,
        pow256(8) == 0x1_0000_0000_0000_0000,
{
    reveal_with_fuel(pow256, 9);
}

proof fn lemma_pow256_monotone(a: nat, b: nat)
    requires
        a <= b,
    ensures
        pow256(a) <= pow256(b),
    decreases b,
{
    if a < b {
        lemma_pow256_monotone(a, (b - 1) as nat);
    }
}

proof fn lemma_le_bytes_len(x: nat, n: nat)
    ensures
        le_bytes(x, n).len() == n,
    decreases n,
{
    if n > 0 {
        lemma_le_bytes_len(x / 256, (n - 1) as nat);
    }
}

proof fn lemma_le_round_trip(x: nat, n: nat)
    requires
        x < pow256(n),
    ensures
        le_value(le_bytes(x, n)) == x,
    decreases n,
{
    lemma_le_bytes_len(x, n);
    if n > 0 {
        let b = le_bytes(x, n);
        let m = (n - 1) as nat;
        assert(b.drop_first() =~= le_bytes(x / 256, m));
        let p = pow256(m);
        assert(x / 256 < p) by (nonlinear_arith)
            requires
                x < 256 * p,
        ;
        lemma_le_round_trip(x / 256, m);
        assert(x == x % 256 + 256 * (x / 256)) by (nonlinear_arith);
    }
}

proof fn lemma_le_value_bound(b: Seq<u8>)
    ensures
        le_value(b) < pow256(b.len()),
    decreases b.len(),
{
    if b.len() > 0 {
        let rest = b.drop_first();
        lemma_le_value_bound(rest);
        let v = le_value(rest);
        let p = pow256(rest.len());
        let d = b[0] as nat;
        assert(d + 256 * v < 256 * p) by (nonlinear_arith)
            requires
                d < 256,
                v < p,
        ;
    }
}

/// Writing `x` in `n` bytes and reading them back in the same order gives `x`.
pub proof fn lemma_ordered_round_trip(x: nat, n: nat, o: ByteOrder)
    requires
        x < pow256(n),
    ensures
        ordered_bytes(x, n, o).len() == n,
        ordered_value(ordered_bytes(x, n, o), o) == x,
{
    lemma_le_bytes_len(x, n);
    lemma_le_round_trip(x, n);
    let b = le_bytes(x, n);
    assert(reversed(reversed(b)) =~= b);
}

/// What `n` bytes stand for is below `256` to the power `n`.
pub proof fn lemma_ordered_value_bound(b: Seq<u8>, o: ByteOrder)
    ensures
        ordered_value(b, o) < pow256(b.len()),
{
    lemma_le_value_bound(b);
    lemma_le_value_bound(reversed(b));
}

/// Appends the `n` lowest bytes of `x` to `out` in the byte order `order`.
pub fn put_bytes(x: u64, n: usize, order: ByteOrder, out: &mut Vec<u8>)
    ensures
        final(out)@ == old(out)@ + ordered_bytes(x as nat, n as nat, order),
{
    let mut le: Vec<u8> = Vec::with_capacity(n);
    let mut y: u64 = x;
    let mut i: usize = 0;
    while i < n
        invariant
            i <= n,
            le@.len() == i,
            le@ + le_bytes(y as nat, (n - i) as nat) == le_bytes(x as nat, n as nat),
        decreases n - i,
    {
        let ghost before = le@;
        let ghost yv = y as nat;
        let ghost rest = le_bytes(yv / 256, (n - i - 1) as nat);
        assert(le_bytes(yv, (n - i) as nat) == seq![(yv % 256) as u8] + rest);
        le.push((y % 256) as u8);
        y = y / 256;
        i = i + 1;
        assert(le@ == before.push((yv % 256) as u8));
        assert(le@ + rest =~= before + (seq![(yv % 256) as u8] + rest));
    }
    proof {
        assert(le@ =~= le_bytes(x as nat, n as nat));
    }
    let ghost start = out@;
    let mut j: usize = 0;
    while j < n
        invariant
            j <= n,
            le@.len() == n,
            le@ == le_bytes(x as nat, n as nat),
            out@ == start + ordered_bytes(x as nat, n as nat, order).subrange(0, j as int),
        decreases n - j,
    {
        let k = match order {
            ByteOrder::Little => j,
            ByteOrder::Big => n - 1 - j,
        };
        out.push(le[k]);
        j = j + 1;
        assert(out@ =~= start + ordered_bytes(x as nat, n as nat, order).subrange(0, j as int));
    }
    assert(ordered_bytes(x as nat, n as nat, order).subrange(0, n as int) =~= ordered_bytes(
        x as nat,
        n as nat,
        order,
    ));
}

/// Reads the `n` bytes of `b` from `start` on as a number in the byte order `order`.
pub fn get_bytes(b: &[u8], start: usize, n: usize, order: ByteOrder) -> (r: u64)
    requires
        n <= 8,
        start + n <= b@.len(),
    ensures
        r as nat == ordered_value(b@.subrange(start as int, start + n), order),
{
    let ghost sub = b@.subrange(start as int, start + n);
    let ghost le = match order {
        ByteOrder::Little => sub,
        ByteOrder::Big => reversed(sub),
    };
    proof {
        lemma_pow256_values();
        lemma_pow256_monotone(n as nat, 8);
    }
    let len = b.len();
    let mut acc: u64 = 0;
    let mut i: usize = n;
    while i > 0
        invariant
            i <= n <= 8,
            start + n <= b@.len() == len,
            sub == b@.subrange(start as int, start + n),
            le.len() == n,
            forall|k: int| 0 <= k < n ==> le[k] == (match order {
                ByteOrder::Little => b@[start + k],
                ByteOrder::Big => b@[start + n - 1 - k],
            }),
            acc as nat == le_value(le.subrange(i as int, n as int)),
            pow256(8) == 0x1_0000_0000_0000_0000,
        decreases i,
    {
        i = i - 1;
        let byte = match order {
            ByteOrder::Little => b[start + i],
            ByteOrder::Big => b[start + n - 1 - i],
        };
        let ghost tail = le.subrange(i + 1, n as int);
        proof {
            lemma_le_value_bound(tail);
            lemma_pow256_monotone(tail.len(), 7);
            assert(pow256(8) == 256 * pow256(7));
            let a = acc as nat;
            let p7 = pow256(7);
            assert(a * 256 + 255 < 256 * p7) by (nonlinear_arith)
                requires
                    a < p7,
            ;
            assert(le.subrange(i as int, n as int).drop_first() =~= tail);
        }
        acc = acc * 256 + byte as u64;
    }
    proof {
        assert(le.subrange(0, n as int) =~= le);
        if order == ByteOrder::Big {
            assert(reversed(sub) =~= le);
        }
    }
    acc
}

/// A value that is stored as an unsigned number of a fixed count of bytes.
pub trait PlainValue: Copy + Sized {
    /// The count of bytes of one value.
    spec fn width() -> nat;

    /// The number that a value stands for.
    spec fn to_nat(self) -> nat;

    /// The width is one to eight bytes, a value fits in it, and two values that stand for the
    /// same number are the same value.
    proof fn lemma_plain(self, other: Self)
        ensures
            1 <= Self::width() <= 8,
            self.to_nat() < pow256(Self::width()),
            self.to_nat() == other.to_nat() ==> self == other,
    ;

    /// Returns the count of bytes of one value.
    fn byte_width() -> (r: usize)
        ensures
            r == Self::width(),
    ;

    /// Appends the bytes of the value to `out` in the byte order `order`.
    fn put(&self, order: ByteOrder, out: &mut Vec<u8>)
        ensures
            final(out)@ == old(out)@ + ordered_bytes(self.to_nat(), Self::width(), order),
    ;

    /// Reads a value from the bytes of `b` from `start` on, in the byte order `order`.
    fn get(b: &[u8], start: usize, order: ByteOrder) -> (r: Self)
        requires
            start + Self::width() <= b@.len(),
        ensures
            r.to_nat() == ordered_value(b@.subrange(start as int, start + Self::width()), order),
    ;
}

impl PlainValue for u8 {
    open spec fn width() -> nat {
        1
    }

    open spec fn to_nat(self) -> nat {
        self as nat
    }

    proof fn lemma_plain(self, other: Self) {
        lemma_pow256_values();
    }

    fn byte_width() -> (r: usize) {
        1
    }

    fn put(&self, order: ByteOrder, out: &mut Vec<u8>) {
        put_bytes(*self as u64, 1, order, out);
    }

    fn get(b: &[u8], start: usize, order: ByteOrder) -> (r: Self) {
        proof {
            lemma_pow256_values();
            lemma_ordered_value_bound(b@.subrange(start as int, start + 1), order);
        }
        get_bytes(b, start, 1, order) as u8
    }
}

impl PlainValue for u16 {
    open spec fn width() -> nat {
        2
    }

    open spec fn to_nat(self) -> nat {
        self as nat
    }

    proof fn lemma_plain(self, other: Self) {
        lemma_pow256_values();
    }

    fn byte_width() -> (r: usize) {
        2
    }

    fn put(&self, order: ByteOrder, out: &mut Vec<u8>) {
        put_bytes(*self as u64, 2, order, out);
    }

    fn get(b: &[u8], start: usize, order: ByteOrder) -> (r: Self) {
        proof {
            lemma_pow256_values();
            lemma_ordered_value_bound(b@.subrange(start as int, start + 2), order);
        }
        get_bytes(b, start, 2, order) as u16
    }
}

impl PlainValue for u32 {
    open spec fn width() -> nat {
        4
    }

    open spec fn to_nat(self) -> nat {
        self as nat
    }

    proof fn lemma_plain(self, other: Self) {
        lemma_pow256_values();
    }

    fn byte_width() -> (r: usize) {
        4
    }

    fn put(&self, order: ByteOrder, out: &mut Vec<u8>) {
        put_bytes(*self as u64, 4, order, out);
    }

    fn get(b: &[u8], start: usize, order: ByteOrder) -> (r: Self) {
        proof {
            lemma_pow256_values();
            lemma_ordered_value_bound(b@.subrange(start as int, start + 4), order);
        }
        get_bytes(b, start, 4, order) as u32
    }
}

impl PlainValue for u64 {
    open spec fn width() -> nat {
        8
    }

    open spec fn to_nat(self) -> nat {
        self as nat
    }

    proof fn lemma_plain(self, other: Self) {
        lemma_pow256_values();
    }

    fn byte_width() -> (r: usize) {
        8
    }

    fn put(&self, order: ByteOrder, out: &mut Vec<u8>) {
        put_bytes(*self, 8, order, out);
    }

    fn get(b: &[u8], start: usize, order: ByteOrder) -> (r: Self) {
        get_bytes(b, start, 8, order)
    }
}

/// The count of bytes of a `usize` on this machine is four or eight, and every `usize`
/// fits in that many bytes.
pub proof fn lemma_usize_width()
    ensures
        vstd::layout::size_of::<usize>() == 4 || vstd::layout::size_of::<usize>() == 8,
        usize::MAX + 1 == pow256(vstd::layout::size_of::<usize>()),
{
    broadcast use vstd::layout::layout_of_primitives;

    lemma_pow256_values();
    vstd::layout::unsigned_int_max_values();
    reveal_with_fuel(vstd::arithmetic::power::pow, 9);
}

impl PlainValue for usize {
    open spec fn width() -> nat {
        vstd::layout::size_of::<usize>()
    }

    open spec fn to_nat(self) -> nat {
        self as nat
    }

    proof fn lemma_plain(self, other: Self) {
        lemma_usize_width();
    }

    fn byte_width() -> (r: usize) {
        core::mem::size_of::<usize>()
    }

    fn put(&self, order: ByteOrder, out: &mut Vec<u8>) {
        proof {
            lemma_usize_width();
        }
        put_bytes(*self as u64, core::mem::size_of::<usize>(), order, out);
    }

    fn get(b: &[u8], start: usize, order: ByteOrder) -> (r: Self) {
        proof {
            lemma_usize_width();
            lemma_ordered_value_bound(
                b@.subrange(start as int, start + vstd::layout::size_of::<usize>()),
                order,
            );
        }
        get_bytes(b, start, core::mem::size_of::<usize>(), order) as usize
    }
}

/// A signed value is stored as the unsigned value of the same width with the same bits.
impl PlainValue for i8 {
    open spec fn width() -> nat {
        1
    }

    open spec fn to_nat(self) -> nat {
        self as u8 as nat
    }

    proof fn lemma_plain(self, other: Self) {
        lemma_pow256_values();
        assert((self as u8) == (other as u8) ==> self == other) by (bit_vector);
    }

    fn byte_width() -> (r: usize) {
        1
    }

    fn put(&self, order: ByteOrder, out: &mut Vec<u8>) {
        put_bytes(*self as u8 as u64, 1, order, out);
    }

    fn get(b: &[u8], start: usize, order: ByteOrder) -> (r: Self) {
        proof {
            lemma_pow256_values();
            lemma_ordered_value_bound(b@.subrange(start as int, start + 1), order);
        }
        let u = get_bytes(b, start, 1, order) as u8;
        assert(u as i8 as u8 == u) by (bit_vector);
        u as i8
    }
}

impl PlainValue for i16 {
    open spec fn width() -> nat {
        2
    }

    open spec fn to_nat(self) -> nat {
        self as u16 as nat
    }

    proof fn lemma_plain(self, other: Self) {
        lemma_pow256_values();
        assert((self as u16) == (other as u16) ==> self == other) by (bit_vector);
    }

    fn byte_width() -> (r: usize) {
        2
    }

    fn put(&self, order: ByteOrder, out: &mut Vec<u8>) {
        put_bytes(*self as u16 as u64, 2, order, out);
    }

    fn get(b: &[u8], start: usize, order: ByteOrder) -> (r: Self) {
        proof {
            lemma_pow256_values();
            lemma_ordered_value_bound(b@.subrange(start as int, start + 2), order);
        }
        let u = get_bytes(b, start, 2, order) as u16;
        assert(u as i16 as u16 == u) by (bit_vector);
        u as i16
    }
}

impl PlainValue for i32 {
    open spec fn width() -> nat {
        4
    }

    open spec fn to_nat(self) -> nat {
        self as u32 as nat
    }

    proof fn lemma_plain(self, other: Self) {
        lemma_pow256_values();
        assert((self as u32) == (other as u32) ==> self == other) by (bit_vector);
    }

    fn byte_width() -> (r: usize) {
        4
    }

    fn put(&self, order: ByteOrder, out: &mut Vec<u8>) {
        put_bytes(*self as u32 as u64, 4, order, out);
    }

    fn get(b: &[u8], start: usize, order: ByteOrder) -> (r: Self) {
        proof {
            lemma_pow256_values();
            lemma_ordered_value_bound(b@.subrange(start as int, start + 4), order);
        }
        let u = get_bytes(b, start, 4, order) as u32;
        assert(u as i32 as u32 == u) by (bit_vector);
        u as i32
    }
}

impl PlainValue for i64 {
    open spec fn width() -> nat {
        8
    }

    open spec fn to_nat(self) -> nat {
        self as u64 as nat
    }

    proof fn lemma_plain(self, other: Self) {
        lemma_pow256_values();
        assert((self as u64) == (other as u64) ==> self == other) by (bit_vector);
    }

    fn byte_width() -> (r: usize) {
        8
    }

    fn put(&self, order: ByteOrder, out: &mut Vec<u8>) {
        put_bytes(*self as u64 as u64, 8, order, out);
    }

    fn get(b: &[u8], start: usize, order: ByteOrder) -> (r: Self) {
        proof {
            lemma_pow256_values();
            lemma_ordered_value_bound(b@.subrange(start as int, start + 8), order);
        }
        let u = get_bytes(b, start, 8, order) as u64;
        assert(u as i64 as u64 == u) by (bit_vector);
        u as i64
    }
}

impl PlainValue for isize {
    open spec fn width() -> nat {
        vstd::layout::size_of::<usize>()
    }

    open spec fn to_nat(self) -> nat {
        self as usize as nat
    }

    proof fn lemma_plain(self, other: Self) {
        lemma_usize_width();
        assert((self as usize) == (other as usize) ==> self == other) by (bit_vector);
    }

    fn byte_width() -> (r: usize) {
        core::mem::size_of::<usize>()
    }

    fn put(&self, order: ByteOrder, out: &mut Vec<u8>) {
        proof {
            lemma_usize_width();
        }
        put_bytes(*self as usize as u64, core::mem::size_of::<usize>(), order, out);
    }

    fn get(b: &[u8], start: usize, order: ByteOrder) -> (r: Self) {
        proof {
            lemma_usize_width();
            lemma_ordered_value_bound(
                b@.subrange(start as int, start + vstd::layout::size_of::<usize>()),
                order,
            );
        }
        let u = get_bytes(b, start, core::mem::size_of::<usize>(), order) as usize;
        assert(u as isize as usize == u) by (bit_vector);
        u as isize
    }
}

} // verus!
