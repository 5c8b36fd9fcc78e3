//! Conversion between packed values and their bytes, field by field and in
//! little-endian order.

use vstd::prelude::*;

verus! {

/// The `u16` that two little-endian bytes stand for.
pub open spec fn le_u16(bytes: Seq<u8>) -> u16
    recommends
        bytes.len() == 2,
{
    (bytes[0] as int + 256 * (bytes[1] as int)) as u16
}

/// The `u32` that four little-endian bytes stand for.
pub open spec fn le_u32(bytes: Seq<u8>) -> u32
    recommends
        bytes.len() == 4,
{
    (bytes[0] as int + 256 * (bytes[1] as int) + 65536 * (bytes[2] as int) + 16777216 * (
    bytes[3] as int)) as u32
}

/// The two little-endian bytes of a `u16`.
pub open spec fn u16_le(x: u16) -> Seq<u8> {
    seq![(x as int % 256) as u8, (x as int / 256) as u8]
}

/// The four little-endian bytes of a `u32`.
pub open spec fn u32_le(x: u32) -> Seq<u8> {
    seq![
        (x as int % 256) as u8,
        (x as int / 256 % 256) as u8,
        (x as int / 65536 % 256) as u8,
        (x as int / 16777216) as u8,
    ]
}

/// Reading the little-endian bytes of a `u16` gives the number back.
pub proof fn lemma_u16_round_trip(x: u16)
    ensures
        u16_le(x).len() == 2,
        le_u16(u16_le(x)) == x,
{
}

/// Reading the little-endian bytes of a `u32` gives the number back.
pub proof fn lemma_u32_round_trip(x: u32)
    ensures
        u32_le(x).len() == 4,
        le_u32(u32_le(x)) == x,
{
    let n = x as int;
    let b0 = n % 256;
    let b1 = n / 256 % 256;
    let b2 = n / 65536 % 256;
    let b3 = n / 16777216;
    assert(n / 256 == b1 + 256 * (n / 65536));
    assert(n / 65536 == b2 + 256 * (n / 16777216));
    assert(n == b0 + 256 * b1 + 65536 * b2 + 16777216 * b3);
}

/// Writing the `u16` that two bytes stand for gives the bytes back.
pub proof fn lemma_u16_bytes_round_trip(b: Seq<u8>)
    requires
        b.len() == 2,
    ensures
        u16_le(le_u16(b)) == b,
{
    assert(u16_le(le_u16(b)) =~= b);
}

/// Writing the `u32` that four bytes stand for gives the bytes back.
pub proof fn lemma_u32_bytes_round_trip(b: Seq<u8>)
    requires
        b.len() == 4,
    ensures
        u32_le(le_u32(b)) == b,
{
    let n = b[0] as int + 256 * (b[1] as int) + 65536 * (b[2] as int) + 16777216 * (b[3] as int);
    assert(n % 256 == b[0] as int);
    assert(n / 256 == b[1] as int + 256 * (b[2] as int) + 65536 * (b[3] as int));
    assert(n / 65536 == b[2] as int + 256 * (b[3] as int));
    assert(n / 16777216 == b[3] as int);
    assert(u32_le(le_u32(b)) =~= b);
}

/// Reads a little-endian `u16` at `at`.
pub fn read_u16(buf: &[u8], at: usize) -> (x: u16)
    requires
        at + 2 <= buf@.len(),
    ensures
        x == le_u16(buf@.subrange(at as int, at + 2)),
{
    let lo: u16 = buf[at] as u16;
    let hi: u16 = buf[at + 1] as u16;
    lo + 256 * hi
}

/// Reads a little-endian `u32` at `at`.
pub fn read_u32(buf: &[u8], at: usize) -> (x: u32)
    requires
        at + 4 <= buf@.len(),
    ensures
        x == le_u32(buf@.subrange(at as int, at + 4)),
{
    let b0: u32 = buf[at] as u32;
    let b1: u32 = buf[at + 1] as u32;
    let b2: u32 = buf[at + 2] as u32;
    let b3: u32 = buf[at + 3] as u32;
    b0 + 256 * b1 + 65536 * b2 + 16777216 * b3
}

/// Appends the little-endian bytes of a `u16`.
pub fn write_u16(out: &mut Vec<u8>, x: u16)
    ensures
        final(out)@ == old(out)@ + u16_le(x),
{
    out.push((x % 256) as u8);
    out.push((x / 256) as u8);
    assert(out@ =~= old(out)@ + u16_le(x));
}

/// Appends the little-endian bytes of a `u32`.
pub fn write_u32(out: &mut Vec<u8>, x: u32)
    ensures
        final(out)@ == old(out)@ + u32_le(x),
{
    out.push((x % 256) as u8);
    out.push((x / 256 % 256) as u8);
    out.push((x / 65536 % 256) as u8);
    out.push((x / 16777216) as u8);
    assert(out@ =~= old(out)@ + u32_le(x));
}

/// Reads the `N` bytes that start at `at`.
pub fn read_array<const N: usize>(buf: &[u8], at: usize) -> (cell: [u8; N])
    requires
        at + N <= buf@.len(),
    ensures
        cell@ == buf@.subrange(at as int, at + N),
{
    let mut cell: [u8; N] = [0u8; N];
    let len: usize = buf.len();
    let mut i: usize = 0;
    while i < N
        invariant
            i <= N,
            len == buf@.len(),
            at + N <= len,
            cell@.len() == N,
            forall|j: int| 0 <= j < i ==> cell@[j] == buf@[at + j],
        decreases N - i,
    {
        cell[i] = buf[at + i];
        i = i + 1;
    }
    assert(cell@ =~= buf@.subrange(at as int, at + N));
    cell
}

/// Appends the bytes of `cell`.
pub fn write_array<const N: usize>(out: &mut Vec<u8>, cell: &[u8; N])
    ensures
        final(out)@ == old(out)@ + cell@,
{
    out.extend_from_slice(cell.as_slice());
}

/// A value with a fixed packed layout on the wire.
pub trait Packed: Sized {
    /// The number of bytes of the layout.
    spec fn packed_len() -> nat;

    /// The bytes of a value.
    spec fn packed(&self) -> Seq<u8>;

    /// The value that the bytes of a layout stand for.
    spec fn unpacked(bytes: Seq<u8>) -> Self;

    /// A value's bytes fill the layout and stand for that value.
    proof fn lemma_packed(&self)
        ensures
            self.packed().len() == Self::packed_len(),
            Self::unpacked(self.packed()) == *self,
    ;

    /// The bytes of a layout are the bytes of the value they stand for.
    proof fn lemma_unpacked(bytes: Seq<u8>)
        requires
            bytes.len() == Self::packed_len(),
        ensures
            Self::unpacked(bytes).packed() == bytes,
    ;

    /// The number of bytes of the layout.
    fn size() -> (n: usize)
        ensures
            n == Self::packed_len(),
    ;

    /// Writes the value out.
    fn pack(&self) -> (bytes: Vec<u8>)
        ensures
            bytes@ == self.packed(),
    ;

    /// Reads a value from the bytes of a layout.
    fn unpack(buf: &[u8]) -> (value: Self)
        requires
            buf@.len() == Self::packed_len(),
        ensures
            value == Self::unpacked(buf@),
    ;
}

/// The packed bytes of `s`: exactly as many as its layout has.
pub fn serialize<T: Packed>(s: &T) -> (bytes: Vec<u8>)
    ensures
        bytes@ == s.packed(),
        bytes@.len() == T::packed_len(),
{
    proof {
        s.lemma_packed();
    }
    s.pack()
}

/// The value that `buf` stands for, when `buf` has exactly the length of the
/// layout; otherwise nothing.
pub fn deserialize<T: Packed>(buf: &[u8]) -> (value: Option<T>)
    ensures
        buf@.len() == T::packed_len() ==> value == Some(T::unpacked(buf@)),
        buf@.len() != T::packed_len() ==> value.is_none(),
{
    if T::size() != buf.len() {
        return None;
    }
    Some(T::unpack(buf))
}

/// Writing a value out and reading it back gives the value, and reading bytes
/// of the right length and writing the value out gives the bytes.
pub proof fn lemma_serialize_round_trip<T: Packed>(value: T, bytes: Seq<u8>)
    ensures
        T::unpacked(value.packed()) == value,
        value.packed().len() == T::packed_len(),
        bytes.len() == T::packed_len() ==> T::unpacked(bytes).packed() == bytes,
{
    value.lemma_packed();
    if bytes.len() == T::packed_len() {
        T::lemma_unpacked(bytes);
    }
}

/// The array that holds the `N` bytes of `bytes`.
pub open spec fn array_of<const N: usize>(bytes: Seq<u8>) -> [u8; N] {
    choose|a: [u8; N]| a@ == bytes
}

/// An array is the array of its bytes.
pub proof fn lemma_array_of<const N: usize>(a: [u8; N])
    ensures
        array_of::<N>(a@) == a,
{
    let b = array_of::<N>(a@);
    assert(b@ == a@);
    assert(b@ =~= a@);
}

/// `N` bytes are the bytes of their array.
pub proof fn lemma_seq_of<const N: usize>(bytes: Seq<u8>)
    requires
        bytes.len() == N,
    ensures
        array_of::<N>(bytes)@ == bytes,
        forall|a: [u8; N]| a@ == bytes ==> a == array_of::<N>(bytes),
{
    let witness = witness_array::<N>(bytes);
    assert(witness@ == bytes);
    assert forall|a: [u8; N]| a@ == bytes implies a == array_of::<N>(bytes) by {
        assert(a@ =~= array_of::<N>(bytes)@);
    }
}

/// Some array with the given bytes.
pub proof fn witness_array<const N: usize>(bytes: Seq<u8>) -> (a: [u8; N])
    requires
        bytes.len() == N,
    ensures
        a@ == bytes,
    decreases bytes.len(),
{
    let zero: [u8; N] = vstd::array::spec_array_fill_for_copy_type::<u8, N>(0u8);
    fill_from::<N>(zero, bytes, 0)
}

/// The array `a` with the bytes of `bytes` from `from` on in their places.
proof fn fill_from<const N: usize>(a: [u8; N], bytes: Seq<u8>, from: int) -> (r: [u8; N])
    requires
        bytes.len() == N,
        0 <= from <= N,
        forall|i: int| 0 <= i < from ==> a@[i] == bytes[i],
    ensures
        r@ == bytes,
    decreases N - from,
{
    if from == N {
        assert(a@ =~= bytes);
        a
    } else {
        let next = vstd::array::spec_array_update(a, from, bytes[from]);
        fill_from::<N>(next, bytes, from + 1)
    }
}

} // verus!
