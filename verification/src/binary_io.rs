//! Binary serialization primitives: the `ToBytes` / `FromBytes` contract that
//! every wire entity implements, and little-endian integer codecs.

use vstd::prelude::*;

verus! {

/// Serialization into bytes.
pub trait ToBytes {
    /// The exact byte sequence this value serializes to.
    spec fn to_bytes_spec(&self) -> Seq<u8>;

    /// Serialize into bytes.
    fn to_bytes(&self) -> (r: Vec<u8>)
        ensures
            r@ == self.to_bytes_spec(),
    ;
}

/// De-serialization from bytes, or `None` if de-serialization failed.
///
/// Decoding tolerates a buffer longer than required (trailing bytes are
/// ignored) and rejects a buffer shorter than required.
pub trait FromBytes<Output: View>: Sized {
    /// What decoding yields, as a value of the mathematical model, on any
    /// byte sequence whatsoever.
    spec fn from_bytes_spec(bytes: Seq<u8>) -> Option<<Output as View>::V>;

    /// De-serialize from bytes, or return `None` if de-serialization failed.
    fn from_bytes(bytes: &[u8]) -> (r: Option<Output>)
        ensures
            match r {
                Some(v) => Self::from_bytes_spec(bytes@) == Some(v@),
                None => Self::from_bytes_spec(bytes@) is None,
            },
    ;
}

/// The two little-endian bytes of a `u16`.
pub open spec fn u16_le_bytes(n: u16) -> Seq<u8> {
    seq![(n & 0xff) as u8, ((n >> 8) & 0xff) as u8]
}

/// The `u16` whose little-endian bytes are the first two of `b`.
pub open spec fn u16_from_le(b: Seq<u8>) -> u16
    recommends
        b.len() >= 2,
{
    ((b[0] as u16) | ((b[1] as u16) << 8)) as u16
}

/// The `u32` whose little-endian bytes are the first four of `b`.
pub open spec fn u32_from_le(b: Seq<u8>) -> u32
    recommends
        b.len() >= 4,
{
    ((b[0] as u32) | ((b[1] as u32) << 8) | ((b[2] as u32) << 16) | ((b[3] as u32) << 24)) as u32
}

/// The eight little-endian bytes of a `u64`.
pub open spec fn u64_le_bytes(n: u64) -> Seq<u8> {
    seq![
        (n & 0xff) as u8,
        ((n >> 8) & 0xff) as u8,
        ((n >> 16) & 0xff) as u8,
        ((n >> 24) & 0xff) as u8,
        ((n >> 32) & 0xff) as u8,
        ((n >> 40) & 0xff) as u8,
        ((n >> 48) & 0xff) as u8,
        ((n >> 56) & 0xff) as u8,
    ]
}

/// The `u64` whose little-endian bytes are the first eight of `b`.
pub open spec fn u64_from_le(b: Seq<u8>) -> u64
    recommends
        b.len() >= 8,
{
    ((b[0] as u64) | ((b[1] as u64) << 8) | ((b[2] as u64) << 16) | ((b[3] as u64) << 24)
        | ((b[4] as u64) << 32) | ((b[5] as u64) << 40) | ((b[6] as u64) << 48)
        | ((b[7] as u64) << 56)) as u64
}

/// Safely cast `[u8; 2]` to `u16`, little-endian.
pub fn array_to_u16(array: &[u8; 2]) -> (r: u16)
    ensures
        r == u16_from_le(array@),
{
    (array[0] as u16) | ((array[1] as u16) << 8)
}

/// Safely cast `u16` to `[u8; 2]`, little-endian.
pub fn u16_to_array(num: u16) -> (r: [u8; 2])
    ensures
        r@ == u16_le_bytes(num),
{
    let r: [u8; 2] = [(num & 0xff) as u8, ((num >> 8) & 0xff) as u8];
    proof {
        assert(r@ =~= u16_le_bytes(num));
    }
    r
}

/// Safely cast `&[u8; 4]` to `u32`, little-endian.
pub fn array_to_u32(array: &[u8; 4]) -> (r: u32)
    ensures
        r == u32_from_le(array@),
{
    (array[0] as u32) | ((array[1] as u32) << 8) | ((array[2] as u32) << 16)
        | ((array[3] as u32) << 24)
}

/// Safely cast `&[u8; 8]` to `u64`, little-endian.
pub fn array_to_u64(array: &[u8; 8]) -> (r: u64)
    ensures
        r == u64_from_le(array@),
{
    (array[0] as u64) | ((array[1] as u64) << 8) | ((array[2] as u64) << 16)
        | ((array[3] as u64) << 24) | ((array[4] as u64) << 32) | ((array[5] as u64) << 40)
        | ((array[6] as u64) << 48) | ((array[7] as u64) << 56)
}

/// Safely cast `u64` to `[u8; 8]`, little-endian.
pub fn u64_to_array(num: u64) -> (r: [u8; 8])
    ensures
        r@ == u64_le_bytes(num),
{
    let r: [u8; 8] = [
        (num & 0xff) as u8,
        ((num >> 8) & 0xff) as u8,
        ((num >> 16) & 0xff) as u8,
        ((num >> 24) & 0xff) as u8,
        ((num >> 32) & 0xff) as u8,
        ((num >> 40) & 0xff) as u8,
        ((num >> 48) & 0xff) as u8,
        ((num >> 56) & 0xff) as u8,
    ];
    proof {
        assert(r@ =~= u64_le_bytes(num));
    }
    r
}

/// A `u16` written out little-endian and read back is unchanged.
pub proof fn lemma_u16_le_round_trip(n: u16)
    ensures
        u16_from_le(u16_le_bytes(n)) == n,
{
    assert((((n & 0xff) as u8) as u16 | ((((n >> 8) & 0xff) as u8) as u16) << 8) == n)
        by (bit_vector);
}

/// A `u64` written out little-endian and read back is unchanged.
pub proof fn lemma_u64_le_round_trip(n: u64)
    ensures
        u64_from_le(u64_le_bytes(n)) == n,
{
    assert((((n & 0xff) as u8) as u64 | ((((n >> 8) & 0xff) as u8) as u64) << 8
        | ((((n >> 16) & 0xff) as u8) as u64) << 16 | ((((n >> 24) & 0xff) as u8) as u64) << 24
        | ((((n >> 32) & 0xff) as u8) as u64) << 32 | ((((n >> 40) & 0xff) as u8) as u64) << 40
        | ((((n >> 48) & 0xff) as u8) as u64) << 48 | ((((n >> 56) & 0xff) as u8) as u64) << 56)
        == n) by (bit_vector);
}

} // verus!
