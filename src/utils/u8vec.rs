use vstd::prelude::*;
use byteorder::{ByteOrder, LittleEndian};

verus! {

/// The eight little-endian bytes of `n`.
pub open spec fn le_bytes(n: u64) -> Seq<u8> {
    seq![
        (n & 0xff) as u8,
        ((n >> 8u64) & 0xff) as u8,
        ((n >> 16u64) & 0xff) as u8,
        ((n >> 24u64) & 0xff) as u8,
        ((n >> 32u64) & 0xff) as u8,
        ((n >> 40u64) & 0xff) as u8,
        ((n >> 48u64) & 0xff) as u8,
        ((n >> 56u64) & 0xff) as u8,
    ]
}

/// The number whose little-endian bytes open `s`.
pub open spec fn le_value(s: Seq<u8>) -> u64
    recommends
        s.len() >= 8,
{
    le_value8(s[0], s[1], s[2], s[3], s[4], s[5], s[6], s[7])
}

pub open spec fn le_value8(b0: u8, b1: u8, b2: u8, b3: u8, b4: u8, b5: u8, b6: u8, b7: u8) -> u64 {
    (b0 as u64) | ((b1 as u64) << 8u64) | ((b2 as u64) << 16u64) | ((b3 as u64) << 24u64) | ((
    b4 as u64) << 32u64) | ((b5 as u64) << 40u64) | ((b6 as u64) << 48u64) | ((b7 as u64)
        << 56u64)
}

/// Reading back the bytes of a number gives the number.
pub proof fn le_round_trip(n: u64)
    ensures
        le_value(le_bytes(n)) == n,
{
    let s = le_bytes(n);
    assert(le_value8(
        (n & 0xff) as u8,
        ((n >> 8u64) & 0xff) as u8,
        ((n >> 16u64) & 0xff) as u8,
        ((n >> 24u64) & 0xff) as u8,
        ((n >> 32u64) & 0xff) as u8,
        ((n >> 40u64) & 0xff) as u8,
        ((n >> 48u64) & 0xff) as u8,
        ((n >> 56u64) & 0xff) as u8,
    ) == n) by (bit_vector);
}

/// Relies on byteorder's LittleEndian::write_u64: the first eight bytes
/// become those of `n`; it panics on a shorter buffer.
#[verifier::external_body]
fn write_u64_le(buf: &mut Vec<u8>, n: u64)
    requires
        old(buf).len() == 8,
    ensures
        final(buf)@ == le_bytes(n),
{
    LittleEndian::write_u64(buf.as_mut_slice(), n)
}

/// Relies on byteorder's LittleEndian::read_u64: the number held by the
/// first eight bytes; it panics on a shorter buffer.
#[verifier::external_body]
fn read_u64_le(buf: &Vec<u8>) -> (r: u64)
    requires
        buf.len() >= 8,
    ensures
        r == le_value(buf@),
{
    LittleEndian::read_u64(buf.as_slice())
}

/// Puts the eight little-endian bytes of `num` in front of `vec`.
pub fn prepend_u64(num: u64, vec: Vec<u8>) -> (r: Vec<u8>)
    requires
        vec.len() + 8 <= usize::MAX,
    ensures
        r@ == le_bytes(num) + vec@,
{
    let mut out: Vec<u8> = vec![0u8, 0u8, 0u8, 0u8, 0u8, 0u8, 0u8, 0u8];
    write_u64_le(&mut out, num);
    let mut i: usize = 0;
    while i < vec.len()
        invariant
            0 <= i <= vec.len(),
            out@ == le_bytes(num) + vec@.take(i as int),
        decreases vec.len() - i,
    {
        out.push(vec[i]);
        i = i + 1;
        assert(vec@.take(i as int) == vec@.take(i - 1).push(vec@[i - 1]));
    }
    assert(vec@.take(vec.len() as int) == vec@);
    out
}

/// Splits off the little-endian number that opens `vec`.
pub fn extract_u64_head(vec: Vec<u8>) -> (r: (u64, Vec<u8>))
    requires
        vec.len() >= 8,
    ensures
        r.0 == le_value(vec@),
        r.1@ == vec@.skip(8),
{
    let num = read_u64_le(&vec);
    let mut rest: Vec<u8> = Vec::new();
    let mut i: usize = 8;
    while i < vec.len()
        invariant
            8 <= i <= vec.len(),
            rest@ == vec@.subrange(8, i as int),
        decreases vec.len() - i,
    {
        rest.push(vec[i]);
        i = i + 1;
        assert(vec@.subrange(8, i as int) == vec@.subrange(8, i - 1).push(vec@[i - 1]));
    }
    (num, rest)
}

/// A number put in front of some bytes is split off again unchanged.
pub proof fn prepend_extract_round_trip(num: u64, tail: Seq<u8>)
    ensures
        le_value(le_bytes(num) + tail) == num,
        (le_bytes(num) + tail).skip(8) == tail,
{
    le_round_trip(num);
    let s = le_bytes(num) + tail;
    assert(s.skip(8) == tail);
    assert(s.take(8) == le_bytes(num));
    assert(le_value(s) == le_value(le_bytes(num)));
}

} // verus!
