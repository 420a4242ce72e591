//! CRC-32C checksums, and what they notice.

use vstd::prelude::*;

verus! {

/// One bit of the division by the Castagnoli polynomial, least significant
/// bit first.
pub open spec fn crc_bit(c: u32) -> u32 {
    if c & 1 == 1 {
        (c >> 1) ^ 0x82f6_3b78
    } else {
        c >> 1
    }
}

/// One byte of the division.
pub open spec fn crc_byte(c: u32, b: u8) -> u32 {
    crc_bit(crc_bit(crc_bit(crc_bit(crc_bit(crc_bit(crc_bit(crc_bit(c ^ b as u32))))))))
}

/// The remainder after some bytes, of all ones before them.
pub open spec fn remainder(b: Seq<u8>) -> u32
    decreases b.len(),
{
    if b.len() == 0 {
        0xffff_ffff
    } else {
        crc_byte(remainder(b.drop_last()), b.last())
    }
}

/// The CRC-32C checksum of bytes: the inverted remainder.
pub open spec fn crc32c_of(b: Seq<u8>) -> u32 {
    remainder(b) ^ 0xffff_ffff
}

/// `crc32c::crc32c`: the CRC-32C (Castagnoli) checksum of the bytes.
#[verifier::external_body]
pub(crate) fn checksum(b: &[u8]) -> (r: u32)
    ensures
        r == crc32c_of(b@),
{
    crc32c::crc32c(b)
}

proof fn bits_are_told_apart(c: u32, d: u32)
    ensures
        crc_bit(c) == crc_bit(d) ==> c == d,
{
    assert(crc_bit(c) == crc_bit(d) ==> c == d) by (bit_vector);
}

proof fn words_are_told_apart(c: u32, d: u32)
    requires
        c != d,
    ensures
        crc_bit(crc_bit(crc_bit(crc_bit(crc_bit(crc_bit(crc_bit(crc_bit(c)))))))) != crc_bit(
            crc_bit(crc_bit(crc_bit(crc_bit(crc_bit(crc_bit(crc_bit(d))))))),
        ),
{
    let c1 = crc_bit(c);
    let d1 = crc_bit(d);
    bits_are_told_apart(c, d);
    let c2 = crc_bit(c1);
    let d2 = crc_bit(d1);
    bits_are_told_apart(c1, d1);
    let c3 = crc_bit(c2);
    let d3 = crc_bit(d2);
    bits_are_told_apart(c2, d2);
    let c4 = crc_bit(c3);
    let d4 = crc_bit(d3);
    bits_are_told_apart(c3, d3);
    let c5 = crc_bit(c4);
    let d5 = crc_bit(d4);
    bits_are_told_apart(c4, d4);
    let c6 = crc_bit(c5);
    let d6 = crc_bit(d5);
    bits_are_told_apart(c5, d5);
    let c7 = crc_bit(c6);
    let d7 = crc_bit(d6);
    bits_are_told_apart(c6, d6);
    bits_are_told_apart(c7, d7);
}

proof fn remainders_differ(b: Seq<u8>, i: int, x: u8)
    requires
        0 <= i < b.len(),
        b[i] != x,
    ensures
        remainder(b.update(i, x)) != remainder(b),
    decreases b.len(),
{
    let c = b.update(i, x);
    let p = remainder(b.drop_last());
    let q = remainder(c.drop_last());
    let y = b.last();
    let z = c.last();
    if i == b.len() - 1 {
        assert(c.drop_last() =~= b.drop_last());
        assert(y != z ==> p ^ y as u32 != p ^ z as u32) by (bit_vector);
    } else {
        assert(c.drop_last() =~= b.drop_last().update(i, x));
        remainders_differ(b.drop_last(), i, x);
        assert(p != q ==> p ^ y as u32 != q ^ y as u32) by (bit_vector);
    }
    words_are_told_apart(p ^ y as u32, q ^ z as u32);
}

/// Bytes with one of them changed have another checksum.
pub proof fn a_changed_byte_is_noticed(b: Seq<u8>, i: int, x: u8)
    requires
        0 <= i < b.len(),
        b[i] != x,
    ensures
        crc32c_of(b.update(i, x)) != crc32c_of(b),
{
    remainders_differ(b, i, x);
    let p = remainder(b);
    let q = remainder(b.update(i, x));
    assert(p != q ==> p ^ 0xffff_ffff != q ^ 0xffff_ffff) by (bit_vector);
}

} // verus!
