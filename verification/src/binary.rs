//! Little-endian byte encodings of the fixed-width integers that the binary
//! record formats are built from.

use vstd::prelude::*;

verus! {

/// The two little-endian bytes of `n`.
pub open spec fn u16_le_bytes(n: u16) -> Seq<u8> {
    seq![(n & 0xff) as u8, ((n >> 8) & 0xff) as u8]
}

/// The four little-endian bytes of `n`.
pub open spec fn u32_le_bytes(n: u32) -> Seq<u8> {
    seq![
        (n & 0xff) as u8,
        ((n >> 8) & 0xff) as u8,
        ((n >> 16) & 0xff) as u8,
        ((n >> 24) & 0xff) as u8,
    ]
}

/// The four little-endian bytes of `n`, two's complement.
pub open spec fn i32_le_bytes(n: i32) -> Seq<u8> {
    u32_le_bytes(n as u32)
}

/// Appends one byte.
pub fn put_u8(buf: &mut Vec<u8>, n: u8)
    ensures
        final(buf)@ == old(buf)@ + seq![n],
{
    buf.push(n);
}

/// Relies on byteorder's `WriteBytesExt::write_u16::<LittleEndian>`: it appends
/// the two little-endian bytes of `n`, and writing to a byte vector cannot fail.
#[verifier::external_body]
pub fn put_u16_le(buf: &mut Vec<u8>, n: u16)
    ensures
        final(buf)@ == old(buf)@ + u16_le_bytes(n),
{
    byteorder::WriteBytesExt::write_u16::<byteorder::LittleEndian>(buf, n)
        .expect("writing to a byte vector cannot fail");
}

/// Relies on byteorder's `WriteBytesExt::write_u32::<LittleEndian>`: it appends
/// the four little-endian bytes of `n`, and writing to a byte vector cannot fail.
#[verifier::external_body]
pub fn put_u32_le(buf: &mut Vec<u8>, n: u32)
    ensures
        final(buf)@ == old(buf)@ + u32_le_bytes(n),
{
    byteorder::WriteBytesExt::write_u32::<byteorder::LittleEndian>(buf, n)
        .expect("writing to a byte vector cannot fail");
}

/// Relies on byteorder's `WriteBytesExt::write_i32::<LittleEndian>`: it appends
/// the four little-endian bytes of the two's complement of `n`, and writing to
/// a byte vector cannot fail.
#[verifier::external_body]
pub fn put_i32_le(buf: &mut Vec<u8>, n: i32)
    ensures
        final(buf)@ == old(buf)@ + i32_le_bytes(n),
{
    byteorder::WriteBytesExt::write_i32::<byteorder::LittleEndian>(buf, n)
        .expect("writing to a byte vector cannot fail");
}

/// Reads the `u16` stored in little-endian order at `offset`.
pub fn get_u16_le(buf: &[u8], offset: usize) -> (r: u16)
    requires
        offset + 2 <= buf@.len(),
    ensures
        u16_le_bytes(r) == buf@.subrange(offset as int, offset + 2),
{
    let b0 = buf[offset];
    let b1 = buf[offset + 1];
    let r = (b0 as u16) | ((b1 as u16) << 8);
    proof {
        assert((r & 0xff) as u8 == b0 && ((r >> 8) & 0xff) as u8 == b1) by {
            assert({
                let r2 = (b0 as u16) | ((b1 as u16) << 8);
                (r2 & 0xff) as u8 == b0 && ((r2 >> 8) & 0xff) as u8 == b1
            }) by (bit_vector);
        }
        assert(u16_le_bytes(r) =~= buf@.subrange(offset as int, offset + 2));
    }
    r
}

/// Reads the `u32` stored in little-endian order at `offset`.
pub fn get_u32_le(buf: &[u8], offset: usize) -> (r: u32)
    requires
        offset + 4 <= buf@.len(),
    ensures
        u32_le_bytes(r) == buf@.subrange(offset as int, offset + 4),
{
    let b0 = buf[offset];
    let b1 = buf[offset + 1];
    let b2 = buf[offset + 2];
    let b3 = buf[offset + 3];
    let r = (b0 as u32) | ((b1 as u32) << 8) | ((b2 as u32) << 16) | ((b3 as u32) << 24);
    proof {
        assert((r & 0xff) as u8 == b0 && ((r >> 8) & 0xff) as u8 == b1
            && ((r >> 16) & 0xff) as u8 == b2 && ((r >> 24) & 0xff) as u8 == b3) by {
            assert({
                let r2 = (b0 as u32) | ((b1 as u32) << 8) | ((b2 as u32) << 16)
                    | ((b3 as u32) << 24);
                (r2 & 0xff) as u8 == b0 && ((r2 >> 8) & 0xff) as u8 == b1
                    && ((r2 >> 16) & 0xff) as u8 == b2 && ((r2 >> 24) & 0xff) as u8 == b3
            }) by (bit_vector);
        }
        assert(u32_le_bytes(r) =~= buf@.subrange(offset as int, offset + 4));
    }
    r
}

/// Reads the `i32` stored in little-endian two's complement at `offset`.
pub fn get_i32_le(buf: &[u8], offset: usize) -> (r: i32)
    requires
        offset + 4 <= buf@.len(),
    ensures
        i32_le_bytes(r) == buf@.subrange(offset as int, offset + 4),
{
    let n = get_u32_le(buf, offset);
    proof {
        assert(n as i32 as u32 == n) by (bit_vector);
    }
    n as i32
}

/// Appends every byte of `bytes`.
pub fn put_bytes(buf: &mut Vec<u8>, bytes: &Vec<u8>)
    ensures
        final(buf)@ == old(buf)@ + bytes@,
{
    let mut i: usize = 0;
    proof {
        assert(buf@ =~= old(buf)@ + bytes@.take(0));
    }
    while i < bytes.len()
        invariant
            i <= bytes@.len(),
            buf@ == old(buf)@ + bytes@.take(i as int),
        decreases bytes@.len() - i,
    {
        buf.push(bytes[i]);
        proof {
            assert(bytes@.take(i + 1) =~= bytes@.take(i as int).push(bytes@[i as int]));
            assert(buf@ =~= old(buf)@ + bytes@.take(i + 1));
        }
        i = i + 1;
    }
    proof {
        assert(bytes@.take(bytes@.len() as int) =~= bytes@);
    }
}

} // verus!
