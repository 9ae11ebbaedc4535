//! Virtual positions into a block-compressed stream.

use vstd::prelude::*;

verus! {

/// The greatest compressed offset a virtual position can carry: 48 bits.
pub const MAX_COMPRESSED_POSITION: u64 = 0xffff_ffff_ffff;

/// A virtual position: a 48-bit compressed offset of a block start in the
/// underlying stream, packed with a 16-bit offset into that block's
/// uncompressed data.
#[derive(Clone, Copy, Debug, PartialEq, Eq, Structural)]
pub struct VirtualPosition {
    /// The packed value: the compressed offset in the high 48 bits, the
    /// uncompressed offset in the low 16.
    pub value: u64,
}

/// The compressed byte offset a packed virtual position addresses.
pub open spec fn spec_compressed(v: VirtualPosition) -> u64 {
    v.value >> 16
}

/// The offset into the block's uncompressed data.
pub open spec fn spec_uncompressed(v: VirtualPosition) -> u16 {
    (v.value & 0xffff) as u16
}

impl VirtualPosition {
    /// Wraps a packed value.
    pub fn from(value: u64) -> (v: VirtualPosition)
        ensures
            v.value == value,
    {
        VirtualPosition { value }
    }

    /// Packs a compressed offset and an uncompressed offset; a compressed
    /// offset above 48 bits is rejected.
    pub fn try_from_parts(compressed: u64, uncompressed: u16) -> (r: Option<VirtualPosition>)
        ensures
            compressed > MAX_COMPRESSED_POSITION ==> r is None,
            compressed <= MAX_COMPRESSED_POSITION ==> r is Some && spec_compressed(r->0)
                == compressed && spec_uncompressed(r->0) == uncompressed,
    {
        if compressed > MAX_COMPRESSED_POSITION {
            None
        } else {
            let value = (compressed << 16) | (uncompressed as u64);
            proof {
                assert(compressed <= 0xffff_ffff_ffffu64 ==> {
                    let v2 = (compressed << 16) | (uncompressed as u64);
                    (v2 >> 16) == compressed && (v2 & 0xffff) as u16 == uncompressed
                }) by (bit_vector);
            }
            Some(VirtualPosition { value })
        }
    }

    /// Returns the compressed byte offset of the block start.
    pub fn compressed(&self) -> (c: u64)
        ensures
            c == spec_compressed(*self),
            c <= MAX_COMPRESSED_POSITION,
    {
        let v = self.value;
        proof {
            assert(v >> 16 <= 0xffff_ffff_ffffu64) by (bit_vector);
        }
        v >> 16
    }

    /// Returns the offset into the block's uncompressed data.
    pub fn uncompressed(&self) -> (u: u16)
        ensures
            u == spec_uncompressed(*self),
    {
        (self.value & 0xffff) as u16
    }
}

/// Packed virtual positions order exactly as the pairs (compressed offset,
/// uncompressed offset) do, lexicographically.
pub proof fn lemma_virtual_position_order(a: VirtualPosition, b: VirtualPosition)
    ensures
        a.value < b.value <==> (spec_compressed(a) < spec_compressed(b) || (spec_compressed(a)
            == spec_compressed(b) && spec_uncompressed(a) < spec_uncompressed(b))),
{
    let x = a.value;
    let y = b.value;
    assert(x < y <==> ((x >> 16) < (y >> 16) || ((x >> 16) == (y >> 16) && ((x & 0xffff) as u16)
        < ((y & 0xffff) as u16)))) by (bit_vector);
}

/// A position at a block boundary has no offset into the block.
pub open spec fn is_block_boundary(v: VirtualPosition) -> bool {
    spec_uncompressed(v) == 0
}

/// The 28 bytes of the end-of-stream sentinel block: an empty-payload block
/// written by every well-behaved writer when it closes.
pub open spec fn eof_block_bytes() -> Seq<u8> {
    seq![
        0x1fu8,
        0x8bu8,
        0x08u8,
        0x04u8,
        0x00u8,
        0x00u8,
        0x00u8,
        0x00u8,
        0x00u8,
        0xffu8,
        0x06u8,
        0x00u8,
        0x42u8,
        0x43u8,
        0x02u8,
        0x00u8,
        0x1bu8,
        0x00u8,
        0x03u8,
        0x00u8,
        0x00u8,
        0x00u8,
        0x00u8,
        0x00u8,
        0x00u8,
        0x00u8,
        0x00u8,
        0x00u8,
    ]
}

/// Returns the end-of-stream sentinel block.
pub fn eof_block() -> (r: Vec<u8>)
    ensures
        r@ == eof_block_bytes(),
{
    let mut r: Vec<u8> = Vec::new();
    r.push(0x1f);
    r.push(0x8b);
    r.push(0x08);
    r.push(0x04);
    r.push(0x00);
    r.push(0x00);
    r.push(0x00);
    r.push(0x00);
    r.push(0x00);
    r.push(0xff);
    r.push(0x06);
    r.push(0x00);
    r.push(0x42);
    r.push(0x43);
    r.push(0x02);
    r.push(0x00);
    r.push(0x1b);
    r.push(0x00);
    r.push(0x03);
    r.push(0x00);
    r.push(0x00);
    r.push(0x00);
    r.push(0x00);
    r.push(0x00);
    r.push(0x00);
    r.push(0x00);
    r.push(0x00);
    r.push(0x00);
    proof {
        assert(r@ =~= eof_block_bytes());
    }
    r
}

} // verus!
