//! The container layout: a header naming the reference span and block table,
//! then a compression-header block and slice blocks.

use vstd::prelude::*;

use crate::bam::codec::{le32_value, le32_signed};
use crate::cram::num::{itf8_decode, ltf8_decode, read_itf8, read_ltf8, NumError};

verus! {

/// Casting a 32-bit value through its unsigned bit pattern gives it back.
proof fn lemma_i32_identity(v: i32)
    ensures
        ((v as u32) as i32) == v,
{
    assert(((v as u32) as i32) == v) by (bit_vector);
}

/// Casting a 64-bit value through its unsigned bit pattern gives it back.
proof fn lemma_i64_identity(v: i64)
    ensures
        ((v as u64) as i64) == v,
{
    assert(((v as u64) as i64) == v) by (bit_vector);
}

/// A block of a container: a compression method, a content type and id, the
/// sizes, the payload as stored, and its checksum.
#[derive(Clone, Debug)]
pub struct Block {
    /// The compression method code.
    pub method: u8,
    /// The content type code.
    pub content_type: u8,
    /// The content id external blocks are addressed by.
    pub content_id: i32,
    /// The payload size before decompression would apply.
    pub uncompressed_size: i32,
    /// The payload, as stored.
    pub data: Vec<u8>,
    /// The checksum over the block.
    pub crc32: u32,
}

/// A block as mathematical values.
pub struct BlockView {
    /// The compression method code.
    pub method: u8,
    /// The content type code.
    pub content_type: u8,
    /// The content id.
    pub content_id: i32,
    /// The payload size before decompression would apply.
    pub uncompressed_size: i32,
    /// The payload, as stored.
    pub data: Seq<u8>,
    /// The checksum over the block.
    pub crc32: u32,
}

impl Block {
    /// The mathematical value of a block.
    pub open spec fn view(&self) -> BlockView {
        BlockView {
            method: self.method,
            content_type: self.content_type,
            content_id: self.content_id,
            uncompressed_size: self.uncompressed_size,
            data: self.data@,
            crc32: self.crc32,
        }
    }
}

/// The block at `off` and the offset just past it: method, content type,
/// content id, compressed then uncompressed size, payload, checksum.
pub open spec fn decode_block(s: Seq<u8>, off: int) -> Option<(BlockView, int)> {
    if off < 0 || off + 2 > s.len() {
        None
    } else {
        match itf8_decode(s, off + 2) {
            None => None,
            Some((content_id, o1)) => match itf8_decode(s, o1) {
                None => None,
                Some((compressed_size, o2)) => match itf8_decode(s, o2) {
                    None => None,
                    Some((uncompressed_size, o3)) => {
                        let data_end = o3 + compressed_size;
                        if compressed_size >= 0x8000_0000 || data_end + 4 > s.len() {
                            None
                        } else {
                            Some(
                                (
                                    BlockView {
                                        method: s[off],
                                        content_type: s[off + 1],
                                        content_id: content_id as i32,
                                        uncompressed_size: uncompressed_size as i32,
                                        data: s.subrange(o3, data_end),
                                        crc32: le32_value(s, data_end) as u32,
                                    },
                                    data_end + 4,
                                ),
                            )
                        }
                    },
                },
            },
        }
    }
}

/// Reads the block at `off`, returning it with the offset just past it.
#[verifier::loop_isolation(false)]
pub fn read_block(src: &[u8], off: usize) -> (r: Result<(Block, usize), NumError>)
    ensures
        r is Ok ==> decode_block(src@, off as int) == Some(
            ((r->Ok_0).0@, (r->Ok_0).1 as int),
        ) && (r->Ok_0).1 <= src@.len(),
        r is Err ==> decode_block(src@, off as int) is None,
{
    if (off as u128) + 2 > src.len() as u128 {
        return Err(NumError::UnexpectedEnd);
    }
    let method = src[off];
    let content_type = src[off + 1];
    let (content_id, o1) = match read_itf8(src, off + 2) {
        Ok(t) => t,
        Err(e) => {
            return Err(e);
        },
    };
    let (compressed_size, o2) = match read_itf8(src, o1) {
        Ok(t) => t,
        Err(e) => {
            return Err(e);
        },
    };
    let (uncompressed_size, o3) = match read_itf8(src, o2) {
        Ok(t) => t,
        Err(e) => {
            return Err(e);
        },
    };
    proof {
        lemma_i32_identity(content_id);
        lemma_i32_identity(compressed_size);
        lemma_i32_identity(uncompressed_size);
        assert(compressed_size < 0 ==> (compressed_size as u32) >= 0x8000_0000) by (bit_vector);
        assert(compressed_size >= 0 ==> (compressed_size as u32) < 0x8000_0000) by (bit_vector);
        assert(compressed_size >= 0 ==> compressed_size as u32 == compressed_size as int);
    }
    if compressed_size < 0 {
        return Err(NumError::UnexpectedEnd);
    }
    let size = compressed_size as usize;
    let data_end_wide: u128 = o3 as u128 + size as u128;
    if data_end_wide + 4 > src.len() as u128 {
        return Err(NumError::UnexpectedEnd);
    }
    let data_end: usize = o3 + size;
    let mut data: Vec<u8> = Vec::new();
    let ghost payload = src@.subrange(o3 as int, data_end as int);
    let mut g: usize = o3;
    proof {
        assert(data@ =~= payload.take(0));
    }
    while g < data_end
        invariant
            o3 <= g <= data_end,
            data@ == payload.take(g - o3),
        decreases data_end - g,
    {
        data.push(src[g]);
        proof {
            assert(payload.take(g + 1 - o3) =~= payload.take(g - o3).push(payload[g - o3]));
        }
        g = g + 1;
    }
    proof {
        assert(payload.take(data_end - o3) =~= payload);
    }
    let crc32 = crate::binary::get_u32_le(src, data_end);
    proof {
        crate::bam::codec::lemma_le32_subrange(src@, data_end as int);
        crate::bam::codec::lemma_le32_of_u32(crc32);
    }
    let block = Block { method, content_type, content_id, uncompressed_size, data, crc32 };
    Ok((block, data_end + 4))
}

/// A container header: the byte length of the body, the reference span, the
/// record and block counts, and the landmark table.
#[derive(Clone, Debug)]
pub struct Header {
    /// How many bytes the container body holds.
    pub length: i32,
    /// The reference sequence id; -1 when unmapped, -2 when multiple.
    pub reference_sequence_id: i32,
    /// The 1-based alignment start, or zero when unplaced.
    pub alignment_start: i32,
    /// How many reference bases the container covers.
    pub alignment_span: i32,
    /// How many records the container holds.
    pub record_count: i32,
    /// The id of the container's first record in the whole stream.
    pub record_counter: i64,
    /// How many read bases the container holds.
    pub base_count: i64,
    /// How many blocks follow the header.
    pub block_count: i32,
    /// The byte offset of each slice in the body.
    pub landmarks: Vec<i32>,
    /// The checksum over the header.
    pub crc32: u32,
}

/// A container header as mathematical values.
pub struct HeaderView {
    /// How many bytes the container body holds.
    pub length: i32,
    /// The reference sequence id.
    pub reference_sequence_id: i32,
    /// The 1-based alignment start, or zero when unplaced.
    pub alignment_start: i32,
    /// How many reference bases the container covers.
    pub alignment_span: i32,
    /// How many records the container holds.
    pub record_count: i32,
    /// The id of the container's first record.
    pub record_counter: i64,
    /// How many read bases the container holds.
    pub base_count: i64,
    /// How many blocks follow the header.
    pub block_count: i32,
    /// The byte offset of each slice in the body.
    pub landmarks: Seq<i32>,
    /// The checksum over the header.
    pub crc32: u32,
}

impl Header {
    /// The mathematical value of a container header.
    pub open spec fn view(&self) -> HeaderView {
        HeaderView {
            length: self.length,
            reference_sequence_id: self.reference_sequence_id,
            alignment_start: self.alignment_start,
            alignment_span: self.alignment_span,
            record_count: self.record_count,
            record_counter: self.record_counter,
            base_count: self.base_count,
            block_count: self.block_count,
            landmarks: self.landmarks@,
            crc32: self.crc32,
        }
    }
}

/// The landmark table at `off`: `n` values, with the offset just past them.
pub open spec fn decode_landmarks(s: Seq<u8>, off: int, n: int) -> Option<(Seq<i32>, int)>
    decreases n,
{
    if n <= 0 {
        Some((Seq::empty(), off))
    } else {
        match itf8_decode(s, off) {
            None => None,
            Some((v, o2)) => match decode_landmarks(s, o2, n - 1) {
                None => None,
                Some((rest, o3)) => Some((seq![v as i32] + rest, o3)),
            },
        }
    }
}

/// The container header at `off`, with the offset just past it.
pub open spec fn decode_container_header(s: Seq<u8>, off: int) -> Option<(HeaderView, int)> {
    if off < 0 || off + 4 > s.len() {
        None
    } else {
        match itf8_decode(s, off + 4) {
            None => None,
            Some((reference_sequence_id, o1)) => match itf8_decode(s, o1) {
                None => None,
                Some((alignment_start, o2)) => match itf8_decode(s, o2) {
                    None => None,
                    Some((alignment_span, o3)) => match itf8_decode(s, o3) {
                        None => None,
                        Some((record_count, o4)) => match ltf8_decode(s, o4) {
                            None => None,
                            Some((record_counter, o5)) => match ltf8_decode(s, o5) {
                                None => None,
                                Some((base_count, o6)) => match itf8_decode(s, o6) {
                                    None => None,
                                    Some((block_count, o7)) => match itf8_decode(s, o7) {
                                        None => None,
                                        Some((landmark_count, o8)) => if landmark_count
                                            >= 0x8000_0000 {
                                            None
                                        } else {
                                            match decode_landmarks(
                                                s,
                                                o8,
                                                landmark_count as int,
                                            ) {
                                                None => None,
                                                Some((landmarks, o9)) => if o9 + 4 <= s.len() {
                                                    Some(
                                                        (
                                                            HeaderView {
                                                                length: le32_signed(s, off) as i32,
                                                                reference_sequence_id:
                                                                    reference_sequence_id as i32,
                                                                alignment_start:
                                                                    alignment_start as i32,
                                                                alignment_span:
                                                                    alignment_span as i32,
                                                                record_count: record_count as i32,
                                                                record_counter:
                                                                    record_counter as i64,
                                                                base_count: base_count as i64,
                                                                block_count: block_count as i32,
                                                                landmarks,
                                                                crc32: le32_value(s, o9) as u32,
                                                            },
                                                            o9 + 4,
                                                        ),
                                                    )
                                                } else {
                                                    None
                                                },
                                            }
                                        },
                                    },
                                },
                            },
                        },
                    },
                },
            },
        }
    }
}

/// Reads the landmark table at `off`: `n` values, with the offset just past
/// them.
#[verifier::loop_isolation(false)]
fn read_landmarks(src: &[u8], off: usize, n: usize) -> (r: Result<(Vec<i32>, usize), NumError>)
    requires
        off <= src@.len(),
    ensures
        r is Ok ==> ({
            let (values, end) = r->Ok_0;
            decode_landmarks(src@, off as int, n as int) == Some((values@, end as int)) && end
                <= src@.len()
        }),
        r is Err ==> decode_landmarks(src@, off as int, n as int) is None,
{
    let mut values: Vec<i32> = Vec::new();
    let mut cur: usize = off;
    let mut i: usize = 0;
    while i < n
        invariant
            i <= n,
            cur <= src@.len(),
            values@.len() == i,
            ({
                match decode_landmarks(src@, cur as int, n - i) {
                    None => decode_landmarks(src@, off as int, n as int) is None,
                    Some((rest, e)) => decode_landmarks(src@, off as int, n as int) == Some(
                        (values@ + rest, e),
                    ),
                }
            }),
        decreases n - i,
    {
        let ghost pre = values@;
        let (v, end) = match read_itf8(src, cur) {
            Ok(t) => t,
            Err(e) => {
                return Err(e);
            },
        };
        proof {
            lemma_i32_identity(v);
        }
        values.push(v);
        proof {
            if decode_landmarks(src@, end as int, n - i - 1) is Some {
                let (rest2, e2) = decode_landmarks(src@, end as int, n - i - 1)->0;
                assert(decode_landmarks(src@, cur as int, n - i) == Some((seq![v] + rest2, e2)));
                assert(pre + (seq![v] + rest2) =~= values@ + rest2);
            }
        }
        cur = end;
        i = i + 1;
    }
    proof {
        assert(values@ + Seq::<i32>::empty() =~= values@);
    }
    Ok((values, cur))
}

/// Reads the container header at `off`, returning it with the offset just
/// past it.
pub fn read_container_header(src: &[u8], off: usize) -> (r: Result<(Header, usize), NumError>)
    ensures
        r is Ok ==> decode_container_header(src@, off as int) == Some(
            ((r->Ok_0).0@, (r->Ok_0).1 as int),
        ) && (r->Ok_0).1 <= src@.len(),
        r is Err ==> decode_container_header(src@, off as int) is None,
{
    if (off as u128) + 4 > src.len() as u128 {
        return Err(NumError::UnexpectedEnd);
    }
    let length = crate::binary::get_i32_le(src, off);
    proof {
        crate::bam::codec::lemma_le32_subrange(src@, off as int);
        crate::bam::codec::lemma_le32_of_i32(length);
    }
    let (reference_sequence_id, o1) = match read_itf8(src, off + 4) {
        Ok(t) => t,
        Err(e) => {
            return Err(e);
        },
    };
    let (alignment_start, o2) = match read_itf8(src, o1) {
        Ok(t) => t,
        Err(e) => {
            return Err(e);
        },
    };
    let (alignment_span, o3) = match read_itf8(src, o2) {
        Ok(t) => t,
        Err(e) => {
            return Err(e);
        },
    };
    let (record_count, o4) = match read_itf8(src, o3) {
        Ok(t) => t,
        Err(e) => {
            return Err(e);
        },
    };
    let (record_counter, o5) = match read_ltf8(src, o4) {
        Ok(t) => t,
        Err(e) => {
            return Err(e);
        },
    };
    let (base_count, o6) = match read_ltf8(src, o5) {
        Ok(t) => t,
        Err(e) => {
            return Err(e);
        },
    };
    let (block_count, o7) = match read_itf8(src, o6) {
        Ok(t) => t,
        Err(e) => {
            return Err(e);
        },
    };
    let (landmark_count, o8) = match read_itf8(src, o7) {
        Ok(t) => t,
        Err(e) => {
            return Err(e);
        },
    };
    proof {
        lemma_i32_identity(reference_sequence_id);
        lemma_i32_identity(alignment_start);
        lemma_i32_identity(alignment_span);
        lemma_i32_identity(record_count);
        lemma_i64_identity(record_counter);
        lemma_i64_identity(base_count);
        lemma_i32_identity(block_count);
        lemma_i32_identity(landmark_count);
        assert(landmark_count < 0 ==> (landmark_count as u32) >= 0x8000_0000) by (bit_vector);
        assert(landmark_count >= 0 ==> landmark_count as u32 == landmark_count as int);
    }
    if landmark_count < 0 {
        return Err(NumError::UnexpectedEnd);
    }
    let (landmarks, o9) = match read_landmarks(src, o8, landmark_count as usize) {
        Ok(t) => t,
        Err(e) => {
            return Err(e);
        },
    };
    if (o9 as u128) + 4 > src.len() as u128 {
        return Err(NumError::UnexpectedEnd);
    }
    let crc32 = crate::binary::get_u32_le(src, o9);
    proof {
        crate::bam::codec::lemma_le32_subrange(src@, o9 as int);
        crate::bam::codec::lemma_le32_of_u32(crc32);
    }
    let header = Header {
        length,
        reference_sequence_id,
        alignment_start,
        alignment_span,
        record_count,
        record_counter,
        base_count,
        block_count,
        landmarks,
        crc32,
    };
    Ok((header, o9 + 4))
}

/// The views of a run of blocks.
pub open spec fn views_of_blocks(xs: Seq<Block>) -> Seq<BlockView> {
    Seq::new(xs.len(), |i: int| xs[i]@)
}

/// The blocks at `off`: `n` of them, with the offset just past them.
pub open spec fn decode_blocks(s: Seq<u8>, off: int, n: int) -> Option<(Seq<BlockView>, int)>
    decreases n,
{
    if n <= 0 {
        Some((Seq::empty(), off))
    } else {
        match decode_block(s, off) {
            None => None,
            Some((b, o2)) => match decode_blocks(s, o2, n - 1) {
                None => None,
                Some((rest, o3)) => Some((seq![b] + rest, o3)),
            },
        }
    }
}

/// The whole container at `off`: its header, exactly the body bytes the
/// header's length field declares, and within them as many blocks as the
/// header counts; the returned offset sits just past the declared body.
/// Nothing when the header or a block is malformed, a count or length is
/// negative, the body leaves the input, or the blocks overrun the body.
pub open spec fn decode_container(s: Seq<u8>, off: int) -> Option<
    (HeaderView, Seq<BlockView>, int),
> {
    match decode_container_header(s, off) {
        None => None,
        Some((h, body)) => if h.block_count < 0 || h.length < 0 || body + h.length > s.len() {
            None
        } else {
            match decode_blocks(s, body, h.block_count as int) {
                None => None,
                Some((blocks, blocks_end)) => if blocks_end <= body + h.length {
                    Some((h, blocks, body + h.length))
                } else {
                    None
                },
            }
        },
    }
}

/// Reads a whole container at `off`: its header, then as many blocks as the
/// header counts, consuming exactly the header plus the body bytes its length
/// field declares.
#[verifier::loop_isolation(false)]
pub fn read_container(src: &[u8], off: usize) -> (r: Result<(Header, Vec<Block>, usize), NumError>)
    ensures
        r is Ok ==> ({
            let (header, blocks, end) = r->Ok_0;
            decode_container(src@, off as int) == Some(
                (header@, views_of_blocks(blocks@), end as int),
            ) && end <= src@.len()
        }),
        r is Err ==> decode_container(src@, off as int) is None,
{
    let (header, body) = match read_container_header(src, off) {
        Ok(t) => t,
        Err(e) => {
            return Err(e);
        },
    };
    if header.block_count < 0 || header.length < 0 {
        return Err(NumError::UnexpectedEnd);
    }
    if (body as u128) + (header.length as u128) > src.len() as u128 {
        return Err(NumError::UnexpectedEnd);
    }
    let body_end: usize = body + header.length as usize;
    let n = header.block_count as usize;
    let mut blocks: Vec<Block> = Vec::new();
    let mut cur: usize = body;
    let mut i: usize = 0;
    proof {
        assert(views_of_blocks(blocks@) =~= Seq::<BlockView>::empty());
    }
    while i < n
        invariant
            i <= n,
            cur <= src@.len(),
            views_of_blocks(blocks@).len() == i,
            ({
                match decode_blocks(src@, cur as int, n - i) {
                    None => decode_blocks(src@, body as int, n as int) is None,
                    Some((rest, e)) => decode_blocks(src@, body as int, n as int) == Some(
                        (views_of_blocks(blocks@) + rest, e),
                    ),
                }
            }),
        decreases n - i,
    {
        let ghost pre = views_of_blocks(blocks@);
        let (block, end) = match read_block(src, cur) {
            Ok(t) => t,
            Err(e) => {
                return Err(e);
            },
        };
        blocks.push(block);
        proof {
            assert(views_of_blocks(blocks@) =~= pre.push(block@));
            if decode_blocks(src@, end as int, n - i - 1) is Some {
                let (rest2, e2) = decode_blocks(src@, end as int, n - i - 1)->0;
                assert(decode_blocks(src@, cur as int, n - i) == Some((seq![block@] + rest2, e2)));
                assert(pre + (seq![block@] + rest2) =~= views_of_blocks(blocks@) + rest2);
            }
        }
        cur = end;
        i = i + 1;
    }
    proof {
        assert(views_of_blocks(blocks@) + Seq::<BlockView>::empty() =~= views_of_blocks(blocks@));
    }
    if cur > body_end {
        return Err(NumError::UnexpectedEnd);
    }
    Ok((header, blocks, body_end))
}

} // verus!
