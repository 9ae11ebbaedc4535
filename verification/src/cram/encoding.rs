//! Encoding descriptors of the compression header: which codec a data series
//! or tag uses, with its parameters, and the tag encoding map that collects
//! them.

use vstd::prelude::*;

use crate::binary::put_bytes;
use crate::cram::num::{itf8_bytes, write_itf8};

verus! {

/// An encoding descriptor: a codec and its parameters.
#[derive(Debug)]
pub enum Encoding {
    /// Values live in the external block with this content id.
    External(i32),
    /// A canonical prefix code over an alphabet, from code bit lengths.
    Huffman(Vec<i32>, Vec<i32>),
    /// A byte array as a length encoding then a value encoding.
    ByteArrayLen(Box<Encoding>, Box<Encoding>),
    /// A byte array ended by a stop byte, in the block with this content id.
    ByteArrayStop(u8, i32),
    /// Fixed-width binary values, offset then width in bits.
    Beta(i32, i32),
    /// Sub-exponential codes, offset then order.
    Subexp(i32, i32),
    /// Elias gamma codes, with an offset.
    Gamma(i32),
    /// Golomb codes, offset then modulus.
    Golomb(i32, i32),
}

/// The codec id the layout stores for a descriptor.
pub open spec fn codec_id(e: Encoding) -> i32 {
    match e {
        Encoding::External(..) => 1,
        Encoding::Golomb(..) => 2,
        Encoding::Huffman(..) => 3,
        Encoding::ByteArrayLen(..) => 4,
        Encoding::ByteArrayStop(..) => 5,
        Encoding::Beta(..) => 6,
        Encoding::Subexp(..) => 7,
        Encoding::Gamma(..) => 9,
    }
}

/// The encodings of a run of 32-bit values, in order.
pub open spec fn itf8_seq_bytes(xs: Seq<i32>) -> Seq<u8>
    decreases xs.len(),
{
    if xs.len() == 0 {
        Seq::empty()
    } else {
        itf8_seq_bytes(xs.drop_last()) + itf8_bytes(xs.last() as u32)
    }
}

/// The parameter bytes of a descriptor: everything after the codec id and the
/// parameter length.
pub open spec fn encoding_args(e: Encoding) -> Seq<u8>
    decreases e, 0int,
{
    match e {
        Encoding::External(block_content_id) => itf8_bytes(block_content_id as u32),
        Encoding::Golomb(offset, m) => itf8_bytes(offset as u32) + itf8_bytes(m as u32),
        Encoding::Huffman(alphabet, bit_lens) => itf8_bytes(alphabet@.len() as u32)
            + itf8_seq_bytes(alphabet@) + itf8_bytes(bit_lens@.len() as u32) + itf8_seq_bytes(
            bit_lens@,
        ),
        Encoding::ByteArrayLen(len_encoding, value_encoding) => encoding_bytes(*len_encoding)
            + encoding_bytes(*value_encoding),
        Encoding::ByteArrayStop(stop_byte, block_content_id) => seq![stop_byte] + itf8_bytes(
            block_content_id as u32,
        ),
        Encoding::Beta(offset, len) => itf8_bytes(offset as u32) + itf8_bytes(len as u32),
        Encoding::Subexp(offset, k) => itf8_bytes(offset as u32) + itf8_bytes(k as u32),
        Encoding::Gamma(offset) => itf8_bytes(offset as u32),
    }
}

/// The whole encoding of a descriptor: its codec id, the byte count of its
/// parameters, and the parameters.
pub open spec fn encoding_bytes(e: Encoding) -> Seq<u8>
    decreases e, 1int,
{
    itf8_bytes(codec_id(e) as u32) + itf8_bytes(encoding_args(e).len() as u32) + encoding_args(e)
}

/// Whether a descriptor can be written: its lists and parameter bytes fit the
/// 32-bit length fields.
pub open spec fn encoding_wf(e: Encoding) -> bool
    decreases e,
{
    &&& (match e {
        Encoding::Huffman(alphabet, bit_lens) => alphabet@.len() < 0x8000_0000 && bit_lens@.len()
            < 0x8000_0000,
        Encoding::ByteArrayLen(len_encoding, value_encoding) => encoding_wf(*len_encoding)
            && encoding_wf(*value_encoding),
        _ => true,
    })
    &&& encoding_args(e).len() < 0x8000_0000
}

/// Why a descriptor or map cannot be written.
#[derive(Clone, Copy, Debug, PartialEq, Eq, Structural)]
pub enum EncodingError {
    /// A list or parameter block is longer than its 32-bit length field.
    TooLong,
}

/// Appends the encodings of a run of 32-bit values.
#[verifier::loop_isolation(false)]
fn write_itf8_seq(buf: &mut Vec<u8>, xs: &Vec<i32>)
    ensures
        final(buf)@ == old(buf)@ + itf8_seq_bytes(xs@),
{
    let mut i: usize = 0;
    proof {
        assert(buf@ =~= old(buf)@ + itf8_seq_bytes(xs@.take(0)));
    }
    while i < xs.len()
        invariant
            i <= xs@.len(),
            buf@ == old(buf)@ + itf8_seq_bytes(xs@.take(i as int)),
        decreases xs@.len() - i,
    {
        write_itf8(buf, xs[i]);
        proof {
            assert(xs@.take(i + 1).drop_last() =~= xs@.take(i as int));
            assert(xs@.take(i + 1).last() == xs@[i as int]);
            assert(buf@ =~= old(buf)@ + itf8_seq_bytes(xs@.take(i + 1)));
        }
        i = i + 1;
    }
    proof {
        assert(xs@.take(xs@.len() as int) =~= xs@);
    }
}

/// Appends the encoding of a descriptor; one whose parameters overflow a
/// length field is refused with the buffer unchanged.
pub fn write_encoding(buf: &mut Vec<u8>, encoding: &Encoding) -> (result: Result<
    (),
    EncodingError,
>)
    ensures
        result is Ok <==> encoding_wf(*encoding),
        result is Ok ==> final(buf)@ == old(buf)@ + encoding_bytes(*encoding),
        result is Err ==> final(buf)@ == old(buf)@,
    decreases *encoding,
{
    let mut args: Vec<u8> = Vec::new();
    let codec: i32;
    match encoding {
        Encoding::External(block_content_id) => {
            write_itf8(&mut args, *block_content_id);
            codec = 1;
        },
        Encoding::Golomb(offset, m) => {
            write_itf8(&mut args, *offset);
            write_itf8(&mut args, *m);
            codec = 2;
        },
        Encoding::Huffman(alphabet, bit_lens) => {
            if alphabet.len() >= 0x8000_0000usize || bit_lens.len() >= 0x8000_0000usize {
                return Err(EncodingError::TooLong);
            }
            write_itf8(&mut args, alphabet.len() as i32);
            write_itf8_seq(&mut args, alphabet);
            write_itf8(&mut args, bit_lens.len() as i32);
            write_itf8_seq(&mut args, bit_lens);
            proof {
                assert((alphabet@.len() as i32) as u32 == alphabet@.len() as u32);
                assert((bit_lens@.len() as i32) as u32 == bit_lens@.len() as u32);
                assert(args@ =~= encoding_args(*encoding));
            }
            codec = 3;
        },
        Encoding::ByteArrayLen(len_encoding, value_encoding) => {
            match write_encoding(&mut args, len_encoding) {
                Ok(()) => {},
                Err(e) => {
                    return Err(e);
                },
            }
            match write_encoding(&mut args, value_encoding) {
                Ok(()) => {},
                Err(e) => {
                    return Err(e);
                },
            }
            codec = 4;
        },
        Encoding::ByteArrayStop(stop_byte, block_content_id) => {
            args.push(*stop_byte);
            write_itf8(&mut args, *block_content_id);
            codec = 5;
        },
        Encoding::Beta(offset, len) => {
            write_itf8(&mut args, *offset);
            write_itf8(&mut args, *len);
            codec = 6;
        },
        Encoding::Subexp(offset, k) => {
            write_itf8(&mut args, *offset);
            write_itf8(&mut args, *k);
            codec = 7;
        },
        Encoding::Gamma(offset) => {
            write_itf8(&mut args, *offset);
            codec = 9;
        },
    }
    proof {
        assert(args@ =~= encoding_args(*encoding));
    }
    if args.len() >= 0x8000_0000usize {
        return Err(EncodingError::TooLong);
    }
    write_itf8(buf, codec);
    write_itf8(buf, args.len() as i32);
    put_bytes(buf, &args);
    proof {
        assert((args@.len() as i32) as u32 == args@.len() as u32);
        assert(final(buf)@ =~= old(buf)@ + encoding_bytes(*encoding));
    }
    Ok(())
}

/// The tag encoding map of a compression header: for each three-byte tag-type
/// key, the descriptor its values use.
#[derive(Debug)]
pub struct TagEncodingMap {
    /// The entries, keyed by the packed tag and type.
    pub entries: Vec<(i32, Encoding)>,
}

/// The encodings of the map entries, in order: each key, then its descriptor.
pub open spec fn map_entries_bytes(entries: Seq<(i32, Encoding)>) -> Seq<u8>
    decreases entries.len(),
{
    if entries.len() == 0 {
        Seq::empty()
    } else {
        map_entries_bytes(entries.drop_last()) + itf8_bytes(entries.last().0 as u32)
            + encoding_bytes(entries.last().1)
    }
}

/// The inner bytes of the map: the entry count, then the entries.
pub open spec fn map_inner_bytes(entries: Seq<(i32, Encoding)>) -> Seq<u8> {
    itf8_bytes(entries.len() as u32) + map_entries_bytes(entries)
}

/// The whole encoding of the map: the inner byte count, then the inner bytes.
pub open spec fn tag_encoding_map_bytes(entries: Seq<(i32, Encoding)>) -> Seq<u8> {
    itf8_bytes(map_inner_bytes(entries).len() as u32) + map_inner_bytes(entries)
}

/// Whether the map can be written: the counts fit their 32-bit fields and
/// every descriptor can be written.
pub open spec fn tag_encoding_map_wf(entries: Seq<(i32, Encoding)>) -> bool {
    &&& entries.len() < 0x8000_0000
    &&& (forall|i: int| 0 <= i < entries.len() ==> encoding_wf((#[trigger] entries[i]).1))
    &&& map_inner_bytes(entries).len() < 0x8000_0000
}

/// Appends the tag encoding map: its inner byte count, the entry count, and
/// each key with its descriptor. A map that overflows a length field, or
/// holds an unwritable descriptor, is refused with the buffer unchanged.
#[verifier::loop_isolation(false)]
pub fn write_tag_encoding_map(buf: &mut Vec<u8>, tag_encoding_map: &TagEncodingMap) -> (result:
    Result<(), EncodingError>)
    ensures
        result is Ok <==> tag_encoding_map_wf(tag_encoding_map.entries@),
        result is Ok ==> final(buf)@ == old(buf)@ + tag_encoding_map_bytes(
            tag_encoding_map.entries@,
        ),
        result is Err ==> final(buf)@ == old(buf)@,
{
    let entries = &tag_encoding_map.entries;
    if entries.len() >= 0x8000_0000usize {
        return Err(EncodingError::TooLong);
    }
    let mut inner: Vec<u8> = Vec::new();
    write_itf8(&mut inner, entries.len() as i32);
    proof {
        assert((entries@.len() as i32) as u32 == entries@.len() as u32);
    }
    let ghost base = inner@;
    let mut i: usize = 0;
    proof {
        assert(inner@ =~= base + map_entries_bytes(entries@.take(0)));
    }
    while i < entries.len()
        invariant
            i <= entries@.len(),
            inner@ == base + map_entries_bytes(entries@.take(i as int)),
            forall|j: int| 0 <= j < i ==> encoding_wf((#[trigger] entries@[j]).1),
        decreases entries@.len() - i,
    {
        write_itf8(&mut inner, entries[i].0);
        match write_encoding(&mut inner, &entries[i].1) {
            Ok(()) => {},
            Err(e) => {
                proof {
                    assert(!encoding_wf((entries@[i as int]).1));
                }
                return Err(e);
            },
        }
        proof {
            assert(encoding_wf((entries@[i as int]).1));
            assert(entries@.take(i + 1).drop_last() =~= entries@.take(i as int));
            assert(entries@.take(i + 1).last() == entries@[i as int]);
            assert(inner@ =~= base + map_entries_bytes(entries@.take(i + 1)));
        }
        i = i + 1;
    }
    proof {
        assert(entries@.take(entries@.len() as int) =~= entries@);
        assert(inner@ =~= map_inner_bytes(entries@));
    }
    if inner.len() >= 0x8000_0000usize {
        return Err(EncodingError::TooLong);
    }
    write_itf8(buf, inner.len() as i32);
    put_bytes(buf, &inner);
    proof {
        assert((inner@.len() as i32) as u32 == inner@.len() as u32);
        assert(final(buf)@ =~= old(buf)@ + tag_encoding_map_bytes(tag_encoding_map.entries@));
    }
    Ok(())
}

} // verus!
