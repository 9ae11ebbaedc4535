//! The typed-value codec of the binary variant-call format: one header byte
//! whose high nibble counts elements and whose low nibble names their type,
//! then the elements.

use vstd::prelude::*;

use crate::binary::{put_bytes, put_u16_le, put_u32_le, put_u8, u16_le_bytes, u32_le_bytes};

verus! {

/// A typed value: the atom of the site and genotype layouts.
///
/// Single-precision values are carried as their bit patterns.
#[derive(Clone, Debug)]
pub enum TypedValue {
    /// The missing value: a bare zero header.
    Missing,
    /// Signed 8-bit integers.
    Int8(Vec<i8>),
    /// Signed 16-bit integers.
    Int16(Vec<i16>),
    /// Signed 32-bit integers.
    Int32(Vec<i32>),
    /// Single-precision values, as bit patterns.
    Float(Vec<u32>),
    /// A character string.
    Text(Vec<u8>),
}

/// A typed value as mathematical sequences.
pub enum TypedValueView {
    /// The missing value.
    Missing,
    /// Signed 8-bit integers.
    Int8(Seq<i8>),
    /// Signed 16-bit integers.
    Int16(Seq<i16>),
    /// Signed 32-bit integers.
    Int32(Seq<i32>),
    /// Single-precision values, as bit patterns.
    Float(Seq<u32>),
    /// A character string.
    Text(Seq<u8>),
}

impl TypedValue {
    /// The mathematical value.
    pub open spec fn view(&self) -> TypedValueView {
        match self {
            TypedValue::Missing => TypedValueView::Missing,
            TypedValue::Int8(xs) => TypedValueView::Int8(xs@),
            TypedValue::Int16(xs) => TypedValueView::Int16(xs@),
            TypedValue::Int32(xs) => TypedValueView::Int32(xs@),
            TypedValue::Float(xs) => TypedValueView::Float(xs@),
            TypedValue::Text(xs) => TypedValueView::Text(xs@),
        }
    }
}

/// The bytes of signed 8-bit elements.
pub open spec fn i8_bytes(xs: Seq<i8>) -> Seq<u8> {
    Seq::new(xs.len(), |i: int| xs[i] as u8)
}

/// The little-endian bytes of signed 16-bit elements.
pub open spec fn i16_le_each(xs: Seq<i16>) -> Seq<u8>
    decreases xs.len(),
{
    if xs.len() == 0 {
        Seq::empty()
    } else {
        i16_le_each(xs.drop_last()) + u16_le_bytes(xs.last() as u16)
    }
}

/// The little-endian bytes of signed 32-bit elements.
pub open spec fn i32_le_each(xs: Seq<i32>) -> Seq<u8>
    decreases xs.len(),
{
    if xs.len() == 0 {
        Seq::empty()
    } else {
        i32_le_each(xs.drop_last()) + u32_le_bytes(xs.last() as u32)
    }
}

/// The little-endian bytes of 32-bit bit patterns.
pub open spec fn u32_le_each(xs: Seq<u32>) -> Seq<u8>
    decreases xs.len(),
{
    if xs.len() == 0 {
        Seq::empty()
    } else {
        u32_le_each(xs.drop_last()) + u32_le_bytes(xs.last())
    }
}

/// The encoding of an element count of fifteen or more: a typed integer
/// scalar of the narrowest signed width that holds it.
pub open spec fn typed_count_bytes(n: int) -> Seq<u8> {
    if n < 0x80 {
        seq![0x11u8, n as u8]
    } else if n < 0x8000 {
        seq![0x12u8] + u16_le_bytes(n as u16)
    } else {
        seq![0x13u8] + u32_le_bytes(n as u32)
    }
}

/// The header of a typed value: count packed beside the type code, or the
/// overflow marker and a counted integer.
pub open spec fn type_header(count: int, ty: u8) -> Seq<u8> {
    if count < 15 {
        seq![(count * 16 + ty) as u8]
    } else {
        seq![(0xf0 + ty) as u8] + typed_count_bytes(count)
    }
}

/// Whether a typed value can be encoded: its element count fits the count
/// integer.
pub open spec fn typed_value_wf(v: TypedValueView) -> bool {
    match v {
        TypedValueView::Missing => true,
        TypedValueView::Int8(xs) => xs.len() < 0x8000_0000,
        TypedValueView::Int16(xs) => xs.len() < 0x8000_0000,
        TypedValueView::Int32(xs) => xs.len() < 0x8000_0000,
        TypedValueView::Float(xs) => xs.len() < 0x8000_0000,
        TypedValueView::Text(xs) => xs.len() < 0x8000_0000,
    }
}

/// The encoding of a typed value.
pub open spec fn typed_value_bytes(v: TypedValueView) -> Seq<u8> {
    match v {
        TypedValueView::Missing => seq![0u8],
        TypedValueView::Int8(xs) => type_header(xs.len() as int, 1) + i8_bytes(xs),
        TypedValueView::Int16(xs) => type_header(xs.len() as int, 2) + i16_le_each(xs),
        TypedValueView::Int32(xs) => type_header(xs.len() as int, 3) + i32_le_each(xs),
        TypedValueView::Float(xs) => type_header(xs.len() as int, 5) + u32_le_each(xs),
        TypedValueView::Text(xs) => type_header(xs.len() as int, 7) + xs,
    }
}

/// Why a typed value cannot be written.
#[derive(Clone, Copy, Debug, PartialEq, Eq, Structural)]
pub enum TypedError {
    /// The element count does not fit the count integer.
    TooManyElements,
    /// The input ends inside a value.
    UnexpectedEnd,
    /// A header byte names no known type.
    UnknownType,
    /// A count is not a non-negative typed integer scalar.
    InvalidCount,
}

/// Appends the header of a typed value.
fn write_type_header(buf: &mut Vec<u8>, count: usize, ty: u8) -> (result: Result<(), TypedError>)
    requires
        ty < 16,
    ensures
        result is Ok <==> count < 0x8000_0000,
        result is Ok ==> final(buf)@ == old(buf)@ + type_header(count as int, ty),
        result is Err ==> final(buf)@ == old(buf)@,
{
    if count >= 0x8000_0000usize {
        return Err(TypedError::TooManyElements);
    }
    if count < 15 {
        put_u8(buf, (count as u8) * 16 + ty);
        proof {
            assert(final(buf)@ =~= old(buf)@ + type_header(count as int, ty));
        }
    } else if count < 0x80 {
        put_u8(buf, 0xf0 + ty);
        put_u8(buf, 0x11);
        put_u8(buf, count as u8);
        proof {
            assert(final(buf)@ =~= old(buf)@ + type_header(count as int, ty));
        }
    } else if count < 0x8000 {
        put_u8(buf, 0xf0 + ty);
        put_u8(buf, 0x12);
        put_u16_le(buf, count as u16);
        proof {
            assert(final(buf)@ =~= old(buf)@ + type_header(count as int, ty));
        }
    } else {
        put_u8(buf, 0xf0 + ty);
        put_u8(buf, 0x13);
        put_u32_le(buf, count as u32);
        proof {
            assert(final(buf)@ =~= old(buf)@ + type_header(count as int, ty));
        }
    }
    Ok(())
}

/// Appends the encoding of a typed value; a value with too many elements for
/// the count integer is refused with the buffer unchanged.
#[verifier::loop_isolation(false)]
pub fn write_typed_value(buf: &mut Vec<u8>, value: &TypedValue) -> (result: Result<(), TypedError>)
    ensures
        result is Ok <==> typed_value_wf(value@),
        result is Ok ==> final(buf)@ == old(buf)@ + typed_value_bytes(value@),
        result is Err ==> final(buf)@ == old(buf)@,
{
    match value {
        TypedValue::Missing => {
            put_u8(buf, 0);
            proof {
                assert(final(buf)@ =~= old(buf)@ + typed_value_bytes(value@));
            }
            Ok(())
        },
        TypedValue::Int8(xs) => {
            match write_type_header(buf, xs.len(), 1) {
                Ok(()) => {},
                Err(e) => {
                    return Err(e);
                },
            }
            let ghost base = buf@;
            let mut i: usize = 0;
            proof {
                assert(buf@ =~= base + i8_bytes(xs@.take(0)));
            }
            while i < xs.len()
                invariant
                    i <= xs@.len(),
                    buf@ == base + i8_bytes(xs@.take(i as int)),
                decreases xs@.len() - i,
            {
                put_u8(buf, xs[i] as u8);
                proof {
                    assert(buf@ =~= base + i8_bytes(xs@.take(i + 1)));
                }
                i = i + 1;
            }
            proof {
                assert(xs@.take(xs@.len() as int) =~= xs@);
                assert(final(buf)@ =~= old(buf)@ + typed_value_bytes(value@));
            }
            Ok(())
        },
        TypedValue::Int16(xs) => {
            match write_type_header(buf, xs.len(), 2) {
                Ok(()) => {},
                Err(e) => {
                    return Err(e);
                },
            }
            let ghost base = buf@;
            let mut i: usize = 0;
            proof {
                assert(buf@ =~= base + i16_le_each(xs@.take(0)));
            }
            while i < xs.len()
                invariant
                    i <= xs@.len(),
                    buf@ == base + i16_le_each(xs@.take(i as int)),
                decreases xs@.len() - i,
            {
                put_u16_le(buf, xs[i] as u16);
                proof {
                    assert(xs@.take(i + 1).drop_last() =~= xs@.take(i as int));
                    assert(xs@.take(i + 1).last() == xs@[i as int]);
                    assert(buf@ =~= base + i16_le_each(xs@.take(i + 1)));
                }
                i = i + 1;
            }
            proof {
                assert(xs@.take(xs@.len() as int) =~= xs@);
                assert(final(buf)@ =~= old(buf)@ + typed_value_bytes(value@));
            }
            Ok(())
        },
        TypedValue::Int32(xs) => {
            match write_type_header(buf, xs.len(), 3) {
                Ok(()) => {},
                Err(e) => {
                    return Err(e);
                },
            }
            let ghost base = buf@;
            let mut i: usize = 0;
            proof {
                assert(buf@ =~= base + i32_le_each(xs@.take(0)));
            }
            while i < xs.len()
                invariant
                    i <= xs@.len(),
                    buf@ == base + i32_le_each(xs@.take(i as int)),
                decreases xs@.len() - i,
            {
                put_u32_le(buf, xs[i] as u32);
                proof {
                    assert(xs@.take(i + 1).drop_last() =~= xs@.take(i as int));
                    assert(xs@.take(i + 1).last() == xs@[i as int]);
                    assert(buf@ =~= base + i32_le_each(xs@.take(i + 1)));
                }
                i = i + 1;
            }
            proof {
                assert(xs@.take(xs@.len() as int) =~= xs@);
                assert(final(buf)@ =~= old(buf)@ + typed_value_bytes(value@));
            }
            Ok(())
        },
        TypedValue::Float(xs) => {
            match write_type_header(buf, xs.len(), 5) {
                Ok(()) => {},
                Err(e) => {
                    return Err(e);
                },
            }
            let ghost base = buf@;
            let mut i: usize = 0;
            proof {
                assert(buf@ =~= base + u32_le_each(xs@.take(0)));
            }
            while i < xs.len()
                invariant
                    i <= xs@.len(),
                    buf@ == base + u32_le_each(xs@.take(i as int)),
                decreases xs@.len() - i,
            {
                put_u32_le(buf, xs[i]);
                proof {
                    assert(xs@.take(i + 1).drop_last() =~= xs@.take(i as int));
                    assert(xs@.take(i + 1).last() == xs@[i as int]);
                    assert(buf@ =~= base + u32_le_each(xs@.take(i + 1)));
                }
                i = i + 1;
            }
            proof {
                assert(xs@.take(xs@.len() as int) =~= xs@);
                assert(final(buf)@ =~= old(buf)@ + typed_value_bytes(value@));
            }
            Ok(())
        },
        TypedValue::Text(xs) => {
            match write_type_header(buf, xs.len(), 7) {
                Ok(()) => {},
                Err(e) => {
                    return Err(e);
                },
            }
            put_bytes(buf, xs);
            proof {
                assert(final(buf)@ =~= old(buf)@ + typed_value_bytes(value@));
            }
            Ok(())
        },
    }
}

/// The signed value of the two little-endian bytes at `off`.
pub open spec fn le16_signed(s: Seq<u8>, off: int) -> int {
    let v = crate::bam::codec::le16_value(s, off);
    if v < 0x8000 {
        v
    } else {
        v - 0x1_0000
    }
}

/// The element count and the offset just past it, read from a header at
/// `off`; nothing when the bytes are not a well-formed header.
pub open spec fn decode_count(s: Seq<u8>, off: int) -> Option<(int, int)> {
    if off < 0 || off >= s.len() {
        None
    } else {
        let tb = s[off];
        if tb / 16 < 15 {
            Some(((tb / 16) as int, off + 1))
        } else if off + 1 >= s.len() {
            None
        } else {
            let cb = s[off + 1];
            if cb == 0x11 {
                if off + 3 <= s.len() && s[off + 2] < 0x80 {
                    Some((s[off + 2] as int, off + 3))
                } else {
                    None
                }
            } else if cb == 0x12 {
                if off + 4 <= s.len() && le16_signed(s, off + 2) >= 0 {
                    Some((le16_signed(s, off + 2), off + 4))
                } else {
                    None
                }
            } else if cb == 0x13 {
                if off + 6 <= s.len() && crate::bam::codec::le32_signed(s, off + 2) >= 0 {
                    Some((crate::bam::codec::le32_signed(s, off + 2), off + 6))
                } else {
                    None
                }
            } else {
                None
            }
        }
    }
}

/// The typed value at `off` and the offset just past it; nothing when the
/// bytes are not a well-formed value.
pub open spec fn decode_typed_value(s: Seq<u8>, off: int) -> Option<(TypedValueView, int)> {
    match decode_count(s, off) {
        None => None,
        Some((count, doff)) => {
            let ty = s[off] % 16;
            if ty == 0 {
                if s[off] == 0 {
                    Some((TypedValueView::Missing, off + 1))
                } else {
                    None
                }
            } else if ty == 1 {
                if doff + count <= s.len() {
                    Some(
                        (
                            TypedValueView::Int8(
                                Seq::new(count as nat, |i: int| s[doff + i] as i8),
                            ),
                            doff + count,
                        ),
                    )
                } else {
                    None
                }
            } else if ty == 2 {
                if doff + 2 * count <= s.len() {
                    Some(
                        (
                            TypedValueView::Int16(
                                Seq::new(count as nat, |i: int| le16_signed(s, doff + 2 * i) as i16),
                            ),
                            doff + 2 * count,
                        ),
                    )
                } else {
                    None
                }
            } else if ty == 3 {
                if doff + 4 * count <= s.len() {
                    Some(
                        (
                            TypedValueView::Int32(
                                Seq::new(
                                    count as nat,
                                    |i: int| crate::bam::codec::le32_signed(s, doff + 4 * i) as i32,
                                ),
                            ),
                            doff + 4 * count,
                        ),
                    )
                } else {
                    None
                }
            } else if ty == 5 {
                if doff + 4 * count <= s.len() {
                    Some(
                        (
                            TypedValueView::Float(
                                Seq::new(
                                    count as nat,
                                    |i: int| crate::bam::codec::le32_value(s, doff + 4 * i) as u32,
                                ),
                            ),
                            doff + 4 * count,
                        ),
                    )
                } else {
                    None
                }
            } else if ty == 7 {
                if doff + count <= s.len() {
                    Some((TypedValueView::Text(s.subrange(doff, doff + count)), doff + count))
                } else {
                    None
                }
            } else {
                None
            }
        },
    }
}


/// The byte at offset `2 * i` of encoded 16-bit elements starts the bytes of
/// the `i`-th element.
proof fn lemma_i16_le_each_at(xs: Seq<i16>, i: int)
    requires
        0 <= i < xs.len(),
    ensures
        i16_le_each(xs).len() == 2 * xs.len(),
        i16_le_each(xs).subrange(2 * i, 2 * i + 2) == u16_le_bytes(xs[i] as u16),
    decreases xs.len(),
{
    lemma_i16_le_each_len(xs);
    lemma_i16_le_each_len(xs.drop_last());
    if i == xs.len() - 1 {
        assert(i16_le_each(xs).subrange(2 * i, 2 * i + 2) =~= u16_le_bytes(xs.last() as u16));
    } else {
        lemma_i16_le_each_at(xs.drop_last(), i);
        assert(xs.drop_last()[i] == xs[i]);
        assert(i16_le_each(xs).subrange(2 * i, 2 * i + 2) =~= i16_le_each(
            xs.drop_last(),
        ).subrange(2 * i, 2 * i + 2));
    }
}

/// Encoded 16-bit elements take two bytes each.
proof fn lemma_i16_le_each_len(xs: Seq<i16>)
    ensures
        i16_le_each(xs).len() == 2 * xs.len(),
    decreases xs.len(),
{
    if xs.len() > 0 {
        lemma_i16_le_each_len(xs.drop_last());
    }
}

/// The byte at offset `4 * i` of encoded 32-bit elements starts the bytes of
/// the `i`-th element.
proof fn lemma_i32_le_each_at(xs: Seq<i32>, i: int)
    requires
        0 <= i < xs.len(),
    ensures
        i32_le_each(xs).len() == 4 * xs.len(),
        i32_le_each(xs).subrange(4 * i, 4 * i + 4) == u32_le_bytes(xs[i] as u32),
    decreases xs.len(),
{
    lemma_i32_le_each_len(xs);
    lemma_i32_le_each_len(xs.drop_last());
    if i == xs.len() - 1 {
        assert(i32_le_each(xs).subrange(4 * i, 4 * i + 4) =~= u32_le_bytes(xs.last() as u32));
    } else {
        lemma_i32_le_each_at(xs.drop_last(), i);
        assert(xs.drop_last()[i] == xs[i]);
        assert(i32_le_each(xs).subrange(4 * i, 4 * i + 4) =~= i32_le_each(
            xs.drop_last(),
        ).subrange(4 * i, 4 * i + 4));
    }
}

/// Encoded 32-bit elements take four bytes each.
proof fn lemma_i32_le_each_len(xs: Seq<i32>)
    ensures
        i32_le_each(xs).len() == 4 * xs.len(),
    decreases xs.len(),
{
    if xs.len() > 0 {
        lemma_i32_le_each_len(xs.drop_last());
    }
}

/// The byte at offset `4 * i` of encoded bit patterns starts the bytes of the
/// `i`-th pattern.
proof fn lemma_u32_le_each_at(xs: Seq<u32>, i: int)
    requires
        0 <= i < xs.len(),
    ensures
        u32_le_each(xs).len() == 4 * xs.len(),
        u32_le_each(xs).subrange(4 * i, 4 * i + 4) == u32_le_bytes(xs[i]),
    decreases xs.len(),
{
    lemma_u32_le_each_len(xs);
    lemma_u32_le_each_len(xs.drop_last());
    if i == xs.len() - 1 {
        assert(u32_le_each(xs).subrange(4 * i, 4 * i + 4) =~= u32_le_bytes(xs.last()));
    } else {
        lemma_u32_le_each_at(xs.drop_last(), i);
        assert(xs.drop_last()[i] == xs[i]);
        assert(u32_le_each(xs).subrange(4 * i, 4 * i + 4) =~= u32_le_each(
            xs.drop_last(),
        ).subrange(4 * i, 4 * i + 4));
    }
}

/// Encoded bit patterns take four bytes each.
proof fn lemma_u32_le_each_len(xs: Seq<u32>)
    ensures
        u32_le_each(xs).len() == 4 * xs.len(),
    decreases xs.len(),
{
    if xs.len() > 0 {
        lemma_u32_le_each_len(xs.drop_last());
    }
}

/// Reading back the little-endian bytes of an `i16` gives the value, through
/// two's complement.
proof fn lemma_le16_of_i16(n: i16)
    ensures
        le16_signed(u16_le_bytes(n as u16), 0) == n,
{
    crate::bam::codec::lemma_le16_of_u16(n as u16);
    assert(n >= 0 ==> n as u16 == n as int) by (bit_vector);
    assert(n < 0 ==> n as u16 == n as int + 0x1_0000) by (bit_vector);
}

/// The two bytes at `off` determine the signed value read there.
pub proof fn lemma_le16_signed_subrange(s: Seq<u8>, off: int)
    requires
        0 <= off,
        off + 2 <= s.len(),
    ensures
        le16_signed(s, off) == le16_signed(s.subrange(off, off + 2), 0),
{
}

/// The length of a typed value's encoding.
pub open spec fn typed_value_len(v: TypedValueView) -> int {
    typed_value_bytes(v).len() as int
}


/// One byte of an embedded run, read through the host sequence.
pub proof fn lemma_index_chain(s: Seq<u8>, off: int, whole: Seq<u8>, j: int)
    requires
        0 <= off,
        off + whole.len() <= s.len(),
        s.subrange(off, off + whole.len() as int) == whole,
        0 <= j < whole.len(),
    ensures
        s[off + j] == whole[j],
{
    assert(s.subrange(off, off + whole.len() as int)[j] == s[off + j]);
}

/// A slice of an embedded run, read through the host sequence.
pub proof fn lemma_subrange_chain(s: Seq<u8>, off: int, whole: Seq<u8>, lo: int, hi: int)
    requires
        0 <= off,
        off + whole.len() <= s.len(),
        s.subrange(off, off + whole.len() as int) == whole,
        0 <= lo <= hi <= whole.len(),
    ensures
        s.subrange(off + lo, off + hi) == whole.subrange(lo, hi),
{
    assert(s.subrange(off + lo, off + hi) =~= whole.subrange(lo, hi)) by {
        assert forall|j: int| 0 <= j < hi - lo implies s.subrange(off + lo, off + hi)[j]
            == whole.subrange(lo, hi)[j] by {
            lemma_index_chain(s, off, whole, lo + j);
            assert(s.subrange(off + lo, off + hi)[j] == s[off + lo + j]);
        }
    }
}

/// The count a header encodes reads back as itself.
proof fn lemma_decode_count(s: Seq<u8>, off: int, count: int, ty: u8)
    requires
        0 <= off,
        0 <= count < 0x8000_0000,
        1 <= ty < 16,
        off + type_header(count, ty).len() <= s.len(),
        s.subrange(off, off + type_header(count, ty).len() as int) == type_header(count, ty),
    ensures
        decode_count(s, off) == Some((count, off + type_header(count, ty).len() as int)),
        s[off] % 16 == ty,
{
    let h = type_header(count, ty);
    lemma_index_chain(s, off, h, 0);
    if count < 15 {
        assert(h[0] == (count * 16 + ty) as u8);
        assert(count * 16 + ty < 256);
        assert(s[off] / 16 == count && s[off] % 16 == ty) by (nonlinear_arith)
            requires
                s[off] == count * 16 + ty && 0 <= count < 15 && 1 <= ty < 16,
        ;
    } else {
        assert(h[0] == (0xf0 + ty) as u8);
        assert(s[off] / 16 == 15 && s[off] % 16 == ty) by (nonlinear_arith)
            requires
                s[off] == 0xf0 + ty && 1 <= ty < 16,
        ;
        lemma_index_chain(s, off, h, 1);
        if count < 0x80 {
            assert(h[1] == 0x11 && h[2] == count as u8);
            lemma_index_chain(s, off, h, 2);
        } else if count < 0x8000 {
            assert(h[1] == 0x12);
            lemma_subrange_chain(s, off, h, 2, 4);
            assert(h.subrange(2, 4) =~= u16_le_bytes(count as u16));
            lemma_le16_signed_subrange(s, off + 2);
            lemma_le16_of_i16(count as i16);
            assert(count as i16 == count);
            assert((count as i16) as u16 == count as u16);
        } else {
            assert(h[1] == 0x13);
            lemma_subrange_chain(s, off, h, 2, 6);
            assert(h.subrange(2, 6) =~= u32_le_bytes(count as u32));
            crate::bam::codec::lemma_le32_subrange(s, off + 2);
            crate::bam::codec::lemma_le32_of_i32(count as i32);
            assert(count as i32 == count);
            assert((count as i32) as u32 == count as u32);
        }
    }
}

/// LAW OF THE TYPED-VALUE ROUND TRIP. Wherever the encoding of a typed value
/// sits in a byte run, decoding at its first byte gives the value back and
/// stops just past it.
pub proof fn lemma_typed_value_round_trip(s: Seq<u8>, off: int, v: TypedValueView)
    requires
        typed_value_wf(v),
        0 <= off,
        off + typed_value_len(v) <= s.len(),
        s.subrange(off, off + typed_value_len(v)) == typed_value_bytes(v),
    ensures
        decode_typed_value(s, off) == Some((v, off + typed_value_len(v))),
{
    let b = typed_value_bytes(v);
    match v {
        TypedValueView::Missing => {
            lemma_index_chain(s, off, b, 0);
            assert(b[0] == 0);
            assert(s[off] == 0);
            assert(decode_count(s, off) == Some((0int, off + 1)));
            assert(decode_typed_value(s, off) == Some((TypedValueView::Missing, off + 1)));
            assert(typed_value_len(v) == 1);
            assert(v == TypedValueView::Missing);
            assert(decode_typed_value(s, off) == Some((v, off + typed_value_len(v))));
        },
        TypedValueView::Int8(xs) => {
            let h = type_header(xs.len() as int, 1);
            lemma_subrange_chain(s, off, b, 0, h.len() as int);
            assert(b.subrange(0, h.len() as int) =~= h);
            lemma_decode_count(s, off, xs.len() as int, 1);
            let doff = off + h.len() as int;
            lemma_subrange_chain(s, off, b, h.len() as int, b.len() as int);
            assert(b.subrange(h.len() as int, b.len() as int) =~= i8_bytes(xs));
            assert(s.subrange(doff, doff + xs.len() as int) == i8_bytes(xs));
            assert(Seq::new(xs.len(), |i: int| s[doff + i] as i8) =~= xs) by {
                assert forall|i: int| 0 <= i < xs.len() implies s[doff + i] as i8 == xs[i] by {
                    lemma_index_chain(s, doff, i8_bytes(xs), i);
                    let x2 = xs[i];
                    assert(x2 as u8 as i8 == x2) by (bit_vector);
                }
            }
        },
        TypedValueView::Int16(xs) => {
            let h = type_header(xs.len() as int, 2);
            lemma_i16_le_each_len(xs);
            lemma_subrange_chain(s, off, b, 0, h.len() as int);
            assert(b.subrange(0, h.len() as int) =~= h);
            lemma_decode_count(s, off, xs.len() as int, 2);
            let doff = off + h.len() as int;
            lemma_subrange_chain(s, off, b, h.len() as int, b.len() as int);
            assert(b.subrange(h.len() as int, b.len() as int) =~= i16_le_each(xs));
            assert(s.subrange(doff, doff + 2 * xs.len() as int) == i16_le_each(xs));
            assert(Seq::new(xs.len(), |i: int| le16_signed(s, doff + 2 * i) as i16) =~= xs) by {
                assert forall|i: int| 0 <= i < xs.len() implies le16_signed(s, doff + 2 * i) as i16
                    == xs[i] by {
                    lemma_i16_le_each_at(xs, i);
                    lemma_subrange_chain(s, doff, i16_le_each(xs), 2 * i, 2 * i + 2);
                    lemma_le16_signed_subrange(s, doff + 2 * i);
                    lemma_le16_of_i16(xs[i]);
                }
            }
        },
        TypedValueView::Int32(xs) => {
            let h = type_header(xs.len() as int, 3);
            lemma_i32_le_each_len(xs);
            lemma_subrange_chain(s, off, b, 0, h.len() as int);
            assert(b.subrange(0, h.len() as int) =~= h);
            lemma_decode_count(s, off, xs.len() as int, 3);
            let doff = off + h.len() as int;
            lemma_subrange_chain(s, off, b, h.len() as int, b.len() as int);
            assert(b.subrange(h.len() as int, b.len() as int) =~= i32_le_each(xs));
            assert(s.subrange(doff, doff + 4 * xs.len() as int) == i32_le_each(xs));
            assert(Seq::new(
                xs.len(),
                |i: int| crate::bam::codec::le32_signed(s, doff + 4 * i) as i32,
            ) =~= xs) by {
                assert forall|i: int| 0 <= i < xs.len() implies crate::bam::codec::le32_signed(
                    s,
                    doff + 4 * i,
                ) as i32 == xs[i] by {
                    lemma_i32_le_each_at(xs, i);
                    lemma_subrange_chain(s, doff, i32_le_each(xs), 4 * i, 4 * i + 4);
                    crate::bam::codec::lemma_le32_subrange(s, doff + 4 * i);
                    crate::bam::codec::lemma_le32_of_i32(xs[i]);
                }
            }
        },
        TypedValueView::Float(xs) => {
            let h = type_header(xs.len() as int, 5);
            lemma_u32_le_each_len(xs);
            lemma_subrange_chain(s, off, b, 0, h.len() as int);
            assert(b.subrange(0, h.len() as int) =~= h);
            lemma_decode_count(s, off, xs.len() as int, 5);
            let doff = off + h.len() as int;
            lemma_subrange_chain(s, off, b, h.len() as int, b.len() as int);
            assert(b.subrange(h.len() as int, b.len() as int) =~= u32_le_each(xs));
            assert(s.subrange(doff, doff + 4 * xs.len() as int) == u32_le_each(xs));
            assert(Seq::new(
                xs.len(),
                |i: int| crate::bam::codec::le32_value(s, doff + 4 * i) as u32,
            ) =~= xs) by {
                assert forall|i: int| 0 <= i < xs.len() implies crate::bam::codec::le32_value(
                    s,
                    doff + 4 * i,
                ) as u32 == xs[i] by {
                    lemma_u32_le_each_at(xs, i);
                    lemma_subrange_chain(s, doff, u32_le_each(xs), 4 * i, 4 * i + 4);
                    crate::bam::codec::lemma_le32_subrange(s, doff + 4 * i);
                    crate::bam::codec::lemma_le32_of_u32(xs[i]);
                }
            }
        },
        TypedValueView::Text(xs) => {
            let h = type_header(xs.len() as int, 7);
            lemma_subrange_chain(s, off, b, 0, h.len() as int);
            assert(b.subrange(0, h.len() as int) =~= h);
            lemma_decode_count(s, off, xs.len() as int, 7);
            let doff = off + h.len() as int;
            lemma_subrange_chain(s, off, b, h.len() as int, b.len() as int);
            assert(b.subrange(h.len() as int, b.len() as int) =~= xs);
            assert(s.subrange(doff, doff + xs.len() as int) == xs);
        },
    }
}


/// Reads the element count and type code of the value at `off`.
fn read_count(src: &[u8], off: usize) -> (r: Result<(usize, u8, usize), TypedError>)
    ensures
        r is Ok ==> ({
            let (count, ty, doff) = r->Ok_0;
            let b = src@[off as int];
            decode_count(src@, off as int) == Some((count as int, doff as int)) && ty == b % 16
                && doff <= src@.len() && count < 0x8000_0000
        }),
        r is Err ==> decode_count(src@, off as int) is None,
{
    if off >= src.len() {
        return Err(TypedError::UnexpectedEnd);
    }
    let tb = src[off];
    let ty = tb % 16;
    if tb / 16 < 15 {
        Ok(((tb / 16) as usize, ty, off + 1))
    } else {
        if off + 1 >= src.len() {
            return Err(TypedError::UnexpectedEnd);
        }
        let cb = src[off + 1];
        if cb == 0x11 {
            if (off as u128) + 3 <= src.len() as u128 && src[off + 2] < 0x80 {
                Ok((src[off + 2] as usize, ty, off + 3))
            } else {
                Err(TypedError::InvalidCount)
            }
        } else if cb == 0x12 {
            if (off as u128) + 4 > src.len() as u128 {
                return Err(TypedError::InvalidCount);
            }
            let w = crate::binary::get_u16_le(src, off + 2);
            proof {
                crate::bam::codec::lemma_le16_of_u16(w);
                lemma_le16_signed_subrange(src@, off as int + 2);
            }
            if w < 0x8000 {
                Ok((w as usize, ty, off + 4))
            } else {
                Err(TypedError::InvalidCount)
            }
        } else if cb == 0x13 {
            if (off as u128) + 6 > src.len() as u128 {
                return Err(TypedError::InvalidCount);
            }
            let w = crate::binary::get_u32_le(src, off + 2);
            proof {
                crate::bam::codec::lemma_le32_of_u32(w);
                crate::bam::codec::lemma_le32_subrange(src@, off as int + 2);
            }
            if w < 0x8000_0000 {
                Ok((w as usize, ty, off + 6))
            } else {
                Err(TypedError::InvalidCount)
            }
        } else {
            Err(TypedError::InvalidCount)
        }
    }
}

/// Reads the typed value at `off`, returning it with the offset just past it.
#[verifier::loop_isolation(false)]
pub fn read_typed_value(src: &[u8], off: usize) -> (r: Result<(TypedValue, usize), TypedError>)
    ensures
        r is Ok ==> ({
            let (value, end) = r->Ok_0;
            decode_typed_value(src@, off as int) == Some((value@, end as int)) && off < end <= src@.len()
        }),
        r is Err ==> decode_typed_value(src@, off as int) is None,
{
    let (count, ty, doff) = match read_count(src, off) {
        Ok(t) => t,
        Err(e) => {
            return Err(e);
        },
    };
    if ty == 0 {
        if src[off] == 0 {
            Ok((TypedValue::Missing, off + 1))
        } else {
            Err(TypedError::UnknownType)
        }
    } else if ty == 1 {
        if (doff as u128) + (count as u128) > src.len() as u128 {
            return Err(TypedError::UnexpectedEnd);
        }
        let mut xs: Vec<i8> = Vec::new();
        let ghost elems = Seq::new(count as nat, |i: int| src@[doff + i] as i8);
        let mut i: usize = 0;
        while i < count
            invariant
                i <= count,
                xs@ == elems.take(i as int),
            decreases count - i,
        {
            let b = src[doff + i];
            xs.push(b as i8);
            proof {
                assert(elems.take(i + 1) =~= elems.take(i as int).push(elems[i as int]));
            }
            i = i + 1;
        }
        proof {
            assert(elems.take(count as int) =~= elems);
        }
        Ok((TypedValue::Int8(xs), doff + count))
    } else if ty == 2 {
        if (doff as u128) + 2 * (count as u128) > src.len() as u128 {
            return Err(TypedError::UnexpectedEnd);
        }
        let mut xs: Vec<i16> = Vec::new();
        let ghost elems = Seq::new(count as nat, |i: int| le16_signed(src@, doff + 2 * i) as i16);
        let mut i: usize = 0;
        while i < count
            invariant
                i <= count,
                xs@ == elems.take(i as int),
            decreases count - i,
        {
            let w = crate::binary::get_u16_le(src, doff + 2 * i);
            proof {
                crate::bam::codec::lemma_le16_of_u16(w);
                lemma_le16_signed_subrange(src@, doff as int + 2 * (i as int));
            }
            let sval: i32 = if w < 0x8000 {
                w as i32
            } else {
                (w as i32) - 0x1_0000
            };
            xs.push(sval as i16);
            proof {
                assert(sval as i16 == elems[i as int]);
                assert(elems.take(i + 1) =~= elems.take(i as int).push(elems[i as int]));
            }
            i = i + 1;
        }
        proof {
            assert(elems.take(count as int) =~= elems);
        }
        Ok((TypedValue::Int16(xs), doff + 2 * count))
    } else if ty == 3 {
        if (doff as u128) + 4 * (count as u128) > src.len() as u128 {
            return Err(TypedError::UnexpectedEnd);
        }
        let mut xs: Vec<i32> = Vec::new();
        let ghost elems = Seq::new(
            count as nat,
            |i: int| crate::bam::codec::le32_signed(src@, doff + 4 * i) as i32,
        );
        let mut i: usize = 0;
        while i < count
            invariant
                i <= count,
                xs@ == elems.take(i as int),
            decreases count - i,
        {
            let w = crate::binary::get_u32_le(src, doff + 4 * i);
            proof {
                crate::bam::codec::lemma_le32_of_u32(w);
                crate::bam::codec::lemma_le32_subrange(src@, doff as int + 4 * (i as int));
            }
            let sval: i64 = if w < 0x8000_0000 {
                w as i64
            } else {
                (w as i64) - 0x1_0000_0000
            };
            xs.push(sval as i32);
            proof {
                assert(sval as i32 == elems[i as int]);
                assert(elems.take(i + 1) =~= elems.take(i as int).push(elems[i as int]));
            }
            i = i + 1;
        }
        proof {
            assert(elems.take(count as int) =~= elems);
        }
        Ok((TypedValue::Int32(xs), doff + 4 * count))
    } else if ty == 5 {
        if (doff as u128) + 4 * (count as u128) > src.len() as u128 {
            return Err(TypedError::UnexpectedEnd);
        }
        let mut xs: Vec<u32> = Vec::new();
        let ghost elems = Seq::new(
            count as nat,
            |i: int| crate::bam::codec::le32_value(src@, doff + 4 * i) as u32,
        );
        let mut i: usize = 0;
        while i < count
            invariant
                i <= count,
                xs@ == elems.take(i as int),
            decreases count - i,
        {
            let w = crate::binary::get_u32_le(src, doff + 4 * i);
            proof {
                crate::bam::codec::lemma_le32_of_u32(w);
                crate::bam::codec::lemma_le32_subrange(src@, doff as int + 4 * (i as int));
            }
            xs.push(w);
            proof {
                assert(w == elems[i as int]);
                assert(elems.take(i + 1) =~= elems.take(i as int).push(elems[i as int]));
            }
            i = i + 1;
        }
        proof {
            assert(elems.take(count as int) =~= elems);
        }
        Ok((TypedValue::Float(xs), doff + 4 * count))
    } else if ty == 7 {
        if (doff as u128) + (count as u128) > src.len() as u128 {
            return Err(TypedError::UnexpectedEnd);
        }
        let mut xs: Vec<u8> = Vec::new();
        let ghost elems = src@.subrange(doff as int, doff + count);
        let mut i: usize = 0;
        while i < count
            invariant
                i <= count,
                xs@ == elems.take(i as int),
            decreases count - i,
        {
            xs.push(src[doff + i]);
            proof {
                assert(elems.take(i + 1) =~= elems.take(i as int).push(elems[i as int]));
            }
            i = i + 1;
        }
        proof {
            assert(elems.take(count as int) =~= elems);
        }
        Ok((TypedValue::Text(xs), doff + count))
    } else {
        Err(TypedError::UnknownType)
    }
}

} // verus!
