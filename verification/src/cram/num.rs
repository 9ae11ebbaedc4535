//! The container format's variable-length integers: one to five bytes for a
//! 32-bit value, one to nine for a 64-bit one, the first byte's leading ones
//! giving the length.

use vstd::prelude::*;

verus! {

/// The encoding of a 32-bit value, by bit pattern: its magnitude picks one of
/// five lengths.
pub open spec fn itf8_bytes(v: u32) -> Seq<u8> {
    if v < 0x80 {
        seq![v as u8]
    } else if v < 0x4000 {
        seq![((v >> 8) | 0x80) as u8, (v & 0xff) as u8]
    } else if v < 0x20_0000 {
        seq![((v >> 16) | 0xc0) as u8, ((v >> 8) & 0xff) as u8, (v & 0xff) as u8]
    } else if v < 0x1000_0000 {
        seq![
            ((v >> 24) | 0xe0) as u8,
            ((v >> 16) & 0xff) as u8,
            ((v >> 8) & 0xff) as u8,
            (v & 0xff) as u8,
        ]
    } else {
        seq![
            ((v >> 28) | 0xf0) as u8,
            ((v >> 20) & 0xff) as u8,
            ((v >> 12) & 0xff) as u8,
            ((v >> 4) & 0xff) as u8,
            (v & 0x0f) as u8,
        ]
    }
}

/// The value at `off` and the offset just past it; nothing when the input
/// ends inside the value.
pub open spec fn itf8_decode(s: Seq<u8>, off: int) -> Option<(u32, int)> {
    if off < 0 || off >= s.len() {
        None
    } else {
        let b0 = s[off];
        if b0 < 0x80 {
            Some((b0 as u32, off + 1))
        } else if b0 < 0xc0 {
            if off + 2 <= s.len() {
                Some(((((b0 & 0x7f) as u32) << 8) | (s[off + 1] as u32), off + 2))
            } else {
                None
            }
        } else if b0 < 0xe0 {
            if off + 3 <= s.len() {
                Some(
                    (
                        (((b0 & 0x3f) as u32) << 16) | ((s[off + 1] as u32) << 8) | (s[off
                            + 2] as u32),
                        off + 3,
                    ),
                )
            } else {
                None
            }
        } else if b0 < 0xf0 {
            if off + 4 <= s.len() {
                Some(
                    (
                        (((b0 & 0x1f) as u32) << 24) | ((s[off + 1] as u32) << 16) | ((s[off
                            + 2] as u32) << 8) | (s[off + 3] as u32),
                        off + 4,
                    ),
                )
            } else {
                None
            }
        } else {
            if off + 5 <= s.len() {
                Some(
                    (
                        (((b0 & 0x0f) as u32) << 28) | ((s[off + 1] as u32) << 20) | ((s[off
                            + 2] as u32) << 12) | ((s[off + 3] as u32) << 4) | ((s[off + 4]
                            & 0x0f) as u32),
                        off + 5,
                    ),
                )
            } else {
                None
            }
        }
    }
}

/// LAW OF THE 32-BIT INTEGER ROUND TRIP. Wherever an encoded value sits in a
/// byte run, decoding at its first byte gives the value back and stops just
/// past it.
pub proof fn lemma_itf8_round_trip(s: Seq<u8>, off: int, v: u32)
    requires
        0 <= off,
        off + itf8_bytes(v).len() <= s.len(),
        s.subrange(off, off + itf8_bytes(v).len() as int) == itf8_bytes(v),
    ensures
        itf8_decode(s, off) == Some((v, off + itf8_bytes(v).len() as int)),
{
    let b = itf8_bytes(v);
    assert forall|j: int| 0 <= j < b.len() implies s[off + j] == b[j] by {
        assert(s.subrange(off, off + b.len() as int)[j] == s[off + j]);
    }
    if v < 0x80 {
        assert(s[off + 0] == b[0]);
        assert(b[0] == v as u8);
        assert((v as u8) < 0x80 && ((v as u8) as u32) == v) by (bit_vector)
            requires
                v < 0x80,
        ;
    } else if v < 0x4000 {
        assert(s[off + 0] == b[0] && s[off + 1] == b[1]);
        let b0 = ((v >> 8) | 0x80) as u8;
        let b1 = (v & 0xff) as u8;
        assert(0x80 <= b0 < 0xc0 && ((((b0 & 0x7f) as u32) << 8) | (b1 as u32)) == v)
            by (bit_vector)
            requires
                b0 == ((v >> 8) | 0x80) as u8 && b1 == (v & 0xff) as u8 && 0x80 <= v < 0x4000,
        ;
    } else if v < 0x20_0000 {
        assert(s[off + 0] == b[0] && s[off + 1] == b[1] && s[off + 2] == b[2]);
        let b0 = ((v >> 16) | 0xc0) as u8;
        let b1 = ((v >> 8) & 0xff) as u8;
        let b2 = (v & 0xff) as u8;
        assert(0xc0 <= b0 < 0xe0 && ((((b0 & 0x3f) as u32) << 16) | ((b1 as u32) << 8) | (
        b2 as u32)) == v) by (bit_vector)
            requires
                b0 == ((v >> 16) | 0xc0) as u8 && b1 == ((v >> 8) & 0xff) as u8 && b2 == (v
                    & 0xff) as u8 && 0x4000 <= v < 0x20_0000,
        ;
    } else if v < 0x1000_0000 {
        assert(s[off + 0] == b[0] && s[off + 1] == b[1] && s[off + 2] == b[2] && s[off + 3]
            == b[3]);
        let b0 = ((v >> 24) | 0xe0) as u8;
        let b1 = ((v >> 16) & 0xff) as u8;
        let b2 = ((v >> 8) & 0xff) as u8;
        let b3 = (v & 0xff) as u8;
        assert(0xe0 <= b0 < 0xf0 && ((((b0 & 0x1f) as u32) << 24) | ((b1 as u32) << 16) | ((
        b2 as u32) << 8) | (b3 as u32)) == v) by (bit_vector)
            requires
                b0 == ((v >> 24) | 0xe0) as u8 && b1 == ((v >> 16) & 0xff) as u8 && b2 == ((v >> 8)
                    & 0xff) as u8 && b3 == (v & 0xff) as u8 && 0x20_0000 <= v < 0x1000_0000,
        ;
    } else {
        assert(s[off + 0] == b[0] && s[off + 1] == b[1] && s[off + 2] == b[2] && s[off + 3] == b[3]
            && s[off + 4] == b[4]);
        let b0 = ((v >> 28) | 0xf0) as u8;
        let b1 = ((v >> 20) & 0xff) as u8;
        let b2 = ((v >> 12) & 0xff) as u8;
        let b3 = ((v >> 4) & 0xff) as u8;
        let b4 = (v & 0x0f) as u8;
        assert(0xf0 <= b0 && ((((b0 & 0x0f) as u32) << 28) | ((b1 as u32) << 20) | ((b2 as u32)
            << 12) | ((b3 as u32) << 4) | ((b4 & 0x0f) as u32)) == v) by (bit_vector)
            requires
                b0 == ((v >> 28) | 0xf0) as u8 && b1 == ((v >> 20) & 0xff) as u8 && b2 == ((v >> 12)
                    & 0xff) as u8 && b3 == ((v >> 4) & 0xff) as u8 && b4 == (v & 0x0f) as u8
                    && 0x1000_0000 <= v,
        ;
    }
}

/// Appends the encoding of a 32-bit value.
pub fn write_itf8(buf: &mut Vec<u8>, value: i32)
    ensures
        final(buf)@ == old(buf)@ + itf8_bytes(value as u32),
{
    let v = value as u32;
    if v < 0x80 {
        buf.push(v as u8);
    } else if v < 0x4000 {
        buf.push(((v >> 8) | 0x80) as u8);
        buf.push((v & 0xff) as u8);
    } else if v < 0x20_0000 {
        buf.push(((v >> 16) | 0xc0) as u8);
        buf.push(((v >> 8) & 0xff) as u8);
        buf.push((v & 0xff) as u8);
    } else if v < 0x1000_0000 {
        buf.push(((v >> 24) | 0xe0) as u8);
        buf.push(((v >> 16) & 0xff) as u8);
        buf.push(((v >> 8) & 0xff) as u8);
        buf.push((v & 0xff) as u8);
    } else {
        buf.push(((v >> 28) | 0xf0) as u8);
        buf.push(((v >> 20) & 0xff) as u8);
        buf.push(((v >> 12) & 0xff) as u8);
        buf.push(((v >> 4) & 0xff) as u8);
        buf.push((v & 0x0f) as u8);
    }
    proof {
        assert(final(buf)@ =~= old(buf)@ + itf8_bytes(value as u32));
    }
}

/// Why a variable-length integer cannot be read.
#[derive(Clone, Copy, Debug, PartialEq, Eq, Structural)]
pub enum NumError {
    /// The input ends inside a value.
    UnexpectedEnd,
}

/// Reads the 32-bit value at `off`, returning it with the offset just past
/// it.
pub fn read_itf8(src: &[u8], off: usize) -> (r: Result<(i32, usize), NumError>)
    ensures
        r is Ok ==> ({
            let (value, end) = r->Ok_0;
            itf8_decode(src@, off as int) == Some((value as u32, end as int)) && off < end
                <= src@.len()
        }),
        r is Err ==> itf8_decode(src@, off as int) is None,
{
    if off >= src.len() {
        return Err(NumError::UnexpectedEnd);
    }
    let b0 = src[off];
    if b0 < 0x80 {
        let v = b0 as u32;
        proof {
            assert(v as i32 as u32 == v) by (bit_vector)
                requires
                    v < 0x80,
            ;
        }
        Ok((v as i32, off + 1))
    } else if b0 < 0xc0 {
        if (off as u128) + 2 > src.len() as u128 {
            return Err(NumError::UnexpectedEnd);
        }
        let v = (((b0 & 0x7f) as u32) << 8) | (src[off + 1] as u32);
        proof {
            assert(v as i32 as u32 == v) by (bit_vector);
        }
        Ok((v as i32, off + 2))
    } else if b0 < 0xe0 {
        if (off as u128) + 3 > src.len() as u128 {
            return Err(NumError::UnexpectedEnd);
        }
        let v = (((b0 & 0x3f) as u32) << 16) | ((src[off + 1] as u32) << 8) | (src[off
            + 2] as u32);
        proof {
            assert(v as i32 as u32 == v) by (bit_vector);
        }
        Ok((v as i32, off + 3))
    } else if b0 < 0xf0 {
        if (off as u128) + 4 > src.len() as u128 {
            return Err(NumError::UnexpectedEnd);
        }
        let v = (((b0 & 0x1f) as u32) << 24) | ((src[off + 1] as u32) << 16) | ((src[off
            + 2] as u32) << 8) | (src[off + 3] as u32);
        proof {
            assert(v as i32 as u32 == v) by (bit_vector);
        }
        Ok((v as i32, off + 4))
    } else {
        if (off as u128) + 5 > src.len() as u128 {
            return Err(NumError::UnexpectedEnd);
        }
        let v = (((b0 & 0x0f) as u32) << 28) | ((src[off + 1] as u32) << 20) | ((src[off
            + 2] as u32) << 12) | ((src[off + 3] as u32) << 4) | ((src[off + 4] & 0x0f) as u32);
        proof {
            assert(v as i32 as u32 == v) by (bit_vector);
        }
        Ok((v as i32, off + 5))
    }
}


/// The 64-bit value at `off` and the offset just past it; nothing when the
/// input ends inside the value. The first byte's leading ones give the
/// length, up to nine bytes.
pub open spec fn ltf8_decode(s: Seq<u8>, off: int) -> Option<(u64, int)> {
    if off < 0 || off >= s.len() {
        None
    } else {
        let b0 = s[off];
        if b0 < 0x80 {
            Some((b0 as u64, off + 1))
        } else if b0 < 0xc0 {
            if off + 2 <= s.len() {
                Some(((((b0 & 0x7f) as u64) << 8) | (s[off + 1] as u64), off + 2))
            } else {
                None
            }
        } else if b0 < 0xe0 {
            if off + 3 <= s.len() {
                Some(
                    (
                        (((b0 & 0x3f) as u64) << 16) | ((s[off + 1] as u64) << 8) | (s[off
                            + 2] as u64),
                        off + 3,
                    ),
                )
            } else {
                None
            }
        } else if b0 < 0xf0 {
            if off + 4 <= s.len() {
                Some(
                    (
                        (((b0 & 0x1f) as u64) << 24) | ((s[off + 1] as u64) << 16) | ((s[off
                            + 2] as u64) << 8) | (s[off + 3] as u64),
                        off + 4,
                    ),
                )
            } else {
                None
            }
        } else if b0 < 0xf8 {
            if off + 5 <= s.len() {
                Some(
                    (
                        (((b0 & 0x0f) as u64) << 32) | ((s[off + 1] as u64) << 24) | ((s[off
                            + 2] as u64) << 16) | ((s[off + 3] as u64) << 8) | (s[off + 4] as u64),
                        off + 5,
                    ),
                )
            } else {
                None
            }
        } else if b0 < 0xfc {
            if off + 6 <= s.len() {
                Some(
                    (
                        (((b0 & 0x07) as u64) << 40) | ((s[off + 1] as u64) << 32) | ((s[off
                            + 2] as u64) << 24) | ((s[off + 3] as u64) << 16) | ((s[off
                            + 4] as u64) << 8) | (s[off + 5] as u64),
                        off + 6,
                    ),
                )
            } else {
                None
            }
        } else if b0 < 0xfe {
            if off + 7 <= s.len() {
                Some(
                    (
                        (((b0 & 0x03) as u64) << 48) | ((s[off + 1] as u64) << 40) | ((s[off
                            + 2] as u64) << 32) | ((s[off + 3] as u64) << 24) | ((s[off
                            + 4] as u64) << 16) | ((s[off + 5] as u64) << 8) | (s[off + 6] as u64),
                        off + 7,
                    ),
                )
            } else {
                None
            }
        } else if b0 == 0xfe {
            if off + 8 <= s.len() {
                Some(
                    (
                        ((s[off + 1] as u64) << 48) | ((s[off + 2] as u64) << 40) | ((s[off
                            + 3] as u64) << 32) | ((s[off + 4] as u64) << 24) | ((s[off
                            + 5] as u64) << 16) | ((s[off + 6] as u64) << 8) | (s[off + 7] as u64),
                        off + 8,
                    ),
                )
            } else {
                None
            }
        } else {
            if off + 9 <= s.len() {
                Some(
                    (
                        ((s[off + 1] as u64) << 56) | ((s[off + 2] as u64) << 48) | ((s[off
                            + 3] as u64) << 40) | ((s[off + 4] as u64) << 32) | ((s[off
                            + 5] as u64) << 24) | ((s[off + 6] as u64) << 16) | ((s[off
                            + 7] as u64) << 8) | (s[off + 8] as u64),
                        off + 9,
                    ),
                )
            } else {
                None
            }
        }
    }
}

/// Reads the 64-bit value at `off`, returning it with the offset just past
/// it.
pub fn read_ltf8(src: &[u8], off: usize) -> (r: Result<(i64, usize), NumError>)
    ensures
        r is Ok ==> ({
            let (value, end) = r->Ok_0;
            ltf8_decode(src@, off as int) == Some((value as u64, end as int)) && off < end
                <= src@.len()
        }),
        r is Err ==> ltf8_decode(src@, off as int) is None,
{
    if off >= src.len() {
        return Err(NumError::UnexpectedEnd);
    }
    let b0 = src[off];
    let width: usize = if b0 < 0x80 {
        1
    } else if b0 < 0xc0 {
        2
    } else if b0 < 0xe0 {
        3
    } else if b0 < 0xf0 {
        4
    } else if b0 < 0xf8 {
        5
    } else if b0 < 0xfc {
        6
    } else if b0 < 0xfe {
        7
    } else if b0 == 0xfe {
        8
    } else {
        9
    };
    if (off as u128) + (width as u128) > src.len() as u128 {
        return Err(NumError::UnexpectedEnd);
    }
    let v: u64 = if b0 < 0x80 {
        b0 as u64
    } else if b0 < 0xc0 {
        (((b0 & 0x7f) as u64) << 8) | (src[off + 1] as u64)
    } else if b0 < 0xe0 {
        (((b0 & 0x3f) as u64) << 16) | ((src[off + 1] as u64) << 8) | (src[off + 2] as u64)
    } else if b0 < 0xf0 {
        (((b0 & 0x1f) as u64) << 24) | ((src[off + 1] as u64) << 16) | ((src[off + 2] as u64) << 8)
            | (src[off + 3] as u64)
    } else if b0 < 0xf8 {
        (((b0 & 0x0f) as u64) << 32) | ((src[off + 1] as u64) << 24) | ((src[off + 2] as u64) << 16)
            | ((src[off + 3] as u64) << 8) | (src[off + 4] as u64)
    } else if b0 < 0xfc {
        (((b0 & 0x07) as u64) << 40) | ((src[off + 1] as u64) << 32) | ((src[off + 2] as u64) << 24)
            | ((src[off + 3] as u64) << 16) | ((src[off + 4] as u64) << 8) | (src[off + 5] as u64)
    } else if b0 < 0xfe {
        (((b0 & 0x03) as u64) << 48) | ((src[off + 1] as u64) << 40) | ((src[off + 2] as u64) << 32)
            | ((src[off + 3] as u64) << 24) | ((src[off + 4] as u64) << 16) | ((src[off
            + 5] as u64) << 8) | (src[off + 6] as u64)
    } else if b0 == 0xfe {
        ((src[off + 1] as u64) << 48) | ((src[off + 2] as u64) << 40) | ((src[off + 3] as u64)
            << 32) | ((src[off + 4] as u64) << 24) | ((src[off + 5] as u64) << 16) | ((src[off
            + 6] as u64) << 8) | (src[off + 7] as u64)
    } else {
        ((src[off + 1] as u64) << 56) | ((src[off + 2] as u64) << 48) | ((src[off + 3] as u64)
            << 40) | ((src[off + 4] as u64) << 32) | ((src[off + 5] as u64) << 24) | ((src[off
            + 6] as u64) << 16) | ((src[off + 7] as u64) << 8) | (src[off + 8] as u64)
    };
    proof {
        assert(v as i64 as u64 == v) by (bit_vector);
    }
    Ok((v as i64, off + width))
}

} // verus!
