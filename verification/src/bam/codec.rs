//! The byte layout of a binary alignment record: a fixed 32-byte prefix after
//! the length field, then name, CIGAR, packed bases, qualities and auxiliary
//! data.

use vstd::prelude::*;

use crate::bam::record::{
    packed_bases, record_wf, sequence_wf, spec_block_size, unpacked_bases, validate, Record,
    RecordError,
};
use crate::binary::{
    i32_le_bytes, put_bytes, put_i32_le, put_u16_le, put_u32_le, put_u8, u16_le_bytes,
    u32_le_bytes,
};

verus! {

/// The fields of a record, as mathematical values: what the byte layout
/// stores.
pub struct RecordView {
    /// The reference sequence id.
    pub ref_id: i32,
    /// The 0-based alignment start.
    pub pos: i32,
    /// The mapping quality.
    pub mapq: u8,
    /// The index bin.
    pub bin: u16,
    /// The record flags.
    pub flags: u16,
    /// The mate's reference sequence id.
    pub next_ref_id: i32,
    /// The mate's 0-based alignment start.
    pub next_pos: i32,
    /// The observed template length.
    pub tlen: i32,
    /// The read name, with its NUL terminator.
    pub read_name: Seq<u8>,
    /// The raw CIGAR operations.
    pub cigar: Seq<u32>,
    /// The 4-bit base codes.
    pub bases: Seq<u8>,
    /// The per-base quality scores; empty when missing.
    pub quality_scores: Seq<u8>,
    /// The encoded auxiliary data.
    pub data: Seq<u8>,
}

impl Record {
    /// The mathematical value of a record.
    pub open spec fn view(&self) -> RecordView {
        RecordView {
            ref_id: self.ref_id,
            pos: self.pos,
            mapq: self.mapq,
            bin: self.bin,
            flags: self.flags,
            next_ref_id: self.next_ref_id,
            next_pos: self.next_pos,
            tlen: self.tlen,
            read_name: self.read_name@,
            cigar: self.cigar@,
            bases: self.sequence@,
            quality_scores: self.quality_scores@,
            data: self.data@,
        }
    }
}

/// The little-endian bytes of each raw CIGAR operation, in order.
pub open spec fn cigar_le_bytes(ops: Seq<u32>) -> Seq<u8>
    decreases ops.len(),
{
    if ops.len() == 0 {
        Seq::empty()
    } else {
        cigar_le_bytes(ops.drop_last()) + u32_le_bytes(ops.last())
    }
}

/// Encoded CIGAR operations take four bytes each.
pub proof fn lemma_cigar_le_bytes_len(ops: Seq<u32>)
    ensures
        cigar_le_bytes(ops).len() == 4 * ops.len(),
    decreases ops.len(),
{
    if ops.len() > 0 {
        lemma_cigar_le_bytes_len(ops.drop_last());
    }
}

/// The byte at offset `4 * k` of an encoded CIGAR starts the bytes of its
/// `k`-th operation.
pub proof fn lemma_cigar_le_bytes_at(ops: Seq<u32>, k: int)
    requires
        0 <= k < ops.len(),
    ensures
        cigar_le_bytes(ops).subrange(4 * k, 4 * k + 4) == u32_le_bytes(ops[k]),
    decreases ops.len(),
{
    lemma_cigar_le_bytes_len(ops);
    lemma_cigar_le_bytes_len(ops.drop_last());
    if k == ops.len() - 1 {
        assert(cigar_le_bytes(ops).subrange(4 * k, 4 * k + 4) =~= u32_le_bytes(ops.last()));
    } else {
        lemma_cigar_le_bytes_at(ops.drop_last(), k);
        assert(ops.drop_last()[k] == ops[k]);
        assert(cigar_le_bytes(ops).subrange(4 * k, 4 * k + 4) =~= cigar_le_bytes(
            ops.drop_last(),
        ).subrange(4 * k, 4 * k + 4));
    }
}

/// The quality bytes a record emits: its scores, or one `0xff` per base when
/// they are missing.
pub open spec fn quals_emitted(v: RecordView) -> Seq<u8> {
    if v.quality_scores.len() == 0 {
        Seq::new(v.bases.len(), |i: int| 0xffu8)
    } else {
        v.quality_scores
    }
}

/// The length field's value: every byte after the length field itself.
pub open spec fn view_block_size(v: RecordView) -> int {
    32 + v.read_name.len() as int + 4 * v.cigar.len() as int + (v.bases.len() as int + 1) / 2
        + v.bases.len() as int + v.data.len() as int
}

/// The 36 bytes up to the read name: the length field and the fixed prefix.
pub open spec fn fixed_prefix(v: RecordView) -> Seq<u8> {
    u32_le_bytes(view_block_size(v) as u32) + i32_le_bytes(v.ref_id) + i32_le_bytes(v.pos) + seq![
        v.read_name.len() as u8,
    ] + seq![v.mapq] + u16_le_bytes(v.bin) + u16_le_bytes(v.cigar.len() as u16) + u16_le_bytes(
        v.flags,
    ) + u32_le_bytes(v.bases.len() as u32) + i32_le_bytes(v.next_ref_id) + i32_le_bytes(v.next_pos)
        + i32_le_bytes(v.tlen)
}

/// The whole encoding of a record.
pub open spec fn record_bytes(v: RecordView) -> Seq<u8> {
    fixed_prefix(v) + v.read_name + cigar_le_bytes(v.cigar) + packed_bases(v.bases)
        + quals_emitted(v) + v.data
}

/// Appends the encoding of a record, after checking that it can be written; a
/// record that cannot be written leaves the buffer unchanged and says why.
#[verifier::loop_isolation(false)]
pub fn write_record(buf: &mut Vec<u8>, record: &Record) -> (result: Result<(), RecordError>)
    requires
        sequence_wf(record.sequence),
    ensures
        result is Ok <==> record_wf(*record),
        result is Ok ==> final(buf)@ == old(buf)@ + record_bytes(record@),
        result is Err ==> final(buf)@ == old(buf)@,
{
    match validate(record) {
        Ok(()) => {},
        Err(e) => {
            return Err(e);
        },
    }
    proof {
        assert(record.sequence.nibbles@.len() == (record@.bases.len() + 1) / 2);
        assert(view_block_size(record@) == spec_block_size(*record));
    }
    let block_size: u64 = 32 + record.read_name.len() as u64 + 4 * (record.cigar.len() as u64)
        + record.sequence.nibbles.len() as u64 + record.sequence.len() as u64
        + record.data.len() as u64;
    put_u32_le(buf, block_size as u32);
    put_i32_le(buf, record.ref_id);
    put_i32_le(buf, record.pos);
    put_u8(buf, record.read_name.len() as u8);
    put_u8(buf, record.mapq);
    put_u16_le(buf, record.bin);
    put_u16_le(buf, record.cigar.len() as u16);
    put_u16_le(buf, record.flags);
    put_u32_le(buf, record.sequence.len() as u32);
    put_i32_le(buf, record.next_ref_id);
    put_i32_le(buf, record.next_pos);
    put_i32_le(buf, record.tlen);
    proof {
        assert(buf@ =~= old(buf)@ + fixed_prefix(record@));
    }
    put_bytes(buf, &record.read_name);
    let ghost cigar_base = buf@;
    let mut k: usize = 0;
    proof {
        assert(buf@ =~= cigar_base + cigar_le_bytes(record.cigar@.take(0)));
    }
    while k < record.cigar.len()
        invariant
            k <= record.cigar@.len(),
            buf@ == cigar_base + cigar_le_bytes(record.cigar@.take(k as int)),
        decreases record.cigar@.len() - k,
    {
        put_u32_le(buf, record.cigar[k]);
        proof {
            assert(record.cigar@.take(k + 1).drop_last() =~= record.cigar@.take(k as int));
            assert(record.cigar@.take(k + 1).last() == record.cigar@[k as int]);
            assert(buf@ =~= cigar_base + cigar_le_bytes(record.cigar@.take(k + 1)));
        }
        k = k + 1;
    }
    proof {
        assert(record.cigar@.take(record.cigar@.len() as int) =~= record.cigar@);
    }
    put_bytes(buf, &record.sequence.nibbles);
    if record.quality_scores.len() == 0 {
        let ghost qual_base = buf@;
        let l_seq = record.sequence.len();
        let mut q: usize = 0;
        proof {
            assert(buf@ =~= qual_base + Seq::new(0nat, |i: int| 0xffu8));
        }
        while q < l_seq
            invariant
                q <= l_seq,
                buf@ == qual_base + Seq::new(q as nat, |i: int| 0xffu8),
            decreases l_seq - q,
        {
            buf.push(0xff);
            proof {
                assert(buf@ =~= qual_base + Seq::new((q + 1) as nat, |i: int| 0xffu8));
            }
            q = q + 1;
        }
        proof {
            assert(Seq::new(l_seq as nat, |i: int| 0xffu8) =~= quals_emitted(record@));
        }
    } else {
        put_bytes(buf, &record.quality_scores);
    }
    put_bytes(buf, &record.data);
    proof {
        assert(final(buf)@ =~= old(buf)@ + record_bytes(record@));
    }
    Ok(())
}

/// The value of the four little-endian bytes at `off`.
pub open spec fn le32_value(s: Seq<u8>, off: int) -> int {
    s[off] + 0x100 * s[off + 1] + 0x1_0000 * s[off + 2] + 0x100_0000 * s[off + 3]
}

/// The value of the two little-endian bytes at `off`.
pub open spec fn le16_value(s: Seq<u8>, off: int) -> int {
    s[off] + 0x100 * s[off + 1]
}

/// The two's-complement value of the four little-endian bytes at `off`.
pub open spec fn le32_signed(s: Seq<u8>, off: int) -> int {
    if le32_value(s, off) < 0x8000_0000 {
        le32_value(s, off)
    } else {
        le32_value(s, off) - 0x1_0000_0000
    }
}

/// Reading back the little-endian bytes of a `u32` gives the value.
pub proof fn lemma_le32_of_u32(n: u32)
    ensures
        le32_value(u32_le_bytes(n), 0) == n,
{
    assert(((n & 0xff) as u8) + 0x100 * (((n >> 8) & 0xff) as u8) + 0x1_0000 * (((n >> 16)
        & 0xff) as u8) + 0x100_0000 * (((n >> 24) & 0xff) as u8) == n) by (bit_vector);
}

/// Reading back the little-endian bytes of a `u16` gives the value.
pub proof fn lemma_le16_of_u16(n: u16)
    ensures
        le16_value(u16_le_bytes(n), 0) == n,
{
    assert(((n & 0xff) as u8) + 0x100 * (((n >> 8) & 0xff) as u8) == n) by (bit_vector);
}

/// Reading back the little-endian bytes of an `i32` gives the value, through
/// two's complement.
pub proof fn lemma_le32_of_i32(n: i32)
    ensures
        le32_signed(i32_le_bytes(n), 0) == n,
{
    lemma_le32_of_u32(n as u32);
    assert(n >= 0 ==> n as u32 == n as int) by (bit_vector);
    assert(n < 0 ==> n as u32 == n as int + 0x1_0000_0000) by (bit_vector);
}

/// Whether every byte of a run is the missing-quality marker.
pub open spec fn all_missing(q: Seq<u8>) -> bool {
    forall|i: int| 0 <= i < q.len() ==> q[i] == 0xffu8
}

/// Decodes a record from its exact encoding: the inverse of the byte layout,
/// or nothing when the lengths do not knit together.
pub open spec fn decode_record(s: Seq<u8>) -> Option<RecordView> {
    if s.len() < 36 {
        None
    } else {
        let block_size = le32_value(s, 0);
        let l_read_name = s[12] as int;
        let n_cigar = le16_value(s, 16);
        let l_seq = le32_value(s, 20);
        let n_nib = (l_seq + 1) / 2;
        let cigar_off = 36 + l_read_name;
        let seq_off = cigar_off + 4 * n_cigar;
        let qual_off = seq_off + n_nib;
        let data_off = qual_off + l_seq;
        if s.len() != block_size + 4 || data_off > s.len() {
            None
        } else {
            let quals = s.subrange(qual_off, data_off);
            Some(
                RecordView {
                    ref_id: le32_signed(s, 4) as i32,
                    pos: le32_signed(s, 8) as i32,
                    mapq: s[13],
                    bin: le16_value(s, 14) as u16,
                    flags: le16_value(s, 18) as u16,
                    next_ref_id: le32_signed(s, 24) as i32,
                    next_pos: le32_signed(s, 28) as i32,
                    tlen: le32_signed(s, 32) as i32,
                    read_name: s.subrange(36, cigar_off),
                    cigar: Seq::new(
                        n_cigar as nat,
                        |k: int| le32_value(s, cigar_off + 4 * k) as u32,
                    ),
                    bases: unpacked_bases(s.subrange(seq_off, qual_off), l_seq),
                    quality_scores: if l_seq > 0 && all_missing(quals) {
                        Seq::empty()
                    } else {
                        quals
                    },
                    data: s.subrange(data_off, s.len() as int),
                },
            )
        }
    }
}

/// LAW OF THE RECORD ROUND TRIP. Decoding the encoding of any writable record
/// gives the record back. The one family of records left out: a record whose
/// quality scores are present but all `0xff`, the marker the layout reserves
/// for missing scores.
pub proof fn lemma_record_round_trip(r: Record)
    requires
        record_wf(r),
        r.quality_scores@.len() > 0 ==> !all_missing(r.quality_scores@),
    ensures
        decode_record(record_bytes(r@)) == Some(r@),
{
    let v = r@;
    let s = record_bytes(v);
    let fp = fixed_prefix(v);
    lemma_cigar_le_bytes_len(v.cigar);
    assert(sequence_wf(r.sequence));
    assert(r.sequence.nibbles@ == packed_bases(v.bases));
    assert(packed_bases(v.bases).len() == (v.bases.len() + 1) / 2);
    assert(quals_emitted(v).len() == v.bases.len());
    assert(fp.len() == 36);
    assert(s.len() == 36 + v.read_name.len() + 4 * v.cigar.len() + (v.bases.len() + 1) / 2
        + v.bases.len() + v.data.len());
    // the fixed fields
    assert(s.subrange(0, 36) =~= fp);
    assert(fp.subrange(0, 4) =~= u32_le_bytes(view_block_size(v) as u32));
    assert(fp.subrange(4, 8) =~= i32_le_bytes(v.ref_id));
    assert(fp.subrange(8, 12) =~= i32_le_bytes(v.pos));
    assert(fp[12] == v.read_name.len() as u8);
    assert(fp[13] == v.mapq);
    assert(fp.subrange(14, 16) =~= u16_le_bytes(v.bin));
    assert(fp.subrange(16, 18) =~= u16_le_bytes(v.cigar.len() as u16));
    assert(fp.subrange(18, 20) =~= u16_le_bytes(v.flags));
    assert(fp.subrange(20, 24) =~= u32_le_bytes(v.bases.len() as u32));
    assert(fp.subrange(24, 28) =~= i32_le_bytes(v.next_ref_id));
    assert(fp.subrange(28, 32) =~= i32_le_bytes(v.next_pos));
    assert(fp.subrange(32, 36) =~= i32_le_bytes(v.tlen));
    lemma_le32_subrange(s, 0);
    lemma_le32_subrange(s, 4);
    lemma_le32_subrange(s, 8);
    lemma_le16_subrange(s, 14);
    lemma_le16_subrange(s, 16);
    lemma_le16_subrange(s, 18);
    lemma_le32_subrange(s, 20);
    lemma_le32_subrange(s, 24);
    lemma_le32_subrange(s, 28);
    lemma_le32_subrange(s, 32);
    assert(s.subrange(0, 4) =~= fp.subrange(0, 4));
    assert(s.subrange(4, 8) =~= fp.subrange(4, 8));
    assert(s.subrange(8, 12) =~= fp.subrange(8, 12));
    assert(s.subrange(14, 16) =~= fp.subrange(14, 16));
    assert(s.subrange(16, 18) =~= fp.subrange(16, 18));
    assert(s.subrange(18, 20) =~= fp.subrange(18, 20));
    assert(s.subrange(20, 24) =~= fp.subrange(20, 24));
    assert(s.subrange(24, 28) =~= fp.subrange(24, 28));
    assert(s.subrange(28, 32) =~= fp.subrange(28, 32));
    assert(s.subrange(32, 36) =~= fp.subrange(32, 36));
    lemma_le32_of_u32(view_block_size(v) as u32);
    lemma_le32_of_i32(v.ref_id);
    lemma_le32_of_i32(v.pos);
    lemma_le16_of_u16(v.bin);
    lemma_le16_of_u16(v.cigar.len() as u16);
    lemma_le16_of_u16(v.flags);
    lemma_le32_of_u32(v.bases.len() as u32);
    lemma_le32_of_i32(v.next_ref_id);
    lemma_le32_of_i32(v.next_pos);
    lemma_le32_of_i32(v.tlen);
    assert(le32_value(s, 0) == view_block_size(v));
    assert(s[12] == v.read_name.len() as u8 && s[13] == v.mapq);
    assert(le16_value(s, 16) == v.cigar.len());
    assert(le32_value(s, 20) == v.bases.len());
    // the variable parts
    let cigar_off = 36 + v.read_name.len() as int;
    let seq_off = cigar_off + 4 * v.cigar.len() as int;
    let qual_off = seq_off + (v.bases.len() as int + 1) / 2;
    let data_off = qual_off + v.bases.len() as int;
    assert(s.subrange(36, cigar_off) =~= v.read_name);
    assert(s.subrange(cigar_off, seq_off) =~= cigar_le_bytes(v.cigar));
    assert(s.subrange(seq_off, qual_off) =~= packed_bases(v.bases));
    assert(s.subrange(qual_off, data_off) =~= quals_emitted(v));
    assert(s.subrange(data_off, s.len() as int) =~= v.data);
    // CIGAR operations, one by one
    assert(Seq::new(v.cigar.len(), |k: int| le32_value(s, cigar_off + 4 * k) as u32)
        =~= v.cigar) by {
        assert forall|k: int| 0 <= k < v.cigar.len() implies le32_value(s, cigar_off + 4 * k) as u32
            == v.cigar[k] by {
            lemma_cigar_le_bytes_at(v.cigar, k);
            assert(s.subrange(cigar_off + 4 * k, cigar_off + 4 * k + 4) =~= cigar_le_bytes(
                v.cigar,
            ).subrange(4 * k, 4 * k + 4));
            lemma_le32_subrange(s, cigar_off + 4 * k);
            lemma_le32_of_u32(v.cigar[k]);
        }
    }
    // bases
    assert(unpacked_bases(packed_bases(v.bases), v.bases.len() as int) == v.bases) by {
        crate::bam::record::lemma_nibble_round_trip(v.bases);
    }
    // qualities
    if v.quality_scores.len() == 0 {
        assert(all_missing(quals_emitted(v)));
        if v.bases.len() > 0 {
            assert(decode_record(s)->0.quality_scores =~= v.quality_scores);
        } else {
            assert(quals_emitted(v) =~= v.quality_scores);
        }
    }
    let decoded = decode_record(s)->0;
    assert(decoded.read_name == v.read_name);
    assert(decoded.cigar == v.cigar);
    assert(decoded.bases == v.bases);
    assert(decoded.quality_scores == v.quality_scores);
    assert(decoded.data == v.data);
    assert(decode_record(s) is Some);
    assert(decoded == v);
}

/// The four bytes at `off` determine the value read there.
pub proof fn lemma_le32_subrange(s: Seq<u8>, off: int)
    requires
        0 <= off,
        off + 4 <= s.len(),
    ensures
        le32_value(s, off) == le32_value(s.subrange(off, off + 4), 0),
{
}

/// The two bytes at `off` determine the value read there.
pub proof fn lemma_le16_subrange(s: Seq<u8>, off: int)
    requires
        0 <= off,
        off + 2 <= s.len(),
    ensures
        le16_value(s, off) == le16_value(s.subrange(off, off + 2), 0),
{
}

} // verus!
