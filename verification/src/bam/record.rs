//! The binary alignment record: packed bases, raw CIGAR operations, and the
//! fixed fields of the record prefix.

use vstd::prelude::*;

use crate::sam::cigar::Kind;

verus! {

/// The base alphabet, by 4-bit code: `=ACMGRSVTWYHKDBN`.
pub open spec fn base_char(code: u8) -> u8 {
    if code == 0 {
        0x3d
    } else if code == 1 {
        0x41
    } else if code == 2 {
        0x43
    } else if code == 3 {
        0x4d
    } else if code == 4 {
        0x47
    } else if code == 5 {
        0x52
    } else if code == 6 {
        0x53
    } else if code == 7 {
        0x56
    } else if code == 8 {
        0x54
    } else if code == 9 {
        0x57
    } else if code == 10 {
        0x59
    } else if code == 11 {
        0x48
    } else if code == 12 {
        0x4b
    } else if code == 13 {
        0x44
    } else if code == 14 {
        0x42
    } else {
        0x4e
    }
}

/// Returns the letter of a 4-bit base code.
pub fn base_to_char(code: u8) -> (c: u8)
    requires
        code < 16,
    ensures
        c == base_char(code),
{
    if code == 0 {
        0x3d
    } else if code == 1 {
        0x41
    } else if code == 2 {
        0x43
    } else if code == 3 {
        0x4d
    } else if code == 4 {
        0x47
    } else if code == 5 {
        0x52
    } else if code == 6 {
        0x53
    } else if code == 7 {
        0x56
    } else if code == 8 {
        0x54
    } else if code == 9 {
        0x57
    } else if code == 10 {
        0x59
    } else if code == 11 {
        0x48
    } else if code == 12 {
        0x4b
    } else if code == 13 {
        0x44
    } else if code == 14 {
        0x42
    } else {
        0x4e
    }
}

/// Returns the 4-bit code of a base letter, when the letter is in the
/// alphabet.
pub fn char_to_base(c: u8) -> (r: Option<u8>)
    ensures
        r is Some <==> exists|code: u8| code < 16 && base_char(code) == c,
        r is Some ==> r->0 < 16 && base_char(r->0) == c,
{
    let code: u8 = if c == 0x3d {
        0
    } else if c == 0x41 {
        1
    } else if c == 0x43 {
        2
    } else if c == 0x4d {
        3
    } else if c == 0x47 {
        4
    } else if c == 0x52 {
        5
    } else if c == 0x53 {
        6
    } else if c == 0x56 {
        7
    } else if c == 0x54 {
        8
    } else if c == 0x57 {
        9
    } else if c == 0x59 {
        10
    } else if c == 0x48 {
        11
    } else if c == 0x4b {
        12
    } else if c == 0x44 {
        13
    } else if c == 0x42 {
        14
    } else if c == 0x4e {
        15
    } else {
        16
    };
    if code < 16 {
        proof {
            assert(base_char(code) == c);
        }
        Some(code)
    } else {
        proof {
            assert forall|k: u8| k < 16 implies #[trigger] base_char(k) != c by {}
        }
        None
    }
}

/// The packed bases of a sequence of the given length: two 4-bit codes per
/// byte, high nibble first, the final low nibble zero when the length is odd.
pub open spec fn packed_bases(bases: Seq<u8>) -> Seq<u8> {
    Seq::new(
        (bases.len() + 1) / 2,
        |i: int|
            ((bases[2 * i] * 16) + if 2 * i + 1 < bases.len() {
                bases[2 * i + 1] as int
            } else {
                0
            }) as u8,
    )
}

/// The 4-bit codes stored in packed bases: the high then low nibble of each
/// byte, the trailing nibble dropped when the length is odd.
pub open spec fn unpacked_bases(packed: Seq<u8>, len: int) -> Seq<u8> {
    Seq::new(
        len as nat,
        |i: int|
            if i % 2 == 0 {
                (packed[i / 2] / 16) as u8
            } else {
                (packed[i / 2] % 16) as u8
            },
    )
}

/// LAW OF THE NIBBLE ROUND TRIP. Packing any run of 4-bit base codes and
/// unpacking it again gives the run back.
pub proof fn lemma_nibble_round_trip(bases: Seq<u8>)
    requires
        forall|i: int| 0 <= i < bases.len() ==> bases[i] < 16,
    ensures
        unpacked_bases(packed_bases(bases), bases.len() as int) == bases,
{
    let packed = packed_bases(bases);
    assert forall|i: int| 0 <= i < bases.len() implies unpacked_bases(
        packed,
        bases.len() as int,
    )[i] == bases[i] by {
        let hi = bases[2 * (i / 2)] as int;
        let lo = if 2 * (i / 2) + 1 < bases.len() {
            bases[2 * (i / 2) + 1] as int
        } else {
            0
        };
        assert(packed[i / 2] == (hi * 16 + lo) as u8);
        assert(0 <= hi < 16 && 0 <= lo < 16);
        assert((hi * 16 + lo) / 16 == hi && (hi * 16 + lo) % 16 == lo) by (nonlinear_arith)
            requires
                0 <= hi < 16 && 0 <= lo < 16,
        ;
    }
    assert(unpacked_bases(packed, bases.len() as int) =~= bases);
}

/// A read sequence, packed two bases per byte.
#[derive(Clone, Debug)]
pub struct Sequence {
    /// The packed bases.
    pub nibbles: Vec<u8>,
    /// How many bases the sequence holds.
    pub base_count: usize,
}

/// Whether the packed bytes agree with the base count: one byte per two bases,
/// every nibble a 4-bit code, and the pad nibble zero.
pub open spec fn sequence_wf(s: Sequence) -> bool {
    s.nibbles@ == packed_bases(s@) && forall|i: int| 0 <= i < s@.len() ==> s@[i] < 16
}

impl Sequence {
    /// The 4-bit base codes this sequence holds.
    pub open spec fn view(&self) -> Seq<u8> {
        unpacked_bases(self.nibbles@, self.base_count as int)
    }

    /// Creates an empty sequence.
    pub fn new() -> (s: Sequence)
        ensures
            s@.len() == 0,
            s.base_count == 0,
            sequence_wf(s),
    {
        let s = Sequence { nibbles: Vec::new(), base_count: 0 };
        proof {
            assert(s.nibbles@ =~= packed_bases(s@));
        }
        s
    }

    /// Returns how many bases the sequence holds.
    pub fn len(&self) -> (n: usize)
        ensures
            n == self.base_count,
    {
        self.base_count
    }

    /// Returns the base code at an index.
    pub fn get(&self, i: usize) -> (b: u8)
        requires
            sequence_wf(*self),
            i < self.base_count,
        ensures
            b == self@[i as int],
    {
        let byte = self.nibbles[i / 2];
        if i % 2 == 0 {
            byte / 16
        } else {
            byte % 16
        }
    }

    /// Checks the packing invariant at run time: one byte per two bases, and
    /// a zero pad nibble when the base count is odd.
    #[verifier::rlimit(50)]
    pub fn is_well_formed(&self) -> (b: bool)
        ensures
            b == sequence_wf(*self),
    {
        let expected = self.base_count / 2 + self.base_count % 2;
        if self.nibbles.len() != expected {
            proof {
                assert(packed_bases(self@).len() == (self.base_count + 1) / 2);
            }
            return false;
        }
        if self.base_count % 2 == 1 {
            let last_index = self.nibbles.len() - 1;
            let last = self.nibbles[last_index];
            if last % 16 != 0 {
                proof {
                    if sequence_wf(*self) {
                        let hi = self@[2 * (last_index as int)] as int;
                        assert(packed_bases(self@)[last_index as int] == (hi * 16 + 0) as u8);
                        assert(self@[2 * (last_index as int)] < 16);
                        assert((hi * 16) % 16 == 0 && hi * 16 < 256) by (nonlinear_arith)
                            requires
                                0 <= hi < 16,
                        ;
                    }
                }
                return false;
            }
        }
        proof {
            let s = self@;
            assert forall|j: int| 0 <= j < self.nibbles@.len() implies self.nibbles@[j]
                == packed_bases(s)[j] by {
                let nib = self.nibbles@[j];
                assert(s[2 * j] == nib / 16);
                vstd::arithmetic::div_mod::lemma_fundamental_div_mod(nib as int, 16);
                if 2 * j + 1 < s.len() {
                    assert(s[2 * j + 1] == nib % 16);
                } else {
                    assert(self.base_count % 2 == 1 && j == self.nibbles@.len() - 1);
                    assert(nib % 16 == 0);
                }
            }
            assert(self.nibbles@ =~= packed_bases(s));
            assert(forall|i: int| 0 <= i < s.len() ==> #[trigger] s[i] < 16);
        }
        true
    }

    /// Appends one base code.
    #[verifier::rlimit(50)]
    pub fn push(&mut self, base: u8)
        requires
            sequence_wf(*old(self)),
            base < 16,
            old(self).base_count < 0xffff_ffff,
        ensures
            sequence_wf(*final(self)),
            final(self)@ == old(self)@.push(base),
            final(self).base_count == old(self).base_count + 1,
    {
        let ghost pre = self@;
        if self.base_count % 2 == 0 {
            self.nibbles.push(base * 16);
        } else {
            let last_index = self.nibbles.len() - 1;
            proof {
                assert(self.nibbles@.len() == (pre.len() + 1) / 2);
                assert(self.nibbles@[last_index as int] == packed_bases(pre)[last_index as int]);
                assert(packed_bases(pre)[last_index as int] == pre[2 * (last_index as int)] * 16);
                assert(pre[2 * (last_index as int)] < 16);
            }
            let byte = self.nibbles[last_index];
            self.nibbles.set(last_index, byte + base);
        }
        self.base_count = self.base_count + 1;
        proof {
            assert(self.nibbles@ =~= packed_bases(pre.push(base)));
            assert(self@ =~= pre.push(base)) by {
                crate::bam::record::lemma_nibble_round_trip(pre.push(base));
            }
        }
    }
}

/// The operation code the binary format packs into the low four bits of a raw
/// CIGAR operation.
pub open spec fn kind_code(kind: Kind) -> u32 {
    match kind {
        Kind::Match => 0,
        Kind::Insertion => 1,
        Kind::Deletion => 2,
        Kind::Skip => 3,
        Kind::SoftClip => 4,
        Kind::HardClip => 5,
        Kind::Pad => 6,
        Kind::SequenceMatch => 7,
        Kind::SequenceMismatch => 8,
    }
}

/// A raw CIGAR operation: the length in the high 28 bits, the code in the low
/// four.
pub open spec fn spec_cigar_op(kind: Kind, len: u32) -> u32 {
    (len * 16 + kind_code(kind)) as u32
}

/// Packs one CIGAR operation.
pub fn cigar_op(kind: Kind, len: u32) -> (op: u32)
    requires
        len < 0x1000_0000,
    ensures
        op == spec_cigar_op(kind, len),
{
    let code: u32 = match kind {
        Kind::Match => 0,
        Kind::Insertion => 1,
        Kind::Deletion => 2,
        Kind::Skip => 3,
        Kind::SoftClip => 4,
        Kind::HardClip => 5,
        Kind::Pad => 6,
        Kind::SequenceMatch => 7,
        Kind::SequenceMismatch => 8,
    };
    len * 16 + code
}

/// How many read bases one raw operation consumes: its length when its code
/// is a match, insertion, soft clip, sequence match or mismatch.
pub open spec fn op_read_len(op: u32) -> int {
    let code = op % 16;
    if code == 0 || code == 1 || code == 4 || code == 7 || code == 8 {
        op as int / 16
    } else {
        0
    }
}

/// How many read bases a raw CIGAR consumes.
pub open spec fn cigar_read_len(ops: Seq<u32>) -> int
    decreases ops.len(),
{
    if ops.len() == 0 {
        0
    } else {
        cigar_read_len(ops.drop_last()) + op_read_len(ops.last())
    }
}

/// A binary alignment record.
#[derive(Clone, Debug)]
pub struct Record {
    /// The reference sequence id; -1 when unmapped.
    pub ref_id: i32,
    /// The 0-based alignment start; -1 when unplaced.
    pub pos: i32,
    /// The mapping quality; 255 when missing.
    pub mapq: u8,
    /// The index bin holding this record.
    pub bin: u16,
    /// The record flags.
    pub flags: u16,
    /// The mate's reference sequence id; -1 when it has none.
    pub next_ref_id: i32,
    /// The mate's 0-based alignment start; -1 when it has none.
    pub next_pos: i32,
    /// The observed template length.
    pub tlen: i32,
    /// The read name, ending with its NUL terminator.
    pub read_name: Vec<u8>,
    /// The raw CIGAR operations.
    pub cigar: Vec<u32>,
    /// The packed read bases.
    pub sequence: Sequence,
    /// The per-base quality scores; empty when missing.
    pub quality_scores: Vec<u8>,
    /// The auxiliary data fields, already encoded.
    pub data: Vec<u8>,
}

/// The byte count of a record's encoding, less the four bytes of the length
/// field itself.
pub open spec fn spec_block_size(r: Record) -> int {
    32 + r.read_name@.len() + 4 * r.cigar@.len() + r.sequence.nibbles@.len()
        + r.sequence.base_count + r.data@.len()
}

/// Whether a record can be written: its packed bases agree with its base
/// count, its variable fields fit their length fields, its CIGAR consumes
/// exactly the read, and its quality scores are missing or one per base.
pub open spec fn record_wf(r: Record) -> bool {
    &&& sequence_wf(r.sequence)
    &&& 1 <= r.read_name@.len() <= 255
    &&& r.cigar@.len() <= 0xffff
    &&& r.sequence.base_count <= 0xffff_ffff
    &&& (r.cigar@.len() > 0 ==> cigar_read_len(r.cigar@) == r.sequence.base_count)
    &&& (r.quality_scores@.len() == 0 || r.quality_scores@.len() == r.sequence.base_count)
    &&& spec_block_size(r) <= 0xffff_ffff
}

/// Why a record cannot be written.
#[derive(Clone, Copy, Debug, PartialEq, Eq, Structural)]
pub enum RecordError {
    /// The read name is empty, or longer than 254 bytes plus its terminator.
    InvalidReadNameLength,
    /// The CIGAR holds more operations than its length field can carry.
    CigarTooLong,
    /// The sequence holds more bases than its length field can carry.
    SequenceTooLong,
    /// The CIGAR consumes a read length other than the sequence length.
    ReadLengthMismatch,
    /// The quality scores are neither missing nor one per base.
    QualityLengthMismatch,
    /// The whole record is larger than its length field can carry.
    RecordTooLarge,
}

impl Default for Record {
    /// An unmapped, unplaced record: no name (`*`), no CIGAR, no bases, no
    /// qualities, no auxiliary data.
    fn default() -> (r: Record)
        ensures
            r.ref_id == -1 && r.pos == -1 && r.mapq == 255 && r.bin == 4680 && r.flags == 4,
            r.next_ref_id == -1 && r.next_pos == -1 && r.tlen == 0,
            r.read_name@ == seq![0x2au8, 0u8],
            r.cigar@.len() == 0 && r.sequence@.len() == 0 && r.sequence.base_count == 0,
            r.quality_scores@.len() == 0 && r.data@.len() == 0,
            record_wf(r),
    {
        let mut read_name: Vec<u8> = Vec::new();
        read_name.push(0x2a);
        read_name.push(0);
        let r = Record {
            ref_id: -1,
            pos: -1,
            mapq: 255,
            bin: 4680,
            flags: 4,
            next_ref_id: -1,
            next_pos: -1,
            tlen: 0,
            read_name,
            cigar: Vec::new(),
            sequence: Sequence::new(),
            quality_scores: Vec::new(),
            data: Vec::new(),
        };
        proof {
            assert(r.read_name@ =~= seq![0x2au8, 0u8]);
        }
        r
    }
}

/// Computes how many read bases a raw CIGAR consumes.
pub fn read_length_of(cigar: &Vec<u32>) -> (n: u64)
    requires
        cigar@.len() <= 0xffff,
    ensures
        n as int == cigar_read_len(cigar@),
{
    let mut n: u64 = 0;
    let mut i: usize = 0;
    proof {
        assert(cigar@.take(0) =~= Seq::<u32>::empty());
    }
    while i < cigar.len()
        invariant
            i <= cigar@.len(),
            cigar@.len() <= 0xffff,
            n as int == cigar_read_len(cigar@.take(i as int)),
            n <= 0x1000_0000u64 * i as u64,
        decreases cigar@.len() - i,
    {
        let op = cigar[i];
        let code = op % 16;
        proof {
            assert(cigar@.take(i + 1).drop_last() =~= cigar@.take(i as int));
            assert(cigar@.take(i + 1).last() == cigar@[i as int]);
        }
        if code == 0 || code == 1 || code == 4 || code == 7 || code == 8 {
            n = n + (op / 16) as u64;
        }
        i = i + 1;
    }
    proof {
        assert(cigar@.take(cigar@.len() as int) =~= cigar@);
    }
    n
}

/// Checks that a record can be written, and says why not when it cannot.
pub fn validate(r: &Record) -> (result: Result<(), RecordError>)
    requires
        sequence_wf(r.sequence),
    ensures
        result is Ok <==> record_wf(*r),
        result is Err ==> !record_wf(*r),
{
    if r.read_name.len() < 1 || r.read_name.len() > 255 {
        return Err(RecordError::InvalidReadNameLength);
    }
    if r.cigar.len() > 0xffff {
        return Err(RecordError::CigarTooLong);
    }
    if r.sequence.len() > 0xffff_ffff {
        return Err(RecordError::SequenceTooLong);
    }
    if r.cigar.len() > 0 {
        let consumed = read_length_of(&r.cigar);
        if consumed != r.sequence.len() as u64 {
            return Err(RecordError::ReadLengthMismatch);
        }
    }
    if r.quality_scores.len() != 0 && r.quality_scores.len() != r.sequence.len() {
        return Err(RecordError::QualityLengthMismatch);
    }
    if r.data.len() > 0xffff_ffffusize {
        return Err(RecordError::RecordTooLarge);
    }
    let fixed: u64 = 32 + r.read_name.len() as u64 + 4 * (r.cigar.len() as u64)
        + r.sequence.nibbles.len() as u64 + r.sequence.len() as u64 + r.data.len() as u64;
    if fixed > 0xffff_ffff {
        return Err(RecordError::RecordTooLarge);
    }
    Ok(())
}

} // verus!
