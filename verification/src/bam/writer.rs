//! The binary alignment header: the magic, the textual header, and the binary
//! reference sequence table.

use vstd::prelude::*;

use crate::binary::{put_bytes, put_u32_le, put_u8, u32_le_bytes};

verus! {

/// The four magic bytes that open a binary alignment stream.
pub open spec fn magic_bytes() -> Seq<u8> {
    seq![0x42u8, 0x41u8, 0x4du8, 0x01u8]
}

/// Why a header cannot be written.
#[derive(Clone, Copy, Debug, PartialEq, Eq, Structural)]
pub enum HeaderError {
    /// The textual header is longer than its length field can carry.
    TextTooLong,
    /// A reference sequence name holds a NUL byte, or is too long for its
    /// length field.
    InvalidName,
    /// A reference sequence length does not fit its length field.
    InvalidLength,
    /// There are more reference sequences than the count field can carry.
    TooManyReferenceSequences,
}

/// A reference sequence as the header stores it: a name and a length.
#[derive(Clone, Debug)]
pub struct ReferenceSequence {
    /// The name, without a terminator.
    pub name: Vec<u8>,
    /// How many bases the reference sequence has.
    pub length: usize,
}

/// The encoding of the header: the magic, the text length, and the text.
pub open spec fn header_bytes(text: Seq<u8>) -> Seq<u8> {
    magic_bytes() + u32_le_bytes(text.len() as u32) + text
}

/// Appends the magic and the textual header; a text too long for its length
/// field is refused and the buffer left unchanged.
pub fn write_header(buf: &mut Vec<u8>, text: &Vec<u8>) -> (result: Result<(), HeaderError>)
    ensures
        result is Ok <==> text@.len() <= 0xffff_ffff,
        result is Ok ==> final(buf)@ == old(buf)@ + header_bytes(text@),
        result is Err ==> final(buf)@ == old(buf)@,
{
    if text.len() > 0xffff_ffffusize {
        return Err(HeaderError::TextTooLong);
    }
    put_u8(buf, 0x42);
    put_u8(buf, 0x41);
    put_u8(buf, 0x4d);
    put_u8(buf, 0x01);
    put_u32_le(buf, text.len() as u32);
    put_bytes(buf, text);
    proof {
        assert(final(buf)@ =~= old(buf)@ + header_bytes(text@));
    }
    Ok(())
}

/// Whether a reference sequence can be written: its name has no NUL byte and
/// fits its length field with the terminator, and its length fits too.
pub open spec fn reference_sequence_wf(r: ReferenceSequence) -> bool {
    &&& forall|i: int| 0 <= i < r.name@.len() ==> r.name@[i] != 0u8
    &&& r.name@.len() + 1 <= 0xffff_ffff
    &&& r.length <= 0xffff_ffff
}

/// The encoding of one reference sequence: the name length with its
/// terminator, the name, the terminator, and the base count.
pub open spec fn reference_sequence_bytes(r: ReferenceSequence) -> Seq<u8> {
    u32_le_bytes((r.name@.len() + 1) as u32) + r.name@ + seq![0u8] + u32_le_bytes(r.length as u32)
}

/// Appends the encoding of one reference sequence; a name holding a NUL byte,
/// or a field too large for the layout, is refused and the buffer left
/// unchanged.
#[verifier::loop_isolation(false)]
pub fn write_reference_sequence(buf: &mut Vec<u8>, reference_sequence: &ReferenceSequence) -> (
    result: Result<(), HeaderError>)
    ensures
        result is Ok <==> reference_sequence_wf(*reference_sequence),
        result is Ok ==> final(buf)@ == old(buf)@ + reference_sequence_bytes(*reference_sequence),
        result is Err ==> final(buf)@ == old(buf)@,
{
    let name = &reference_sequence.name;
    let mut i: usize = 0;
    while i < name.len()
        invariant
            i <= name@.len(),
            forall|j: int| 0 <= j < i ==> name@[j] != 0u8,
        decreases name@.len() - i,
    {
        if name[i] == 0 {
            return Err(HeaderError::InvalidName);
        }
        i = i + 1;
    }
    if name.len() > 0xffff_fffeusize {
        return Err(HeaderError::InvalidName);
    }
    if reference_sequence.length > 0xffff_ffffusize {
        return Err(HeaderError::InvalidLength);
    }
    put_u32_le(buf, name.len() as u32 + 1);
    put_bytes(buf, name);
    put_u8(buf, 0);
    put_u32_le(buf, reference_sequence.length as u32);
    proof {
        assert(final(buf)@ =~= old(buf)@ + reference_sequence_bytes(*reference_sequence));
    }
    Ok(())
}

/// The encoding of a run of reference sequences, in order.
pub open spec fn reference_sequences_tail_bytes(refs: Seq<ReferenceSequence>) -> Seq<u8>
    decreases refs.len(),
{
    if refs.len() == 0 {
        Seq::empty()
    } else {
        reference_sequences_tail_bytes(refs.drop_last()) + reference_sequence_bytes(refs.last())
    }
}

/// The encoding of the reference sequence table: the count, then each entry.
pub open spec fn reference_sequences_bytes(refs: Seq<ReferenceSequence>) -> Seq<u8> {
    u32_le_bytes(refs.len() as u32) + reference_sequences_tail_bytes(refs)
}

/// Appends the reference sequence table that follows the textual header; a
/// table with an unwritable entry, or one too large to count, is refused with
/// the buffer left as it was before the call.
#[verifier::loop_isolation(false)]
pub fn write_reference_sequences(buf: &mut Vec<u8>, reference_sequences: &Vec<ReferenceSequence>)
    -> (result: Result<(), HeaderError>)
    ensures
        result is Ok <==> (reference_sequences@.len() <= 0xffff_ffff && forall|j: int|
            0 <= j < reference_sequences@.len() ==> reference_sequence_wf(
                #[trigger] reference_sequences@[j],
            )),
        result is Ok ==> final(buf)@ == old(buf)@ + reference_sequences_bytes(
            reference_sequences@,
        ),
        result is Err ==> final(buf)@ == old(buf)@,
{
    if reference_sequences.len() > 0xffff_ffffusize {
        return Err(HeaderError::TooManyReferenceSequences);
    }
    let mut i: usize = 0;
    while i < reference_sequences.len()
        invariant
            i <= reference_sequences@.len(),
            forall|j: int| 0 <= j < i ==> reference_sequence_wf(
                #[trigger] reference_sequences@[j],
            ),
        decreases reference_sequences@.len() - i,
    {
        let r = &reference_sequences[i];
        let mut k: usize = 0;
        while k < r.name.len()
            invariant
                k <= r.name@.len(),
                forall|j: int| 0 <= j < k ==> r.name@[j] != 0u8,
                r == &reference_sequences@[i as int],
                0 <= i < reference_sequences@.len(),
            decreases r.name@.len() - k,
        {
            if r.name[k] == 0 {
                return Err(HeaderError::InvalidName);
            }
            k = k + 1;
        }
        if r.name.len() > 0xffff_fffeusize {
            return Err(HeaderError::InvalidName);
        }
        if r.length > 0xffff_ffffusize {
            return Err(HeaderError::InvalidLength);
        }
        i = i + 1;
    }
    put_u32_le(buf, reference_sequences.len() as u32);
    let ghost base = buf@;
    let mut i: usize = 0;
    proof {
        assert(buf@ =~= base + reference_sequences_tail_bytes(reference_sequences@.take(0)));
    }
    while i < reference_sequences.len()
        invariant
            i <= reference_sequences@.len(),
            buf@ == base + reference_sequences_tail_bytes(reference_sequences@.take(i as int)),
        decreases reference_sequences@.len() - i,
    {
        let result = write_reference_sequence(buf, &reference_sequences[i]);
        proof {
            assert(result is Ok);
            assert(reference_sequences@.take(i + 1).drop_last() =~= reference_sequences@.take(
                i as int,
            ));
            assert(reference_sequences@.take(i + 1).last() == reference_sequences@[i as int]);
            assert(buf@ =~= base + reference_sequences_tail_bytes(
                reference_sequences@.take(i + 1),
            ));
        }
        i = i + 1;
    }
    proof {
        assert(reference_sequences@.take(reference_sequences@.len() as int)
            =~= reference_sequences@);
        assert(final(buf)@ =~= old(buf)@ + reference_sequences_bytes(reference_sequences@));
    }
    Ok(())
}

} // verus!
