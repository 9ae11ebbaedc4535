//! The CIGAR column of a textual alignment record.

use vstd::prelude::*;

use crate::text::dec_bytes;

verus! {

/// A CIGAR operation kind.
#[derive(Clone, Copy, Debug, PartialEq, Eq, Structural)]
pub enum Kind {
    /// An alignment match (`M`).
    Match,
    /// An insertion into the read (`I`).
    Insertion,
    /// A deletion from the read (`D`).
    Deletion,
    /// A skipped reference region (`N`).
    Skip,
    /// A soft clip (`S`).
    SoftClip,
    /// A hard clip (`H`).
    HardClip,
    /// Padding (`P`).
    Pad,
    /// A sequence match (`=`).
    SequenceMatch,
    /// A sequence mismatch (`X`).
    SequenceMismatch,
}

/// The one-letter code of an operation kind.
pub open spec fn kind_byte(kind: Kind) -> u8 {
    match kind {
        Kind::Match => 0x4d,
        Kind::Insertion => 0x49,
        Kind::Deletion => 0x44,
        Kind::Skip => 0x4e,
        Kind::SoftClip => 0x53,
        Kind::HardClip => 0x48,
        Kind::Pad => 0x50,
        Kind::SequenceMatch => 0x3d,
        Kind::SequenceMismatch => 0x58,
    }
}

/// A CIGAR operation: a kind and a length.
#[derive(Clone, Copy, Debug, PartialEq, Eq, Structural)]
pub struct Op {
    /// The operation kind.
    pub kind: Kind,
    /// The operation length.
    pub len: u32,
}

impl Op {
    /// Creates an operation.
    pub fn new(kind: Kind, len: u32) -> (op: Op)
        ensures
            op.kind == kind && op.len == len,
    {
        Op { kind, len }
    }

    /// Returns the operation kind.
    pub fn kind(&self) -> (kind: Kind)
        ensures
            kind == self.kind,
    {
        self.kind
    }

    /// Returns the operation length.
    pub fn len(&self) -> (len: u32)
        ensures
            len == self.len,
    {
        self.len
    }
}

/// The text of one operation: its length in decimal, then its kind code.
pub open spec fn op_bytes(op: Op) -> Seq<u8> {
    dec_bytes(op.len as int) + seq![kind_byte(op.kind)]
}

/// The text of a run of operations, in order.
pub open spec fn ops_bytes(ops: Seq<Op>) -> Seq<u8>
    decreases ops.len(),
{
    if ops.len() == 0 {
        Seq::empty()
    } else {
        ops_bytes(ops.drop_last()) + op_bytes(ops.last())
    }
}

/// The text of a whole CIGAR: `*` when there are no operations.
pub open spec fn cigar_bytes(ops: Seq<Op>) -> Seq<u8> {
    if ops.len() == 0 {
        seq![0x2au8]
    } else {
        ops_bytes(ops)
    }
}

/// A CIGAR: the ordered operations describing how a read maps.
#[derive(Clone, Debug)]
pub struct Cigar {
    /// The ordered operations.
    pub ops: Vec<Op>,
}

impl Cigar {
    /// Creates a CIGAR from its operations.
    pub fn from(ops: Vec<Op>) -> (cigar: Cigar)
        ensures
            cigar@ == ops@,
    {
        Cigar { ops }
    }

    /// Returns whether there are no operations.
    pub fn is_empty(&self) -> (r: bool)
        ensures
            r == (self@.len() == 0),
    {
        self.ops.len() == 0
    }

    /// Returns the operations.
    pub fn ops(&self) -> (ops: &Vec<Op>)
        ensures
            ops@ == self@,
    {
        &self.ops
    }

    /// The operations, as a sequence.
    pub open spec fn view(&self) -> Seq<Op> {
        self.ops@
    }
}

impl Default for Cigar {
    /// Creates an empty CIGAR.
    fn default() -> (cigar: Cigar)
        ensures
            cigar@.len() == 0,
    {
        Cigar { ops: Vec::new() }
    }
}

/// Appends the text of a CIGAR: each operation as its decimal length and kind
/// code, or `*` when there are none.
pub fn write_cigar(buf: &mut Vec<u8>, cigar: &Cigar)
    ensures
        final(buf)@ == old(buf)@ + cigar_bytes(cigar@),
{
    if cigar.is_empty() {
        buf.push(0x2a);
        proof {
            assert(final(buf)@ =~= old(buf)@ + cigar_bytes(cigar@));
        }
    } else {
        let ghost pre = buf@;
        let ops = cigar.ops();
        let mut i: usize = 0;
        proof {
            assert(buf@ =~= pre + ops_bytes(ops@.take(0)));
        }
        while i < ops.len()
            invariant
                i <= ops@.len(),
                buf@ == pre + ops_bytes(ops@.take(i as int)),
            decreases ops@.len() - i,
        {
            let op = ops[i];
            crate::text::push_u64_dec(buf, op.len() as u64);
            buf.push(kind_char_of(op.kind()));
            proof {
                assert(ops@.take(i + 1).drop_last() =~= ops@.take(i as int));
                assert(ops@.take(i + 1).last() == ops@[i as int]);
                assert(buf@ =~= pre + ops_bytes(ops@.take(i + 1)));
            }
            i = i + 1;
        }
        proof {
            assert(ops@.take(ops@.len() as int) =~= ops@);
        }
    }
}

/// Returns the one-letter code of an operation kind.
fn kind_char_of(kind: Kind) -> (c: u8)
    ensures
        c == kind_byte(kind),
{
    match kind {
        Kind::Match => 0x4d,
        Kind::Insertion => 0x49,
        Kind::Deletion => 0x44,
        Kind::Skip => 0x4e,
        Kind::SoftClip => 0x53,
        Kind::HardClip => 0x48,
        Kind::Pad => 0x50,
        Kind::SequenceMatch => 0x3d,
        Kind::SequenceMismatch => 0x58,
    }
}

} // verus!
