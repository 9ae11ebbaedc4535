//! Index bins: nodes of the hierarchical interval tree, each holding chunks of
//! virtual positions.

use vstd::arithmetic::power2::{
    lemma2_to64, lemma_pow2_adds, lemma_pow2_pos, lemma_pow2_strictly_increases, pow2,
};
use vstd::bits::lemma_u64_shl_is_mul;
use vstd::prelude::*;

use crate::vpos::VirtualPosition;

verus! {

/// A chunk: the half-open range of virtual positions `[start, end)` covering
/// the records of a bin.
#[derive(Clone, Copy, Debug, PartialEq, Eq, Structural)]
pub struct Chunk {
    /// The virtual position of the first record.
    pub start: VirtualPosition,
    /// The virtual position just past the last record.
    pub end: VirtualPosition,
}

impl Chunk {
    /// Creates a chunk from its bounds.
    pub fn new(start: VirtualPosition, end: VirtualPosition) -> (c: Chunk)
        ensures
            c.start == start && c.end == end,
    {
        Chunk { start, end }
    }

    /// Returns the start virtual position.
    pub fn start(&self) -> (r: VirtualPosition)
        ensures
            r == self.start,
    {
        self.start
    }

    /// Returns the end virtual position.
    pub fn end(&self) -> (r: VirtualPosition)
        ensures
            r == self.end,
    {
        self.end
    }
}

/// Counts of records in a reference sequence, kept in the index's metadata
/// pseudo-bin.
#[derive(Clone, Copy, Debug, PartialEq, Eq, Structural)]
pub struct Metadata {
    /// The virtual position of the first record.
    pub start_position: VirtualPosition,
    /// The virtual position just past the last record.
    pub end_position: VirtualPosition,
    /// How many placed records map to the reference sequence.
    pub mapped_record_count: u64,
    /// How many placed records do not map.
    pub unmapped_record_count: u64,
}

impl Metadata {
    /// Creates metadata from its fields.
    pub fn new(
        start_position: VirtualPosition,
        end_position: VirtualPosition,
        mapped_record_count: u64,
        unmapped_record_count: u64,
    ) -> (m: Metadata)
        ensures
            m.start_position == start_position,
            m.end_position == end_position,
            m.mapped_record_count == mapped_record_count,
            m.unmapped_record_count == unmapped_record_count,
    {
        Metadata { start_position, end_position, mapped_record_count, unmapped_record_count }
    }

    /// Returns the virtual position of the first record.
    pub fn start_position(&self) -> (r: VirtualPosition)
        ensures
            r == self.start_position,
    {
        self.start_position
    }

    /// Returns the virtual position just past the last record.
    pub fn end_position(&self) -> (r: VirtualPosition)
        ensures
            r == self.end_position,
    {
        self.end_position
    }

    /// Returns how many placed records map to the reference sequence.
    pub fn mapped_record_count(&self) -> (r: u64)
        ensures
            r == self.mapped_record_count,
    {
        self.mapped_record_count
    }

    /// Returns how many placed records do not map.
    pub fn unmapped_record_count(&self) -> (r: u64)
        ensures
            r == self.unmapped_record_count,
    {
        self.unmapped_record_count
    }
}

/// The index of the first bin on level `l` of the tree: one bin on level 0,
/// eight on level 1, and eight times as many on each level below.
pub open spec fn level_offset(l: int) -> int
    decreases l,
{
    if l <= 0 {
        0
    } else {
        level_offset(l - 1) + pow2((3 * (l - 1)) as nat)
    }
}

/// How many bins a tree of the given depth has: the first index past its
/// deepest level.
pub open spec fn bin_count(depth: int) -> int {
    level_offset(depth + 1)
}

/// Seven times a level offset is one less than the matching power of eight.
pub proof fn lemma_level_offset_value(l: int)
    requires
        l >= 0,
    ensures
        7 * level_offset(l) == pow2((3 * l) as nat) - 1,
    decreases l,
{
    if l == 0 {
        lemma2_to64();
    } else {
        lemma_level_offset_value(l - 1);
        lemma_pow2_adds((3 * (l - 1)) as nat, 3);
        lemma2_to64();
    }
}

/// Level offsets grow with the level.
pub proof fn lemma_level_offset_monotone(a: int, b: int)
    requires
        0 <= a <= b,
    ensures
        level_offset(a) <= level_offset(b),
    decreases b - a,
{
    if a < b {
        lemma_level_offset_monotone(a, b - 1);
        lemma_pow2_pos((3 * (b - 1)) as nat);
    }
}

/// A bin: a node of the interval tree, holding the chunks of the records whose
/// span it covers.
#[derive(Clone, Debug, PartialEq, Eq)]
pub struct Bin {
    /// The bin id: its index in the level-order walk of the tree.
    pub id: u32,
    /// The virtual position of the first record in this bin.
    pub loffset: VirtualPosition,
    /// The chunks of records placed in this bin.
    pub chunks: Vec<Chunk>,
}

impl Bin {
    /// The first bin index past the deepest level of a tree: equivalently, how
    /// many bins such a tree has.
    pub fn max_id(depth: u8) -> (r: u32)
        requires
            depth <= 9,
        ensures
            r as int == bin_count(depth as int),
            r < 0x40000000u32,
    {
        let e: u64 = 3 * (depth as u64 + 1);
        proof {
            lemma_pow2_strictly_increases(e as nat, 31);
            lemma2_to64();
        }
        let p: u64 = 1u64 << e;
        proof {
            lemma_u64_shl_is_mul(1u64, e);
            lemma_level_offset_value(depth as int + 1);
            assert(p as int == 7 * bin_count(depth as int) + 1);
            assert(p as int / 7 == bin_count(depth as int)) by {
                vstd::arithmetic::div_mod::lemma_fundamental_div_mod_converse(
                    p as int,
                    7,
                    bin_count(depth as int),
                    1,
                );
            }
        }
        let n: u64 = p / 7;
        n as u32
    }

    /// The id of the metadata pseudo-bin of a tree of the given depth: one
    /// past the last real bin.
    pub fn metadata_id(depth: u8) -> (r: u32)
        requires
            depth <= 9,
        ensures
            r as int == bin_count(depth as int) + 1,
    {
        Bin::max_id(depth) + 1
    }

    /// Creates a bin from its fields.
    pub fn new(id: u32, loffset: VirtualPosition, chunks: Vec<Chunk>) -> (b: Bin)
        ensures
            b.id == id && b.loffset == loffset && b.chunks == chunks,
    {
        Bin { id, loffset, chunks }
    }

    /// Returns the bin id.
    pub fn id(&self) -> (r: u32)
        ensures
            r == self.id,
    {
        self.id
    }

    /// Returns the virtual position of the first record in this bin.
    pub fn loffset(&self) -> (r: VirtualPosition)
        ensures
            r == self.loffset,
    {
        self.loffset
    }

    /// Returns the chunks of this bin.
    pub fn chunks(&self) -> (r: &Vec<Chunk>)
        ensures
            r == self.chunks,
    {
        &self.chunks
    }

    /// Returns a copy of this bin.
    pub fn duplicate(&self) -> (r: Bin)
        ensures
            bin_like(r, *self),
    {
        let mut chunks: Vec<Chunk> = Vec::new();
        let mut i: usize = 0;
        while i < self.chunks.len()
            invariant
                i <= self.chunks@.len(),
                chunks@ == self.chunks@.take(i as int),
            decreases self.chunks@.len() - i,
        {
            chunks.push(self.chunks[i]);
            proof {
                assert(self.chunks@.take(i + 1) =~= self.chunks@.take(i as int).push(
                    self.chunks@[i as int],
                ));
            }
            i = i + 1;
        }
        proof {
            assert(self.chunks@.take(self.chunks@.len() as int) =~= self.chunks@);
        }
        Bin { id: self.id, loffset: self.loffset, chunks }
    }
}

/// Whether two bins hold the same id, first-record position and chunks.
pub open spec fn bin_like(a: Bin, b: Bin) -> bool {
    a.id == b.id && a.loffset == b.loffset && a.chunks@ == b.chunks@
}

} // verus!
