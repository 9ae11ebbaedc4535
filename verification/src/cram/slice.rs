//! The slice header: the reference context, span and block table of one slice
//! of a container.

use vstd::prelude::*;

use crate::position::Position;

verus! {

/// The header of a slice: which reference region it covers and which blocks
/// hold its data.
#[derive(Clone, Debug)]
pub struct Header {
    /// The reference sequence id; -1 when unmapped, -2 when multiple.
    pub reference_sequence_id: i32,
    /// The 1-based alignment start, when the slice is placed.
    pub alignment_start: Option<Position>,
    /// How many reference bases the slice covers.
    pub alignment_span: usize,
    /// How many records the slice holds.
    pub record_count: usize,
    /// The id of the slice's first record in the whole stream.
    pub record_counter: i64,
    /// How many blocks follow the header.
    pub block_count: usize,
    /// The content ids of the external blocks, in order.
    pub block_content_ids: Vec<i32>,
    /// The content id of the embedded reference bases block, when one exists.
    pub embedded_reference_bases_block_content_id: Option<i32>,
    /// The checksum of the covered reference region.
    pub reference_md5: Vec<u8>,
    /// Uninterpreted optional tags.
    pub optional_tags: Vec<u8>,
}

/// Builds a slice header field by field; everything defaults to empty or
/// unplaced.
pub struct Builder {
    /// The reference sequence id.
    pub reference_sequence_id: i32,
    /// The 1-based alignment start.
    pub alignment_start: Option<Position>,
    /// How many reference bases the slice covers.
    pub alignment_span: usize,
    /// How many records the slice holds.
    pub record_count: usize,
    /// The id of the slice's first record.
    pub record_counter: i64,
    /// How many blocks follow the header.
    pub block_count: usize,
    /// The content ids of the external blocks.
    pub block_content_ids: Vec<i32>,
    /// The content id of the embedded reference bases block.
    pub embedded_reference_bases_block_content_id: Option<i32>,
    /// The checksum of the covered reference region.
    pub reference_md5: Vec<u8>,
    /// Uninterpreted optional tags.
    pub optional_tags: Vec<u8>,
}

impl Default for Builder {
    /// A builder for an unmapped slice with no records and no blocks.
    fn default() -> (r: Builder)
        ensures
            r.reference_sequence_id == -1 && r.alignment_start is None && r.alignment_span == 0,
            r.record_count == 0 && r.record_counter == 0 && r.block_count == 0,
            r.block_content_ids@.len() == 0,
            r.embedded_reference_bases_block_content_id is None,
            r.reference_md5@.len() == 0 && r.optional_tags@.len() == 0,
    {
        Builder {
            reference_sequence_id: -1,
            alignment_start: None,
            alignment_span: 0,
            record_count: 0,
            record_counter: 0,
            block_count: 0,
            block_content_ids: Vec::new(),
            embedded_reference_bases_block_content_id: None,
            reference_md5: Vec::new(),
            optional_tags: Vec::new(),
        }
    }
}

impl Builder {
    /// Sets the reference sequence id.
    pub fn set_reference_sequence_id(self, reference_sequence_id: i32) -> (r: Builder)
        ensures
            r == (Builder { reference_sequence_id, ..self }),
    {
        Builder { reference_sequence_id, ..self }
    }

    /// Sets the 1-based alignment start.
    pub fn set_alignment_start(self, alignment_start: Position) -> (r: Builder)
        ensures
            r == (Builder { alignment_start: Some(alignment_start), ..self }),
    {
        Builder { alignment_start: Some(alignment_start), ..self }
    }

    /// Sets how many reference bases the slice covers.
    pub fn set_alignment_span(self, alignment_span: usize) -> (r: Builder)
        ensures
            r == (Builder { alignment_span, ..self }),
    {
        Builder { alignment_span, ..self }
    }

    /// Sets how many records the slice holds.
    pub fn set_record_count(self, record_count: usize) -> (r: Builder)
        ensures
            r == (Builder { record_count, ..self }),
    {
        Builder { record_count, ..self }
    }

    /// Sets the id of the slice's first record.
    pub fn set_record_counter(self, record_counter: i64) -> (r: Builder)
        ensures
            r == (Builder { record_counter, ..self }),
    {
        Builder { record_counter, ..self }
    }

    /// Sets how many blocks follow the header.
    pub fn set_block_count(self, block_count: usize) -> (r: Builder)
        ensures
            r == (Builder { block_count, ..self }),
    {
        Builder { block_count, ..self }
    }

    /// Sets the content ids of the external blocks.
    pub fn set_block_content_ids(self, block_content_ids: Vec<i32>) -> (r: Builder)
        ensures
            r == (Builder { block_content_ids, ..self }),
    {
        Builder { block_content_ids, ..self }
    }

    /// Builds the slice header.
    pub fn build(self) -> (r: Header)
        ensures
            r.reference_sequence_id == self.reference_sequence_id,
            r.alignment_start == self.alignment_start,
            r.alignment_span == self.alignment_span,
            r.record_count == self.record_count,
            r.record_counter == self.record_counter,
            r.block_count == self.block_count,
            r.block_content_ids == self.block_content_ids,
            r.embedded_reference_bases_block_content_id
                == self.embedded_reference_bases_block_content_id,
            r.reference_md5 == self.reference_md5,
            r.optional_tags == self.optional_tags,
    {
        Header {
            reference_sequence_id: self.reference_sequence_id,
            alignment_start: self.alignment_start,
            alignment_span: self.alignment_span,
            record_count: self.record_count,
            record_counter: self.record_counter,
            block_count: self.block_count,
            block_content_ids: self.block_content_ids,
            embedded_reference_bases_block_content_id:
                self.embedded_reference_bases_block_content_id,
            reference_md5: self.reference_md5,
            optional_tags: self.optional_tags,
        }
    }
}

impl Header {
    /// Returns a builder for an unmapped slice.
    pub fn builder() -> (r: Builder)
        ensures
            r.reference_sequence_id == -1 && r.alignment_start is None && r.alignment_span == 0,
            r.record_count == 0 && r.record_counter == 0 && r.block_count == 0,
            r.block_content_ids@.len() == 0,
    {
        Builder::default()
    }

    /// Returns the reference sequence id.
    pub fn reference_sequence_id(&self) -> (r: i32)
        ensures
            r == self.reference_sequence_id,
    {
        self.reference_sequence_id
    }

    /// Returns the 1-based alignment start, when the slice is placed.
    pub fn alignment_start(&self) -> (r: Option<Position>)
        ensures
            r == self.alignment_start,
    {
        self.alignment_start
    }

    /// Returns how many reference bases the slice covers.
    pub fn alignment_span(&self) -> (r: usize)
        ensures
            r == self.alignment_span,
    {
        self.alignment_span
    }

    /// Returns the closed 1-based end of the covered region, when the slice
    /// is placed: the last covered position, `start + span - 1`.
    pub fn alignment_end(&self) -> (r: Option<Position>)
        ensures
            self.alignment_start is None ==> r is None,
            self.alignment_start is Some ==> ({
                let sum = self.alignment_start->0.value + self.alignment_span;
                if sum > usize::MAX || sum < 2 {
                    r is None
                } else {
                    r == Some(Position { value: (sum - 1) as usize })
                }
            }),
    {
        match self.alignment_start {
            Some(start) => {
                match start.get().checked_add(self.alignment_span) {
                    Some(total) => {
                        if total == 0 {
                            None
                        } else {
                            Position::new(total - 1)
                        }
                    },
                    None => None,
                }
            },
            None => None,
        }
    }

    /// Returns how many records the slice holds.
    pub fn record_count(&self) -> (r: usize)
        ensures
            r == self.record_count,
    {
        self.record_count
    }

    /// Returns the id of the slice's first record in the whole stream.
    pub fn record_counter(&self) -> (r: i64)
        ensures
            r == self.record_counter,
    {
        self.record_counter
    }

    /// Returns how many blocks follow the header.
    pub fn block_count(&self) -> (r: usize)
        ensures
            r == self.block_count,
    {
        self.block_count
    }

    /// Returns the content ids of the external blocks.
    pub fn block_content_ids(&self) -> (r: &Vec<i32>)
        ensures
            r == self.block_content_ids,
    {
        &self.block_content_ids
    }

    /// Returns the content id of the embedded reference bases block, when one
    /// exists.
    pub fn embedded_reference_bases_block_content_id(&self) -> (r: Option<i32>)
        ensures
            r == self.embedded_reference_bases_block_content_id,
    {
        self.embedded_reference_bases_block_content_id
    }

    /// Returns the checksum of the covered reference region.
    pub fn reference_md5(&self) -> (r: &Vec<u8>)
        ensures
            r == self.reference_md5,
    {
        &self.reference_md5
    }

    /// Returns the uninterpreted optional tags.
    pub fn optional_tags(&self) -> (r: &Vec<u8>)
        ensures
            r == self.optional_tags,
    {
        &self.optional_tags
    }
}

} // verus!
