//! Textual alignment record fields: CIGAR strings and typed auxiliary values.

pub mod cigar;
pub mod value;
