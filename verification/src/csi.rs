//! The hierarchical binning index: bins of chunks over a reference sequence,
//! and the interval query that selects them.

pub mod bin;
pub mod index;
pub mod reference_sequence;
pub mod bitset;
