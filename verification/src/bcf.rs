//! The binary variant-call record codec: typed values, the site layout, and
//! the per-sample genotype block.

pub mod record;
pub mod typed;
