//! The compressed alignment container codec: its variable-length integers,
//! encoding descriptors, container and block layout, slice header, and
//! per-record feature positions.

pub mod container;
pub mod encoding;
pub mod features;
pub mod num;
pub mod slice;
