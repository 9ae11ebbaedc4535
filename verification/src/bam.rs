//! The binary alignment record codec: the record model, its byte layout, and
//! the header writer.

pub mod codec;
pub mod writer;
pub mod record;
