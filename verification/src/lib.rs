//! Verified codecs for high-throughput sequencing file formats.
//!
//! This library covers the logic shared by the binary alignment (BAM) and
//! variant call (BCF) formats and their indexes: virtual positions into a
//! block-compressed stream, the hierarchical binning index (CSI/BAI) with its
//! interval query, binary record encoding and decoding, the textual alignment
//! record fields, and the CRAM container integer codecs and encoding
//! descriptors.

pub mod bam;
pub mod bcf;
pub mod binary;
pub mod cram;
pub mod csi;
pub mod position;
pub mod sam;
pub mod text;
pub mod vpos;
