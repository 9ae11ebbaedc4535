//! The block-compressed transport: the end-of-stream sentinel and seeking by
//! virtual position, exercised against a real block-compressed stream.

use std::io::{Read, Write};

use hts::vpos::{eof_block, VirtualPosition};

#[test]
fn test_empty_write_trailer() {
    // a writer closed without writing anything leaves exactly the sentinel
    let writer = noodles_bgzf::io::Writer::new(Vec::new());
    let data = writer.finish().unwrap();
    assert_eq!(data, eof_block());
}

#[test]
fn test_read_after_seek() {
    // compress two blocks' worth of data
    let mut writer = noodles_bgzf::io::Writer::new(Vec::new());
    writer.write_all(b"the first stretch of data").unwrap();
    writer.flush().unwrap();
    let mark: VirtualPosition = VirtualPosition::from(u64::from(writer.virtual_position()));
    writer.write_all(b"and the rest of it").unwrap();
    let data = writer.finish().unwrap();

    // reading from the start yields everything in order
    let mut reader = noodles_bgzf::io::Reader::new(std::io::Cursor::new(&data));
    let mut all = Vec::new();
    reader.read_to_end(&mut all).unwrap();
    assert_eq!(all, b"the first stretch of dataand the rest of it");

    // reading after a seek yields the same bytes as reading from the start
    // and skipping to the marked offset
    reader
        .seek(noodles_bgzf::VirtualPosition::from(mark.value))
        .unwrap();
    let mut tail = Vec::new();
    reader.read_to_end(&mut tail).unwrap();
    assert_eq!(tail, &all[25..]);

    // the mark sits at the second block's boundary
    assert_eq!(mark.uncompressed(), 0);
    assert!(mark.compressed() > 0);
}
