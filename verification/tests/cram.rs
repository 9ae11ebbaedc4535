//! The container codec: variable-length integers, encoding descriptors, the
//! container layout, the slice header, and the feature walk.

use hts::cram::container::{read_block, read_container, read_container_header};
use hts::cram::encoding::{write_encoding, write_tag_encoding_map, Encoding, TagEncodingMap};
use hts::cram::features::{Feature, WithPositions};
use hts::cram::num::{read_itf8, read_ltf8, write_itf8};
use hts::cram::slice::Header;
use hts::position::Position;

fn pos(value: usize) -> Position {
    Position::new(value).unwrap()
}

#[test]
fn test_itf8_round_trips() {
    fn t(value: i32, expected: &[u8]) {
        let mut buf = Vec::new();
        write_itf8(&mut buf, value);
        assert_eq!(buf, expected);
        let (back, end) = read_itf8(&buf, 0).unwrap();
        assert_eq!(back, value);
        assert_eq!(end, buf.len());
    }

    t(0, &[0x00]);
    t(87, &[0x57]);
    t(0x7f, &[0x7f]);
    t(0x80, &[0x80, 0x80]);
    t(0x3fff, &[0xbf, 0xff]);
    t(0x4000, &[0xc0, 0x40, 0x00]);
    t(0x1f_ffff, &[0xdf, 0xff, 0xff]);
    t(0x20_0000, &[0xe0, 0x20, 0x00, 0x00]);
    t(0x0fff_ffff, &[0xef, 0xff, 0xff, 0xff]);
    t(0x1000_0000, &[0xf1, 0x00, 0x00, 0x00, 0x00]);
    t(i32::MAX, &[0xf7, 0xff, 0xff, 0xff, 0x0f]);
    t(-1, &[0xff, 0xff, 0xff, 0xff, 0x0f]);
    t(-2, &[0xff, 0xff, 0xff, 0xff, 0x0e]);
}

#[test]
fn test_ltf8_round_trips() {
    fn t(bytes: &[u8], expected: i64) {
        let (value, end) = read_ltf8(bytes, 0).unwrap();
        assert_eq!(value, expected);
        assert_eq!(end, bytes.len());
    }

    t(&[0x00], 0);
    t(&[0x55], 85);
    t(&[0x80, 0x99], 153);
    t(&[0xc0, 0x66, 0x77], 0x6677);
    t(&[0xe0, 0x44, 0x55, 0x66], 0x44_5566);
    t(&[0xf0, 0x22, 0x33, 0x44, 0x55], 0x2233_4455);
    t(&[0xf8, 0x00, 0x11, 0x22, 0x33, 0x44], 0x11_2233_44);
    t(&[0xfc, 0x77, 0x66, 0x55, 0x44, 0x33, 0x22], 0x7766_5544_3322);
    t(&[0xfe, 0x01, 0x02, 0x03, 0x04, 0x05, 0x06, 0x07], 0x01_0203_0405_0607);
    t(
        &[0xff, 0x80, 0x00, 0x00, 0x00, 0x00, 0x00, 0x00, 0x01],
        i64::MIN + 1,
    );
    assert!(read_ltf8(&[0xff, 0x80], 0).is_err());
}

#[test]
fn test_write_encoding_external() {
    let mut buf = Vec::new();
    write_encoding(&mut buf, &Encoding::External(5)).unwrap();
    // codec 1, one parameter byte, the content id
    assert_eq!(buf, vec![0x01, 0x01, 0x05]);

    buf.clear();
    write_encoding(&mut buf, &Encoding::Beta(0, 8)).unwrap();
    assert_eq!(buf, vec![0x06, 0x02, 0x00, 0x08]);

    buf.clear();
    write_encoding(&mut buf, &Encoding::ByteArrayStop(b'\t', 3)).unwrap();
    assert_eq!(buf, vec![0x05, 0x02, 0x09, 0x03]);

    buf.clear();
    write_encoding(&mut buf, &Encoding::Huffman(vec![65], vec![0])).unwrap();
    assert_eq!(buf, vec![0x03, 0x04, 0x01, 0x41, 0x01, 0x00]);

    buf.clear();
    write_encoding(
        &mut buf,
        &Encoding::ByteArrayLen(
            Box::new(Encoding::Gamma(0)),
            Box::new(Encoding::External(1)),
        ),
    )
    .unwrap();
    // codec 4, six parameter bytes: a gamma encoding then an external one
    assert_eq!(buf, vec![0x04, 0x06, 0x09, 0x01, 0x00, 0x01, 0x01, 0x01]);
}

#[test]
fn test_write_tag_encoding_map() {
    // one entry, keyed by a packed three-byte tag
    let map = TagEncodingMap { entries: vec![(5063770, Encoding::External(5063770))] };
    let mut buf = Vec::new();
    write_tag_encoding_map(&mut buf, &map).unwrap();

    // inner bytes: count 1, key, encoding (codec 1, 4 parameter bytes, id)
    let mut inner = Vec::new();
    write_itf8(&mut inner, 1);
    write_itf8(&mut inner, 5063770);
    write_itf8(&mut inner, 1);
    write_itf8(&mut inner, 4);
    write_itf8(&mut inner, 5063770);
    let mut expected = Vec::new();
    write_itf8(&mut expected, inner.len() as i32);
    expected.extend_from_slice(&inner);
    assert_eq!(buf, expected);
}

#[test]
fn test_slice_header() {
    let header = Header::builder()
        .set_reference_sequence_id(1)
        .set_alignment_start(pos(13))
        .set_alignment_span(8)
        .set_record_count(2)
        .set_record_counter(34)
        .set_block_count(3)
        .set_block_content_ids(vec![1, 2, 3])
        .build();

    assert_eq!(header.reference_sequence_id(), 1);
    assert_eq!(header.alignment_start(), Some(pos(13)));
    assert_eq!(header.alignment_span(), 8);
    assert_eq!(header.alignment_end(), Some(pos(20)));
    assert_eq!(header.record_count(), 2);
    assert_eq!(header.record_counter(), 34);
    assert_eq!(header.block_count(), 3);
    assert_eq!(header.block_content_ids(), &vec![1, 2, 3]);
    assert_eq!(header.embedded_reference_bases_block_content_id(), None);
    assert!(header.reference_md5().is_empty());
    assert!(header.optional_tags().is_empty());

    let unplaced = Header::builder().build();
    assert_eq!(unplaced.alignment_end(), None);

    // a slice covering no base has no last covered position
    let empty_span = Header::builder().set_alignment_start(pos(1)).build();
    assert_eq!(empty_span.alignment_end(), None);

    // a one-base slice ends where it starts
    let one_base = Header::builder()
        .set_alignment_start(pos(13))
        .set_alignment_span(1)
        .build();
    assert_eq!(one_base.alignment_end(), Some(pos(13)));
}

#[test]
fn test_next() {
    let features = vec![
        Feature::Bases(pos(1), vec![b'A', b'C']),
        Feature::Scores(pos(1), vec![0, 0]),
    ];

    let mut iter = WithPositions::new(&features, pos(1));

    let ((reference_position, read_position), feature) = iter.next().unwrap();
    assert_eq!(reference_position, pos(1));
    assert_eq!(read_position, pos(1));
    match feature {
        Feature::Bases(p, bases) => {
            assert_eq!(*p, pos(1));
            assert_eq!(bases, &vec![b'A', b'C']);
        }
        _ => panic!("the walk yielded the wrong feature"),
    }
    assert_eq!(iter.positions(), (pos(3), pos(3)));

    assert!(iter.next().is_none());
}

#[test]
fn test_feature_walk_with_gaps() {
    // a soft clip at the start, then a substitution after a two-base match
    let features = vec![
        Feature::SoftClip(pos(1), vec![b'A']),
        Feature::Substitution(pos(4), 2),
        Feature::Deletion(pos(5), 3),
    ];

    let mut iter = WithPositions::new(&features, pos(100));

    let ((rp, dp), _) = iter.next().unwrap();
    assert_eq!((rp, dp), (pos(100), pos(1)));

    // two matching bases sit between the clip and the substitution
    let ((rp, dp), _) = iter.next().unwrap();
    assert_eq!((rp, dp), (pos(102), pos(4)));

    let ((rp, dp), _) = iter.next().unwrap();
    assert_eq!((rp, dp), (pos(103), pos(5)));
    assert_eq!(iter.positions(), (pos(106), pos(5)));

    assert!(iter.next().is_none());
}

#[test]
fn test_read_container() {
    let mut data = Vec::new();
    // the header: a twelve-byte body, reference id 2, start 3, span 5,
    // 8 records, counter 13, 21 bases, one block, two landmarks
    data.extend_from_slice(&[0x0c, 0x00, 0x00, 0x00]);
    write_itf8(&mut data, 2);
    write_itf8(&mut data, 3);
    write_itf8(&mut data, 5);
    write_itf8(&mut data, 8);
    data.push(0x0d); // record counter, one byte
    data.push(0x15); // base count, one byte
    write_itf8(&mut data, 1);
    write_itf8(&mut data, 2);
    write_itf8(&mut data, 55);
    write_itf8(&mut data, 89);
    data.extend_from_slice(&[0x11, 0x22, 0x33, 0x44]); // header checksum
    // one raw block: method 0, content type 4, content id 1, 3 bytes
    data.push(0x00);
    data.push(0x04);
    write_itf8(&mut data, 1);
    write_itf8(&mut data, 3);
    write_itf8(&mut data, 3);
    data.extend_from_slice(b"abc");
    data.extend_from_slice(&[0x99, 0x88, 0x77, 0x66]); // block checksum

    let (header, body) = read_container_header(&data, 0).unwrap();
    assert_eq!(header.length, 12);
    assert_eq!(header.reference_sequence_id, 2);
    assert_eq!(header.alignment_start, 3);
    assert_eq!(header.alignment_span, 5);
    assert_eq!(header.record_count, 8);
    assert_eq!(header.record_counter, 13);
    assert_eq!(header.base_count, 21);
    assert_eq!(header.block_count, 1);
    assert_eq!(header.landmarks, vec![55, 89]);
    assert_eq!(header.crc32, 0x44332211);

    let (block, end) = read_block(&data, body).unwrap();
    assert_eq!(end, data.len());
    assert_eq!(block.method, 0);
    assert_eq!(block.content_type, 4);
    assert_eq!(block.content_id, 1);
    assert_eq!(block.uncompressed_size, 3);
    assert_eq!(block.data, b"abc".to_vec());
    assert_eq!(block.crc32, 0x66778899);

    let (header, blocks, end) = read_container(&data, 0).unwrap();
    assert_eq!(header.block_count, 1);
    assert_eq!(blocks.len(), 1);
    assert_eq!(blocks[0].data, b"abc".to_vec());
    assert_eq!(end, data.len());

    // a header that declares fewer body bytes than its blocks take is refused
    let mut short = data.clone();
    short[0] = 0x0b;
    assert!(read_container(&short, 0).is_err());

    // a header that declares more body bytes than the input holds is refused
    let mut long = data.clone();
    long[0] = 0x0d;
    assert!(read_container(&long, 0).is_err());
}
