//! The binary alignment record writer and the packed base codec.

use hts::bam::codec::write_record;
use hts::bam::record::{base_to_char, char_to_base, cigar_op, Record, RecordError, Sequence};
use hts::bam::writer::{
    write_header, write_reference_sequence, write_reference_sequences, HeaderError,
    ReferenceSequence,
};
use hts::sam::cigar::Kind;

#[test]
fn test_write_record_with_default_fields() {
    let mut buf = Vec::new();
    let record = Record::default();
    write_record(&mut buf, &record).unwrap();

    let expected = [
        0x22, 0x00, 0x00, 0x00, // block_size = 34
        0xff, 0xff, 0xff, 0xff, // ref_id = -1
        0xff, 0xff, 0xff, 0xff, // pos = -1
        0x02, // l_read_name = 2
        0xff, // mapq = 255
        0x48, 0x12, // bin = 4680
        0x00, 0x00, // n_cigar_op = 0
        0x04, 0x00, // flag = 4
        0x00, 0x00, 0x00, 0x00, // l_seq = 0
        0xff, 0xff, 0xff, 0xff, // next_ref_id = -1
        0xff, 0xff, 0xff, 0xff, // next_pos = -1
        0x00, 0x00, 0x00, 0x00, // tlen = 0
        0x2a, 0x00, // read_name = "*\x00"
    ];

    assert_eq!(buf, expected);
}

#[test]
fn test_write_record_with_all_fields() {
    let mut record = Record::default();

    record.ref_id = 1;
    record.pos = 8; // 0-based
    record.mapq = 13;
    record.bin = 6765;
    record.flags = 0x0041; // paired, first of the template
    record.next_ref_id = 1;
    record.next_pos = 21; // 0-based
    record.tlen = 144;

    record.read_name = b"r0\x00".to_vec();

    record.cigar.push(cigar_op(Kind::Match, 3));
    record.cigar.push(cigar_op(Kind::SoftClip, 1));

    record.sequence.push(char_to_base(b'A').unwrap());
    record.sequence.push(char_to_base(b'C').unwrap());
    record.sequence.push(char_to_base(b'G').unwrap());

    record.quality_scores.push(b'N' - 33);
    record.quality_scores.push(b'D' - 33);
    record.quality_scores.push(b'L' - 33);

    record.data = vec![b'N', b'H', b'C', 0x01];

    // the CIGAR consumes four read bases but only three are present
    let mut buf = Vec::new();
    assert_eq!(
        write_record(&mut buf, &record),
        Err(RecordError::ReadLengthMismatch)
    );
    assert!(buf.is_empty());

    record.sequence.push(char_to_base(b'T').unwrap());

    // now the quality scores are one short
    assert_eq!(
        write_record(&mut buf, &record),
        Err(RecordError::QualityLengthMismatch)
    );
    assert!(buf.is_empty());

    record.quality_scores.push(b'S' - 33);

    write_record(&mut buf, &record).unwrap();

    let expected = [
        0x35, 0x00, 0x00, 0x00, // block_size = 53
        0x01, 0x00, 0x00, 0x00, // ref_id = 1
        0x08, 0x00, 0x00, 0x00, // pos = 8
        0x03, // l_read_name = 3
        0x0d, // mapq = 13
        0x6d, 0x1a, // bin = 6765
        0x02, 0x00, // n_cigar_op = 2
        0x41, 0x00, // flag = 65
        0x04, 0x00, 0x00, 0x00, // l_seq = 4
        0x01, 0x00, 0x00, 0x00, // next_ref_id = 1
        0x15, 0x00, 0x00, 0x00, // next_pos = 21
        0x90, 0x00, 0x00, 0x00, // tlen = 144
        b'r', b'0', 0x00, // read_name = "r0\x00"
        0x30, 0x00, 0x00, 0x00, // cigar[0] = 3M
        0x14, 0x00, 0x00, 0x00, // cigar[1] = 1S
        0x12, 0x48, // seq = ACGT
        0x2d, 0x23, 0x2b, 0x32, // qual = NDLS
        b'N', b'H', b'C', 0x01, // data[0] = NH:i:1
    ];

    assert_eq!(buf, expected);
}

#[test]
fn test_write_record_invalid_read_name() {
    let mut record = Record::default();
    record.read_name = Vec::new();
    let mut buf = Vec::new();
    assert_eq!(
        write_record(&mut buf, &record),
        Err(RecordError::InvalidReadNameLength)
    );

    record.read_name = vec![b'n'; 256];
    assert_eq!(
        write_record(&mut buf, &record),
        Err(RecordError::InvalidReadNameLength)
    );
}

#[test]
fn test_write_record_cigar_too_long() {
    let mut record = Record::default();
    record.cigar = vec![cigar_op(Kind::Deletion, 1); 0x1_0000];
    let mut buf = Vec::new();
    assert_eq!(write_record(&mut buf, &record), Err(RecordError::CigarTooLong));
}

#[test]
fn test_sequence_nibble_round_trip() {
    // every letter of the alphabet survives packing and unpacking
    let alphabet = b"=ACMGRSVTWYHKDBN";
    let mut sequence = Sequence::new();
    for &c in alphabet.iter() {
        sequence.push(char_to_base(c).unwrap());
    }
    assert_eq!(sequence.len(), 16);
    for (i, &c) in alphabet.iter().enumerate() {
        assert_eq!(base_to_char(sequence.get(i)), c);
    }

    // an odd length leaves a zero pad nibble
    let mut odd = Sequence::new();
    odd.push(char_to_base(b'A').unwrap());
    odd.push(char_to_base(b'C').unwrap());
    odd.push(char_to_base(b'G').unwrap());
    assert_eq!(odd.nibbles, vec![0x12, 0x40]);
    assert_eq!(base_to_char(odd.get(2)), b'G');
}

#[test]
fn test_char_to_base_rejects_unknown_letters() {
    assert_eq!(char_to_base(b'Z'), None);
    assert_eq!(char_to_base(b'a'), None);
}

#[test]
fn test_write_header() {
    let mut buf = Vec::new();
    write_header(&mut buf, &b"@HD\tVN:1.6\n".to_vec()).unwrap();
    let mut expected = vec![b'B', b'A', b'M', 0x01, 0x0b, 0x00, 0x00, 0x00];
    expected.extend_from_slice(b"@HD\tVN:1.6\n");
    assert_eq!(buf, expected);
}

#[test]
fn test_write_reference_sequence() {
    let mut buf = Vec::new();
    let reference_sequence = ReferenceSequence { name: b"sq0".to_vec(), length: 8 };
    write_reference_sequence(&mut buf, &reference_sequence).unwrap();

    let expected = [
        0x04, 0x00, 0x00, 0x00, // l_name = 4
        0x73, 0x71, 0x30, 0x00, // name = b"sq0\x00"
        0x08, 0x00, 0x00, 0x00, // l_ref = 8
    ];

    assert_eq!(buf, expected);
}

#[test]
fn test_write_reference_sequences() {
    let mut buf = Vec::new();
    let references = vec![
        ReferenceSequence { name: b"sq0".to_vec(), length: 8 },
        ReferenceSequence { name: b"sq1".to_vec(), length: 13 },
    ];
    write_reference_sequences(&mut buf, &references).unwrap();

    let expected = [
        0x02, 0x00, 0x00, 0x00, // n_ref = 2
        0x04, 0x00, 0x00, 0x00, 0x73, 0x71, 0x30, 0x00, 0x08, 0x00, 0x00, 0x00,
        0x04, 0x00, 0x00, 0x00, 0x73, 0x71, 0x31, 0x00, 0x0d, 0x00, 0x00, 0x00,
    ];
    assert_eq!(buf, expected);

    buf.clear();
    let bad = vec![ReferenceSequence { name: b"s\x00q".to_vec(), length: 8 }];
    assert_eq!(write_reference_sequences(&mut buf, &bad), Err(HeaderError::InvalidName));
    assert!(buf.is_empty());
}
