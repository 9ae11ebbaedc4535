//! The binary variant-call codec: typed values and the site layout.

use hts::bcf::record::{read_record, write_record, Record, RecordError};
use hts::bcf::typed::{read_typed_value, write_typed_value, TypedValue, TypedError};

#[test]
fn test_typed_value_round_trips() {
    fn t(value: TypedValue) {
        let mut buf = Vec::new();
        write_typed_value(&mut buf, &value).unwrap();
        let (back, end) = read_typed_value(&buf, 0).unwrap();
        assert_eq!(end, buf.len());
        match (&value, &back) {
            (TypedValue::Missing, TypedValue::Missing) => {}
            (TypedValue::Int8(a), TypedValue::Int8(b)) => assert_eq!(a, b),
            (TypedValue::Int16(a), TypedValue::Int16(b)) => assert_eq!(a, b),
            (TypedValue::Int32(a), TypedValue::Int32(b)) => assert_eq!(a, b),
            (TypedValue::Float(a), TypedValue::Float(b)) => assert_eq!(a, b),
            (TypedValue::Text(a), TypedValue::Text(b)) => assert_eq!(a, b),
            _ => panic!("the value came back as another type"),
        }
    }

    t(TypedValue::Missing);
    t(TypedValue::Int8(vec![]));
    t(TypedValue::Int8(vec![1, -2, 127, -128]));
    t(TypedValue::Int16(vec![3, -21, 0x7fff, -0x8000]));
    t(TypedValue::Int32(vec![55, -89, i32::MAX, i32::MIN]));
    t(TypedValue::Float(vec![(30.1f32).to_bits(), (0.0f32).to_bits()]));
    t(TypedValue::Text(b"rs123".to_vec()));
    // counts of fifteen and more take the overflow header
    t(TypedValue::Int8(vec![7; 15]));
    t(TypedValue::Int8(vec![7; 300]));
    t(TypedValue::Text(vec![b'x'; 40000]));
}

#[test]
fn test_typed_value_encodings() {
    let mut buf = Vec::new();
    write_typed_value(&mut buf, &TypedValue::Text(b"rs123".to_vec())).unwrap();
    assert_eq!(buf, vec![0x57, b'r', b's', b'1', b'2', b'3']);

    buf.clear();
    write_typed_value(&mut buf, &TypedValue::Int8(vec![0])).unwrap();
    assert_eq!(buf, vec![0x11, 0x00]);

    buf.clear();
    write_typed_value(&mut buf, &TypedValue::Missing).unwrap();
    assert_eq!(buf, vec![0x00]);

    buf.clear();
    write_typed_value(&mut buf, &TypedValue::Int8(vec![1; 20])).unwrap();
    let mut expected = vec![0xf1, 0x11, 20];
    expected.extend_from_slice(&[1; 20]);
    assert_eq!(buf, expected);
}

#[test]
fn test_read_typed_value_errors() {
    assert_eq!(read_typed_value(&[], 0).unwrap_err(), TypedError::UnexpectedEnd);
    // type code 4 names no type
    assert_eq!(read_typed_value(&[0x14, 0x00], 0).unwrap_err(), TypedError::UnknownType);
    // an overflow count that is not a typed integer scalar
    assert_eq!(read_typed_value(&[0xf1, 0x21], 0).unwrap_err(), TypedError::InvalidCount);
    // a value cut short
    assert_eq!(read_typed_value(&[0x21, 0x05], 0).unwrap_err(), TypedError::UnexpectedEnd);
}

/// The reference record blob: one site with two alleles, four info fields and
/// five genotype fields over three samples.
fn reference_blob() -> Vec<u8> {
    vec![
        0x33, 0x00, 0x00, 0x00, // l_shared = 51
        0x2a, 0x00, 0x00, 0x00, // l_indiv = 42
        0x01, 0x00, 0x00, 0x00, // chrom_id = 1
        0x64, 0x00, 0x00, 0x00, // pos = 100 (0-based)
        0x01, 0x00, 0x00, 0x00, // rlen = 1
        0xcd, 0xcc, 0xf0, 0x41, // qual = 30.1
        0x04, 0x00, 0x02, 0x00, // n_info = 4, n_allele = 2
        0x03, 0x00, 0x00, 0x05, // n_sample = 3, n_fmt = 5
        0x57, b'r', b's', b'1', b'2', b'3', // id = "rs123"
        0x17, b'A', // ref = A
        0x17, b'C', // alt = C
        0x11, 0x00, // filter = [0] (PASS)
        0x11, 0x01, 0x00, // key 1, flag
        0x11, 0x02, 0x11, 0x03, // key 2, 3
        0x11, 0x03, 0x11, 0x06, // key 3, 6
        0x11, 0x04, 0x17, b'C', // key 4, "C"
        // genotypes
        0x11, 0x05, // key 5
        0x21, // two 8-bit values per sample
        0x02, 0x02, 0x02, 0x04, 0x04, 0x04, // 0/0, 0/1, 1/1
        0x11, 0x06, // key 6
        0x11, // one 8-bit value per sample
        0x0a, 0x0a, 0x0a, // 10, 10, 10
        0x11, 0x07, // key 7
        0x11, 0x20, 0x30, 0x40, // 32, 48, 64
        0x11, 0x08, // key 8
        0x21, // two 8-bit values per sample
        0x20, 0x00, 0x20, 0x10, 0x00, 0x40, // [32, 0], [32, 16], [0, 64]
        0x11, 0x09, // key 9
        0x31, // three 8-bit values per sample
        0x00, 0x0a, 0x64, 0x0a, 0x00, 0x64, 0x64, 0x0a, 0x00,
    ]
}

#[test]
fn test_bcf_record_round_trip() {
    let blob = reference_blob();
    let (record, end) = read_record(&blob, 0).unwrap();
    assert_eq!(end, blob.len());

    assert_eq!(record.chrom_id, 1);
    assert_eq!(record.pos, 100); // 1-based position 101
    assert_eq!(record.rlen, 1);
    assert_eq!(record.qual_bits, (30.1f32).to_bits());
    assert_eq!(record.n_sample, 3);
    assert_eq!(record.n_fmt, 5);

    match &record.ids {
        TypedValue::Text(text) => assert_eq!(text, b"rs123"),
        _ => panic!("the identifiers are not a string"),
    }
    assert_eq!(record.alleles.len(), 2);
    match &record.alleles[0] {
        TypedValue::Text(text) => assert_eq!(text, b"A"),
        _ => panic!("the reference bases are not a string"),
    }
    match &record.alleles[1] {
        TypedValue::Text(text) => assert_eq!(text, b"C"),
        _ => panic!("the alternate bases are not a string"),
    }
    match &record.filters {
        TypedValue::Int8(ids) => assert_eq!(ids, &vec![0]),
        _ => panic!("the filters are not integer ids"),
    }

    assert_eq!(record.info.len(), 4);
    match &record.info[0] {
        (TypedValue::Int8(key), TypedValue::Missing) => assert_eq!(key, &vec![1]),
        _ => panic!("the flag field came back wrong"),
    }
    match &record.info[1] {
        (TypedValue::Int8(key), TypedValue::Int8(value)) => {
            assert_eq!(key, &vec![2]);
            assert_eq!(value, &vec![3]);
        }
        _ => panic!("the count field came back wrong"),
    }
    match &record.info[2] {
        (TypedValue::Int8(key), TypedValue::Int8(value)) => {
            assert_eq!(key, &vec![3]);
            assert_eq!(value, &vec![6]);
        }
        _ => panic!("the total field came back wrong"),
    }
    match &record.info[3] {
        (TypedValue::Int8(key), TypedValue::Text(value)) => {
            assert_eq!(key, &vec![4]);
            assert_eq!(value, b"C");
        }
        _ => panic!("the string field came back wrong"),
    }

    assert_eq!(record.genotypes.len(), 42);
    assert_eq!(&record.genotypes[..3], &[0x11, 0x05, 0x21]);

    // re-encoding gives the blob back, byte for byte
    let mut out = Vec::new();
    write_record(&mut out, &record).unwrap();
    assert_eq!(out, blob);
}

#[test]
fn test_read_record_errors() {
    assert_eq!(read_record(&[], 0).unwrap_err(), RecordError::EndOfInput);
    // an offset right at the end of the input means no record, not truncation
    let blob = reference_blob();
    assert_eq!(
        read_record(&blob, blob.len()).unwrap_err(),
        RecordError::EndOfInput
    );

    let mut truncated = reference_blob();
    truncated.truncate(20);
    assert_eq!(read_record(&truncated, 0).unwrap_err(), RecordError::UnexpectedEnd);

    // a site whose typed fields stop short of l_shared
    let mut skewed = reference_blob();
    skewed[0] = 0x34; // l_shared one byte long
    skewed.push(0x00);
    assert!(read_record(&skewed, 0).is_err());
}

#[test]
fn test_write_record_refuses_overflowing_counts() {
    let blob = reference_blob();
    let (mut record, _) = read_record(&blob, 0).unwrap();
    record.n_sample = 0x100_0000;
    let mut out = Vec::new();
    assert_eq!(write_record(&mut out, &record), Err(RecordError::CountOverflow));
    assert!(out.is_empty());
}
