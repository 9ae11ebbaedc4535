//! The textual CIGAR and auxiliary-value writers.

use hts::sam::cigar::{write_cigar, Cigar, Kind, Op};
use hts::sam::value::{write_value, Value};

#[test]
fn test_write_cigar() {
    let mut buf = Vec::new();
    write_cigar(&mut buf, &Cigar::default());
    assert_eq!(buf, b"*");

    buf.clear();
    let cigar = Cigar::from(vec![Op::new(Kind::Match, 8)]);
    write_cigar(&mut buf, &cigar);
    assert_eq!(buf, b"8M");
}

#[test]
fn test_write_cigar_all_kinds() {
    let mut buf = Vec::new();
    let cigar = Cigar::from(vec![
        Op::new(Kind::Match, 1),
        Op::new(Kind::Insertion, 2),
        Op::new(Kind::Deletion, 3),
        Op::new(Kind::Skip, 4),
        Op::new(Kind::SoftClip, 5),
        Op::new(Kind::HardClip, 6),
        Op::new(Kind::Pad, 7),
        Op::new(Kind::SequenceMatch, 8),
        Op::new(Kind::SequenceMismatch, 9),
    ]);
    write_cigar(&mut buf, &cigar);
    assert_eq!(buf, b"1M2I3D4N5S6H7P8=9X");
}

fn t(buf: &mut Vec<u8>, value: &Value, expected: &[u8]) {
    buf.clear();
    write_value(buf, value);
    assert_eq!(buf, expected);
}

#[test]
fn test_write_value() {
    let mut buf = Vec::new();

    t(&mut buf, &Value::Char(b'n'), &[b'n']);
    t(&mut buf, &Value::Int8(1), b"1");
    t(&mut buf, &Value::UInt8(2), b"2");
    t(&mut buf, &Value::Int16(3), b"3");
    t(&mut buf, &Value::UInt16(5), b"5");
    t(&mut buf, &Value::Int32(8), b"8");
    t(&mut buf, &Value::UInt32(13), b"13");
    t(&mut buf, &Value::Float(format!("{}", 8.0f32).into_bytes()), b"8");
    t(&mut buf, &Value::String(b"ndls".to_vec()), b"ndls");
    t(&mut buf, &Value::Hex(b"CAFE".to_vec()), b"CAFE");
    t(&mut buf, &Value::Int8Array(vec![1, -2]), b"c,1,-2");
    t(&mut buf, &Value::UInt8Array(vec![3, 5]), b"C,3,5");
    t(&mut buf, &Value::Int16Array(vec![8, -13]), b"s,8,-13");
    t(&mut buf, &Value::UInt16Array(vec![21, 34]), b"S,21,34");
    t(&mut buf, &Value::Int32Array(vec![55, -89]), b"i,55,-89");
    t(&mut buf, &Value::UInt32Array(vec![144, 223]), b"I,144,223");
    t(
        &mut buf,
        &Value::FloatArray(vec![
            format!("{}", 8.0f32).into_bytes(),
            format!("{}", 13.0f32).into_bytes(),
        ]),
        b"f,8,13",
    );
}

#[test]
fn test_value_text_stays_in_column() {
    // a well-formed value's text never holds a tab or a line break
    let mut buf = Vec::new();
    for value in [
        Value::Char(b'n'),
        Value::Int32(-144),
        Value::Float(format!("{}", 30.1f32).into_bytes()),
        Value::String(b"ndls".to_vec()),
        Value::Hex(b"CAFE".to_vec()),
        Value::Int16Array(vec![8, -13, 21]),
        Value::FloatArray(vec![format!("{}", 0.5f32).into_bytes()]),
    ] {
        write_value(&mut buf, &value);
    }
    assert!(!buf.contains(&0x09));
    assert!(!buf.contains(&0x0a));
}

#[test]
fn test_write_value_extremes() {
    let mut buf = Vec::new();
    t(&mut buf, &Value::Int32(i32::MIN), b"-2147483648");
    t(&mut buf, &Value::Int32(i32::MAX), b"2147483647");
    t(&mut buf, &Value::UInt32(u32::MAX), b"4294967295");
    t(&mut buf, &Value::Int8(0), b"0");
    t(&mut buf, &Value::Int8Array(vec![]), b"c");
}
