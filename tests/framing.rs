use ungoliant::pipeline::{to_record, RecordError};
use ungoliant::warc::{next_step, parse_length, read_record, FrameError, FrameStep, RawRecord};

const REC: &[u8] = b"WARC/1.0\r\nWARC-Type: conversion\r\nContent-Length: 5\r\n\r\nhello\r\n\r\n";

fn field(n: &str, v: &str) -> (Vec<u8>, Vec<u8>) {
    (n.as_bytes().to_vec(), v.as_bytes().to_vec())
}

#[test]
fn reads_one_record() {
    let (rec, next) = read_record(REC, 0).unwrap();
    assert_eq!(next, REC.len());
    assert_eq!(rec.body, b"hello".to_vec());
    assert_eq!(
        rec.fields,
        vec![field("WARC-Type", "conversion"), field("Content-Length", "5")]
    );
}

#[test]
fn reads_consecutive_records() {
    let mut data = REC.to_vec();
    data.extend_from_slice(b"WARC/1.0\r\nContent-Length:0\r\n\r\n\r\n\r\n");
    let (_, next) = read_record(&data, 0).unwrap();
    let (rec, end) = read_record(&data, next).unwrap();
    assert_eq!(end, data.len());
    assert!(rec.body.is_empty());
    assert_eq!(rec.fields, vec![field("Content-Length", "0")]);
}

#[test]
fn body_may_hold_blank_lines() {
    let data = b"WARC/1.0\r\nContent-Length: 6\r\n\r\na\r\n\r\nb\r\n\r\n";
    let (rec, next) = read_record(data, 0).unwrap();
    assert_eq!(rec.body, b"a\r\n\r\nb".to_vec());
    assert_eq!(next, data.len());
}

#[test]
fn framing_errors() {
    assert_eq!(read_record(b"WARC/1.0\r\nContent-Length: 5\r\n", 0).err(), Some(FrameError::UnterminatedHeader));
    assert_eq!(read_record(b"HTTP/1.0\r\nContent-Length: 0\r\n\r\n\r\n\r\n", 0).err(), Some(FrameError::MissingVersion));
    assert_eq!(read_record(b"WARC/1.0\r\nno colon\r\n\r\n\r\n\r\n", 0).err(), Some(FrameError::MalformedHeader));
    assert_eq!(read_record(b"WARC/1.0\r\nA: b\r\n\r\n\r\n\r\n", 0).err(), Some(FrameError::MissingLength));
    assert_eq!(read_record(b"WARC/1.0\r\nContent-Length: 1x\r\n\r\n\r\n\r\n", 0).err(), Some(FrameError::BadLength));
    assert_eq!(read_record(b"WARC/1.0\r\nContent-Length: 9\r\n\r\nhello\r\n\r\n", 0).err(), Some(FrameError::TruncatedBody));
    assert_eq!(read_record(b"WARC/1.0\r\nContent-Length: 3\r\n\r\nhello\r\n\r\n", 0).err(), Some(FrameError::MissingTrailer));
}

#[test]
fn length_values() {
    assert_eq!(parse_length(b"0"), Some(0));
    assert_eq!(parse_length(b"1234"), Some(1234));
    assert_eq!(parse_length(b""), None);
    assert_eq!(parse_length(b" 1"), None);
    assert_eq!(parse_length(b"99999999999999999999999"), None);
    assert_eq!(parse_length(b"18446744073709551615"), Some(usize::MAX));
}

#[test]
fn reader_steps() {
    assert!(matches!(next_step(REC, REC.len(), true), FrameStep::End(None)));
    assert!(matches!(next_step(REC, REC.len(), false), FrameStep::NeedMore));
    assert!(matches!(next_step(&REC[..20], 0, false), FrameStep::NeedMore));
    assert!(matches!(
        next_step(&REC[..20], 0, true),
        FrameStep::End(Some(FrameError::UnterminatedHeader))
    ));
    match next_step(REC, 0, false) {
        FrameStep::Record(rec, q) => {
            assert_eq!(q, REC.len());
            assert_eq!(rec.body, b"hello".to_vec());
        }
        _ => panic!("expected a record"),
    }
    let mut bad = b"WARC/1.0\r\nbroken\r\n\r\n".to_vec();
    let start = bad.len();
    bad.extend_from_slice(REC);
    match next_step(&bad, 0, true) {
        FrameStep::Skip(e, q) => {
            assert_eq!(e, FrameError::MalformedHeader);
            assert_eq!(q, start);
        }
        _ => panic!("expected a skip"),
    }
}

#[test]
fn records_decode_as_text() {
    let raw = RawRecord { fields: vec![field("WARC-Target-URI", "http://é.example")], body: "ça va".as_bytes().to_vec() };
    let rec = to_record(raw).unwrap();
    assert_eq!(rec.body, "ça va");
    assert_eq!(rec.headers, vec![("WARC-Target-URI".to_string(), "http://é.example".to_string())]);
    let raw = RawRecord { fields: vec![field("A", "b"), (b"C".to_vec(), vec![0xff])], body: Vec::new() };
    assert_eq!(to_record(raw).err(), Some(RecordError::Field(1)));
    let raw = RawRecord { fields: Vec::new(), body: vec![0xc3] };
    assert_eq!(to_record(raw).err(), Some(RecordError::Body));
}
