//! The record codec: framing, stream scanning, and round trips.

use vfs::serializer::{save_vector, load_vectors, encode_payload, decode_payload, usize_size};
use vfs::vector::{VFSVector, VFSVectorModel};

fn bits(vals: &[f32]) -> Vec<u32> {
    vals.iter().map(|v| v.to_bits()).collect()
}

fn dense(vals: &[f32], id: u64, name: &str, tags: &[&str]) -> VFSVector {
    VFSVector::from_vec(
        bits(vals),
        id,
        name,
        tags.iter().map(|t| t.to_string()).collect(),
        "2024-05-01T00:00:00+00:00".to_string(),
    )
}

fn values_of(v: &VFSVector) -> Vec<u32> {
    v.dense_bits().expect("dense vector expected")
}

#[test]
fn usize_size_is_word_width() {
    assert_eq!(usize_size(), 8);
}

#[test]
fn payload_round_trip_dense() {
    let v = dense(&[1.5, -2.25, 3.0], 7, "alpha", &["x", "y"]);
    let payload = encode_payload(&v);
    let back = decode_payload(&payload).expect("payload must decode");
    assert_eq!(back.id(), 7);
    assert_eq!(values_of(&back), bits(&[1.5, -2.25, 3.0]));
    assert_eq!(back.metadata().name, "alpha");
    assert_eq!(back.metadata().tags, vec!["x".to_string(), "y".to_string()]);
    assert_eq!(back.metadata().created_at, "2024-05-01T00:00:00+00:00");
}

#[test]
fn payload_round_trip_quantized() {
    let v = VFSVector::from_quantized_vec(
        vec![-128, -1, 0, 1, 127],
        9,
        (127.0f32).to_bits(),
        "q",
        vec!["t".to_string()],
        "2024-05-01T00:00:00+00:00".to_string(),
    );
    let payload = encode_payload(&v);
    let back = decode_payload(&payload).expect("payload must decode");
    assert_eq!(back.id(), 9);
    let (values, scale_bits) = back.quantized_bits().expect("quantized vector expected");
    assert_eq!(values, vec![-128, -1, 0, 1, 127]);
    assert_eq!(f32::from_bits(scale_bits), 127.0);
    // The reserved tag is appended on construction.
    assert_eq!(back.metadata().tags, vec!["t".to_string(), "quantized".to_string()]);
}

#[test]
fn payload_round_trip_unicode_metadata() {
    let v = dense(&[0.0], 1, "vécteur città 日本", &["ü", "emoji ✨"]);
    let payload = encode_payload(&v);
    let back = decode_payload(&payload).expect("payload must decode");
    assert_eq!(back.metadata().name, "vécteur città 日本");
    assert_eq!(back.metadata().tags[1], "emoji ✨");
}

#[test]
fn record_stream_round_trip() {
    let mut data: Vec<u8> = Vec::new();
    let v1 = dense(&[1.0, 2.0], 1, "a", &[]);
    let v2 = dense(&[3.0, 4.0], 2, "b", &[]);
    let off1 = save_vector(&v1, &mut data);
    let off2 = save_vector(&v2, &mut data);
    assert_eq!(off1, 0);
    assert!(off2 > 0);

    let (records, consumed) = load_vectors(&data, 0, usize::MAX);
    assert_eq!(records.len(), 2);
    assert_eq!(records[0].id(), 1);
    assert_eq!(records[1].id(), 2);
    assert_eq!(consumed, data.len());

    // Resuming from the second record's marker yields just that record.
    let (tail, end) = load_vectors(&data, off2, usize::MAX);
    assert_eq!(tail.len(), 1);
    assert_eq!(tail[0].id(), 2);
    assert_eq!(end, data.len());
}

#[test]
fn record_starts_with_marker_and_length() {
    let mut data: Vec<u8> = Vec::new();
    let v = dense(&[1.0], 5, "m", &[]);
    save_vector(&v, &mut data);
    assert_eq!(&data[0..4], &[0xde, 0xad, 0xbe, 0xef]);
    let len = u64::from_le_bytes(data[4..12].try_into().unwrap()) as usize;
    assert_eq!(data.len(), 12 + len);
}

#[test]
fn scanner_skips_stray_bytes_between_records() {
    let mut data: Vec<u8> = vec![0x00, 0x42, 0x13];
    let v = dense(&[9.0], 3, "late", &[]);
    save_vector(&v, &mut data);
    let (records, consumed) = load_vectors(&data, 0, usize::MAX);
    assert_eq!(records.len(), 1);
    assert_eq!(records[0].id(), 3);
    assert_eq!(consumed, data.len());
}

#[test]
fn scanner_rewinds_over_torn_tail() {
    let mut data: Vec<u8> = Vec::new();
    let v1 = dense(&[1.0], 1, "whole", &[]);
    let v2 = dense(&[2.0], 2, "torn", &[]);
    let boundary = {
        save_vector(&v1, &mut data);
        let b = data.len();
        save_vector(&v2, &mut data);
        b
    };
    // Cut the second record short: its frame no longer fits.
    data.truncate(boundary + 8);
    let (records, consumed) = load_vectors(&data, 0, usize::MAX);
    assert_eq!(records.len(), 1);
    assert_eq!(records[0].id(), 1);
    // The cursor stops at the torn record's marker so a retry can
    // pick it up once it is whole.
    assert_eq!(consumed, boundary);
}

#[test]
fn scanner_respects_count() {
    let mut data: Vec<u8> = Vec::new();
    for i in 0..5u64 {
        let v = dense(&[i as f32], i + 1, "n", &[]);
        save_vector(&v, &mut data);
    }
    let (records, consumed) = load_vectors(&data, 0, 2);
    assert_eq!(records.len(), 2);
    assert!(consumed < data.len());
    let (rest, end) = load_vectors(&data, consumed, usize::MAX);
    assert_eq!(rest.len(), 3);
    assert_eq!(rest[0].id(), 3);
    assert_eq!(end, data.len());
}

#[test]
fn decode_rejects_malformed_payload() {
    assert!(decode_payload(&vec![]).is_none());
    assert!(decode_payload(&vec![2, 0, 0]).is_none());
    let v = dense(&[1.0], 1, "x", &[]);
    let mut payload = encode_payload(&v);
    payload.push(0); // trailing byte
    assert!(decode_payload(&payload).is_none());
}
