use msglog::codec::{decode, decode_header, encode};
use msglog::err::LogError;
use msglog::msg::Msg;
use msglog::segment::{append, read_at};

#[test]
fn encode_layout_exact() {
    let m = Msg::with_timestamp(b"abc".to_vec(), 42);
    let enc = encode(&m);
    let expected: Vec<u8> = vec![
        175, 175, // signature, little-endian
        183, 223, 33, 51, 170, 211, 254, 228, // hash, little-endian
        42, 0, 0, 0, 0, 0, 0, 0, // timestamp, little-endian
        3, 0, 0, 0,  // payload size, little-endian
        97, 98, 99, // payload
    ];
    assert_eq!(enc, expected);
}

#[test]
fn decode_inverts_encode() {
    let m = Msg::with_timestamp(b"round trip".to_vec(), 1_600_000_000);
    let enc = encode(&m);
    let d = decode(&enc, 0).unwrap();
    assert_eq!(d.header.sign, m.header.sign);
    assert_eq!(d.header.hash, m.header.hash);
    assert_eq!(d.header.timestamp, m.header.timestamp);
    assert_eq!(d.header.size, m.header.size);
    assert_eq!(d.payload, m.payload);
}

#[test]
fn decode_inverts_encode_empty_payload() {
    let m = Msg::with_timestamp(vec![], 9);
    let enc = encode(&m);
    assert_eq!(enc.len(), 22);
    let d = decode(&enc, 0).unwrap();
    assert_eq!(d.header.size, 0);
    assert!(d.payload.is_empty());
    assert!(d.is_valid());
}

#[test]
fn roundtrip_preserves_validity() {
    for len in [0usize, 1, 2, 21, 22, 23, 100] {
        let payload: Vec<u8> = (0..len).map(|i| (i * 7) as u8).collect();
        let m = Msg::with_timestamp(payload, 77);
        let enc = encode(&m);
        let d = decode(&enc, 0).unwrap();
        assert!(d.is_valid());
    }
}

#[test]
fn decode_truncated_header_fails() {
    let m = Msg::with_timestamp(b"abc".to_vec(), 1);
    let mut enc = encode(&m);
    enc.truncate(21);
    assert!(matches!(decode(&enc, 0), Err(LogError::TruncatedRecord)));
}

#[test]
fn decode_truncated_payload_fails() {
    let m = Msg::with_timestamp(b"abcdef".to_vec(), 1);
    let mut enc = encode(&m);
    enc.truncate(24);
    let r = decode(&enc, 0);
    assert!(matches!(r, Err(LogError::TruncatedRecord)));
}

#[test]
fn decode_header_reads_fields() {
    let m = Msg::with_timestamp(b"abc".to_vec(), 42);
    let enc = encode(&m);
    let h = decode_header(&enc, 0).unwrap();
    assert_eq!(h.sign, m.header.sign);
    assert_eq!(h.hash, m.header.hash);
    assert_eq!(h.timestamp, m.header.timestamp);
    assert_eq!(h.size, 3);
    assert!(matches!(decode_header(&enc, 4), Err(LogError::TruncatedRecord)));
}

#[test]
fn append_then_read_reproduces_message() {
    let mut segment: Vec<u8> = Vec::new();
    let m = Msg::with_timestamp(b"first record".to_vec(), 11);
    let offset = append(&mut segment, &m);
    assert_eq!(offset, 0);
    let d = read_at(&segment, offset).unwrap();
    assert_eq!(d.header.sign, m.header.sign);
    assert_eq!(d.header.hash, m.header.hash);
    assert_eq!(d.header.timestamp, m.header.timestamp);
    assert_eq!(d.header.size, m.header.size);
    assert_eq!(d.payload, m.payload);
    assert!(d.is_valid());
}

#[test]
fn two_appends_distinct_increasing_offsets() {
    let mut segment: Vec<u8> = Vec::new();
    let m1 = Msg::with_timestamp(b"one".to_vec(), 1);
    let m2 = Msg::with_timestamp(b"two two".to_vec(), 2);
    let o1 = append(&mut segment, &m1);
    let o2 = append(&mut segment, &m2);
    assert_ne!(o1, o2);
    assert!(o1 < o2);
    // non-overlapping: the second record starts where the first ends
    assert_eq!(o2, o1 + 22 + 3);
    let d1 = read_at(&segment, o1).unwrap();
    let d2 = read_at(&segment, o2).unwrap();
    assert!(d1.is_valid());
    assert!(d2.is_valid());
    assert_eq!(d1.payload, m1.payload);
    assert_eq!(d2.payload, m2.payload);
    assert_eq!(d1.header.timestamp, 1);
    assert_eq!(d2.header.timestamp, 2);
}

#[test]
fn read_past_end_fails() {
    let mut segment: Vec<u8> = Vec::new();
    let m = Msg::with_timestamp(b"abc".to_vec(), 1);
    let end = append(&mut segment, &m) + segment.len() as u64;
    assert!(matches!(read_at(&segment, end), Err(LogError::TruncatedRecord)));
    assert!(matches!(read_at(&segment, segment.len() as u64), Err(LogError::TruncatedRecord)));
    assert!(matches!(read_at(&segment, u64::MAX), Err(LogError::TruncatedRecord)));
    // one byte short of a full header
    assert!(matches!(read_at(&segment, segment.len() as u64 - 21), Err(LogError::TruncatedRecord)));
}

#[test]
fn tampered_payload_byte_decodes_but_fails_validation() {
    let m = Msg::with_timestamp(b"sensitive payload".to_vec(), 123);
    let mut enc = encode(&m);
    enc[25] ^= 0xFF; // flip one payload byte, header untouched
    let d = decode(&enc, 0).unwrap();
    assert_eq!(d.header.size, m.header.size);
    assert_eq!(d.header.hash, m.header.hash);
    assert!(!d.is_valid());
}

#[test]
fn tampering_any_payload_byte_is_detected() {
    let m = Msg::with_timestamp(b"abcdefgh".to_vec(), 5);
    let enc = encode(&m);
    for k in 22..enc.len() {
        let mut bad = enc.clone();
        bad[k] = bad[k].wrapping_add(1);
        let d = decode(&bad, 0).unwrap();
        assert!(!d.is_valid());
    }
}

#[test]
fn append_read_many() {
    let mut segment: Vec<u8> = Vec::new();
    let mut offsets: Vec<u64> = Vec::new();
    for i in 0..50u64 {
        let payload: Vec<u8> = (0..(i % 17)).map(|j| (i + j) as u8).collect();
        let m = Msg::with_timestamp(payload, i);
        offsets.push(append(&mut segment, &m));
    }
    for (i, off) in offsets.iter().enumerate() {
        let d = read_at(&segment, *off).unwrap();
        assert!(d.is_valid());
        assert_eq!(d.header.timestamp, i as u64);
    }
}
