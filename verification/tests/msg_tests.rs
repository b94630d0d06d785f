use msglog::err::LogError;
use msglog::msg::{Header, Msg, MSG_SIGN};

#[test]
fn calculate_hash_exact_empty() {
    let payload: Vec<u8> = vec![];
    assert_eq!(Msg::calculate_hash(0xAFAF, 0, &payload), 0xee72bb861dd23e83);
}

#[test]
fn calculate_hash_exact_payload() {
    let payload: Vec<u8> = b"hello log".to_vec();
    assert_eq!(
        Msg::calculate_hash(0xAFAF, 1_600_000_000, &payload),
        0xac290810a32e3c0a
    );
}

#[test]
fn calculate_hash_deterministic_across_calls() {
    let payload: Vec<u8> = vec![1, 2, 3, 4, 5];
    let a = Msg::calculate_hash(MSG_SIGN, 99, &payload);
    let b = Msg::calculate_hash(MSG_SIGN, 99, &payload);
    assert_eq!(a, b);
}

#[test]
fn constructor_with_timestamp_is_valid() {
    let m = Msg::with_timestamp(b"abc".to_vec(), 42);
    assert_eq!(m.header.sign, MSG_SIGN);
    assert_eq!(m.header.timestamp, 42);
    assert_eq!(m.header.size, 3);
    assert_eq!(m.header.hash, 0xe4fed3aa3321dfb7);
    assert_eq!(m.payload, b"abc".to_vec());
    assert!(m.is_valid());
}

#[test]
fn constructor_now_is_valid() {
    let m = Msg::new(b"payload bytes".to_vec()).unwrap();
    assert!(m.is_valid());
    assert_eq!(m.header.size, 13);
}

#[test]
fn empty_payload_message_is_valid() {
    let m = Msg::with_timestamp(vec![], 7);
    assert!(m.is_valid());
    assert_eq!(m.header.size, 0);
}

#[test]
fn wrong_signature_is_invalid() {
    let good = Msg::with_timestamp(b"x".to_vec(), 5);
    let bad = Msg {
        header: Header {
            sign: 0x1234,
            hash: good.header.hash,
            timestamp: good.header.timestamp,
            size: good.header.size,
        },
        payload: good.payload.clone(),
    };
    assert!(!bad.is_valid());
}

#[test]
fn wrong_size_is_invalid() {
    let good = Msg::with_timestamp(b"xy".to_vec(), 5);
    let bad = Msg {
        header: Header { size: 1, ..good.header },
        payload: good.payload.clone(),
    };
    assert!(!bad.is_valid());
}

#[test]
fn wrong_hash_is_invalid() {
    let good = Msg::with_timestamp(b"xy".to_vec(), 5);
    let bad = Msg {
        header: Header {
            hash: good.header.hash.wrapping_add(1),
            ..good.header
        },
        payload: good.payload.clone(),
    };
    assert!(!bad.is_valid());
}

#[test]
fn clock_error_variant_is_distinct() {
    assert_ne!(LogError::ClockError, LogError::TruncatedRecord);
    assert_ne!(LogError::SegmentAlreadyExists, LogError::IoError);
    assert_ne!(LogError::IntegrityCheckFailed, LogError::TruncatedRecord);
}
