use msglog::err::LogError;
use msglog::log::{new_id, MsgLog};

#[test]
fn path_is_zero_padded() {
    let log = MsgLog::new(None, String::from("events"), 42, 7);
    assert_eq!(log.get_path(), "/tmp/events/00000042");
    assert_eq!(log.get_file(), "/tmp/events/00000042/00000007.log");
}

#[test]
fn path_uses_given_base_dir() {
    let log = MsgLog::new(Some(String::from("/var/data")), String::from("orders"), 0, 65535);
    assert_eq!(log.get_path(), "/var/data/orders/00000000");
    assert_eq!(log.get_file(), "/var/data/orders/00000000/00065535.log");
}

#[test]
fn create_new_check_fresh_succeeds() {
    let log = MsgLog::new(None, String::from("t"), 0, 0);
    assert!(log.create_new_check(false, 0).is_ok());
}

#[test]
fn create_new_check_populated_fails() {
    let log = MsgLog::new(None, String::from("t"), 0, 0);
    assert!(matches!(
        log.create_new_check(true, 1),
        Err(LogError::SegmentAlreadyExists)
    ));
    assert!(matches!(
        log.create_new_check(true, 4096),
        Err(LogError::SegmentAlreadyExists)
    ));
}

#[test]
fn create_new_check_empty_file_succeeds_twice() {
    let log = MsgLog::new(None, String::from("t"), 0, 0);
    assert!(log.create_new_check(true, 0).is_ok());
    assert!(log.create_new_check(true, 0).is_ok());
}

#[test]
fn new_id_is_32_lowercase_hex() {
    let id = new_id().unwrap();
    assert_eq!(id.len(), 32);
    for c in id.chars() {
        assert!(c.is_ascii_hexdigit());
        assert!(!c.is_ascii_uppercase());
    }
}
