use vstd::prelude::*;

use crate::err::LogError;
use crate::hash::{fnv_bytes, fnv_seq, lemma_fnv_seq_concat, FNV_OFFSET_BASIS};
use vstd::bytes::{spec_u16_to_le_bytes, spec_u64_to_le_bytes, u16_to_le_bytes, u64_to_le_bytes};

verus! {

/// Fixed two-byte magic that opens every record header.
pub const MSG_SIGN: u16 = 0xAFAF;

/// A forward-looking offset-index entry. Nothing in this crate produces or
/// consumes it; it only documents the extension point.
pub struct IndexRecord {
    pub id: u64,
    pub pos: u64,
}

/// The fixed part of a record: magic, integrity hash, creation time in unix
/// seconds, and declared payload length.
#[derive(Clone, Copy, Debug, PartialEq, Eq, Structural)]
pub struct Header {
    pub sign: u16,
    pub hash: u64,
    pub timestamp: u64,
    pub size: u32,
}

/// One log record: a header followed by an arbitrary payload.
pub struct Msg {
    pub header: Header,
    pub payload: Vec<u8>,
}

/// The integrity hash of a record: FNV-1a over the little-endian bytes of the
/// signature, then of the timestamp, then the payload bytes, in that order.
pub open spec fn hash_of(sign: u16, timestamp: u64, payload: Seq<u8>) -> u64 {
    fnv_seq(
        FNV_OFFSET_BASIS,
        spec_u16_to_le_bytes(sign) + spec_u64_to_le_bytes(timestamp) + payload,
    )
}

/// A record's fields pass the integrity check: right magic, declared size
/// matches the payload, and the stored hash is the hash of the contents.
pub open spec fn fields_valid(sign: u16, hash: u64, timestamp: u64, size: u32, payload: Seq<u8>) -> bool {
    &&& sign == MSG_SIGN
    &&& size == payload.len()
    &&& hash == hash_of(sign, timestamp, payload)
}

/// The whole message passes the integrity check.
pub open spec fn msg_valid(m: Msg) -> bool {
    fields_valid(m.header.sign, m.header.hash, m.header.timestamp, m.header.size, m.payload@)
}

impl Msg {
    /// True exactly when this message passes the integrity check.
    pub fn is_valid(&self) -> (r: bool)
        ensures
            r == msg_valid(*self),
    {
        self.header.sign == MSG_SIGN && self.header.size as usize == self.payload.len()
            && self.header.hash == Msg::calculate_hash(
            self.header.sign,
            self.header.timestamp,
            &self.payload,
        )
    }

    /// Calculates the hash of this message.
    pub fn calculate_hash(header: u16, timestamp: u64, payload: &Vec<u8>) -> (r: u64)
        ensures
            r == hash_of(header, timestamp, payload@),
    {
        let mut buf = u16_to_le_bytes(header);
        let mut ts_bytes = u64_to_le_bytes(timestamp);
        buf.append(&mut ts_bytes);
        let h = fnv_bytes(FNV_OFFSET_BASIS, &buf);
        let r = fnv_bytes(h, payload);
        proof {
            let head = spec_u16_to_le_bytes(header) + spec_u64_to_le_bytes(timestamp);
            lemma_fnv_seq_concat(FNV_OFFSET_BASIS, head, payload@);
            assert(head + payload@ =~= spec_u16_to_le_bytes(header) + spec_u64_to_le_bytes(
                timestamp,
            ) + payload@);
        }
        r
    }

    /// Builds a message around `payload` with the given creation time: the
    /// magic signature, the declared size, and a freshly computed hash.
    pub fn with_timestamp(payload: Vec<u8>, timestamp: u64) -> (m: Msg)
        requires
            payload@.len() <= u32::MAX,
        ensures
            msg_valid(m),
            m.header.sign == MSG_SIGN,
            m.header.timestamp == timestamp,
            m.header.size == payload@.len(),
            m.header.hash == hash_of(MSG_SIGN, timestamp, payload@),
            m.payload@ == payload@,
    {
        let calculated_hash = Msg::calculate_hash(MSG_SIGN, timestamp, &payload);
        let size: u32 = payload.len() as u32;
        Msg {
            header: Header { sign: MSG_SIGN, hash: calculated_hash, timestamp, size },
            payload,
        }
    }

    /// Builds a message around `payload` with the current wall-clock time.
    /// Fails with `ClockError` when the system clock reads before the epoch.
    pub fn new(payload: Vec<u8>) -> (r: Result<Msg, LogError>)
        requires
            payload@.len() <= u32::MAX,
        ensures
            r matches Ok(m) ==> msg_valid(m) && m.header.sign == MSG_SIGN && m.header.size
                == payload@.len() && m.payload@ == payload@,
            r matches Err(e) ==> e == LogError::ClockError,
    {
        match now_unix_seconds() {
            Some(now) => Ok(Msg::with_timestamp(payload, now)),
            None => Err(LogError::ClockError),
        }
    }
}

/// Relies on `std::time::SystemTime::now` and `SystemTime::duration_since`:
/// whole seconds since the unix epoch, or `None` when the clock reads before
/// the epoch. Nothing is assumed about the value returned.
#[verifier::external_body]
fn now_unix_seconds() -> Option<u64> {
    match std::time::SystemTime::now().duration_since(std::time::SystemTime::UNIX_EPOCH) {
        Ok(duration) => Some(duration.as_secs()),
        Err(_) => None,
    }
}

} // verus!
