use vstd::prelude::*;

use crate::codec::{
    decode, encode, encode_bytes, lemma_parse_encoded, parsed_hash, parsed_payload, parsed_sign,
    parsed_size, parsed_timestamp, record_in_bounds, HEADER_LEN,
};
use crate::err::LogError;
use crate::msg::{fields_valid, msg_valid, Msg};

verus! {

/// Appends the encoded record to the end of the segment bytes and returns the
/// byte offset where the record begins — the segment's length before the
/// write, captured before anything is written.
pub fn append(segment: &mut Vec<u8>, msg: &Msg) -> (offset: u64)
    requires
        old(segment)@.len() + HEADER_LEN + msg.payload@.len() <= usize::MAX,
    ensures
        offset == old(segment)@.len(),
        final(segment)@ == old(segment)@ + encode_bytes(*msg),
{
    let offset = segment.len() as u64;
    let mut record = encode(msg);
    segment.append(&mut record);
    offset
}

/// Reads the record that begins at `offset` back out of the segment bytes.
/// Fails with `TruncatedRecord` exactly when the fixed header or the payload
/// it declares runs past the end of the segment: a short read never yields a
/// padded or truncated message.
pub fn read_at(segment: &Vec<u8>, offset: u64) -> (r: Result<Msg, LogError>)
    ensures
        r matches Ok(m) <==> record_in_bounds(segment@, offset as int),
        r matches Ok(m) ==> m.header.sign == parsed_sign(segment@, offset as int) && m.header.hash
            == parsed_hash(segment@, offset as int) && m.header.timestamp == parsed_timestamp(
            segment@,
            offset as int,
        ) && m.header.size == parsed_size(segment@, offset as int) && m.payload@ == parsed_payload(
            segment@,
            offset as int,
        ),
        r matches Err(e) ==> e == LogError::TruncatedRecord,
{
    if offset > segment.len() as u64 {
        return Err(LogError::TruncatedRecord);
    }
    decode(segment, offset as usize)
}

/// Appending a record and reading at the returned offset reproduces the
/// appended message bit for bit, whatever the segment held before.
pub proof fn lemma_append_then_read(s: Seq<u8>, m: Msg)
    requires
        m.header.size == m.payload@.len(),
    ensures
        record_in_bounds(s + encode_bytes(m), s.len() as int),
        parsed_sign(s + encode_bytes(m), s.len() as int) == m.header.sign,
        parsed_hash(s + encode_bytes(m), s.len() as int) == m.header.hash,
        parsed_timestamp(s + encode_bytes(m), s.len() as int) == m.header.timestamp,
        parsed_size(s + encode_bytes(m), s.len() as int) == m.header.size,
        parsed_payload(s + encode_bytes(m), s.len() as int) == m.payload@,
{
    let joined = s + encode_bytes(m);
    crate::codec::lemma_decode_inverts_encode(m);
    assert(joined.subrange(s.len() as int, s.len() + HEADER_LEN + m.payload@.len() as int)
        =~= encode_bytes(m));
    lemma_parse_encoded(m, joined, s.len() as int);
}

/// Two sequential appends return distinct offsets in increasing order whose
/// records do not overlap, and reading each offset back yields the matching
/// original message; when both messages pass the integrity check, so does
/// what is read back.
pub proof fn lemma_two_appends(s: Seq<u8>, m1: Msg, m2: Msg)
    requires
        m1.header.size == m1.payload@.len(),
        m2.header.size == m2.payload@.len(),
    ensures
        ({
            let s1 = s + encode_bytes(m1);
            let s2 = s1 + encode_bytes(m2);
            let off1 = s.len() as int;
            let off2 = s1.len() as int;
            &&& off1 < off2
            &&& off1 + HEADER_LEN + parsed_size(s2, off1) == off2
            &&& record_in_bounds(s2, off1)
            &&& record_in_bounds(s2, off2)
            &&& parsed_sign(s2, off1) == m1.header.sign
            &&& parsed_hash(s2, off1) == m1.header.hash
            &&& parsed_timestamp(s2, off1) == m1.header.timestamp
            &&& parsed_size(s2, off1) == m1.header.size
            &&& parsed_payload(s2, off1) == m1.payload@
            &&& parsed_sign(s2, off2) == m2.header.sign
            &&& parsed_hash(s2, off2) == m2.header.hash
            &&& parsed_timestamp(s2, off2) == m2.header.timestamp
            &&& parsed_size(s2, off2) == m2.header.size
            &&& parsed_payload(s2, off2) == m2.payload@
            &&& msg_valid(m1) ==> fields_valid(
                parsed_sign(s2, off1),
                parsed_hash(s2, off1),
                parsed_timestamp(s2, off1),
                parsed_size(s2, off1),
                parsed_payload(s2, off1),
            )
            &&& msg_valid(m2) ==> fields_valid(
                parsed_sign(s2, off2),
                parsed_hash(s2, off2),
                parsed_timestamp(s2, off2),
                parsed_size(s2, off2),
                parsed_payload(s2, off2),
            )
        }),
{
    let s1 = s + encode_bytes(m1);
    let s2 = s1 + encode_bytes(m2);
    let off1 = s.len() as int;
    let off2 = s1.len() as int;
    crate::codec::lemma_decode_inverts_encode(m1);
    crate::codec::lemma_decode_inverts_encode(m2);
    assert(s2.subrange(off1, off1 + HEADER_LEN + m1.payload@.len() as int) =~= encode_bytes(m1));
    lemma_parse_encoded(m1, s2, off1);
    assert(s2.subrange(off2, off2 + HEADER_LEN + m2.payload@.len() as int) =~= encode_bytes(m2));
    lemma_parse_encoded(m2, s2, off2);
}

} // verus!
