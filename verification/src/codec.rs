use vstd::prelude::*;

use crate::err::LogError;
use crate::hash::lemma_fnv_seq_concat;
use crate::hash::lemma_fnv_seq_flip_injective;
use crate::msg::{fields_valid, hash_of, msg_valid, Header, Msg};
use vstd::bytes::{
    lemma_auto_spec_u16_to_from_le_bytes, lemma_auto_spec_u32_to_from_le_bytes,
    lemma_auto_spec_u64_to_from_le_bytes, spec_u16_from_le_bytes, spec_u16_to_le_bytes,
    spec_u32_from_le_bytes, spec_u32_to_le_bytes, spec_u64_from_le_bytes, spec_u64_to_le_bytes,
    u16_from_le_bytes, u16_to_le_bytes, u32_from_le_bytes, u32_to_le_bytes, u64_from_le_bytes,
    u64_to_le_bytes,
};
use vstd::slice::{slice_subrange, slice_to_vec};

verus! {

/// Byte length of the fixed record header: 2-byte signature, 8-byte hash,
/// 8-byte timestamp, 4-byte payload size.
pub const HEADER_LEN: usize = 22;

/// The on-disk bytes of a record: the four header fields in little-endian
/// order, then the raw payload with no terminator.
pub open spec fn encode_bytes(m: Msg) -> Seq<u8> {
    spec_u16_to_le_bytes(m.header.sign) + spec_u64_to_le_bytes(m.header.hash)
        + spec_u64_to_le_bytes(m.header.timestamp) + spec_u32_to_le_bytes(m.header.size)
        + m.payload@
}

/// The fixed header fits in `s` at `off`.
pub open spec fn header_in_bounds(s: Seq<u8>, off: int) -> bool {
    0 <= off && off + HEADER_LEN <= s.len()
}

/// The signature a header at `off` declares.
pub open spec fn parsed_sign(s: Seq<u8>, off: int) -> u16 {
    spec_u16_from_le_bytes(s.subrange(off, off + 2))
}

/// The stored hash a header at `off` declares.
pub open spec fn parsed_hash(s: Seq<u8>, off: int) -> u64 {
    spec_u64_from_le_bytes(s.subrange(off + 2, off + 10))
}

/// The timestamp a header at `off` declares.
pub open spec fn parsed_timestamp(s: Seq<u8>, off: int) -> u64 {
    spec_u64_from_le_bytes(s.subrange(off + 10, off + 18))
}

/// The payload length a header at `off` declares.
pub open spec fn parsed_size(s: Seq<u8>, off: int) -> u32 {
    spec_u32_from_le_bytes(s.subrange(off + 18, off + 22))
}

/// The whole record at `off` — header and the payload the header declares —
/// fits in `s`.
pub open spec fn record_in_bounds(s: Seq<u8>, off: int) -> bool {
    header_in_bounds(s, off) && off + HEADER_LEN + parsed_size(s, off) <= s.len()
}

/// The payload bytes of the record at `off`.
pub open spec fn parsed_payload(s: Seq<u8>, off: int) -> Seq<u8> {
    s.subrange(off + HEADER_LEN, off + HEADER_LEN + parsed_size(s, off))
}

/// Serializes a message into its exact on-disk byte layout.
pub fn encode(msg: &Msg) -> (r: Vec<u8>)
    requires
        msg.payload@.len() + HEADER_LEN <= usize::MAX,
    ensures
        r@ == encode_bytes(*msg),
        r@.len() == HEADER_LEN + msg.payload@.len(),
{
    proof {
        lemma_auto_spec_u16_to_from_le_bytes();
        lemma_auto_spec_u32_to_from_le_bytes();
        lemma_auto_spec_u64_to_from_le_bytes();
    }
    let mut r = u16_to_le_bytes(msg.header.sign);
    let mut hash_bytes = u64_to_le_bytes(msg.header.hash);
    let mut ts_bytes = u64_to_le_bytes(msg.header.timestamp);
    let mut size_bytes = u32_to_le_bytes(msg.header.size);
    r.append(&mut hash_bytes);
    r.append(&mut ts_bytes);
    r.append(&mut size_bytes);
    r.extend_from_slice(msg.payload.as_slice());
    proof {
        assert(r@ =~= encode_bytes(*msg));
    }
    r
}

/// Reads the 22 fixed header bytes at `offset`. Fails with `TruncatedRecord`
/// exactly when fewer than 22 bytes are available there; says nothing about
/// whether the declared payload is present.
pub fn decode_header(source: &Vec<u8>, offset: usize) -> (r: Result<Header, LogError>)
    ensures
        r matches Ok(h) <==> header_in_bounds(source@, offset as int),
        r matches Ok(h) ==> h.sign == parsed_sign(source@, offset as int) && h.hash == parsed_hash(
            source@,
            offset as int,
        ) && h.timestamp == parsed_timestamp(source@, offset as int) && h.size == parsed_size(
            source@,
            offset as int,
        ),
        r matches Err(e) ==> e == LogError::TruncatedRecord,
{
    if source.len() < HEADER_LEN || offset > source.len() - HEADER_LEN {
        return Err(LogError::TruncatedRecord);
    }
    let s = source.as_slice();
    let sign = u16_from_le_bytes(slice_subrange(s, offset, offset + 2));
    let hash = u64_from_le_bytes(slice_subrange(s, offset + 2, offset + 10));
    let timestamp = u64_from_le_bytes(slice_subrange(s, offset + 10, offset + 18));
    let size = u32_from_le_bytes(slice_subrange(s, offset + 18, offset + 22));
    Ok(Header { sign, hash, timestamp, size })
}

/// Deserializes the record at `offset`: the fixed header, then exactly the
/// declared number of payload bytes. Checks only that enough bytes are
/// present, never the hash; fails with `TruncatedRecord` exactly when either
/// the header or the declared payload runs past the end of `source`.
pub fn decode(source: &Vec<u8>, offset: usize) -> (r: Result<Msg, LogError>)
    ensures
        r matches Ok(m) <==> record_in_bounds(source@, offset as int),
        r matches Ok(m) ==> m.header.sign == parsed_sign(source@, offset as int) && m.header.hash
            == parsed_hash(source@, offset as int) && m.header.timestamp == parsed_timestamp(
            source@,
            offset as int,
        ) && m.header.size == parsed_size(source@, offset as int) && m.payload@ == parsed_payload(
            source@,
            offset as int,
        ),
        r matches Err(e) ==> e == LogError::TruncatedRecord,
{
    let header = match decode_header(source, offset) {
        Ok(h) => h,
        Err(e) => {
            return Err(e);
        },
    };
    let payload_len = header.size as usize;
    if payload_len > source.len() - (offset + HEADER_LEN) {
        return Err(LogError::TruncatedRecord);
    }
    let payload_slice = slice_subrange(
        source.as_slice(),
        offset + HEADER_LEN,
        offset + HEADER_LEN + payload_len,
    );
    let payload = slice_to_vec(payload_slice);
    Ok(Msg { header, payload })
}

/// Wherever an encoded record sits inside a larger byte sequence, parsing at
/// its start yields back exactly the fields and payload that were encoded.
pub proof fn lemma_parse_encoded(m: Msg, s: Seq<u8>, off: int)
    requires
        m.header.size == m.payload@.len(),
        0 <= off,
        off + HEADER_LEN + m.payload@.len() <= s.len(),
        s.subrange(off, off + HEADER_LEN + m.payload@.len() as int) == encode_bytes(m),
    ensures
        record_in_bounds(s, off),
        parsed_sign(s, off) == m.header.sign,
        parsed_hash(s, off) == m.header.hash,
        parsed_timestamp(s, off) == m.header.timestamp,
        parsed_size(s, off) == m.header.size,
        parsed_payload(s, off) == m.payload@,
{
    lemma_auto_spec_u16_to_from_le_bytes();
    lemma_auto_spec_u32_to_from_le_bytes();
    lemma_auto_spec_u64_to_from_le_bytes();
    let enc = encode_bytes(m);
    let a = spec_u16_to_le_bytes(m.header.sign);
    let b = spec_u64_to_le_bytes(m.header.hash);
    let c = spec_u64_to_le_bytes(m.header.timestamp);
    let d = spec_u32_to_le_bytes(m.header.size);
    let p = m.payload@;
    assert(a.len() == 2 && b.len() == 8 && c.len() == 8 && d.len() == 4);
    assert(enc.len() == HEADER_LEN + p.len());
    assert forall|j: int| 0 <= j < enc.len() implies s[off + j] == #[trigger] enc[j] by {
        assert(s.subrange(off, off + HEADER_LEN + m.payload@.len() as int)[j] == enc[j]);
    }
    assert forall|j: int| 0 <= j < 2 implies s.subrange(off, off + 2)[j] == a[j] by {
        assert(enc[j] == a[j]);
        assert(s.subrange(off, off + 2)[j] == s[off + j]);
    }
    assert(s.subrange(off, off + 2) =~= a);
    assert forall|j: int| 0 <= j < 8 implies s.subrange(off + 2, off + 10)[j] == b[j] by {
        assert(enc[2 + j] == b[j]);
        assert(s[off + (2 + j)] == enc[2 + j]);
        assert(s.subrange(off + 2, off + 10)[j] == s[off + 2 + j]);
    }
    assert(s.subrange(off + 2, off + 10) =~= b);
    assert forall|j: int| 0 <= j < 8 implies s.subrange(off + 10, off + 18)[j] == c[j] by {
        assert(enc[10 + j] == c[j]);
        assert(s[off + (10 + j)] == enc[10 + j]);
        assert(s.subrange(off + 10, off + 18)[j] == s[off + 10 + j]);
    }
    assert(s.subrange(off + 10, off + 18) =~= c);
    assert forall|j: int| 0 <= j < 4 implies s.subrange(off + 18, off + 22)[j] == d[j] by {
        assert(enc[18 + j] == d[j]);
        assert(s[off + (18 + j)] == enc[18 + j]);
        assert(s.subrange(off + 18, off + 22)[j] == s[off + 18 + j]);
    }
    assert(s.subrange(off + 18, off + 22) =~= d);
    assert(parsed_size(s, off) == m.header.size);
    assert forall|j: int| 0 <= j < p.len() implies parsed_payload(s, off)[j] == p[j] by {
        assert(enc[22 + j] == p[j]);
        assert(s[off + (22 + j)] == enc[22 + j]);
        assert(parsed_payload(s, off)[j] == s[off + HEADER_LEN + j]);
    }
    assert(parsed_payload(s, off) =~= p);
}

/// Decoding an encoded message reproduces it exactly: same signature, hash,
/// timestamp, declared size, and payload bytes.
pub proof fn lemma_decode_inverts_encode(m: Msg)
    requires
        m.header.size == m.payload@.len(),
    ensures
        encode_bytes(m).len() == HEADER_LEN + m.payload@.len(),
        record_in_bounds(encode_bytes(m), 0),
        parsed_sign(encode_bytes(m), 0) == m.header.sign,
        parsed_hash(encode_bytes(m), 0) == m.header.hash,
        parsed_timestamp(encode_bytes(m), 0) == m.header.timestamp,
        parsed_size(encode_bytes(m), 0) == m.header.size,
        parsed_payload(encode_bytes(m), 0) == m.payload@,
{
    let enc = encode_bytes(m);
    lemma_auto_spec_u16_to_from_le_bytes();
    lemma_auto_spec_u32_to_from_le_bytes();
    lemma_auto_spec_u64_to_from_le_bytes();
    assert(enc.subrange(0, enc.len() as int) =~= enc);
    lemma_parse_encoded(m, enc, 0);
}

/// A message that passes the integrity check still passes it after an
/// encode/decode round trip.
pub proof fn lemma_roundtrip_preserves_validity(m: Msg)
    requires
        msg_valid(m),
    ensures
        record_in_bounds(encode_bytes(m), 0),
        fields_valid(
            parsed_sign(encode_bytes(m), 0),
            parsed_hash(encode_bytes(m), 0),
            parsed_timestamp(encode_bytes(m), 0),
            parsed_size(encode_bytes(m), 0),
            parsed_payload(encode_bytes(m), 0),
        ),
{
    lemma_decode_inverts_encode(m);
}

/// Two byte sequences with the same header bytes at `off` parse to the same
/// header fields.
proof fn lemma_same_header_parse(s1: Seq<u8>, s2: Seq<u8>, off: int)
    requires
        header_in_bounds(s1, off),
        header_in_bounds(s2, off),
        forall|j: int| off <= j < off + HEADER_LEN ==> s1[j] == s2[j],
    ensures
        parsed_sign(s1, off) == parsed_sign(s2, off),
        parsed_hash(s1, off) == parsed_hash(s2, off),
        parsed_timestamp(s1, off) == parsed_timestamp(s2, off),
        parsed_size(s1, off) == parsed_size(s2, off),
{
    assert(s1.subrange(off, off + 2) =~= s2.subrange(off, off + 2));
    assert(s1.subrange(off + 2, off + 10) =~= s2.subrange(off + 2, off + 10));
    assert(s1.subrange(off + 10, off + 18) =~= s2.subrange(off + 10, off + 18));
    assert(s1.subrange(off + 18, off + 22) =~= s2.subrange(off + 18, off + 22));
}

/// Two payloads that differ in exactly one byte hash differently under the
/// same signature and timestamp.
proof fn lemma_hash_of_differs(sign: u16, timestamp: u64, p1: Seq<u8>, p2: Seq<u8>, kp: int)
    requires
        p1.len() == p2.len(),
        0 <= kp < p1.len(),
        p1[kp] != p2[kp],
        forall|j: int| 0 <= j < p1.len() && j != kp ==> p1[j] == p2[j],
    ensures
        hash_of(sign, timestamp, p1) != hash_of(sign, timestamp, p2),
{
    let head = spec_u16_to_le_bytes(sign) + spec_u64_to_le_bytes(timestamp);
    lemma_fnv_seq_concat(crate::hash::FNV_OFFSET_BASIS, head, p1);
    lemma_fnv_seq_concat(crate::hash::FNV_OFFSET_BASIS, head, p2);
    assert(head + p1 =~= spec_u16_to_le_bytes(sign) + spec_u64_to_le_bytes(timestamp) + p1);
    assert(head + p2 =~= spec_u16_to_le_bytes(sign) + spec_u64_to_le_bytes(timestamp) + p2);
    lemma_fnv_seq_flip_injective(
        crate::hash::fnv_seq(crate::hash::FNV_OFFSET_BASIS, head),
        p1,
        p2,
        kp,
    );
}

/// Corrupting exactly one payload byte of an encoded record leaves it
/// structurally decodable — same header, same declared size — but the
/// integrity check on what is parsed back fails: structural decoding and
/// integrity are distinct signals.
pub proof fn lemma_tampered_payload_detected(m: Msg, t: Seq<u8>, k: int)
    requires
        msg_valid(m),
        t.len() == encode_bytes(m).len(),
        HEADER_LEN <= k < t.len(),
        t[k] != encode_bytes(m)[k],
        forall|j: int| 0 <= j < t.len() && j != k ==> t[j] == encode_bytes(m)[j],
    ensures
        record_in_bounds(t, 0),
        parsed_sign(t, 0) == m.header.sign,
        parsed_hash(t, 0) == m.header.hash,
        parsed_timestamp(t, 0) == m.header.timestamp,
        parsed_size(t, 0) == m.header.size,
        !fields_valid(
            parsed_sign(t, 0),
            parsed_hash(t, 0),
            parsed_timestamp(t, 0),
            parsed_size(t, 0),
            parsed_payload(t, 0),
        ),
{
    let enc = encode_bytes(m);
    lemma_decode_inverts_encode(m);
    lemma_same_header_parse(t, enc, 0);
    assert(record_in_bounds(t, 0));
    let original = parsed_payload(enc, 0);
    let tampered = parsed_payload(t, 0);
    let kp = k - HEADER_LEN;
    assert(original.len() == m.header.size && tampered.len() == m.header.size);
    assert(tampered[kp] == t[HEADER_LEN + kp]);
    assert(original[kp] == enc[HEADER_LEN + kp]);
    assert(tampered[kp] != original[kp]);
    assert forall|j: int| 0 <= j < original.len() && j != kp implies tampered[j] == original[j] by {
        assert(tampered[j] == t[HEADER_LEN + j]);
        assert(original[j] == enc[HEADER_LEN + j]);
    }
    lemma_hash_of_differs(m.header.sign, m.header.timestamp, original, tampered, kp);
    assert(original == m.payload@);
    assert(parsed_hash(t, 0) == hash_of(m.header.sign, m.header.timestamp, original));
}

} // verus!
