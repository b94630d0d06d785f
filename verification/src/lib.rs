//! An append-only binary message log segment: a fixed record framing format,
//! a pinned deterministic integrity hash over each record, positional append
//! and read over a segment's bytes, and a segment identity that maps a
//! (topic, partition, segment) triple to a file path and guards against
//! overwriting a populated segment.

pub mod codec;
pub mod err;
pub mod hash;
pub mod log;
pub mod msg;
pub mod segment;
