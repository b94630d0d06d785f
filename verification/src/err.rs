use vstd::prelude::*;

verus! {

/// The error taxonomy of the segment log: every failure a caller can see.
#[derive(Clone, Copy, Debug, PartialEq, Eq, Structural)]
pub enum LogError {
    /// A filesystem or stream failure propagated from below.
    IoError,
    /// Fewer bytes were present than the record header declares.
    TruncatedRecord,
    /// The creation guard found a populated segment file.
    SegmentAlreadyExists,
    /// An integrity check over a decoded record failed.
    IntegrityCheckFailed,
    /// The system clock read failed (time before the epoch).
    ClockError,
}

} // verus!
