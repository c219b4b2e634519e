use vstd::prelude::*;

verus! {

/// Outcome that the backend reports for one write attempt (a block upsert or
/// the metadata commit).
///
/// `Transient` means a retry may succeed (contention, momentary
/// unavailability); `Fatal` means retrying cannot change the outcome
/// (malformed input, oversized payload, schema rejection).
#[derive(Clone, Copy, PartialEq, Eq, Structural, Debug)]
pub enum WriteOutcome {
    Done,
    Transient,
    Fatal,
}

/// Terminal failure reason of one object ingestion.
///
/// `BlockWrite`: some block write failed fatally or exhausted its retry
/// budget; `Metadata`: the metadata commit failed fatally or exhausted its
/// retry budget. In either case no object row is committed.
#[derive(Clone, Copy, PartialEq, Eq, Structural, Debug)]
pub enum FailReason {
    BlockWrite,
    Metadata,
}

} // verus!
