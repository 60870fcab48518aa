use vstd::prelude::*;

verus! {

/// The byte stream ended although the decoder still needed more bytes.
///
/// `missing` is the exact number of bytes that were still required when the
/// stream ended.
#[derive(Debug, Clone, PartialEq, Eq, Structural)]
pub struct UnexpectedEnd {
    pub missing: usize,
}

impl UnexpectedEnd {
    /// Creates the error recording how many bytes were still required.
    pub fn new(missing: usize) -> (r: Self)
        ensures
            r.missing == missing,
    {
        UnexpectedEnd { missing }
    }
}

/// Identifies which stage of a two-stage decoding pipeline failed.
#[derive(Debug, Clone, PartialEq, Eq)]
pub enum StageError<F, S> {
    /// The first stage failed.
    First(F),
    /// The second stage failed.
    Second(S),
}

/// The output buffer was too small to hold all encoded bytes.
///
/// `bytes_past_end` is the number of bytes that did not fit.
#[derive(Debug, Clone, PartialEq, Eq, Structural)]
pub struct BufferOverflow {
    pub bytes_past_end: usize,
}

} // verus!
