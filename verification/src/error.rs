//! Conversion failures.
//!
//! Every fatal condition of the pipeline is a variant here: invalid input
//! (too few events, timestamps going backwards) and control sequences whose
//! effect is not implemented. Unrecognized but inert sequences are never an
//! error.

use vstd::prelude::*;

verus! {

/// Why a conversion was aborted. No document is produced once one of these
/// arises.
#[derive(Debug, Copy, Clone, Eq, PartialEq, Structural)]
pub enum ConvertError {
    /// Fewer than two events were supplied.
    TooFewEvents,
    /// The event at this index has a timestamp strictly below its
    /// predecessor's.
    TimeBackwards(usize),
    /// Erase-in-display below the cursor is not implemented.
    ClearBelowUnsupported,
    /// Erase-in-display above the cursor is not implemented.
    ClearAboveUnsupported,
    /// Erase-in-line left of the cursor is not implemented.
    ClearLeftUnsupported,
    /// A cursor movement would leave the grid's rows.
    CursorOutOfRange,
}

impl ConvertError {
    /// A short description of the failure.
    pub fn describe(&self) -> (r: &'static str)
        ensures
            r@ == describe_spec(*self),
    {
        match self {
            ConvertError::TooFewEvents => "the recording must have at least 2 events",
            ConvertError::TimeBackwards(_) => "an event went backwards in time",
            ConvertError::ClearBelowUnsupported => "unsupported sequence: erase below cursor",
            ConvertError::ClearAboveUnsupported => "unsupported sequence: erase above cursor",
            ConvertError::ClearLeftUnsupported => "unsupported sequence: erase left of cursor",
            ConvertError::CursorOutOfRange => "unsupported sequence: cursor moved out of range",
        }
    }
}

/// The description each failure carries.
pub open spec fn describe_spec(e: ConvertError) -> Seq<char> {
    match e {
        ConvertError::TooFewEvents => "the recording must have at least 2 events"@,
        ConvertError::TimeBackwards(_) => "an event went backwards in time"@,
        ConvertError::ClearBelowUnsupported => "unsupported sequence: erase below cursor"@,
        ConvertError::ClearAboveUnsupported => "unsupported sequence: erase above cursor"@,
        ConvertError::ClearLeftUnsupported => "unsupported sequence: erase left of cursor"@,
        ConvertError::CursorOutOfRange => "unsupported sequence: cursor moved out of range"@,
    }
}

} // verus!
