//! The recoverable failures of the core. A decode failure or an
//! unresolvable timestamp skips one payload; a missing record is reported to
//! the reader. Storage and refresh failures are the embedding's concern.

use vstd::prelude::*;

verus! {

/// What went wrong with one payload or one lookup.
#[derive(Clone, Copy, PartialEq, Eq, Structural, Debug)]
pub enum CoreError {
    /// The payload is not a well-formed event document.
    DecodeError,
    /// The payload's timestamp matches no supported representation.
    UnresolvableTimestamp,
    /// No record carries the requested id.
    NotFound,
}

} // verus!
