//! The error kinds that the address-space tracker reports.

use vstd::prelude::*;

verus! {

/// Every failure of the tracker is one of these recoverable kinds; no
/// operation panics or aborts.
#[derive(Clone, Copy, Debug, PartialEq, Eq, Structural)]
pub enum AsError {
    /// No free region anywhere satisfies an unconstrained placement request,
    /// or the mapping storage is already at capacity.
    NoSpace,
    /// The caller-chosen address collides with an existing mapping or the
    /// reserved zero page, breaks alignment, or leaves too little gap.
    NoSpaceAt,
    /// Removal was requested for an address at which no mapping starts.
    NoSuchMapping,
    /// A flag builder was validated while both `private` and `shared` were set.
    InvalidFlags,
}

} // verus!
