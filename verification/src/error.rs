//! Failure conditions signalled by the bookkeeping operations.

use vstd::prelude::*;

verus! {

/// Every failure aborts the whole operation: no partial mutation is ever
/// observable.  Defensive no-ops (removing an absent member, re-adding a
/// present one) are not errors.
#[derive(Clone, Copy, Debug, PartialEq, Eq, Structural)]
pub enum Error {
    /// The caller lacks the capability the operation declares.
    Unauthorized,
    /// The referenced media item or token does not exist.
    NotFound,
    /// A completion for this (user, media) pair already exists.
    AlreadyCompleted,
    /// Joining a group requires a completion the caller does not have.
    NotCompleted,
    /// Leaving a group requires a membership the caller does not have.
    NotMember,
    /// The token exists but belongs to a different owner.
    NotOwner,
    /// A positional query lies beyond the collection's size.
    OutOfRange,
    /// The token counter is exhausted.
    Overflow,
}

} // verus!
