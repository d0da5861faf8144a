//! Errors returned by the engine.
//!
//! Every failure aborts the whole call with no state change; callers decide
//! whether to retry. The variants fall into the families: already-exists,
//! not-found, unauthorized, invalid-argument, precondition-failed, and
//! payment-failed.

use vstd::prelude::*;

verus! {

/// Why a call was rejected.
#[derive(Clone, Copy, Debug, PartialEq, Eq, Structural)]
pub enum Error {
    /// A record with this key already exists (duplicate registration).
    AlreadyExists,
    /// No track, request, or user record under this identifier.
    NotFound,
    /// No table under this identifier.
    TableNotFound,
    /// The caller is not registered as a user.
    UserNotRegistered,
    /// The caller is not registered as an artist.
    NotAnArtist,
    /// The caller is not the required owner, admin, or self, or the
    /// required ownership proof is missing.
    Unauthorized,
    /// A malformed argument: a royalty split not summing to 100, a fee
    /// above the cap, or a price outside the accepted range.
    InvalidArgument,
    /// The caller is already a member of this table.
    AlreadyMember,
    /// The caller is not a member of this table.
    NotAMember,
    /// The table is not active.
    TableClosed,
    /// The track has no licenses remaining.
    NoLicenses,
    /// The table has no currently playing track.
    NoCurrentTrack,
    /// The value transfer failed: the source account lacks sufficient
    /// balance.
    PaymentFailed,
}

} // verus!
