//! The entity records the engine keeps: users, artists, tracks, request
//! receipts, memberships, and the events the engine emits.
//!
//! Identities are plain 64-bit account identifiers; track, table, and
//! request identifiers are drawn from per-kind counters, so the identifier
//! of the n-th entity of a kind is n.

use vstd::prelude::*;

use crate::math::{sum_pct, MAX_BASE_PRICE, PCT_DENOM};

verus! {

/// A registered listener.
#[derive(Debug, PartialEq, Eq)]
pub struct User {
    /// The ownership token that backs this profile.
    pub profile_nft: u64,
    pub avatar_uri: String,
    pub reputation: u32,
    pub is_active: bool,
}

/// A registered artist, accumulating withdrawable royalty revenue.
#[derive(Debug, PartialEq, Eq)]
pub struct Artist {
    pub user_id: u64,
    pub artist_name: String,
    /// Pending revenue, credited by royalty distribution and zeroed on
    /// withdrawal. Never negative.
    pub revenue_balance: i128,
    pub verified: bool,
}

/// A mintable, playable track with its royalty split.
#[derive(Debug, PartialEq, Eq)]
pub struct Track {
    pub track_id: u64,
    pub track_nft: u64,
    pub title: String,
    pub artist_id: u64,
    pub collaborators: Vec<u64>,
    pub play_count: u32,
    /// Non-negative, at most `MAX_BASE_PRICE`.
    pub base_price: i128,
    /// Remaining consumable play rights; a track at zero is exhausted for
    /// future requests but remains readable.
    pub licenses_remaining: u32,
    pub metadata_uri: String,
    /// Ordered (recipient, percentage) pairs; the percentages sum to 100.
    pub royalty_split: Vec<(u64, u32)>,
}

/// An immutable receipt for one accepted track request.
#[derive(Clone, Copy, Debug, PartialEq, Eq, Structural)]
pub struct TrackRequest {
    pub request_id: u64,
    pub requester: u64,
    pub track_id: u64,
    pub table_id: u64,
    pub timestamp: u64,
    pub amount_paid: i128,
}

/// One member's standing at one table.
#[derive(Clone, Copy, Debug, PartialEq, Eq, Structural)]
pub struct TableMembership {
    pub member: u64,
    pub joined_at: u64,
    pub is_admin: bool,
}

/// What the engine publishes to observers, in order of occurrence.
#[derive(Clone, Copy, Debug, PartialEq, Eq, Structural)]
pub enum ContractEvent {
    TrackMinted(u64),
    TrackRequested(u64),
    TableCreated(u64),
    /// (table, member, joined, is_admin)
    MembershipChanged(u64, u64, bool, bool),
    /// (table, member, is_admin)
    AdminChanged(u64, u64, bool),
    TableStatusChanged(u64, bool),
    SkipVoted(u64, u64),
}

/// A well-formed track: the royalty split sums to exactly 100 and the
/// base price is within the accepted range.
pub open spec fn track_wf(t: Track) -> bool {
    &&& sum_pct(t.royalty_split@) == PCT_DENOM
    &&& 0 <= t.base_price <= MAX_BASE_PRICE
}

} // verus!
