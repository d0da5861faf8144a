//! A pay-per-play collaborative listening venue.
//!
//! Members join shared tables, pay to queue tracks, and vote to skip the
//! currently playing track. Each accepted request is priced from the track's
//! base price and the table's multiplier, collected into a custodial account,
//! and split between a platform fee and the track's royalty recipients under
//! conservation-of-value invariants.

pub mod engine;
pub mod errors;
pub mod laws;
pub mod ledger;
pub mod math;
pub mod records;
pub mod table;

pub use engine::MetaJuke;
pub use errors::Error;
pub use ledger::TokenLedger;
pub use records::{Artist, ContractEvent, TableMembership, Track, TrackRequest, User};
pub use table::JukeboxTable;
