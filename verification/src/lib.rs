//! A verified price-ingestion-and-notification pipeline.
//!
//! The library models a polling pipeline that fetches market quotes for a
//! set of trading pairs, persists the latest quote and a bounded history per
//! pair in a key-value store, and formats notification messages.  A replay
//! mode re-emits stored history, paginated, grouped by pair.
//!
//! All decision logic (response classification, price extraction, the wire
//! encoding of stored entries, store semantics, pagination, and message
//! formatting) is verified here; network and store I/O live outside the
//! library and only mirror the plans this library computes.

use vstd::prelude::*;

pub mod ingest;
pub mod kraken;
pub mod message;
pub mod quote;
pub mod replay;
pub mod store;

pub use ingest::IngestPlan;
pub use kraken::FetchError;
pub use kraken::Json;
pub use quote::Quote;
pub use store::PriceStore;

verus! {

/// Number of history entries kept per pair: older entries are evicted.
pub const HISTORY_BOUND: usize = 24;

/// Number of history entries read per page during replay.
pub const REPLAY_CHUNK: usize = 100;

} // verus!
