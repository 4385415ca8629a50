//! Activity-start notifications: a watcher store, a message store, and the
//! eligibility, debounce and at-most-once recording rules that decide when a
//! watcher fires.

use vstd::prelude::*;

pub mod compose;
pub mod ingest;
pub mod laws;
pub mod message;
pub mod recorded;
pub mod silence;
pub mod state;
pub mod tables;
pub mod watcher;
pub mod watcher_store;

verus! {

/// Identity of a stored row.
pub type Id = u64;

/// Identifier of a guild, user or channel on the chat platform.
pub type DiscordId = u64;

} // verus!
