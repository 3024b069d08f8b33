//! The verified core of a release tracker for episodic shows.
//!
//! Releases arrive through an RSS-style feed; each one's free-text
//! category is normalized into a canonical show identifier, new releases
//! are told apart from seen ones by a persisted cursor, show pages are
//! scraped into structured metadata, and every user gets a weekly
//! schedule table of the shows they track. The store of shows, users and
//! watch links is modelled in memory with explicit invariants; the
//! surrounding program does the fetching, the delivery and the
//! persistence.

pub mod feed;
pub mod notify;
pub mod page;
pub mod show;
pub mod slug;
pub mod store;
pub mod strutil;
pub mod user_manager;
