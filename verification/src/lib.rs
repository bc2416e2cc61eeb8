//! Verified core of an M3U playlist viewer.
//!
//! The library covers the logic that decides what the viewer does: parsing
//! extended-M3U playlist text into (title, url) entries, resolving a stable
//! identifier per entry, bookkeeping for the on-disk thumbnail cache, the
//! bounded-concurrency download schedule, substring search over titles, a
//! selection set with toggle semantics, and rendering playlist text back out.
//! File and network access stay outside; callers hand the library plain
//! values and receive plain values back.

pub mod cache;
pub mod catalog;
pub mod parse;
pub mod playlist;
pub mod resolve;
pub mod sched;
pub mod search;
pub mod select;
pub mod text;
