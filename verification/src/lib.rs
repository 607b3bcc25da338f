//! Verified core of a feed monitor: identity resolution, destination
//! routing, deduplication, keyword matching, and the scan / catch-up
//! state machine over a live feed's visible items.

pub mod client;
pub mod config;
pub mod dedup;
pub mod engine;
pub mod identity;
pub mod matcher;
pub mod router;
pub mod scheduler;
pub mod scroll;
pub mod state;
pub mod text;
