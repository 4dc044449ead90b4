//! Look-ahead video prefetch and streaming cache.
//!
//! The library keeps a player's upcoming watch queue warm: it ingests video
//! descriptors pushed by an upstream feed, ranks the not-yet-downloaded ones
//! with a two-phase rule, admits downloads under a concurrency limit and a
//! storage-byte budget, evicts content that has fallen behind the playback
//! cursor, and plans HTTP byte-range responses for the player.
//!
//! Everything here is pure state and decision logic; the surrounding binary
//! performs the network and disk work and feeds the results back in as plain
//! values.

pub mod discovery;
pub mod handlers;
pub mod ids;
pub mod manager;
pub mod models;
pub mod mp4meta;
pub mod playlist;
pub mod ranges;
pub mod ranking;
pub mod state;
