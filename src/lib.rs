//! Core of a multi-channel live chat reader: bounded per-session queues,
//! the session state machine, the delivery scheduler, and the emote
//! resource cache with its refresh, download and eviction policies.

pub mod courier;
pub mod text;
pub mod session;
pub mod registry;
pub mod retry;
pub mod refresh;
pub mod catalog;
pub mod media_cache;
pub mod downloads;
pub mod emotes;
pub mod favorites;
