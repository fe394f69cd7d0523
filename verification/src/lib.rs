//! The decision logic of an audio server that plays, caches and streams
//! tracks for remote clients: request authorization, challenge redemption,
//! rate limiting, the cache manifest and its eviction, the playback slots,
//! and the classification of downloader output.
use vstd::prelude::*;

pub mod api;
pub mod auth_challenge;
pub mod platform;
pub mod player;
pub mod plugins;
pub mod rate_limit;
pub mod security;
pub mod startup;
pub mod text;
