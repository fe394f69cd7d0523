//! The player: its engine decisions and its cache storage.
pub mod engine;
pub mod storage;
