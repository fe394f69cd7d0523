use vstd::prelude::*;

verus! {

/// A track as clients describe it.
#[derive(Debug, Clone)]
pub struct Track {
    pub track_id: String,
    pub stream_url: String,
    pub title: Option<String>,
    pub artist: Option<String>,
    pub duration: Option<u64>,
}

impl Track {
    /// A request to play or cache `self` names both a track id and a URL;
    /// one that lacks either is refused with 400 Bad Request.
    pub fn is_complete(&self) -> (r: bool)
        ensures
            r == (self.track_id@.len() > 0 && self.stream_url@.len() > 0),
    {
        !self.track_id.as_str().is_empty() && !self.stream_url.as_str().is_empty()
    }
}

/// The body of a seek request.
#[derive(Debug)]
pub struct SeekPayload {
    pub position: u64,
}

/// The body of a settings update.
#[derive(Debug)]
pub struct PoolSettings {
    pub max_disk_pool_bytes: u64,
    pub token: Option<String>,
}

/// What the player is doing.
#[derive(Debug, Clone, Copy, PartialEq, Eq, Structural)]
pub enum PlayerStateLabel {
    Playing,
    Paused,
    Stopped,
}

/// One entry of the cache manifest.
#[derive(Debug, Clone)]
pub struct CacheManifestEntry {
    pub track_id: String,
    pub file_size: u64,
    /// Unix timestamp of the last access.
    pub last_accessed: i64,
    pub play_count: u64,
}

impl CacheManifestEntry {
    /// An equal copy of the entry.
    pub fn duplicate(&self) -> (r: Self)
        ensures
            r == *self,
    {
        CacheManifestEntry {
            track_id: self.track_id.clone(),
            file_size: self.file_size,
            last_accessed: self.last_accessed,
            play_count: self.play_count,
        }
    }
}

} // verus!
