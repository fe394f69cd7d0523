//! A plugin that finds audio files under a directory by name.
use vstd::prelude::*;
use crate::api::models::Track;
use crate::text::{concat_str, contains_seq, str_contains};

verus! {

/// A plugin that searches the files below `base_path` by file name.
pub struct LocalFileSystemPlugin {
    pub base_path: String,
}

impl LocalFileSystemPlugin {
    /// The track for a file at `path` named `file_name`, when the name holds
    /// `query`: identified by its path and streamed from a `file://` URL.
    pub fn track_for_file(&self, path: &str, file_name: &str, query: &str) -> (r: Option<Track>)
        ensures
            r is Some <==> contains_seq(file_name@, query@),
            r matches Some(t) ==> {
                &&& t.track_id@ == path@
                &&& t.stream_url@ == "file://"@ + path@
                &&& t.title matches Some(n) && n@ == file_name@
                &&& t.artist matches Some(a) && a@ == "Local Filesystem"@
                &&& t.duration is None
            },
    {
        if !str_contains(file_name, query) {
            return None;
        }
        Some(
            Track {
                track_id: path.to_owned(),
                stream_url: concat_str("file://", path),
                title: Some(file_name.to_owned()),
                artist: Some("Local Filesystem".to_owned()),
                duration: None,
            },
        )
    }
}

} // verus!
