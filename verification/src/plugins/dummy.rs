//! A plugin that answers every search with one fixed track.
use vstd::prelude::*;
use crate::api::models::Track;
use crate::text::concat_str;

verus! {

/// The plugin that answers every search with one made-up result.
pub struct DummyPlugin;

/// The stream URL of the dummy plugin's only track.
pub open spec fn dummy_url() -> Seq<char> {
    "http://example.com/dummy.mp3"@
}

impl DummyPlugin {
    /// One result, titled after the query.
    pub fn search(&self, query: &str) -> (r: Vec<Track>)
        ensures
            r.len() == 1,
            r[0].track_id@ == "dummy-1"@,
            r[0].stream_url@ == dummy_url(),
            r[0].title matches Some(t) && t@ == "Dummy Result for "@ + query@,
            r[0].artist matches Some(a) && a@ == "Dummy Artist"@,
            r[0].duration == Some(120u64),
    {
        let mut r: Vec<Track> = Vec::new();
        r.push(
            Track {
                track_id: "dummy-1".to_owned(),
                stream_url: "http://example.com/dummy.mp3".to_owned(),
                title: Some(concat_str("Dummy Result for ", query)),
                artist: Some("Dummy Artist".to_owned()),
                duration: Some(120),
            },
        );
        r
    }

    /// Every track resolves to the same stream.
    pub fn resolve_stream_url(&self, track_id: &str) -> (r: Option<String>)
        ensures
            r matches Some(u) && u@ == dummy_url(),
    {
        Some("http://example.com/dummy.mp3".to_owned())
    }
}

} // verus!
