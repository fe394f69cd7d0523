//! Decisions of the HTTP handlers that do not touch the network or the disk.
use vstd::prelude::*;
use crate::player::engine::Slot;
use crate::text::str_eq;

verus! {

/// The slot that an upload route fills.
pub open spec fn upload_slot_for(path: Seq<char>) -> Option<Slot> {
    if path == "/player/play/stream"@ {
        Some(Slot::Current)
    } else if path == "/player/cache/next/stream"@ {
        Some(Slot::Next)
    } else if path == "/player/cache/previous/stream"@ {
        Some(Slot::Prev)
    } else {
        None
    }
}

/// The slot that an upload to `path` fills; `None` for any other path,
/// which is answered with 400 Bad Request.
pub fn upload_slot(path: &str) -> (r: Option<Slot>)
    ensures
        r == upload_slot_for(path@),
{
    if str_eq(path, "/player/play/stream") {
        Some(Slot::Current)
    } else if str_eq(path, "/player/cache/next/stream") {
        Some(Slot::Next)
    } else if str_eq(path, "/player/cache/previous/stream") {
        Some(Slot::Prev)
    } else {
        None
    }
}

/// The track id an upload names in its `X-Track-Id` header: it must be
/// present, valid text and non-empty, else the upload is answered with 400.
pub fn upload_track_id(header: Option<&str>) -> (r: Option<String>)
    ensures
        match header {
            Some(h) => if h@.len() > 0 {
                r matches Some(s) && s@ == h@
            } else {
                r is None
            },
            None => r is None,
        },
{
    match header {
        Some(h) => if h.is_empty() {
            None
        } else {
            Some(h.to_owned())
        },
        None => None,
    }
}

} // verus!
