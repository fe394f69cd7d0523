//! The Linux file-system plugin shipped as a separate library.
use vstd::prelude::*;
use crate::api::models::Track;

verus! {

/// A plugin for Linux file systems; it finds nothing yet.
pub struct LinuxFsPlugin;

impl LinuxFsPlugin {
    /// Every search comes back empty.
    pub fn search(&self, query: &str) -> (r: Vec<Track>)
        ensures
            r.len() == 0,
    {
        Vec::new()
    }
}

} // verus!
