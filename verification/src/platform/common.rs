//! Platform facts shared by every backend.
use vstd::prelude::*;
use crate::text::str_eq;

verus! {

/// Platform metadata of the build target.
#[derive(Debug, Clone, Copy)]
pub struct PlatformInfo {
    pub os: &'static str,
    pub arch: &'static str,
    pub display_name: &'static str,
}

/// The short name and display name reported for a target operating system.
pub open spec fn os_names(os: Seq<char>) -> (Seq<char>, Seq<char>) {
    if os == "linux"@ {
        ("linux"@, "Linux"@)
    } else if os == "android"@ {
        ("android"@, "Android"@)
    } else if os == "macos"@ {
        ("macos"@, "macOS"@)
    } else if os == "windows"@ {
        ("windows"@, "Windows"@)
    } else {
        ("unknown"@, "Unknown"@)
    }
}

/// The name reported for a target architecture.
pub open spec fn arch_name(arch: Seq<char>) -> Seq<char> {
    if arch == "x86_64"@ {
        "x64"@
    } else if arch == "aarch64"@ {
        "arm64"@
    } else if arch == "arm"@ {
        "armv7"@
    } else if arch == "x86"@ {
        "x86"@
    } else {
        "unknown"@
    }
}

impl PlatformInfo {
    /// The metadata reported for a target, given Rust's names of its
    /// operating system and architecture (`target_os`, `target_arch`).
    pub fn for_target(os: &str, arch: &str) -> (r: PlatformInfo)
        ensures
            (r.os@, r.display_name@) == os_names(os@),
            r.arch@ == arch_name(arch@),
    {
        let (os_name, display_name): (&'static str, &'static str) = if str_eq(os, "linux") {
            ("linux", "Linux")
        } else if str_eq(os, "android") {
            ("android", "Android")
        } else if str_eq(os, "macos") {
            ("macos", "macOS")
        } else if str_eq(os, "windows") {
            ("windows", "Windows")
        } else {
            ("unknown", "Unknown")
        };
        let arch_label: &'static str = if str_eq(arch, "x86_64") {
            "x64"
        } else if str_eq(arch, "aarch64") {
            "arm64"
        } else if str_eq(arch, "arm") {
            "armv7"
        } else if str_eq(arch, "x86") {
            "x86"
        } else {
            "unknown"
        };
        PlatformInfo { os: os_name, arch: arch_label, display_name }
    }
}

/// A running audio output stream that can be paused and resumed.
pub trait AudioOutputStream {
    fn play(&mut self) -> Result<(), String>;

    fn pause(&mut self) -> Result<(), String>;

    fn stop(&mut self);
}

/// The audio backend that plays into nothing, for running without sound hardware.
pub struct NoopAudioBackend;

/// The stream of the silent backend; every command succeeds.
pub struct NoopAudioOutputStream;

impl AudioOutputStream for NoopAudioOutputStream {
    fn play(&mut self) -> (r: Result<(), String>)
        ensures
            r is Ok,
    {
        Ok(())
    }

    fn pause(&mut self) -> (r: Result<(), String>)
        ensures
            r is Ok,
    {
        Ok(())
    }

    fn stop(&mut self) {
    }
}

} // verus!
