use l337_audio_server::platform::alsa::{writer_continues, writer_step, WriterAction, CHUNK_SAMPLES};
use l337_audio_server::platform::alsa;
use l337_audio_server::platform::common::{AudioOutputStream, NoopAudioOutputStream, PlatformInfo};
use l337_audio_server::platform::single_instance::{
    already_running_message, LockAcquisition, LockAttempt, LockRefusal,
};

#[test]
fn test_platform_info() {
    for os in ["linux", "android", "macos", "windows", "freebsd"] {
        for arch in ["x86_64", "aarch64", "arm", "x86", "riscv64"] {
            let info = PlatformInfo::for_target(os, arch);
            assert!(!info.os.is_empty());
            assert!(!info.arch.is_empty());
            assert!(!info.display_name.is_empty());
        }
    }
}

#[test]
fn platform_names() {
    let info = PlatformInfo::for_target("macos", "aarch64");
    assert_eq!(info.os, "macos");
    assert_eq!(info.display_name, "macOS");
    assert_eq!(info.arch, "arm64");
    let info = PlatformInfo::for_target("plan9", "mips");
    assert_eq!(info.os, "unknown");
    assert_eq!(info.display_name, "Unknown");
    assert_eq!(info.arch, "unknown");
    assert_eq!(PlatformInfo::for_target("linux", "x86_64").arch, "x64");
    assert_eq!(PlatformInfo::for_target("linux", "arm").arch, "armv7");
}

#[test]
fn noop_stream_and_alsa_init() {
    alsa::init();
    let mut s = NoopAudioOutputStream;
    assert_eq!(s.play(), Ok(()));
    assert_eq!(s.pause(), Ok(()));
    s.stop();
}

#[test]
fn instance_lock_decisions() {
    let mut a = LockAcquisition::new();
    assert!(a.record(LockAttempt::Unavailable));
    assert!(a.record(LockAttempt::Acquired));
    assert!(a.record(LockAttempt::Acquired));
    assert_eq!(a.verdict(), Ok(vec![1, 2]));
    assert!(!a.record(LockAttempt::Locked));
    assert_eq!(a.verdict(), Err(LockRefusal::AlreadyRunning { index: 3 }));

    let mut b = LockAcquisition::new();
    assert!(b.record(LockAttempt::Unavailable));
    assert_eq!(b.verdict(), Err(LockRefusal::NoWritablePath));
    assert_eq!(
        already_running_message("/tmp/x.lock"),
        "Another instance is already running (lock file: /tmp/x.lock)"
    );
}

#[test]
fn alsa_writer_steps() {
    // A playing stream writes at most a chunk and advances past it.
    assert_eq!(writer_step(false, true, true, 1000, 100, CHUNK_SAMPLES), (WriterAction::Write { count: 256 }, 356));
    assert_eq!(writer_step(false, true, true, 1000, 900, CHUNK_SAMPLES), (WriterAction::Write { count: 100 }, 1000));
    // Nothing buffered: wait.
    assert_eq!(writer_step(false, true, true, 1000, 1000, CHUNK_SAMPLES), (WriterAction::Wait, 1000));
    assert_eq!(writer_step(false, true, true, 10, 20, CHUNK_SAMPLES), (WriterAction::Wait, 20));
    // A paused stream plays silence and keeps its place, buffered or not.
    assert_eq!(writer_step(false, true, false, 1000, 100, CHUNK_SAMPLES), (WriterAction::Silence, 100));
    assert_eq!(writer_step(false, true, false, 0, 0, CHUNK_SAMPLES), (WriterAction::Silence, 0));
    // Cancelled or without a device: stop.
    assert_eq!(writer_step(true, true, true, 1000, 100, CHUNK_SAMPLES), (WriterAction::Stop, 100));
    assert_eq!(writer_step(false, false, true, 1000, 100, CHUNK_SAMPLES), (WriterAction::Stop, 100));
    assert!(writer_continues(64, None));
    assert!(writer_continues(-32, Some(0)));
    assert!(!writer_continues(-32, Some(-5)));
    assert!(!writer_continues(-32, None));
}
