use l337_audio_server::player::engine::{retry_step, RetryAction, DATA_WAIT_ATTEMPTS, PROBE_ATTEMPTS};
use l337_audio_server::api::models::{PlayerStateLabel, Track};
use l337_audio_server::player::engine::{
    detect_youtube_block, download_failure, find_sink_input, first_nonempty_line,
    is_direct_stream_url, is_html_content_type, is_youtube_url, local_source_path,
    looks_like_markup, needs_ytdlp, plan_next, plan_previous, pushed_track, seek_split_point,
    select_stream_track, slot_name, stream_channel_count, EngineError, PauseCommand, Playback,
    Slot, SlotMove, SlotPresence, StallAction, StallMonitor, YouTubeBlockType, YouTubeError,
};

#[test]
fn test_detect_youtube_block_rate_limit() {
    assert_eq!(
        detect_youtube_block("HTTP Error 429 Too Many Requests"),
        Some(YouTubeBlockType::RateLimit)
    );
    assert_eq!(detect_youtube_block("yt-dlp: 429"), Some(YouTubeBlockType::RateLimit));
}

#[test]
fn test_detect_youtube_block_captcha() {
    assert_eq!(
        detect_youtube_block("playerCaptchaViewModel"),
        Some(YouTubeBlockType::Captcha)
    );
    assert_eq!(
        detect_youtube_block("Captcha required, please solve"),
        Some(YouTubeBlockType::Captcha)
    );
}

#[test]
fn test_detect_youtube_block_bot_detected() {
    assert_eq!(
        detect_youtube_block("HTTP Error 403 Forbidden"),
        Some(YouTubeBlockType::BotDetected)
    );
    assert_eq!(
        detect_youtube_block("cloudflare protection detected"),
        Some(YouTubeBlockType::BotDetected)
    );
}

#[test]
fn test_detect_youtube_block_ip_blocked() {
    assert_eq!(
        detect_youtube_block("No video formats found"),
        Some(YouTubeBlockType::IpBlocked)
    );
    assert_eq!(
        detect_youtube_block("Skipping player response"),
        Some(YouTubeBlockType::IpBlocked)
    );
}

#[test]
fn test_detect_youtube_block_no_match() {
    assert_eq!(detect_youtube_block("some random error"), None);
    assert_eq!(detect_youtube_block("yt-dlp: unknown error"), None);
    assert_eq!(detect_youtube_block(""), None);
}

#[test]
fn test_youtube_block_type_as_str() {
    assert_eq!(YouTubeBlockType::RateLimit.as_str(), "rate_limit");
    assert_eq!(YouTubeBlockType::Captcha.as_str(), "captcha");
    assert_eq!(YouTubeBlockType::BotDetected.as_str(), "bot_detected");
    assert_eq!(YouTubeBlockType::IpBlocked.as_str(), "ip_blocked");
}

#[test]
fn test_engine_error_display() {
    let yt_err = YouTubeError {
        block_type: YouTubeBlockType::RateLimit,
        message: "rate limited".to_string(),
    };
    let engine_err = EngineError::YouTube(yt_err);
    assert_eq!(engine_err.to_string(), "rate limited");

    let other_err = EngineError::Other("generic failure".to_string());
    assert_eq!(other_err.to_string(), "generic failure");
}

#[test]
fn detect_block_prefers_rate_limit_over_other_kinds() {
    // "429" is checked before "403": both present means a rate limit.
    assert_eq!(
        detect_youtube_block("HTTP Error 403 then 429"),
        Some(YouTubeBlockType::RateLimit)
    );
    // Case does not matter.
    assert_eq!(detect_youtube_block("CLOUDFLARE"), Some(YouTubeBlockType::BotDetected));
    assert_eq!(
        detect_youtube_block("ERROR: SKIPPING PLAYER RESPONSE"),
        Some(YouTubeBlockType::IpBlocked)
    );
}

#[test]
fn youtube_url_classification() {
    assert!(is_youtube_url("https://www.youtube.com/watch?v=abc"));
    assert!(is_youtube_url("https://youtu.be/abc"));
    assert!(is_youtube_url("https://youtube.com/shorts/xyz"));
    assert!(is_youtube_url("https://r1.googlevideo.com/videoplayback?id=1"));
    assert!(!is_youtube_url("https://example.com/song.mp3"));
    assert!(is_direct_stream_url("https://r1.googlevideo.com/videoplayback?id=1"));
    assert!(!is_direct_stream_url("https://youtu.be/abc"));
    assert!(needs_ytdlp("https://youtu.be/abc"));
    assert!(!needs_ytdlp("https://r1.googlevideo.com/videoplayback?id=1"));
    assert!(!needs_ytdlp("http://example.com/a.mp3"));
}

#[test]
fn download_failure_maps_errors() {
    let blocked = YouTubeError { block_type: YouTubeBlockType::Captcha, message: "m".to_string() };
    match download_failure(Some(blocked), "ignored") {
        EngineError::YouTube(e) => assert_eq!(e.block_type, YouTubeBlockType::Captcha),
        EngineError::Other(_) => panic!("expected a YouTube error"),
    }
    match download_failure(None, "connection reset") {
        EngineError::Other(m) => assert_eq!(m, "Failed to download track: connection reset"),
        EngineError::YouTube(_) => panic!("expected another error"),
    }
}

#[test]
fn local_sources() {
    assert_eq!(local_source_path("file:///music/a.wav", false), Some("/music/a.wav".to_string()));
    assert_eq!(local_source_path("/music/a.wav", true), Some("/music/a.wav".to_string()));
    // A Windows absolute path is local where the platform says it is absolute.
    assert_eq!(local_source_path("C:\\music\\a.wav", true), Some("C:\\music\\a.wav".to_string()));
    assert_eq!(local_source_path("/music/a.wav", false), None);
    assert_eq!(local_source_path("relative/a.wav", false), None);
    assert_eq!(local_source_path("https://example.com/a.wav", true), None);
    assert_eq!(local_source_path("", false), None);
    assert_eq!(local_source_path("file://", false), Some(String::new()));
}

#[test]
fn markup_detection() {
    assert!(looks_like_markup(b"<!doctype html>"));
    assert!(looks_like_markup(b"<html><body>"));
    assert!(looks_like_markup(b"<?xml version"));
    assert!(!looks_like_markup(b"<!do"));
    assert!(!looks_like_markup(b"RIFF....WAVE"));
    assert!(looks_like_markup(b"<HTML>"));
    assert!(looks_like_markup(b"<!DOCTYPE html>"));
    assert!(looks_like_markup(b"<?XmL version"));
    assert!(!looks_like_markup(b"<HTM"));
    assert!(is_html_content_type("Text/HTML; charset=utf-8"));
    assert!(!is_html_content_type("audio/mpeg"));
}

#[test]
fn first_line_of_ytdlp_output() {
    assert_eq!(
        first_nonempty_line("\n   \n  https://stream/x  \r\nother\n"),
        Some("https://stream/x".to_string())
    );
    assert_eq!(first_nonempty_line(" \n\t\n"), None);
    assert_eq!(first_nonempty_line(""), None);
}

/// `pactl list sink-inputs` as it prints: `Volume:` comes before the
/// properties that name the stream.
const PACTL_OUTPUT: &str = "Sink Input #12\n\tDriver: PipeWire\n\tVolume: front-left: 65536 / 100%\n\tProperties:\n\t\tapplication.name = \"firefox\"\nSink Input #42\n\tDriver: PipeWire\n\tVolume: front-left: 65536 / 100%\n\tProperties:\n\t\tnode.name = \"l337-audio-server\"\n";

#[test]
fn pactl_sink_input_is_found() {
    assert_eq!(find_sink_input(PACTL_OUTPUT), Some(42));
    // The name may also come before the volume.
    assert_eq!(
        find_sink_input("Sink Input #7\napplication.name = \"l337-audio-server\"\nVolume: 1\n"),
        Some(7)
    );
    // Another stream's block is never taken, whatever its lines.
    assert_eq!(find_sink_input("Sink Input #3\napplication.name = \"other\"\nVolume: 1\n"), None);
    // A block without a volume line, followed by one whose volume comes
    // before its header, is no match.
    assert_eq!(
        find_sink_input("Sink Input #3\nnode.name = \"l337-audio-server\"\nSink Input #4\nVolume: 1\n"),
        None
    );
    // A lower-case `volume:` is not the line pactl prints.
    assert_eq!(
        find_sink_input("Sink Input #5\nnode.name = \"l337-audio-server\"\nvolume: 1\n"),
        None
    );
    assert_eq!(find_sink_input(""), None);
    // A header whose number does not parse leaves no index to set.
    assert_eq!(
        find_sink_input("Sink Input #x\napplication.name = \"l337-audio-server\"\nVolume: 1\n"),
        None
    );
    assert_eq!(
        find_sink_input("Sink Input #+8\napplication.name = \"l337-audio-server\"\nVolume: 1\n"),
        Some(8)
    );
}

#[test]
fn playback_transitions() {
    let mut p = Playback::new();
    assert_eq!(p.state, PlayerStateLabel::Stopped);
    assert_eq!(p.toggle_pause(), PauseCommand::Nothing);
    p.begin_track(pushed_track("t1", Some("Title".to_string()), None));
    assert_eq!(p.current_track.as_ref().unwrap().track_id, "t1");
    assert_eq!(p.current_track.as_ref().unwrap().stream_url, "");
    p.started(Some(180));
    assert_eq!(p.state, PlayerStateLabel::Playing);
    assert_eq!(p.duration_sec, Some(180));
    assert_eq!(p.toggle_pause(), PauseCommand::Pause);
    assert_eq!(p.state, PlayerStateLabel::Paused);
    assert_eq!(p.toggle_pause(), PauseCommand::Resume);
    assert_eq!(p.state, PlayerStateLabel::Playing);
    p.seeked(42, Some(138));
    assert_eq!(p.position_sec, 42);
    p.stop();
    assert_eq!(p.state, PlayerStateLabel::Stopped);
    assert_eq!(p.position_sec, 0);
    assert!(p.current_track.is_some());
}

#[test]
fn seek_offsets() {
    // One second into 44.1 kHz stereo.
    assert_eq!(seek_split_point(1, 44100, 2, 200_000), 88_200);
    // A seek at or past the end leaves nothing to play.
    assert_eq!(seek_split_point(10, 44100, 2, 88_200), 88_200);
    assert_eq!(seek_split_point(1, 44100, 2, 88_200), 88_200);
    assert_eq!(seek_split_point(0, 44100, 2, 10), 0);
}

#[test]
fn slot_plans() {
    assert_eq!(slot_name(Slot::Prev), "prev");
    assert_eq!(slot_name(Slot::Current), "current");
    assert_eq!(slot_name(Slot::Next), "next");
    let all = SlotPresence { prev: true, current: true, next: true };
    assert_eq!(
        plan_next(all),
        Some(vec![
            SlotMove { from: Slot::Current, to: Slot::Prev },
            SlotMove { from: Slot::Next, to: Slot::Current },
        ])
    );
    assert_eq!(
        plan_previous(all),
        Some(vec![
            SlotMove { from: Slot::Current, to: Slot::Next },
            SlotMove { from: Slot::Prev, to: Slot::Current },
        ])
    );
    let no_next = SlotPresence { prev: true, current: true, next: false };
    assert_eq!(plan_next(no_next), None);
    let only_next = SlotPresence { prev: false, current: false, next: true };
    assert_eq!(plan_next(only_next), Some(vec![SlotMove { from: Slot::Next, to: Slot::Current }]));
    assert_eq!(plan_previous(only_next), None);
}

#[test]
fn stall_monitor_gives_up_after_limit() {
    let mut m = StallMonitor::new(100);
    for _ in 0..20 {
        assert_eq!(m.decoder_starved(), StallAction::Wait);
    }
    assert_eq!(m.decoder_starved(), StallAction::GiveUp);
    assert_eq!(m.stall_count(), 21);
    // A stall after giving up is still counted.
    assert_eq!(m.decoder_starved(), StallAction::GiveUp);
    assert_eq!(m.stall_count(), 22);

    let mut m = StallMonitor::new(100);
    for _ in 0..21 {
        assert_eq!(m.reader_starved(100), StallAction::Wait);
    }
    assert_eq!(m.reader_starved(100), StallAction::GiveUp);
    assert_eq!(m.stall_count(), 21);
    // Growth of the file starts the count over.
    assert_eq!(m.reader_starved(150), StallAction::Wait);
    for _ in 0..21 {
        assert_eq!(m.reader_starved(150), StallAction::Wait);
    }
    m.decoded();
    assert_eq!(m.reader_starved(150), StallAction::Wait);
}

#[test]
fn stream_track_selection() {
    let supported = [1, 2, 3];
    assert_eq!(select_stream_track(&[9, 2, 1], &supported), Some(1));
    assert_eq!(select_stream_track(&[9, 8], &supported), None);
    assert_eq!(select_stream_track(&[], &supported), None);
    assert_eq!(stream_channel_count(None), 2);
    assert_eq!(stream_channel_count(Some(0)), 1);
    assert_eq!(stream_channel_count(Some(6)), 6);
}

#[test]
fn track_completeness() {
    let t = Track {
        track_id: "1".into(),
        stream_url: "file:///a".into(),
        title: None,
        artist: None,
        duration: None,
    };
    assert!(t.is_complete());
    let mut u = t.clone();
    u.stream_url = String::new();
    assert!(!u.is_complete());
    let mut v = t.clone();
    v.track_id = String::new();
    assert!(!v.is_complete());
}

#[test]
fn retry_steps() {
    assert_eq!(retry_step(0, PROBE_ATTEMPTS), RetryAction::Retry);
    assert_eq!(retry_step(58, PROBE_ATTEMPTS), RetryAction::Retry);
    assert_eq!(retry_step(59, PROBE_ATTEMPTS), RetryAction::GiveUp);
    assert_eq!(retry_step(119, DATA_WAIT_ATTEMPTS), RetryAction::GiveUp);
    assert_eq!(retry_step(0, 0), RetryAction::GiveUp);
    assert_eq!(retry_step(u32::MAX, u32::MAX), RetryAction::GiveUp);
}
