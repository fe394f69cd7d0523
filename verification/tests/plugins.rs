use l337_audio_server::plugins::dummy::DummyPlugin;
use l337_audio_server::plugins::linux_fs::LinuxFsPlugin;
use l337_audio_server::plugins::loader::is_plugin_file;
use l337_audio_server::plugins::local_fs::LocalFileSystemPlugin;

#[test]
fn dummy_plugin() {
    let r = DummyPlugin.search("jazz");
    assert_eq!(r.len(), 1);
    assert_eq!(r[0].track_id, "dummy-1");
    assert_eq!(r[0].title.as_deref(), Some("Dummy Result for jazz"));
    assert_eq!(r[0].artist.as_deref(), Some("Dummy Artist"));
    assert_eq!(r[0].duration, Some(120));
    assert_eq!(
        DummyPlugin.resolve_stream_url("x").as_deref(),
        Some("http://example.com/dummy.mp3")
    );
    assert!(LinuxFsPlugin.search("anything").is_empty());
}

#[test]
fn local_file_tracks() {
    let p = LocalFileSystemPlugin { base_path: "/music".to_string() };
    let t = p.track_for_file("/music/a/song.mp3", "song.mp3", "son").unwrap();
    assert_eq!(t.track_id, "/music/a/song.mp3");
    assert_eq!(t.stream_url, "file:///music/a/song.mp3");
    assert_eq!(t.title.as_deref(), Some("song.mp3"));
    assert_eq!(t.artist.as_deref(), Some("Local Filesystem"));
    assert!(p.track_for_file("/music/b.mp3", "b.mp3", "zzz").is_none());
}

#[test]
fn plugin_files() {
    assert!(is_plugin_file("/usr/lib/l337/libfoo.so", "so"));
    assert!(is_plugin_file("plugins/libfoo.so/", "so"));
    assert!(is_plugin_file("plugins/libfoo.so/.", "so"));
    assert!(!is_plugin_file("/usr/lib/l337/.so", "so"));
    assert!(!is_plugin_file("/usr/lib/l337/libfoo.dll", "so"));
    assert!(!is_plugin_file("/usr/lib/l337/libfoo", "so"));
    assert!(!is_plugin_file("/usr/lib/..", "so"));
    assert!(!is_plugin_file("/", "so"));
    assert!(is_plugin_file("x.tar.so", "so"));
}
