use l337_audio_server::startup::{cache_root, CacheRoot};
use l337_audio_server::startup::{
    config_target, configured_token, effective_transport, generate_server_token, has_flag,
    persisted_token, stale_socket_cleared, stale_socket_removable, token_after_reload, transport_from_args, uses_socket,
    ConfigTarget, DEFAULT_MAX_POOL,
};

fn args(v: &[&str]) -> Vec<String> {
    v.iter().map(|s| s.to_string()).collect()
}

#[test]
fn command_line() {
    let a = args(&["server", "--dummy", "--transport=http", "--transport=socket"]);
    assert_eq!(transport_from_args(&a), Some("http".to_string()));
    assert_eq!(transport_from_args(&args(&["server"])), None);
    assert_eq!(transport_from_args(&args(&["--transport="])), Some(String::new()));
    assert!(has_flag(&a, "--dummy"));
    assert!(!has_flag(&a, "--version"));
}

#[test]
fn transport_choice() {
    assert_eq!(effective_transport(Some("http".into()), Some("socket".into())), "http");
    assert_eq!(effective_transport(None, Some("socket".into())), "socket");
    assert_eq!(effective_transport(None, None), "auto");
    assert!(uses_socket("socket", false));
    assert!(!uses_socket("http", true));
    assert!(uses_socket("auto", true));
    assert!(!uses_socket("auto", false));
    assert!(uses_socket("bogus", true));
}

#[test]
fn tokens() {
    assert_eq!(configured_token(Some("abc")), Some("abc".to_string()));
    assert_eq!(configured_token(Some("")), None);
    assert_eq!(configured_token(None), None);
    assert_eq!(persisted_token("  tok \n"), Some("tok".to_string()));
    assert_eq!(persisted_token(" \n"), None);
    assert_eq!(token_after_reload("old", Some("new")), Some("new".to_string()));
    assert_eq!(token_after_reload("old", Some("old")), None);
    assert_eq!(token_after_reload("old", Some("")), None);
    assert_eq!(token_after_reload("old", None), None);
    let t = generate_server_token();
    assert_eq!(t.len(), 39);
    for (i, c) in t.chars().enumerate() {
        if i % 5 == 4 {
            assert_eq!(c, '-');
        } else {
            assert!(c.is_ascii_alphanumeric());
        }
    }
    // The token reads back unchanged from its file.
    assert_eq!(persisted_token(&t), Some(t.clone()));
    assert_ne!(generate_server_token(), t);
}

#[test]
fn default_config_location() {
    assert_eq!(config_target(true, true, Some(false), false), None);
    assert_eq!(config_target(false, true, Some(false), false), Some(ConfigTarget::SystemDir));
    assert_eq!(config_target(false, false, Some(false), true), Some(ConfigTarget::UserDir));
    // The user's file exists: nothing is written.
    assert_eq!(config_target(false, false, Some(true), false), None);
    assert_eq!(config_target(false, false, Some(true), true), None);
    assert_eq!(config_target(false, false, None, false), Some(ConfigTarget::WorkingDir));
    assert_eq!(DEFAULT_MAX_POOL, 256 * 1024 * 1024);
}

#[test]
fn stale_sockets() {
    assert!(stale_socket_removable(false, false));
    assert!(stale_socket_removable(true, false));
    assert!(!stale_socket_removable(true, true));
    assert!(stale_socket_cleared(true, false));
    assert!(!stale_socket_cleared(true, true));
    assert!(!stale_socket_cleared(false, false));
}

#[test]
fn cache_root_choice() {
    assert_eq!(cache_root(true, Some("/var/cache/l337"), None), CacheRoot::Configured);
    assert_eq!(cache_root(false, Some("/var/cache/l337"), Some("/var/lib/l337")), CacheRoot::CacheDirectory);
    assert_eq!(cache_root(false, Some(""), Some("/var/lib/l337")), CacheRoot::StateDirectory);
    assert_eq!(cache_root(false, None, Some("")), CacheRoot::UserCache);
    assert_eq!(cache_root(false, None, None), CacheRoot::UserCache);
}
