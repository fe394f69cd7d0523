use l337_audio_server::security::{generate_self_signed, self_signed_subject_names};
use l337_audio_server::security::{authorize, is_public, AuthLayer};

#[test]
fn auth_layer_token_rotation() {
    let mut layer = AuthLayer::new("abc".to_string());
    assert_eq!(layer.current_token(), "abc");
    assert!(layer.allows("/player/status", Some("Bearer abc"), None));
    layer.update_token("xyz".to_string());
    assert_eq!(layer.current_token(), "xyz");
    assert!(!layer.allows("/player/status", Some("Bearer abc"), None));
    assert!(layer.allows("/player/status", Some("Bearer xyz"), None));
}

#[test]
fn auth_rules() {
    let layer = AuthLayer::new("secret".to_string());
    assert!(layer.allows("/health", None, None));
    assert!(!layer.allows("/player/status", None, None));
    assert!(!layer.allows("/player/status", Some("Bearer wrong-token"), None));
    assert!(!layer.allows("/player/status", Some("NotBearer at-all"), None));
    // The bare token is no Bearer credential.
    assert!(!layer.allows("/player/status", Some("secret"), None));
    assert!(layer.allows("/player/status", None, Some("secret")));
    assert!(!layer.allows("/player/status", None, Some("Bearer secret")));
    // Either header may carry the token.
    assert!(layer.allows("/player/status", Some("bad"), Some("secret")));
    assert!(layer.allows("/player/status", Some("Bearer secret"), Some("bad")));
    assert!(layer.allows("/", None, None));
    assert!(is_public("/health"));
    assert!(!is_public("/health/"));
    assert!(is_public("/auth/challenge"));
    assert!(is_public("/auth/redeem"));
    assert!(!is_public("/auth"));
    assert!(layer.allows("/auth/redeem", None, None));
    assert!(is_public("/"));
    assert!(!authorize(None, None, "t"));
    assert!(authorize(Some("Bearer t"), None, "t"));
    assert!(!authorize(Some("bearer t"), None, "t"));
    assert!(!authorize(Some("t"), None, "t"));
    assert!(authorize(None, Some("t"), "t"));
}

#[test]
fn self_signed_certificate() {
    assert_eq!(self_signed_subject_names("10.0.0.5"), vec!["10.0.0.5".to_string(), "localhost".to_string()]);
    let key = generate_self_signed("127.0.0.1").expect("certificate");
    assert!(!key.cert.der().is_empty());
}
