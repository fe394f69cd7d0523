use l337_audio_server::api::handlers::{upload_slot, upload_track_id};
use l337_audio_server::player::engine::Slot;
use l337_audio_server::text::{
    chars_of, concat_str, lines_of, parse_u32_chars, str_contains, str_eq, str_starts_with, str_trim,
};

#[test]
fn text_helpers() {
    assert!(str_contains("hello world", "o w"));
    assert!(str_contains("abc", ""));
    assert!(!str_contains("ab", "abc"));
    assert!(str_starts_with("volume: 5", "volume:"));
    assert!(!str_starts_with("vol", "volume:"));
    assert_eq!(str_trim("\u{3000} a b \t\r\n"), "a b");
    assert_eq!(str_trim("   "), "");
    assert_eq!(concat_str("ab", "cd"), "abcd");
    assert!(str_eq("x", "x"));
    assert!(!str_eq("x", "y"));
}

#[test]
fn lines_and_numbers() {
    let v = chars_of("a\n\nb\n");
    let lines = lines_of(&v);
    let texts: Vec<String> = lines.iter().map(|l| l.iter().collect()).collect();
    assert_eq!(texts, vec!["a".to_string(), String::new(), "b".to_string()]);
    assert!(lines_of(&chars_of("")).is_empty());
    assert_eq!(parse_u32_chars(&chars_of("4294967295")), Some(u32::MAX));
    assert_eq!(parse_u32_chars(&chars_of("4294967296")), None);
    assert_eq!(parse_u32_chars(&chars_of("+7")), Some(7));
    assert_eq!(parse_u32_chars(&chars_of("+")), None);
    assert_eq!(parse_u32_chars(&chars_of("-1")), None);
    assert_eq!(parse_u32_chars(&chars_of("")), None);
    assert_eq!(parse_u32_chars(&chars_of("007")), Some(7));
    for s in ["0", "12", "99999", "4294967295", "4294967296", "+", "+5", "1a", " 1", ""] {
        assert_eq!(parse_u32_chars(&chars_of(s)), s.parse::<u32>().ok());
    }
}

#[test]
fn upload_routes() {
    assert_eq!(upload_slot("/player/play/stream"), Some(Slot::Current));
    assert_eq!(upload_slot("/player/cache/next/stream"), Some(Slot::Next));
    assert_eq!(upload_slot("/player/cache/previous/stream"), Some(Slot::Prev));
    assert_eq!(upload_slot("/player/other"), None);
    assert_eq!(upload_track_id(Some("t")), Some("t".to_string()));
    assert_eq!(upload_track_id(Some("")), None);
    assert_eq!(upload_track_id(None), None);
}
