use l337_audio_server::player::storage::is_contained_track_id;
use l337_audio_server::api::models::CacheManifestEntry;
use l337_audio_server::player::storage::{
    is_protected_slot, slot_file_name, sorted_for_eviction, EvictionPlan, Manifest,
};

fn entry(id: &str, size: u64, at: i64) -> CacheManifestEntry {
    CacheManifestEntry { track_id: id.to_string(), file_size: size, last_accessed: at, play_count: 1 }
}

#[test]
fn record_access_creates_then_counts() {
    let mut m = Manifest::new();
    assert_eq!(m.len(), 0);
    m.record_access("a", 100, 1000);
    let e = m.get("a").unwrap();
    assert_eq!(e.play_count, 1);
    assert_eq!(e.file_size, 100);
    assert_eq!(e.last_accessed, 1000);
    assert_eq!(e.track_id, "a");
    m.record_access("a", 150, 2000);
    let e = m.get("a").unwrap();
    assert_eq!(e.play_count, 2);
    assert_eq!(e.file_size, 150);
    assert_eq!(e.last_accessed, 2000);
    assert_eq!(m.len(), 1);
    assert!(m.get("b").is_none());
}

#[test]
fn update_access_reads_the_clock() {
    let mut m = Manifest::new();
    m.update_access("x", 7);
    let e = m.get("x").unwrap();
    assert_eq!(e.play_count, 1);
    assert_eq!(e.file_size, 7);
    // Some time after 2020-01-01.
    assert!(e.last_accessed > 1_577_836_800);
}

#[test]
fn remove_and_pairs() {
    let m = Manifest::from_pairs(vec![
        ("a".to_string(), entry("a", 1, 10)),
        ("b".to_string(), entry("b", 2, 20)),
        ("a".to_string(), entry("a", 3, 30)),
    ]);
    assert_eq!(m.len(), 2);
    assert_eq!(m.get("a").unwrap().file_size, 3);
    let mut m = m;
    m.remove("a");
    assert!(m.get("a").is_none());
    m.remove("missing");
    let pairs = m.to_pairs();
    assert_eq!(pairs.len(), 1);
    assert_eq!(pairs[0].0, "b");
    assert_eq!(pairs[0].1.file_size, 2);
}

#[test]
fn sort_is_stable_and_oldest_first() {
    let v = vec![entry("c", 1, 30), entry("a", 1, 10), entry("b1", 1, 20), entry("b2", 1, 20)];
    let s = sorted_for_eviction(&v);
    let ids: Vec<&str> = s.iter().map(|e| e.track_id.as_str()).collect();
    assert_eq!(ids, vec!["a", "b1", "b2", "c"]);
}

#[test]
fn sort_puts_least_played_first() {
    let mut much = entry("much", 1, 1);
    much.play_count = 5;
    let little = entry("little", 1, 2);
    let s = sorted_for_eviction(&[much, little]);
    let ids: Vec<&str> = s.iter().map(|e| e.track_id.as_str()).collect();
    assert_eq!(ids, vec!["little", "much"]);
}

#[test]
fn eviction_skips_slots_and_stops_when_room() {
    let mut m = Manifest::from_pairs(vec![
        ("current".to_string(), entry("current", 50, 1)),
        ("old".to_string(), entry("old", 40, 2)),
        ("mid".to_string(), entry("mid", 30, 3)),
        ("new".to_string(), entry("new", 20, 4)),
    ]);
    // Nothing to do when the incoming bytes fit.
    assert!(EvictionPlan::new(&m, 100, 10, 200).is_none());
    let mut plan = EvictionPlan::new(&m, 140, 10, 100).unwrap();
    let first = plan.next_candidate().unwrap();
    assert_eq!(first.track_id, "old");
    assert!(!plan.pool_fits());
    plan.removed(&mut m, &first);
    let second = plan.next_candidate().unwrap();
    assert_eq!(second.track_id, "mid");
    plan.removed(&mut m, &second);
    assert!(plan.pool_fits());
    assert!(plan.next_candidate().is_none());
    assert!(m.get("old").is_none());
    assert!(m.get("mid").is_none());
    assert!(m.get("current").is_some());
    assert!(m.get("new").is_some());
}

#[test]
fn eviction_runs_out_of_candidates() {
    let m = Manifest::from_pairs(vec![("next".to_string(), entry("next", 50, 1))]);
    let mut plan = EvictionPlan::new(&m, 100, 50, 100).unwrap();
    assert!(plan.next_candidate().is_none());
}

#[test]
fn slot_names() {
    assert!(is_protected_slot("current"));
    assert!(is_protected_slot("next"));
    assert!(is_protected_slot("prev"));
    assert!(!is_protected_slot("previous"));
    assert_eq!(slot_file_name("next"), "next.stream");
}

#[test]
fn cache_lookup_keeps_order_of_request() {
    let mut m = Manifest::new();
    m.record_access("cache-next-stream", 10, 1);
    m.record_access("cache-prev-stream", 20, 2);
    assert!(m.contains("cache-next-stream"));
    assert!(!m.contains("abc123"));
    let ids: Vec<String> = ["abc123", "cache-prev-stream", "def456", "cache-next-stream"]
        .iter()
        .map(|s| s.to_string())
        .collect();
    assert_eq!(m.cached_among(&ids), vec!["cache-prev-stream".to_string(), "cache-next-stream".to_string()]);
    assert!(m.cached_among(&[]).is_empty());
}

#[test]
fn track_ids_stay_in_the_cache() {
    assert!(is_contained_track_id("3f786850e387550fdab836ed7e6dc881de23001b"));
    assert!(is_contained_track_id("a..b"));
    assert!(is_contained_track_id("artist/track"));
    assert!(is_contained_track_id("..."));
    assert!(is_contained_track_id("."));
    assert!(!is_contained_track_id(""));
    assert!(!is_contained_track_id(".."));
    assert!(!is_contained_track_id("../etc/passwd"));
    assert!(!is_contained_track_id("a/../../b"));
    assert!(!is_contained_track_id("a/.."));
    assert!(!is_contained_track_id("a\\..\\b"));
    assert!(!is_contained_track_id("/etc/passwd"));
    assert!(!is_contained_track_id("\\share"));
    assert!(!is_contained_track_id("C:secret"));
}
