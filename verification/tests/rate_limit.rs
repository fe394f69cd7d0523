use l337_audio_server::rate_limit::{ClientKey, RateLimiter, TOO_MANY_REQUESTS};

const A: ClientKey = ClientKey { ip: 0x7f00_0001, is_v6: false };
const B: ClientKey = ClientKey { ip: 0x7f00_0002, is_v6: false };
// The IPv6 address with the same number is another client.
const C: ClientKey = ClientKey { ip: 0x7f00_0001, is_v6: true };

#[test]
fn five_per_minute() {
    let mut r = RateLimiter::new();
    for i in 0..5u64 {
        assert_eq!(r.check_at(A, i * 1_000_000_000), Ok(()));
    }
    assert_eq!(r.check_at(A, 5_000_000_000), Err(TOO_MANY_REQUESTS));
    // Refused again at the same instant.
    assert_eq!(r.check_at(A, 5_000_000_000), Err(TOO_MANY_REQUESTS));
    // Other clients are unaffected.
    assert_eq!(r.check_at(B, 5_000_000_000), Ok(()));
    assert_eq!(r.check_at(C, 5_000_000_000), Ok(()));
    // 60 s after the first request it no longer counts.
    assert_eq!(r.check_at(A, 60_000_000_000), Ok(()));
    assert_eq!(r.check_at(A, 60_000_000_001), Err(TOO_MANY_REQUESTS));
}

#[test]
fn check_with_clock() {
    let mut r = RateLimiter::new();
    for _ in 0..5 {
        assert_eq!(r.check(A), Ok(()));
    }
    assert_eq!(r.check(A), Err(429));
}
