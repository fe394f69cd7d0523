use l337_audio_server::auth_challenge::{redemption_step, ChallengeAction, ChallengeFile};
use l337_audio_server::auth_challenge::{
    challenge_expired, constant_time_eq, generate_token, group_with_dashes, redeem, ChallengeError,
};

#[test]
fn constant_time_comparison() {
    assert!(constant_time_eq("abc", "abc"));
    assert!(!constant_time_eq("abc", "abd"));
    assert!(!constant_time_eq("abc", "abcd"));
    assert!(constant_time_eq("", ""));
    assert!(!constant_time_eq("é", "e"));
}

#[test]
fn challenge_format() {
    let t = generate_token();
    assert_eq!(t.len(), 39);
    for (i, c) in t.chars().enumerate() {
        if i % 5 == 4 {
            assert_eq!(c, '-');
        } else {
            assert!(c.is_ascii_alphanumeric());
        }
    }
    assert_ne!(generate_token(), t);
    let raw: Vec<char> = "ABCDEFGHIJ".chars().collect();
    assert_eq!(group_with_dashes(&raw), "ABCD-EFGH-IJ");
    assert_eq!(group_with_dashes(&[]), "");
}

#[test]
fn challenge_expiry() {
    assert!(!challenge_expired(599, 999_999_999));
    assert!(!challenge_expired(600, 0));
    assert!(challenge_expired(600, 1));
    assert!(challenge_expired(601, 0));
}

#[test]
fn challenge_redemption() {
    assert_eq!(redeem("ABCD-EFGH\n", "ABCD-EFGH").unwrap(), "ABCD-EFGH");
    assert!(matches!(redeem("ABCD-EFGH\n", "wrong-token"), Err(ChallengeError::Mismatch)));
    assert!(matches!(redeem("", "x"), Err(ChallengeError::Mismatch)));
}

#[test]
fn challenge_error_text() {
    assert_eq!(ChallengeError::Expired.to_string(), "challenge expired");
    assert_eq!(ChallengeError::Missing.to_string(), "challenge missing");
    assert_eq!(ChallengeError::Mismatch.to_string(), "challenge mismatch");
    let e = ChallengeError::Io(std::io::Error::new(std::io::ErrorKind::Other, "disk full"));
    assert_eq!(e.to_string(), "io error: disk full");
}

#[test]
fn challenge_failure_status() {
    assert_eq!(ChallengeError::Expired.status(), 401);
    assert_eq!(ChallengeError::Missing.status(), 401);
    assert_eq!(ChallengeError::Mismatch.status(), 401);
    let e = ChallengeError::Io(std::io::Error::new(std::io::ErrorKind::Other, "disk full"));
    assert_eq!(e.status(), 500);
}

#[test]
fn redemption_steps() {
    let (r, a) = redemption_step(ChallengeFile::Absent, "x");
    assert!(matches!(r, Err(ChallengeError::Missing)));
    assert!(matches!(a, ChallengeAction::Keep));
    let (r, a) = redemption_step(ChallengeFile::Expired, "x");
    assert!(matches!(r, Err(ChallengeError::Expired)));
    assert!(matches!(a, ChallengeAction::Delete));
    let (r, a) = redemption_step(ChallengeFile::Current("ABCD-EFGH\n".to_string()), "wrong-token");
    assert!(matches!(r, Err(ChallengeError::Mismatch)));
    assert!(matches!(a, ChallengeAction::Keep));
    let (r, a) = redemption_step(ChallengeFile::Current("ABCD-EFGH\n".to_string()), "ABCD-EFGH");
    assert_eq!(r.unwrap(), "ABCD-EFGH");
    match a {
        ChallengeAction::Promote(t) => assert_eq!(t, "ABCD-EFGH"),
        _ => panic!("the redeemed challenge is promoted"),
    }
}
