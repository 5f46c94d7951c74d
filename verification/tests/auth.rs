use std::time::Duration;

use liaozhai::account::Account;
use liaozhai::error::Error;
use liaozhai::ids::{AccountId, ConnectionId, WorldId};
use liaozhai::params::Argon2Params;
use liaozhai::rate_limiter::{AuthRateLimiter, PeerIp};
use liaozhai::store::{
    account_from_listed, check_credentials, credential_outcome, generate_hash, insert_error,
    store_error, ListedAccount, StoredAccount,
};

fn test_ip() -> PeerIp {
    PeerIp::v4(10, 0, 0, 1)
}

fn other_ip() -> PeerIp {
    PeerIp::v4(10, 0, 0, 2)
}

fn auth_text(e: &Error) -> String {
    match e {
        Error::Auth(m) => m.clone(),
        other => panic!("expected an authentication error, got {other:?}"),
    }
}

#[test]
fn account_new_getters() {
    let acct = Account::new("alice");
    assert_eq!(acct.username(), "alice");
    assert_eq!(acct.id(), acct.id());
    assert!(acct.created_at() > 0);
    assert_eq!(acct.last_login_at(), None);
}

#[test]
fn account_from_row_getters() {
    let id = AccountId::new();
    let acct = Account::from_row(id, "bob".into(), 1000, Some(2000));
    assert_eq!(acct.id(), id);
    assert_eq!(acct.username(), "bob");
    assert_eq!(acct.created_at(), 1000);
    assert_eq!(acct.last_login_at(), Some(2000));
}

#[test]
fn default_params_match_owasp() {
    let p = Argon2Params::default();
    assert_eq!(p.m_cost, 19_456);
    assert_eq!(p.t_cost, 2);
    assert_eq!(p.p_cost, 1);
}

#[test]
fn to_argon2_params_succeeds() {
    let p = Argon2Params::test_fast();
    assert!(p.to_argon2_params().is_ok());
}

#[test]
fn to_argon2_params_with_zero_rejects() {
    let p = Argon2Params::new(0, 0, 0);
    assert!(p.to_argon2_params().is_err());
}

#[test]
fn too_many_lanes_is_an_error_not_a_panic() {
    assert!(Argon2Params::new(u32::MAX, 1, 0x0100_0000).to_argon2_params().is_err());
    assert!(Argon2Params::new(19_456, 2, 0x0100_0000).to_argon2_params().is_err());
    assert!(Argon2Params::new(u32::MAX, 1, 0x1FFF_FFFF).to_argon2_params().is_err());
    assert!(Argon2Params::new(u32::MAX, 1, u32::MAX).to_argon2_params().is_err());
    assert!(generate_hash("x", &Argon2Params::new(u32::MAX, 1, u32::MAX)).is_err());
}

#[test]
fn argon2_params_boundaries() {
    assert!(Argon2Params::new(8, 1, 1).to_argon2_params().is_ok());
    assert!(Argon2Params::new(7, 1, 1).to_argon2_params().is_err());
    assert!(Argon2Params::new(16, 1, 2).to_argon2_params().is_ok());
    assert!(Argon2Params::new(15, 1, 2).to_argon2_params().is_err());
    assert!(Argon2Params::new(64, 0, 1).to_argon2_params().is_err());
}

#[test]
fn not_throttled_initially() {
    let mut limiter = AuthRateLimiter::new(Duration::from_secs(60), 3);
    assert!(!limiter.is_throttled(test_ip()));
}

#[test]
fn throttled_after_max_failures() {
    let mut limiter = AuthRateLimiter::new(Duration::from_secs(60), 3);
    for _ in 0..3 {
        limiter.record_failure(test_ip());
    }
    assert!(limiter.is_throttled(test_ip()));
}

#[test]
fn not_throttled_below_max() {
    let mut limiter = AuthRateLimiter::new(Duration::from_secs(60), 3);
    for _ in 0..2 {
        limiter.record_failure(test_ip());
    }
    assert!(!limiter.is_throttled(test_ip()));
}

#[test]
fn reset_clears_history() {
    let mut limiter = AuthRateLimiter::new(Duration::from_secs(60), 3);
    for _ in 0..3 {
        limiter.record_failure(test_ip());
    }
    assert!(limiter.is_throttled(test_ip()));
    limiter.reset(test_ip());
    assert!(!limiter.is_throttled(test_ip()));
}

#[test]
fn old_entries_pruned() {
    let mut limiter = AuthRateLimiter::new(Duration::from_millis(50), 3);
    for _ in 0..3 {
        limiter.record_failure(test_ip());
    }
    assert!(limiter.is_throttled(test_ip()));
    let start = std::time::Instant::now();
    while start.elapsed() < Duration::from_millis(100) {
        std::hint::spin_loop();
    }
    assert!(!limiter.is_throttled(test_ip()));
}

#[test]
fn different_ips_tracked_independently() {
    let mut limiter = AuthRateLimiter::new(Duration::from_secs(60), 3);
    for _ in 0..3 {
        limiter.record_failure(test_ip());
    }
    assert!(limiter.is_throttled(test_ip()));
    assert!(!limiter.is_throttled(other_ip()));
}

#[test]
fn old_entries_pruned_on_the_limiter_clock() {
    let mut limiter = AuthRateLimiter::with_window_nanos(50, 3, 100);
    for t in [10u128, 11, 12] {
        limiter.record_failure_at(test_ip(), t);
    }
    assert!(limiter.is_throttled_at(test_ip(), 60));
    assert!(!limiter.is_throttled_at(test_ip(), 100));
}

#[test]
fn failure_exactly_at_window_edge_still_counts() {
    let mut limiter = AuthRateLimiter::with_window_nanos(50, 1, 100);
    limiter.record_failure_at(test_ip(), 10);
    assert!(limiter.is_throttled_at(test_ip(), 60));
    assert!(!limiter.is_throttled_at(test_ip(), 61));
}

#[test]
fn recording_prunes_before_appending() {
    let mut limiter = AuthRateLimiter::with_window_nanos(5, 2, 100);
    limiter.record_failure_at(test_ip(), 0);
    limiter.record_failure_at(test_ip(), 100);
    assert!(!limiter.is_throttled_at(test_ip(), 100));
    limiter.record_failure_at(test_ip(), 101);
    assert!(limiter.is_throttled_at(test_ip(), 101));
}

#[test]
fn zero_limit_throttles_only_known_addresses() {
    let mut limiter = AuthRateLimiter::with_window_nanos(5, 0, 100);
    assert!(!limiter.is_throttled_at(test_ip(), 0));
    limiter.record_failure_at(test_ip(), 0);
    assert!(limiter.is_throttled_at(test_ip(), 1000));
}

#[test]
fn v6_addresses_are_distinct_from_v4() {
    let mut limiter = AuthRateLimiter::with_window_nanos(1000, 1, 100);
    limiter.record_failure_at(PeerIp::V6(1), 0);
    assert!(limiter.is_throttled_at(PeerIp::V6(1), 1));
    assert!(!limiter.is_throttled_at(PeerIp::V4(1), 1));
}

#[test]
fn eviction_when_at_cap() {
    let mut limiter = AuthRateLimiter::with_window_nanos(1000, 1, 2);
    limiter.record_failure_at(PeerIp::V4(1), 1);
    limiter.record_failure_at(PeerIp::V4(2), 2);
    limiter.record_failure_at(PeerIp::V4(3), 3);
    assert!(!limiter.is_throttled_at(PeerIp::V4(1), 4));
    assert!(limiter.is_throttled_at(PeerIp::V4(2), 4));
    assert!(limiter.is_throttled_at(PeerIp::V4(3), 4));
}

#[test]
fn no_eviction_below_cap() {
    let mut limiter = AuthRateLimiter::with_window_nanos(1000, 1, 3);
    limiter.record_failure_at(PeerIp::V4(1), 1);
    limiter.record_failure_at(PeerIp::V4(2), 2);
    limiter.record_failure_at(PeerIp::V4(3), 3);
    assert!(limiter.is_throttled_at(PeerIp::V4(1), 4));
    assert!(limiter.is_throttled_at(PeerIp::V4(2), 4));
    assert!(limiter.is_throttled_at(PeerIp::V4(3), 4));
}

#[test]
fn existing_ip_not_evicted() {
    let mut limiter = AuthRateLimiter::with_window_nanos(1000, 2, 2);
    limiter.record_failure_at(PeerIp::V4(1), 1);
    limiter.record_failure_at(PeerIp::V4(2), 2);
    limiter.record_failure_at(PeerIp::V4(1), 3);
    assert!(limiter.is_throttled_at(PeerIp::V4(1), 4));
    limiter.record_failure_at(PeerIp::V4(2), 5);
    assert!(limiter.is_throttled_at(PeerIp::V4(2), 6));
}

#[test]
fn eviction_goes_by_latest_failure() {
    let mut limiter = AuthRateLimiter::with_window_nanos(1000, 1, 2);
    limiter.record_failure_at(PeerIp::V4(1), 1);
    limiter.record_failure_at(PeerIp::V4(2), 3);
    limiter.record_failure_at(PeerIp::V4(1), 5);
    limiter.record_failure_at(PeerIp::V4(3), 6);
    assert!(limiter.is_throttled_at(PeerIp::V4(1), 7));
    assert!(!limiter.is_throttled_at(PeerIp::V4(2), 7));
    assert!(limiter.is_throttled_at(PeerIp::V4(3), 7));
}

#[test]
fn mixed_window_counts_only_recent_failures() {
    let mut limiter = AuthRateLimiter::with_window_nanos(150, 2, 100);
    for t in [0u128, 100, 200] {
        limiter.record_failure_at(test_ip(), t);
    }
    assert!(limiter.is_throttled_at(test_ip(), 210));
    assert!(!limiter.is_throttled_at(test_ip(), 260));
}

#[test]
fn default_limiter_cap_is_ten_thousand() {
    assert_eq!(liaozhai::constants::DEFAULT_RATE_LIMITER_MAX_ENTRIES, 10_000);
    let cfg = liaozhai::config::AuthConfig::default();
    assert_eq!(cfg.rate_limiter_max_entries, 10_000);
}

#[test]
fn peer_ip_v4_packs_octets() {
    assert_eq!(PeerIp::v4(127, 0, 0, 1), PeerIp::V4(0x7F00_0001));
    assert_eq!(PeerIp::v4(10, 0, 0, 2), PeerIp::V4(0x0A00_0002));
}

#[test]
fn generate_hash_gives_a_phc_string() {
    let hash = generate_hash("secret", &Argon2Params::test_fast()).unwrap();
    assert!(hash.starts_with("$argon2id$v=19$m=256,t=1,p=1$"));
    let hash = generate_hash("secret", &Argon2Params::new(64, 2, 3)).unwrap();
    assert!(hash.starts_with("$argon2id$v=19$m=64,t=2,p=3$"));
}

#[test]
fn generate_hash_rejects_bad_params() {
    let err = generate_hash("secret", &Argon2Params::new(0, 0, 0)).unwrap_err();
    assert!(auth_text(&err).starts_with("invalid argon2 params: "));
}

fn stored(id: &str, hash: &str) -> StoredAccount {
    StoredAccount {
        id: id.into(),
        username: "alice".into(),
        password_hash: hash.into(),
        created_at: 1000,
        last_login_at: None,
    }
}

const ALICE_ID: &str = "67e55044-10b1-426f-9247-bb680e5fe0c8";

#[test]
fn check_credentials_correct_password() {
    let hash = generate_hash("secret", &Argon2Params::test_fast()).unwrap();
    let dummy = generate_hash("dummy", &Argon2Params::test_fast()).unwrap();
    let acct = check_credentials(Some(stored(ALICE_ID, &hash)), "secret", &dummy)
        .unwrap()
        .unwrap();
    assert_eq!(acct.username(), "alice");
    assert_eq!(acct.id().to_text(), ALICE_ID);
    assert_eq!(acct.created_at(), 1000);
}

#[test]
fn check_credentials_wrong_password() {
    let hash = generate_hash("secret", &Argon2Params::test_fast()).unwrap();
    let dummy = generate_hash("dummy", &Argon2Params::test_fast()).unwrap();
    let r = check_credentials(Some(stored(ALICE_ID, &hash)), "wrong", &dummy).unwrap();
    assert!(r.is_none());
}

#[test]
fn check_credentials_unknown_user() {
    let dummy = generate_hash("dummy", &Argon2Params::test_fast()).unwrap();
    assert!(check_credentials(None, "whatever", &dummy).unwrap().is_none());
}

#[test]
fn check_credentials_bad_hashes() {
    let err = check_credentials(Some(stored(ALICE_ID, "not a hash")), "x", "also not").unwrap_err();
    assert!(auth_text(&err).starts_with("parsing stored hash: "));
    let err = check_credentials(None, "x", "not a hash").unwrap_err();
    assert!(auth_text(&err).starts_with("parsing dummy hash: "));
}

#[test]
fn credential_outcome_cases() {
    assert!(credential_outcome(stored(ALICE_ID, "h"), false).unwrap().is_none());
    let acct = credential_outcome(stored(ALICE_ID, "h"), true).unwrap().unwrap();
    assert_eq!(acct.username(), "alice");
    let err = credential_outcome(stored("not-a-uuid", "h"), true).unwrap_err();
    assert!(auth_text(&err).starts_with("parsing account ID: "));
}

#[test]
fn listed_account_reads_its_id() {
    let acct = account_from_listed(ListedAccount {
        id: ALICE_ID.into(),
        username: "bob".into(),
        created_at: 5,
        last_login_at: Some(6),
    })
    .unwrap();
    assert_eq!(acct.id().to_text(), ALICE_ID);
    assert_eq!(acct.username(), "bob");
    assert_eq!(acct.last_login_at(), Some(6));
}

#[test]
fn insert_errors() {
    assert_eq!(auth_text(&insert_error(true, "alice", "UNIQUE")), "Account 'alice' already exists");
    assert_eq!(auth_text(&insert_error(false, "alice", "disk full")), "creating account: disk full");
    assert_eq!(auth_text(&store_error("recording login", "boom")), "recording login: boom");
}

#[test]
fn account_id_text_round_trip() {
    let id = AccountId::from_u128(0x67e5_5044_10b1_426f_9247_bb68_0e5f_e0c8);
    assert_eq!(id.to_text(), ALICE_ID);
    assert_eq!(AccountId::parse(ALICE_ID).unwrap(), id);
    assert!(AccountId::parse("nope").is_err());
}

#[test]
fn fresh_ids_are_random_v4_uuids() {
    for text in [AccountId::new().to_text(), WorldId::new().to_text(), ConnectionId::new().to_text()] {
        let chars: Vec<char> = text.chars().collect();
        assert_eq!(chars.len(), 36);
        assert_eq!(chars[14], '4');
        assert!("89ab".contains(chars[19]), "{text}");
    }
    assert_ne!(AccountId::new(), AccountId::new());
}

#[test]
fn limiter_clock_never_goes_back() {
    let mut limiter = AuthRateLimiter::new(Duration::from_secs(60), 3);
    let a = limiter.now();
    let b = limiter.now();
    assert!(b >= a);
    limiter.record_failure(test_ip());
    let c = limiter.now();
    assert!(c >= b);
}

#[test]
fn config_window_reaches_the_limiter() {
    let cfg = liaozhai::config::AuthConfig::default();
    assert_eq!(cfg.rate_limit_window(), Duration::from_secs(60));
    let mut limiter = AuthRateLimiter::new(cfg.rate_limit_window(), 1);
    limiter.record_failure_at(test_ip(), 0);
    assert!(limiter.is_throttled_at(test_ip(), 60_000_000_000));
    assert!(!limiter.is_throttled_at(test_ip(), 60_000_000_001));
}
