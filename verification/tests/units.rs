//! Unit-level behaviour: text utilities, rate limiting, the credential
//! store, counters and the lifecycle table.
use chat_core::auth::{hash_password, register_user, verify_login, RegisterError};
use chat_core::client::{lifecycle_transition, ConnEvent, ConnPhase};
use chat_core::metrics::{rss_pages_to_mb, ServerMetrics};
use chat_core::rate_limit::check_rate_limit;
use chat_core::text::{concat3, eq_str, eq_str_fold, extract_first_url, extract_mentions,
    sanitize_filename, to_fold, trim_str, u64_to_string};
use chat_core::types::{Client, UserEntry};

fn guest(id: u64, name: &str, room: &str) -> Client {
    Client {
        id,
        name: name.to_string(),
        logged_in: false,
        room: room.to_string(),
        last_message_times: Vec::new(),
        is_typing: false,
        last_read_msg_id: None,
        last_active: 0,
    }
}

#[test]
fn decimal_rendering() {
    assert_eq!(u64_to_string(0), "0");
    assert_eq!(u64_to_string(7), "7");
    assert_eq!(u64_to_string(12345), "12345");
    assert_eq!(u64_to_string(u64::MAX), "18446744073709551615");
}

#[test]
fn folding_and_equality() {
    assert_eq!(to_fold('A'), 'a');
    assert_eq!(to_fold('z'), 'z');
    assert_eq!(to_fold('3'), '3');
    assert!(eq_str("abc", "abc"));
    assert!(!eq_str("abc", "abd"));
    assert!(eq_str_fold("Alice", "aLiCe"));
    assert!(!eq_str_fold("Alice", "Alicia"));
}

#[test]
fn trimming() {
    assert_eq!(trim_str("  hi there \t"), "hi there");
    assert_eq!(trim_str("word"), "word");
    assert_eq!(trim_str("   "), "");
    assert_eq!(trim_str(""), "");
}

#[test]
fn concatenation() {
    assert_eq!(concat3("a", "b", "c"), "abc");
    assert_eq!(concat3("-- ", "x", " --"), "-- x --");
}

#[test]
fn mention_extraction() {
    let ms = extract_mentions("hi @bob and @Al_ice!");
    assert_eq!(ms, vec!["bob".to_string(), "Al_ice".to_string()]);
    let none = extract_mentions("no mentions here");
    assert!(none.is_empty());
    let edge = extract_mentions("@ @@x a@b");
    assert_eq!(edge, vec!["x".to_string(), "b".to_string()]);
}

#[test]
fn url_extraction() {
    assert_eq!(
        extract_first_url("see https://example.com/x now"),
        Some("https://example.com/x".to_string())
    );
    assert_eq!(extract_first_url("go http://a.b"), Some("http://a.b".to_string()));
    assert_eq!(extract_first_url("no links"), None);
}

#[test]
fn filename_sanitizing() {
    assert_eq!(sanitize_filename("a b/c.txt"), "a_b_c.txt");
    assert_eq!(sanitize_filename("x-1_2.png"), "x-1_2.png");
    assert_eq!(sanitize_filename("..//"), "..__"); // slashes replaced
    assert_eq!(sanitize_filename("..//").len(), 4);
}

#[test]
fn rate_limiter_window() {
    let mut c = guest(1, "a", "lobby");
    for _ in 0..5 {
        assert!(check_rate_limit(&mut c, 100));
    }
    // the sixth message inside the same window is rejected
    assert!(!check_rate_limit(&mut c, 105));
    assert_eq!(c.last_message_times.len(), 5);
    // ten seconds after the last accepted message, a new one is accepted
    assert!(check_rate_limit(&mut c, 110));
}

#[test]
fn rate_limiter_partial_expiry() {
    let mut c = guest(1, "a", "lobby");
    assert!(check_rate_limit(&mut c, 0));
    assert!(check_rate_limit(&mut c, 1));
    assert!(check_rate_limit(&mut c, 2));
    assert!(check_rate_limit(&mut c, 3));
    assert!(check_rate_limit(&mut c, 4));
    assert!(!check_rate_limit(&mut c, 9));
    // the first two have aged out by 11
    assert!(check_rate_limit(&mut c, 11));
}

#[test]
fn salted_digest_hash() {
    let h = hash_password("alice", "secret");
    assert_eq!(h, "3d11dc479c08e3b368773103d64766c2e420ce39727932fcf2d8f4d9d599be59");
    let h2 = hash_password("a", "b");
    assert_eq!(h2, "6783a31eabf68ccc0660f935c0826282bdd2241f3a80a9f2d10d59aea9ebb5d8");
    assert_eq!(h.len(), 64);
}

#[test]
fn registration_and_login() {
    let mut users: Vec<UserEntry> = Vec::new();
    assert!(register_user(&mut users, "alice", "pw1").is_ok());
    assert_eq!(users.len(), 1);
    assert_eq!(users[0].username, "alice");
    // a taken username is refused
    let dup = register_user(&mut users, "alice", "other");
    assert!(matches!(dup, Err(RegisterError::Duplicate)));
    assert_eq!(dup.err().unwrap().message(), "username already exists");
    assert_eq!(users.len(), 1);
    // the real scheme accepts the right password and no other
    assert!(verify_login(&users, "alice", "pw1"));
    assert!(!verify_login(&users, "alice", "pw2"));
    assert!(!verify_login(&users, "bob", "pw1"));
}

#[test]
fn metrics_counters() {
    let mut m = ServerMetrics::new(50);
    assert_eq!(m.uptime_secs(80), 30);
    assert_eq!(m.uptime_secs(40), 0);
    m.increment_messages();
    m.increment_messages();
    m.increment_connections();
    assert_eq!(m.get_total_messages(), 2);
    assert_eq!(m.get_total_connections(), 1);
    assert_eq!(rss_pages_to_mb(256), 1);
    assert_eq!(rss_pages_to_mb(255), 0);
    assert_eq!(rss_pages_to_mb(1024), 4);
}

#[test]
fn lifecycle_table() {
    assert!(matches!(
        lifecycle_transition(ConnPhase::Connecting, ConnEvent::SocketUpgraded),
        ConnPhase::Unauthenticated
    ));
    assert!(matches!(
        lifecycle_transition(ConnPhase::Unauthenticated, ConnEvent::AuthSucceeded),
        ConnPhase::Active
    ));
    assert!(matches!(
        lifecycle_transition(ConnPhase::Unauthenticated, ConnEvent::SocketError),
        ConnPhase::Closed
    ));
    assert!(matches!(
        lifecycle_transition(ConnPhase::Active, ConnEvent::SocketClosed),
        ConnPhase::Closed
    ));
    assert!(matches!(
        lifecycle_transition(ConnPhase::Active, ConnEvent::Kicked),
        ConnPhase::Closed
    ));
    // the terminal phase is terminal
    assert!(matches!(
        lifecycle_transition(ConnPhase::Closed, ConnEvent::AuthSucceeded),
        ConnPhase::Closed
    ));
}
