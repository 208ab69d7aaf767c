use edgeshield::auth::{extract_bearer_token, required_permission, ApiAuthConfig, AuthError, AuthState, Permission, RateLimiter};
use edgeshield::crypto::{generate_api_key_plaintext, key_hash_prefix, sha256_hex};
use edgeshield::setup::{api_key_banner, empty_to_none, key_fits_banner};
use edgeshield::types::IpAddr;

fn hash_hex(input: &str) -> String {
    sha256_hex(input.as_bytes())
}

fn auth_config(read_key: &str, admin_key: Option<&str>) -> ApiAuthConfig {
    ApiAuthConfig {
        read_key_hash: hash_hex(read_key),
        admin_key_hash: admin_key.map(hash_hex),
        max_failures: 5,
        window_seconds: 60,
        block_seconds: 300,
    }
}

const TEST_READ_KEY: &str = "test-read-key-1234567890abcdef";
const TEST_ADMIN_KEY: &str = "test-admin-key-1234567890abcdef";

#[test]
fn test_auth_disabled_allows_all() {
    let mut state = AuthState::new(None);
    assert!(!state.is_enabled());
    let result = state.check("GET", "/devices", None, None);
    assert!(result.is_ok());
}

#[test]
fn test_valid_read_key_get() {
    let cfg = auth_config(TEST_READ_KEY, Some(TEST_ADMIN_KEY));
    let mut state = AuthState::new(Some(&cfg));
    let result = state.check("GET", "/devices", Some(&format!("Bearer {TEST_READ_KEY}")), None);
    assert_eq!(result.unwrap(), Permission::Read);
}

#[test]
fn test_valid_admin_key_get() {
    let cfg = auth_config(TEST_READ_KEY, Some(TEST_ADMIN_KEY));
    let mut state = AuthState::new(Some(&cfg));
    let result = state.check("GET", "/devices", Some(&format!("Bearer {TEST_ADMIN_KEY}")), None);
    assert_eq!(result.unwrap(), Permission::Admin);
}

#[test]
fn test_valid_admin_key_post() {
    let cfg = auth_config(TEST_READ_KEY, Some(TEST_ADMIN_KEY));
    let mut state = AuthState::new(Some(&cfg));
    let result = state.check("POST", "/alerts/1/acknowledge", Some(&format!("Bearer {TEST_ADMIN_KEY}")), None);
    assert!(result.is_ok());
}

#[test]
fn test_read_key_cannot_post() {
    let cfg = auth_config(TEST_READ_KEY, Some(TEST_ADMIN_KEY));
    let mut state = AuthState::new(Some(&cfg));
    let result = state.check("POST", "/alerts/1/acknowledge", Some(&format!("Bearer {TEST_READ_KEY}")), None);
    assert_eq!(result.unwrap_err(), AuthError::InsufficientPermission);
}

#[test]
fn test_single_key_mode_read_key_can_post() {
    let cfg = auth_config(TEST_READ_KEY, None);
    let mut state = AuthState::new(Some(&cfg));
    let result = state.check("POST", "/alerts/1/acknowledge", Some(&format!("Bearer {TEST_READ_KEY}")), None);
    assert!(result.is_ok());
}

#[test]
fn test_missing_header() {
    let cfg = auth_config(TEST_READ_KEY, None);
    let mut state = AuthState::new(Some(&cfg));
    let result = state.check("GET", "/devices", None, None);
    assert_eq!(result.unwrap_err(), AuthError::MissingHeader);
}

#[test]
fn test_malformed_header() {
    let cfg = auth_config(TEST_READ_KEY, None);
    let mut state = AuthState::new(Some(&cfg));
    let result = state.check("GET", "/devices", Some("Basic abc123"), None);
    assert_eq!(result.unwrap_err(), AuthError::MalformedHeader);
}

#[test]
fn test_empty_bearer_token() {
    let cfg = auth_config(TEST_READ_KEY, None);
    let mut state = AuthState::new(Some(&cfg));
    let result = state.check("GET", "/devices", Some("Bearer "), None);
    assert_eq!(result.unwrap_err(), AuthError::MalformedHeader);
}

#[test]
fn test_invalid_key() {
    let cfg = auth_config(TEST_READ_KEY, None);
    let mut state = AuthState::new(Some(&cfg));
    let result = state.check("GET", "/devices", Some("Bearer wrong-key"), None);
    assert_eq!(result.unwrap_err(), AuthError::InvalidKey);
}

#[test]
fn test_case_insensitive_bearer_prefix() {
    let cfg = auth_config(TEST_READ_KEY, None);
    let mut state = AuthState::new(Some(&cfg));
    let result = state.check("GET", "/devices", Some(&format!("bearer {TEST_READ_KEY}")), None);
    assert!(result.is_ok());
}

#[test]
fn test_rate_limiting_blocks_after_max_failures() {
    let cfg = ApiAuthConfig {
        read_key_hash: hash_hex(TEST_READ_KEY),
        admin_key_hash: None,
        max_failures: 3,
        window_seconds: 60,
        block_seconds: 300,
    };
    let mut state = AuthState::new(Some(&cfg));
    let ip = IpAddr::v4(192, 168, 1, 100);
    for _ in 0..3 {
        let result = state.check("GET", "/devices", Some("Bearer wrong"), Some(ip));
        assert_eq!(result.unwrap_err(), AuthError::InvalidKey);
    }
    let result = state.check("GET", "/devices", Some(&format!("Bearer {TEST_READ_KEY}")), Some(ip));
    assert_eq!(result.unwrap_err(), AuthError::RateLimited);
}

#[test]
fn test_rate_limiting_disabled_when_max_failures_zero() {
    let cfg = ApiAuthConfig {
        read_key_hash: hash_hex(TEST_READ_KEY),
        admin_key_hash: None,
        max_failures: 0,
        window_seconds: 60,
        block_seconds: 300,
    };
    let mut state = AuthState::new(Some(&cfg));
    let ip = IpAddr::v4(192, 168, 1, 100);
    for _ in 0..100 {
        let _ = state.check("GET", "/devices", Some("Bearer wrong"), Some(ip));
    }
    let result = state.check("GET", "/devices", Some(&format!("Bearer {TEST_READ_KEY}")), Some(ip));
    assert!(result.is_ok());
}

#[test]
fn test_rate_limiting_different_ips_independent() {
    let cfg = ApiAuthConfig {
        read_key_hash: hash_hex(TEST_READ_KEY),
        admin_key_hash: None,
        max_failures: 2,
        window_seconds: 60,
        block_seconds: 300,
    };
    let mut state = AuthState::new(Some(&cfg));
    let ip1 = IpAddr::v4(192, 168, 1, 100);
    let ip2 = IpAddr::v4(192, 168, 1, 200);
    for _ in 0..2 {
        let _ = state.check("GET", "/devices", Some("Bearer wrong"), Some(ip1));
    }
    assert!(state.rate_limiter.is_blocked(&ip1));
    let result = state.check("GET", "/devices", Some(&format!("Bearer {TEST_READ_KEY}")), Some(ip2));
    assert!(result.is_ok());
}

#[test]
fn test_constant_time_comparison() {
    let cfg = auth_config(TEST_READ_KEY, None);
    let mut state = AuthState::new(Some(&cfg));
    let wrong_key = format!("{}X", &TEST_READ_KEY[..TEST_READ_KEY.len() - 1]);
    let result = state.check("GET", "/devices", Some(&format!("Bearer {wrong_key}")), None);
    assert_eq!(result.unwrap_err(), AuthError::InvalidKey);
}

#[test]
fn rate_limit_window_and_block_expire() {
    let mut limiter = RateLimiter::new(2, 60, 300);
    let ip = IpAddr::v4(10, 0, 0, 1);
    limiter.record_failure_at(&ip, 0);
    limiter.record_failure_at(&ip, 61_000);
    assert!(!limiter.is_blocked_at(&ip, 61_000));
    limiter.record_failure_at(&ip, 62_000);
    assert!(limiter.is_blocked_at(&ip, 62_000));
    assert!(limiter.is_blocked_at(&ip, 361_999));
    assert!(!limiter.is_blocked_at(&ip, 362_000));
}

#[test]
fn header_parsing_and_permissions() {
    assert_eq!(extract_bearer_token(Some("Bearer abc")), Ok("abc".to_string()));
    assert_eq!(extract_bearer_token(Some("BEARER abc")), Err(AuthError::MalformedHeader));
    assert_eq!(extract_bearer_token(None), Err(AuthError::MissingHeader));
    assert_eq!(required_permission("DELETE"), Permission::Admin);
    assert_eq!(required_permission("PATCH"), Permission::Admin);
    assert_eq!(required_permission("PUT"), Permission::Admin);
    assert_eq!(required_permission("GET"), Permission::Read);
    assert_eq!(required_permission("post"), Permission::Read);
    assert_eq!(AuthError::InvalidKey.status_code(), 401);
    assert_eq!(AuthError::InsufficientPermission.status_code(), 403);
    assert_eq!(AuthError::RateLimited.status_code(), 429);
    assert_eq!(AuthError::NoKeyConfigured.status_code(), 500);
    assert_eq!(AuthError::MissingHeader.response_body(), "unauthorized");
}

#[test]
fn malformed_key_hash_disables_that_key() {
    let cfg = ApiAuthConfig {
        read_key_hash: "not-hex".to_string(),
        admin_key_hash: None,
        max_failures: 0,
        window_seconds: 0,
        block_seconds: 0,
    };
    let mut state = AuthState::new(Some(&cfg));
    assert!(!state.is_enabled());
    assert_eq!(state.check("POST", "/x", None, None), Ok(Permission::Admin));
    let upper = ApiAuthConfig { read_key_hash: hash_hex("k").to_uppercase(), ..cfg };
    let mut state = AuthState::new(Some(&upper));
    assert_eq!(state.check("GET", "/x", Some("Bearer k"), None), Ok(Permission::Admin));
}

#[test]
fn test_key_hash_prefix_is_4_chars() {
    let prefix = key_hash_prefix("test-key");
    assert_eq!(prefix.len(), 4);
    assert!(prefix.chars().all(|c| c.is_ascii_hexdigit()));
}

#[test]
fn test_key_hash_prefix_different_keys_differ() {
    assert_ne!(key_hash_prefix("key-a"), key_hash_prefix("key-b"));
}

#[test]
fn test_setup_api_key_hash_is_sha256() {
    let plaintext = generate_api_key_plaintext();
    assert_eq!(plaintext.len(), 64, "plaintext key should be 64 hex chars");
    assert!(plaintext.chars().all(|c| c.is_ascii_hexdigit()));
    let hash = sha256_hex(plaintext.as_bytes());
    assert_eq!(hash.len(), 64, "SHA-256 hash should be 64 hex chars");
    assert!(hash.chars().all(|c| c.is_ascii_hexdigit()));
}

#[test]
fn known_digest_and_banner() {
    assert_eq!(sha256_hex(b"abc"), "ba7816bf8f01cfea414140de5dae2223b00361a396177a9cb410ff61f20015ad");
    assert_eq!(key_hash_prefix("abc"), "ba78");
    let key = "a".repeat(64);
    assert!(key_fits_banner(&key));
    assert!(!key_fits_banner("short"));
    let banner = api_key_banner(&key);
    let lines: Vec<&str> = banner.lines().collect();
    assert_eq!(lines[1], format!("┌{}┐", "─".repeat(68)));
    assert_eq!(lines[2], format!("│  API key (shown once — save it now):{}│", " ".repeat(31)));
    assert_eq!(lines[3], format!("│  {}  │", key));
    assert_eq!(empty_to_none(String::new()), None);
    assert_eq!(empty_to_none("u".to_string()), Some("u".to_string()));
}
