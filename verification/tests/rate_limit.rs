use tilings::rate_limit::{RateLimitAction, RateLimiter};

#[test]
fn windows_of_thirty_seconds() {
    assert_eq!(0, RateLimiter::window_start(29));
    assert_eq!(30, RateLimiter::window_start(30));
    assert_eq!(1_700_000_010, RateLimiter::window_start(1_700_000_019));
}

#[test]
fn paths() {
    assert_eq!("/api/tilings/v1/fail-rait-limit", RateLimiter::failure_path());
    assert_eq!(
        "^(/api/tilings/v1/omni-search|/api/tilings/v1/tiling-search)",
        RateLimiter::search_pattern()
    );
}

#[test]
fn search_routes() {
    assert!(RateLimiter::is_search_path("/api/tilings/v1/omni-search"));
    assert!(RateLimiter::is_search_path("/api/tilings/v1/tiling-search"));
    assert!(RateLimiter::is_search_path("/api/tilings/v1/omni-searching"));
    assert!(!RateLimiter::is_search_path("/api/tilings/v1/atlases"));
    assert!(!RateLimiter::is_search_path("/x/api/tilings/v1/omni-search"));
}

#[test]
fn counter_keys() {
    assert_eq!("RATE_LIMITER:1.2.3.4:search:60", RateLimiter::counter_key("1.2.3.4", true, 60));
    assert_eq!("RATE_LIMITER:1.2.3.4:60", RateLimiter::counter_key("1.2.3.4", false, 60));
}

#[test]
fn plans() {
    assert_eq!(RateLimitAction::Fail, RateLimiter::plan(None, false, 75));
    assert_eq!(
        RateLimitAction::Count { key: String::from("RATE_LIMITER:::1:search:60"), expire_seconds: 30, is_search: true },
        RateLimiter::plan(Some("::1"), true, 75)
    );
}

#[test]
fn limits() {
    let limiter = RateLimiter::new(100, 10);
    assert_eq!(10, limiter.max_count(true));
    assert_eq!(100, limiter.max_count(false));
    assert!(limiter.admits(Some(9), true));
    assert!(!limiter.admits(Some(10), true));
    assert!(limiter.admits(Some(10), false));
    assert!(!limiter.admits(Some(100), false));
    assert!(!limiter.admits(None, false));
}
