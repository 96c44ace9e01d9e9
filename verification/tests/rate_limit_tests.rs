use fly_common::rate_limit::{client_ip_from_headers, RateLimitResult, RateLimiter};
use std::time::Duration;

const SEC: u128 = 1_000_000_000;

#[test]
fn tokens_run_out_and_refill_after_a_window() {
    let mut limiter = RateLimiter::new(2, Duration::from_secs(10));
    assert_eq!(limiter.check_and_consume_at("1.2.3.4", 0), RateLimitResult::Allowed);
    assert_eq!(limiter.check_and_consume_at("1.2.3.4", SEC), RateLimitResult::Allowed);
    assert_eq!(
        limiter.check_and_consume_at("1.2.3.4", 2 * SEC + 500_000_000),
        RateLimitResult::Blocked { retry_after_secs: 7 }
    );
    // Another client has its own bucket.
    assert_eq!(limiter.check_and_consume_at("5.6.7.8", 3 * SEC), RateLimitResult::Allowed);
    // Less than a second left is reported as one second.
    assert_eq!(
        limiter.check_and_consume_at("1.2.3.4", 9 * SEC + 900_000_000),
        RateLimitResult::Blocked { retry_after_secs: 1 }
    );
    assert_eq!(limiter.check_and_consume_at("1.2.3.4", 10 * SEC), RateLimitResult::Allowed);
}

#[test]
fn penalty_box_blocks_for_a_minute() {
    let mut limiter = RateLimiter::new(100, Duration::from_secs(1));
    limiter.penalty_box_ip_at("9.9.9.9", 5 * SEC);
    assert!(limiter.is_in_penalty_box_at("9.9.9.9", 6 * SEC));
    assert_eq!(
        limiter.check_and_consume_at("9.9.9.9", 6 * SEC),
        RateLimitResult::Blocked { retry_after_secs: 59 }
    );
    assert!(!limiter.is_in_penalty_box_at("9.9.9.9", 65 * SEC));
    assert_eq!(limiter.check_and_consume_at("9.9.9.9", 65 * SEC), RateLimitResult::Allowed);
}

#[test]
fn zero_token_limiter_blocks_at_once() {
    let mut limiter = RateLimiter::new(0, Duration::from_secs(30));
    assert_eq!(
        limiter.check_and_consume_at("a", 0),
        RateLimitResult::Blocked { retry_after_secs: 30 }
    );
}

#[test]
fn clock_driven_calls() {
    let mut limiter = RateLimiter::new(1, Duration::from_secs(3600));
    assert_eq!(limiter.check_and_consume("10.0.0.1"), RateLimitResult::Allowed);
    assert!(matches!(
        limiter.check_and_consume("10.0.0.1"),
        RateLimitResult::Blocked { retry_after_secs } if retry_after_secs >= 3590
    ));
    assert!(!limiter.is_in_penalty_box("10.0.0.1"));
    limiter.penalty_box_ip("10.0.0.1");
    assert!(limiter.is_in_penalty_box("10.0.0.1"));
}

#[test]
fn client_address_comes_from_proxy_headers() {
    assert_eq!(client_ip_from_headers(Some(Some(" 203.0.113.7 , 10.0.0.1")), None), "203.0.113.7");
    assert_eq!(client_ip_from_headers(Some(Some("")), Some(Some("1.1.1.1"))), "");
    assert_eq!(client_ip_from_headers(Some(None), Some(Some("1.1.1.1"))), "127.0.0.1");
    assert_eq!(client_ip_from_headers(None, Some(Some(" 198.51.100.2 "))), "198.51.100.2");
    assert_eq!(client_ip_from_headers(None, Some(None)), "127.0.0.1");
    assert_eq!(client_ip_from_headers(None, None), "127.0.0.1");
}
