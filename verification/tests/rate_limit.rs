use kirin_gateway::data_plane::rate_limit::{
    calculate_refill_tokens, try_acquire_decision, RateLimiter, TokenBucket, Uptime,
};

#[test]
fn test_bucket_exhaust_then_reject() {
    let mut bucket = TokenBucket::new(2, 1);
    assert!(bucket.try_acquire());
    assert!(bucket.try_acquire());
    assert!(!bucket.try_acquire());
}

#[test]
fn test_bucket_remaining() {
    let mut bucket = TokenBucket::new(5, 1);
    assert_eq!(bucket.remaining(), 5);
    bucket.try_acquire();
    bucket.try_acquire();
    assert_eq!(bucket.remaining(), 3);
}

#[test]
fn test_bucket_refill_after_wait() {
    let at = |secs: u64| Uptime { secs, nanos: 0 };
    let mut bucket = TokenBucket::new(5, 2);
    for _ in 0..5 {
        assert!(bucket.try_acquire_at(at(0)));
    }
    assert_eq!(bucket.remaining(), 0);
    assert!(!bucket.try_acquire_at(at(0)));

    // One second later there are two more tokens.
    assert!(bucket.try_acquire_at(at(1)));
    assert_eq!(bucket.remaining(), 1);
}

#[test]
fn test_bucket_refill_capped_at_capacity() {
    let mut bucket = TokenBucket::new(3, 10);
    assert!(bucket.remaining() <= 3);

    // One second later no more than the capacity is left.
    assert!(bucket.try_acquire_at(Uptime { secs: 1, nanos: 0 }));
    assert_eq!(bucket.remaining(), 2);
}

#[test]
fn test_limiter_ip_isolation() {
    let mut limiter = RateLimiter::new(2, 1);

    let (allowed1, remaining1) = limiter.check("192.168.1.1");
    assert!(allowed1);
    assert_eq!(remaining1, 1);

    let (allowed2, remaining2) = limiter.check("192.168.1.1");
    assert!(allowed2);
    assert_eq!(remaining2, 0);

    let (allowed3, _) = limiter.check("192.168.1.1");
    assert!(!allowed3);

    let (allowed4, remaining4) = limiter.check("192.168.1.2");
    assert!(allowed4);
    assert_eq!(remaining4, 1);
}

#[test]
fn test_limiter_policy_update() {
    let mut limiter = RateLimiter::new(2, 1);

    limiter.update_policy(5, 1);

    let mut remaining_check = 5;
    for _ in 0..5 {
        let (allowed, remaining) = limiter.check("10.0.0.1");
        assert!(allowed);
        remaining_check = remaining;
    }
    assert_eq!(remaining_check, 0);

    let (allowed, _) = limiter.check("10.0.0.1");
    assert!(!allowed);
}

#[test]
fn test_calculate_refill_tokens_no_elapsed() {
    assert_eq!(calculate_refill_tokens(0, 10, 5, 100), 10);
}

#[test]
fn test_calculate_refill_tokens_normal() {
    assert_eq!(calculate_refill_tokens(3, 10, 5, 100), 25);
}

#[test]
fn test_calculate_refill_tokens_capped_at_capacity() {
    assert_eq!(calculate_refill_tokens(1, 95, 100, 100), 100);
}

#[test]
fn test_try_acquire_decision_allowed() {
    assert_eq!(try_acquire_decision(5), (true, 4));
    assert_eq!(try_acquire_decision(1), (true, 0));
}

#[test]
fn test_try_acquire_decision_rejected() {
    assert_eq!(try_acquire_decision(0), (false, 0));
}
