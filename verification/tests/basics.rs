use kirin_gateway::config::types::{
    default_algorithm, default_cookie_name, default_cookie_path, default_match_type,
    default_max_age, default_timeout_secs, default_weight, StickyCookieConfig,
};
use kirin_gateway::control_plane::watch::{Watch, WatchAction, WatchEvent};
use kirin_gateway::data_plane::rate_limit::{
    calculate_refill_tokens, uptime_after, whole_secs_between, RateLimiter, TokenBucket, Uptime,
};
use kirin_gateway::str_map::StrMap;
use kirin_gateway::text::{decimal_text, is_blank, split, split_once, trim};
use std::time::Duration;

fn at(secs: u64, nanos: u32) -> Uptime {
    Uptime { secs, nanos }
}

#[test]
fn a_bucket_is_refilled_for_whole_seconds() {
    let mut bucket = TokenBucket::new(5, 2);
    for _ in 0..5 {
        assert!(bucket.try_acquire_at(at(0, 0)));
    }
    assert!(!bucket.try_acquire_at(at(0, 999_999_999)));
    assert!(bucket.try_acquire_at(at(1, 0)));
    assert_eq!(bucket.remaining(), 1);
    assert!(bucket.try_acquire_at(at(1, 999_999_999)));
    assert!(!bucket.try_acquire_at(at(1, 999_999_999)));
    assert!(bucket.try_acquire_at(at(100, 0)));
    assert_eq!(bucket.remaining(), 4);
    assert!(bucket.try_acquire_at(at(50, 0)));
    assert_eq!(bucket.remaining(), 3);
}

#[test]
fn a_burst_is_no_larger_than_the_bucket() {
    let mut limiter = RateLimiter::new(3, 1);
    let allowed = (0..10).filter(|_| limiter.check_at("a", at(0, 0)).0).count();
    assert_eq!(allowed, 3);
    let allowed = (0..10).filter(|_| limiter.check_at("a", at(2, 0)).0).count();
    assert_eq!(allowed, 2);
    assert_eq!(limiter.check_at("b", at(2, 0)), (true, 2));
}

#[test]
fn a_client_keeps_the_policy_of_its_bucket() {
    let mut limiter = RateLimiter::new(2, 1);
    assert_eq!(limiter.check_at("old", at(0, 0)), (true, 1));
    limiter.update_policy(5, 3);
    assert_eq!(limiter.check_at("new", at(0, 0)), (true, 4));
    assert_eq!(limiter.check_at("old", at(9, 0)), (true, 1));
    let summary = limiter.summary();
    assert!(summary.enabled);
    assert_eq!(summary.capacity, Some(5));
    assert_eq!(summary.refill_rate, Some(3));
}

#[test]
fn refills_do_not_overflow() {
    assert_eq!(calculate_refill_tokens(u64::MAX, usize::MAX, usize::MAX, 7), 7);
    assert_eq!(calculate_refill_tokens(u64::MAX, 3, 0, 7), 3);
    assert_eq!(calculate_refill_tokens(0, 9, 1, 7), 7);
    assert_eq!(whole_secs_between(at(5, 3), at(7, 2)), 1);
    assert_eq!(whole_secs_between(at(5, 3), at(7, 3)), 2);
    assert_eq!(whole_secs_between(at(7, 3), at(5, 3)), 0);
    assert_eq!(whole_secs_between(at(7, 3), at(7, 2)), 0);
}

#[test]
fn a_burst_of_changes_leads_to_one_reload() {
    let mut watch = Watch::Idle;
    let mut actions = vec![];
    for event in [
        WatchEvent::Changed,
        WatchEvent::Changed,
        WatchEvent::Quiet,
        WatchEvent::Quiet,
        WatchEvent::Changed,
        WatchEvent::Closed,
    ] {
        let (next, action) = watch.step(event);
        watch = next;
        actions.push(action);
    }
    assert_eq!(
        actions,
        vec![
            WatchAction::Pause,
            WatchAction::Pause,
            WatchAction::Reload,
            WatchAction::Wait,
            WatchAction::Pause,
            WatchAction::Stop,
        ]
    );
}

#[test]
fn defaults() {
    assert_eq!(default_match_type(), "exact");
    assert_eq!(default_cookie_name(), "kirin_canary");
    assert_eq!(default_cookie_path(), "/");
    assert_eq!(default_max_age(), 3600);
    assert_eq!(default_algorithm(), "round_robin");
    assert_eq!(default_weight(), 1);
    assert_eq!(default_timeout_secs(), 3);
    let cookie = StickyCookieConfig::default();
    assert_eq!((cookie.name.as_str(), cookie.path.as_str(), cookie.max_age), ("kirin_canary", "/", 3600));
}

#[test]
fn maps_keep_the_order_of_insertion() {
    let mut map: StrMap<u8> = StrMap::new();
    assert!(map.is_empty());
    map.insert("b".to_string(), 1);
    map.insert("a".to_string(), 2);
    map.insert("b".to_string(), 3);
    assert_eq!(map.keys(), vec!["b", "a"]);
    assert_eq!(map.get("b"), Some(&3));
    assert_eq!((map.key_at(1).as_str(), *map.value_at(1)), ("a", 2));
    let copy = map.clone();
    assert!(map.remove("b"));
    assert!(!map.remove("b"));
    assert!(!map.contains_key("b"));
    assert_eq!(map.len(), 1);
    assert_eq!(copy.len(), 2);
}

#[test]
fn texts() {
    let wide = " \t\u{85}\u{a0}\u{1680}\u{2007}\u{2029}\u{3000}x y\u{202f}\n";
    assert_eq!(trim(wide), wide.trim());
    assert_eq!(trim(""), "");
    assert!(is_blank(" \u{3000}\r\n"));
    assert!(!is_blank("\u{200b}"));
    assert_eq!(split("a;b;;", ';'), vec!["a", "b", "", ""]);
    assert_eq!(split("", ';'), vec![""]);
    assert_eq!(
        split_once("k=v=w", '='),
        Some(("k".to_string(), "v=w".to_string()))
    );
    assert_eq!(split_once("kv", '='), None);
    for n in [0, 7, 10, 4_294_967_296, u64::MAX] {
        assert_eq!(decimal_text(n), n.to_string());
    }
}

#[test]
fn a_clock_shows_the_span_that_it_has_run() {
    assert_eq!(uptime_after(Duration::from_millis(2_750)), at(2, 750_000_000));
    assert_eq!(uptime_after(Duration::from_nanos(1_000_000_001)), at(1, 1));
}
