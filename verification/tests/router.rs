use kirin_gateway::config::types::{
    CanaryConfig, CanaryMatchRule, CanaryMatchType, StickyCookieConfig, StickyStrategy,
};
use kirin_gateway::data_plane::router::{
    captured_groups, choose_candidate, clock_value, compute_route_value, ip_route_value, CanaryContext, MatchType,
    RouteCandidate, RouteRule, Router, RouterErrorBuilder,
};
use kirin_gateway::str_map::StrMap;
use std::collections::hash_map::DefaultHasher;
use std::hash::{Hash, Hasher};

fn rule(id: &str, match_type: MatchType, path: &str, prefix: Option<&str>, upstream: &str) -> RouteRule {
    RouteRule {
        route_id: id.to_string(),
        match_type,
        path: path.to_string(),
        prefix: prefix.map(|p| p.to_string()),
        methods: vec![],
        upstream: upstream.to_string(),
        canary: None,
        ip_whitelist: None,
        ip_blacklist: None,
    }
}

fn canary_rule(id: &str, path: &str, upstream: &str, canary: Option<CanaryConfig>) -> RouteRule {
    let mut r = rule(id, MatchType::Exact, path, None, upstream);
    r.canary = canary;
    r
}

fn weight(weight: u8) -> Option<CanaryConfig> {
    Some(CanaryConfig {
        weight,
        match_rules: vec![],
        stick: None,
        sticky_cookie: None,
    })
}

fn condition(match_type: CanaryMatchType, key: &str, value: &str) -> Option<CanaryConfig> {
    Some(CanaryConfig {
        weight: 0,
        match_rules: vec![CanaryMatchRule {
            match_type,
            key: key.to_string(),
            value: value.to_string(),
        }],
        stick: None,
        sticky_cookie: None,
    })
}

fn sticky(weight: u8) -> Option<CanaryConfig> {
    Some(CanaryConfig {
        weight,
        match_rules: vec![],
        stick: Some(StickyStrategy::Cookie),
        sticky_cookie: Some(StickyCookieConfig {
            name: "kirin_canary".to_string(),
            path: "/".to_string(),
            max_age: 3600,
        }),
    })
}

fn pairs(list: &[(&str, &str)]) -> StrMap<String> {
    let mut map = StrMap::new();
    for (k, v) in list {
        map.insert(k.to_string(), v.to_string());
    }
    map
}

#[test]
fn test_exact_match() {
    let mut router = Router::new();
    let mut profile = rule(
        "user-profile",
        MatchType::Exact,
        "/api/users/profile",
        None,
        "user-service",
    );
    profile.methods = vec!["GET".to_string()];
    router.add_route(profile).unwrap();

    let result = router
        .match_route("/api/users/profile", &CanaryContext::empty())
        .unwrap();
    assert_eq!(result.upstream, "user-service");
    assert_eq!(result.route_id, "user-profile");
    assert!(result.captures.is_none());

    assert!(router
        .match_route("/api/users/profile/extra", &CanaryContext::empty())
        .is_none());
}

#[test]
fn test_regex_match() {
    let mut router = Router::new();
    let mut by_id = rule(
        "user-by-id",
        MatchType::Regex,
        r"^/api/users/(\d+)$",
        None,
        "user-service",
    );
    by_id.methods = vec!["GET".to_string()];
    router.add_route(by_id).unwrap();

    let result = router
        .match_route("/api/users/123", &CanaryContext::empty())
        .unwrap();
    assert_eq!(result.upstream, "user-service");
    assert_eq!(result.captures, Some(vec!["123".to_string()]));

    assert!(router
        .match_route("/api/users/abc", &CanaryContext::empty())
        .is_none());
}

#[test]
fn test_regex_priority_order() {
    let mut router = Router::new();
    router
        .add_route(rule("v2-api", MatchType::Regex, r"^/api/(v2)/.+$", None, "v2-service"))
        .unwrap();
    router
        .add_route(rule("any-api", MatchType::Regex, r"^/api/.+$", None, "default-service"))
        .unwrap();

    let result = router
        .match_route("/api/v2/users", &CanaryContext::empty())
        .unwrap();
    assert_eq!(result.route_id, "v2-api");

    let result = router
        .match_route("/api/v1/users", &CanaryContext::empty())
        .unwrap();
    assert_eq!(result.route_id, "any-api");
}

#[test]
fn test_match_priority() {
    let mut router = Router::new();
    router
        .add_route(rule("exact-route", MatchType::Exact, "/api/users", None, "exact-svc"))
        .unwrap();
    router
        .add_route(rule("regex-route", MatchType::Regex, r"^/api/\w+$", None, "regex-svc"))
        .unwrap();
    router
        .add_route(rule("prefix-route", MatchType::Prefix, "", Some("/api/"), "prefix-svc"))
        .unwrap();

    let result = router
        .match_route("/api/users", &CanaryContext::empty())
        .unwrap();
    assert_eq!(result.route_id, "exact-route");

    let result = router
        .match_route("/api/orders", &CanaryContext::empty())
        .unwrap();
    assert_eq!(result.route_id, "regex-route");

    let result = router
        .match_route("/api/orders/123", &CanaryContext::empty())
        .unwrap();
    assert_eq!(result.route_id, "prefix-route");
}

#[test]
fn test_prefix_longest_first() {
    let mut router = Router::new();
    router
        .add_route(rule("short-prefix", MatchType::Prefix, "", Some("/api"), "default"))
        .unwrap();
    router
        .add_route(rule("long-prefix", MatchType::Prefix, "", Some("/api/v2"), "v2"))
        .unwrap();

    assert_eq!(
        router
            .match_route("/api/v2/users", &CanaryContext::empty())
            .unwrap()
            .route_id,
        "long-prefix"
    );
    assert_eq!(
        router
            .match_route("/api/v1/users", &CanaryContext::empty())
            .unwrap()
            .route_id,
        "short-prefix"
    );
    assert!(router
        .match_route("/health", &CanaryContext::empty())
        .is_none());
}

#[test]
fn test_empty_router_returns_none() {
    let router = Router::new();
    assert!(router
        .match_route("/any/path", &CanaryContext::empty())
        .is_none());
}

#[test]
fn test_duplicate_route_id_error() {
    let mut router = Router::new();
    router
        .add_route(rule("dup", MatchType::Exact, "/a", None, "svc"))
        .unwrap();

    let result = router.add_route(rule("dup", MatchType::Prefix, "", Some("/b"), "svc"));

    assert!(matches!(
        result,
        Err(RouterErrorBuilder::DuplicateRouteId { .. })
    ));
}

#[test]
fn test_invalid_regex_error() {
    let mut router = Router::new();
    let result = router.add_route(rule(
        "bad-regex",
        MatchType::Regex,
        r"^/api/[invalid(",
        None,
        "svc",
    ));

    assert!(matches!(
        result,
        Err(RouterErrorBuilder::InvalidRegex { .. })
    ));
}

#[test]
fn test_canary_header_match() {
    let mut router = Router::new();
    router
        .add_route(canary_rule("stable", "/api/users", "svc-v1", weight(100)))
        .unwrap();
    router
        .add_route(canary_rule(
            "canary",
            "/api/users",
            "svc-v2",
            condition(CanaryMatchType::Header, "X-Canary", "true"),
        ))
        .unwrap();

    let mut ctx = CanaryContext::empty();
    ctx.headers = pairs(&[("X-Canary", "true")]);
    let result = router.match_route("/api/users", &ctx).unwrap();
    assert_eq!(result.route_id, "canary");

    let ctx = CanaryContext::empty();
    let result = router.match_route("/api/users", &ctx).unwrap();
    assert_eq!(result.route_id, "stable");
}

#[test]
fn test_canary_cookie_match() {
    let mut router = Router::new();
    router
        .add_route(canary_rule("stable", "/api/users", "svc-v1", None))
        .unwrap();
    router
        .add_route(canary_rule(
            "canary",
            "/api/users",
            "svc-v2",
            condition(CanaryMatchType::Cookie, "env", "canary"),
        ))
        .unwrap();

    let mut ctx = CanaryContext::empty();
    ctx.cookies = pairs(&[("env", "canary")]);
    let result = router.match_route("/api/users", &ctx).unwrap();
    assert_eq!(result.route_id, "canary");

    let ctx = CanaryContext::empty();
    let result = router.match_route("/api/users", &ctx).unwrap();
    assert_eq!(result.route_id, "stable");
}

#[test]
fn test_canary_fallback() {
    let mut router = Router::new();
    router
        .add_route(canary_rule("canary", "/api/users", "svc-v2", weight(0)))
        .unwrap();
    router
        .add_route(canary_rule("stable", "/api/users", "svc-v1", None))
        .unwrap();

    let ctx = CanaryContext::empty();
    let result = router.match_route("/api/users", &ctx).unwrap();
    assert_eq!(result.route_id, "stable");
}

#[test]
fn test_single_route_no_canary() {
    let mut router = Router::new();
    router
        .add_route(rule("single", MatchType::Exact, "/api/test", None, "svc"))
        .unwrap();

    let ctx = CanaryContext::empty();
    let result = router.match_route("/api/test", &ctx).unwrap();
    assert_eq!(result.route_id, "single");
    assert_eq!(result.upstream, "svc");
}

#[test]
fn test_ip_hash_deterministic() {
    let mut router = Router::new();
    router
        .add_route(canary_rule("stable", "/api/users", "svc-v1", weight(80)))
        .unwrap();
    router
        .add_route(canary_rule(
            "canary",
            "/api/users",
            "svc-v2",
            Some(CanaryConfig {
                weight: 20,
                match_rules: vec![],
                stick: Some(StickyStrategy::IpHash),
                sticky_cookie: None,
            }),
        ))
        .unwrap();

    let mut ctx = CanaryContext::empty();
    ctx.client_ip = Some("192.168.1.100".to_string());

    let mut results = std::collections::HashSet::new();
    for _ in 0..10 {
        let result = router.match_route("/api/users", &ctx).unwrap();
        results.insert(result.route_id.clone());
    }
    assert_eq!(results.len(), 1, "同一 IP 应始终命中同一版本");

    let expected = if ip_route_value("192.168.1.100") < 80 {
        "stable"
    } else {
        "canary"
    };
    assert!(results.contains(expected));
}

#[test]
fn test_query_param_match() {
    let mut router = Router::new();
    router
        .add_route(canary_rule("stable", "/api/products", "svc-v1", None))
        .unwrap();
    router
        .add_route(canary_rule(
            "canary",
            "/api/products",
            "svc-v2",
            condition(CanaryMatchType::Query, "version", "canary"),
        ))
        .unwrap();

    let mut ctx = CanaryContext::empty();
    ctx.query_params = pairs(&[("version", "canary")]);
    let result = router.match_route("/api/products", &ctx).unwrap();
    assert_eq!(result.route_id, "canary");

    let ctx = CanaryContext::empty();
    let result = router.match_route("/api/products", &ctx).unwrap();
    assert_eq!(result.route_id, "stable");
}

#[test]
fn test_cookie_sticky_match() {
    let mut router = Router::new();
    router
        .add_route(canary_rule("stable", "/api/orders", "svc-v1", sticky(90)))
        .unwrap();
    router
        .add_route(canary_rule("canary", "/api/orders", "svc-v2", sticky(10)))
        .unwrap();

    let mut ctx = CanaryContext::empty();
    ctx.cookies = pairs(&[("kirin_canary", "canary")]);
    let result = router.match_route("/api/orders", &ctx).unwrap();
    assert_eq!(result.route_id, "canary");

    let ctx = CanaryContext::empty();
    let result = router.match_route("/api/orders", &ctx).unwrap();
    assert!(result.route_id == "stable" || result.route_id == "canary");
}

#[test]
fn test_canary_weight_split() {
    let mut router = Router::new();
    router
        .add_route(canary_rule("stable", "/api/users", "svc-v1", weight(80)))
        .unwrap();
    router
        .add_route(canary_rule("canary", "/api/users", "svc-v2", weight(20)))
        .unwrap();

    let ctx = CanaryContext::empty();
    let mut stable_count = 0;
    let mut canary_count = 0;
    for _ in 0..1000 {
        let result = router.match_route("/api/users", &ctx).unwrap();
        if result.route_id == "stable" {
            stable_count += 1;
        } else {
            canary_count += 1;
        }
    }

    assert!(stable_count > 400, "stable_count: {}", stable_count);
    assert!(canary_count > 50, "canary_count: {}", canary_count);
}

#[test]
fn test_router_remove_exact_route() {
    let mut router = Router::new();
    router
        .add_route(rule("test", MatchType::Exact, "/api/test", None, "svc"))
        .unwrap();

    assert!(router
        .match_route("/api/test", &CanaryContext::empty())
        .is_some());
    assert!(router.remove_route("test"));
    assert!(router
        .match_route("/api/test", &CanaryContext::empty())
        .is_none());
}

#[test]
fn test_router_remove_prefix_route() {
    let mut router = Router::new();
    router
        .add_route(rule("test", MatchType::Prefix, "", Some("/api/"), "svc"))
        .unwrap();

    assert!(router
        .match_route("/api/anything", &CanaryContext::empty())
        .is_some());
    assert!(router.remove_route("test"));
    assert!(router
        .match_route("/api/anything", &CanaryContext::empty())
        .is_none());
}

#[test]
fn test_router_remove_nonexistent() {
    let mut router = Router::new();
    assert!(!router.remove_route("not-exist"));
}

#[test]
fn each_value_falls_to_its_share() {
    let mut router = Router::new();
    router
        .add_route(canary_rule("a", "/w", "svc-a", weight(70)))
        .unwrap();
    router
        .add_route(canary_rule("b", "/w", "svc-b", weight(20)))
        .unwrap();
    router
        .add_route(canary_rule("plain", "/w", "svc-p", None))
        .unwrap();
    let ctx = CanaryContext::empty();
    for value in 0..100u8 {
        let expected = if value < 70 {
            "a"
        } else if value < 90 {
            "b"
        } else {
            "plain"
        };
        let taken = router.match_route_with("/w", &ctx, value).unwrap();
        assert_eq!(taken.route_id, expected);
    }
}

#[test]
fn weights_beyond_a_byte_are_cut_off() {
    let mut router = Router::new();
    router
        .add_route(canary_rule("a", "/w", "svc-a", weight(200)))
        .unwrap();
    router
        .add_route(canary_rule("b", "/w", "svc-b", weight(200)))
        .unwrap();
    let ctx = CanaryContext::empty();
    assert_eq!(router.match_route_with("/w", &ctx, 199).unwrap().route_id, "a");
    assert_eq!(router.match_route_with("/w", &ctx, 254).unwrap().route_id, "b");
    assert!(router.match_route_with("/w", &ctx, 255).is_none());
}

#[test]
fn no_route_where_every_weight_is_zero() {
    let mut router = Router::new();
    router
        .add_route(canary_rule("a", "/w", "svc-a", weight(0)))
        .unwrap();
    router
        .add_route(canary_rule("b", "/w", "svc-b", weight(0)))
        .unwrap();
    assert!(router.match_route("/w", &CanaryContext::empty()).is_none());
}

#[test]
fn a_single_route_is_taken_whatever_its_weight() {
    let mut router = Router::new();
    router
        .add_route(canary_rule("a", "/w", "svc-a", weight(0)))
        .unwrap();
    let taken = router.match_route("/w", &CanaryContext::empty()).unwrap();
    assert_eq!(taken.route_id, "a");
}

#[test]
fn conditions_come_before_the_cookie_and_the_cookie_before_weights() {
    let mut router = Router::new();
    router
        .add_route(canary_rule("a", "/c", "svc-a", sticky(100)))
        .unwrap();
    router
        .add_route(canary_rule("b", "/c", "svc-b", sticky(0)))
        .unwrap();
    router
        .add_route(canary_rule(
            "c",
            "/c",
            "svc-c",
            condition(CanaryMatchType::Header, "x-beta", "1"),
        ))
        .unwrap();
    let mut ctx = CanaryContext::empty();
    ctx.cookies = pairs(&[("kirin_canary", "b")]);
    assert_eq!(router.match_route("/c", &ctx).unwrap().route_id, "b");
    ctx.headers = pairs(&[("x-beta", "1")]);
    assert_eq!(router.match_route("/c", &ctx).unwrap().route_id, "c");
    ctx.headers = pairs(&[("x-beta", "2")]);
    ctx.cookies = pairs(&[("kirin_canary", "unknown")]);
    assert_eq!(router.match_route("/c", &ctx).unwrap().route_id, "a");
}

#[test]
fn exact_comes_before_regex_before_prefix_whatever_releases_there_are() {
    let mut router = Router::new();
    let mut release = rule("prefix", MatchType::Prefix, "", Some("/p/"), "svc-p");
    release.canary = weight(100);
    router.add_route(release).unwrap();
    let mut ctx = CanaryContext::empty();
    assert_eq!(router.match_route("/p/x", &ctx).unwrap().route_id, "prefix");

    let mut release = rule("regex", MatchType::Regex, "^/p/[xy]$", None, "svc-r");
    release.canary = condition(CanaryMatchType::Header, "x-beta", "1");
    router.add_route(release).unwrap();
    router
        .add_route(rule("exact", MatchType::Exact, "/p/x", None, "svc-e"))
        .unwrap();
    ctx.headers = pairs(&[("x-beta", "1")]);
    for value in 0..100u8 {
        let taken = |path: &str| router.match_route_with(path, &ctx, value).unwrap().route_id;
        assert_eq!(taken("/p/x"), "exact");
        assert_eq!(taken("/p/y"), "regex");
        assert_eq!(taken("/p/z"), "prefix");
    }
    assert_eq!(router.match_route("/p/x", &ctx).unwrap().route_id, "exact");

    // A cookie that names a rule of another kind does not matter either.
    router
        .add_route(canary_rule("sticky", "/p/x", "svc-s", sticky(0)))
        .unwrap();
    ctx.cookies = pairs(&[("kirin_canary", "prefix")]);
    assert_eq!(router.match_route("/p/x", &ctx).unwrap().route_id, "exact");
    ctx.cookies = pairs(&[("kirin_canary", "sticky")]);
    assert_eq!(router.match_route("/p/x", &ctx).unwrap().route_id, "sticky");
}

#[test]
fn the_longest_prefix_counts_whatever_releases_there_are() {
    let mut router = Router::new();
    let prefix = |id: &str, prefix: &str, canary: Option<CanaryConfig>| {
        let mut r = rule(id, MatchType::Prefix, "", Some(prefix), "svc");
        r.canary = canary;
        r
    };
    router.add_route(prefix("short", "/api", None)).unwrap();
    router.add_route(prefix("long", "/api/v2", weight(0))).unwrap();
    let ctx = CanaryContext::empty();
    for value in 0..100u8 {
        let taken = |path: &str| router.match_route_with(path, &ctx, value).unwrap().route_id;
        assert_eq!(taken("/api/v2/x"), "long");
        assert_eq!(taken("/api/x"), "short");
    }

    // A release on a shorter prefix takes nothing from a longer one, ...
    router.add_route(prefix("root", "/", weight(100))).unwrap();
    assert_eq!(router.match_route_with("/api/x", &ctx, 0).unwrap().route_id, "short");
    // ... and versions of one prefix share its traffic.
    router.add_route(prefix("short-canary", "/api", weight(30))).unwrap();
    assert_eq!(router.match_route_with("/api/x", &ctx, 29).unwrap().route_id, "short-canary");
    assert_eq!(router.match_route_with("/api/x", &ctx, 30).unwrap().route_id, "short");
    // A prefix may stand in the path of the rule.
    let mut by_path = rule("by-path", MatchType::Prefix, "/api", None, "svc");
    by_path.canary = weight(50);
    router.add_route(by_path).unwrap();
    assert_eq!(router.match_route_with("/api/x", &ctx, 79).unwrap().route_id, "by-path");
    assert_eq!(router.match_route_with("/api/x", &ctx, 80).unwrap().route_id, "short");
}

#[test]
fn the_first_declared_expression_counts_whatever_releases_there_are() {
    let mut router = Router::new();
    let regex = |id: &str, pattern: &str, canary: Option<CanaryConfig>| {
        let mut r = rule(id, MatchType::Regex, pattern, None, "svc");
        r.canary = canary;
        r
    };
    router.add_route(regex("first", "^/a/([0-9]+)", None)).unwrap();
    router.add_route(regex("second", "^/a/", weight(100))).unwrap();
    router.add_route(regex("first-canary", "^/a/([0-9]+)", weight(20))).unwrap();
    let ctx = CanaryContext::empty();
    for value in 0..100u8 {
        let taken = router.match_route_with("/a/42", &ctx, value).unwrap();
        assert_eq!(taken.route_id, if value < 20 { "first-canary" } else { "first" });
        assert_eq!(taken.captures, Some(vec!["42".to_string()]));
        assert_eq!(router.match_route_with("/a/x", &ctx, value).unwrap().route_id, "second");
    }
}

#[test]
fn the_value_of_a_client_depends_on_its_address_alone() {
    let candidate = |id: &str, weight: u8| RouteCandidate {
        upstream: "svc".to_string(),
        route_id: id.to_string(),
        captures: None,
        canary: Some(CanaryConfig {
            weight,
            match_rules: vec![],
            stick: Some(StickyStrategy::IpHash),
            sticky_cookie: None,
        }),
    };
    let mut ctx = CanaryContext::empty();
    ctx.client_ip = Some("192.168.1.100".to_string());
    let value = compute_route_value(&vec![candidate("a", 10), candidate("b", 90)], &ctx);
    assert_eq!(value, ip_route_value("192.168.1.100"));
    ctx.headers = pairs(&[("x", "y")]);
    ctx.cookies = pairs(&[("kirin_canary", "a")]);
    assert_eq!(compute_route_value(&vec![candidate("c", 1)], &ctx), value);
    ctx.client_ip = None;
    assert!(compute_route_value(&vec![candidate("c", 1)], &ctx) < 100);
}

#[test]
fn the_value_of_an_address_is_its_hash_in_percent() {
    for ip in ["192.168.1.100", "10.0.0.1", "::1", ""] {
        let mut hasher = DefaultHasher::new();
        ip.hash(&mut hasher);
        assert_eq!(ip_route_value(ip), (hasher.finish() % 100) as u8);
    }
}

#[test]
fn groups_that_took_no_part_are_left_out() {
    let mut router = Router::new();
    router
        .add_route(rule("r", MatchType::Regex, r"^/(a)?(b)?/(c)$", None, "svc"))
        .unwrap();
    let ctx = CanaryContext::empty();
    assert_eq!(
        router.match_route("/b/c", &ctx).unwrap().captures,
        Some(vec!["b".to_string(), "c".to_string()])
    );
    router
        .add_route(rule("plain", MatchType::Regex, r"^/plain$", None, "svc"))
        .unwrap();
    assert_eq!(router.match_route("/plain", &ctx).unwrap().captures, None);
}

#[test]
fn prefixes_are_ordered_by_bytes_and_then_by_age() {
    let mut router = Router::new();
    router
        .add_route(rule("ascii", MatchType::Prefix, "", Some("/é"), "svc"))
        .unwrap();
    router
        .add_route(rule("first", MatchType::Prefix, "/éa", None, "svc"))
        .unwrap();
    router
        .add_route(rule("second", MatchType::Prefix, "", Some("/éa"), "svc"))
        .unwrap();
    let ctx = CanaryContext::empty();
    assert_eq!(router.match_route("/éab", &ctx).unwrap().route_id, "first");
    let ids: Vec<String> = router.routes_summary().into_iter().map(|r| r.route_id).collect();
    assert_eq!(ids, vec!["first", "second", "ascii"]);
}

#[test]
fn a_refused_rule_changes_nothing_and_a_removed_one_is_gone() {
    let mut router = Router::new();
    router
        .add_route(rule("one", MatchType::Exact, "/one", None, "svc"))
        .unwrap();
    let error = router
        .add_route(rule("one", MatchType::Exact, "/two", None, "svc"))
        .unwrap_err();
    assert_eq!(error.to_text(), "route_id 'one' 已存在");
    assert_eq!(router.routes_summary().len(), 1);
    let error = router
        .add_route(rule("bad", MatchType::Regex, "(", None, "svc"))
        .unwrap_err();
    assert!(error.to_text().starts_with("正则表达式 '(' 编译失败: regex parse error"));
    assert_eq!(router.routes_summary().len(), 1);

    router
        .add_route(rule("re", MatchType::Regex, "^/re$", None, "svc"))
        .unwrap();
    assert!(router.remove_route("re"));
    assert!(!router.remove_route("re"));
    assert!(router.match_route("/re", &CanaryContext::empty()).is_none());
    assert!(router.match_route("/one", &CanaryContext::empty()).is_some());
    let error = RouterErrorBuilder::InvalidMatchType {
        value: "glob".to_string(),
    };
    assert_eq!(
        error.to_text(),
        "无效的匹配类型 'glob', 可选: exact, prefix, regex"
    );
}

#[test]
fn the_summary_shows_each_rule() {
    let mut router = Router::new();
    let mut r = rule("id", MatchType::Regex, "^/x$", None, "svc");
    r.methods = vec!["GET".to_string()];
    router.add_route(r).unwrap();
    let summary = router.routes_summary();
    assert_eq!(summary[0].route_id, "id");
    assert_eq!(summary[0].path, "^/x$");
    assert_eq!(summary[0].match_type, "regex");
    assert_eq!(summary[0].methods, vec!["GET"]);
    assert_eq!(summary[0].upstream, "svc");
}

#[test]
fn captured_groups_are_what_took_part_behind_the_whole_match() {
    let some = |t: &str| Some(t.to_string());
    assert_eq!(
        captured_groups(&vec![some("/a/c"), some("a"), None, some("c")]),
        Some(vec!["a".to_string(), "c".to_string()])
    );
    assert_eq!(captured_groups(&vec![some("/a")]), None);
    assert_eq!(captured_groups(&vec![some("/a"), None]), None);
}

#[test]
fn a_candidate_is_chosen_by_its_share() {
    let candidate = |id: &str, canary: Option<CanaryConfig>| RouteCandidate {
        upstream: "svc".to_string(),
        route_id: id.to_string(),
        captures: None,
        canary,
    };
    let ctx = CanaryContext::empty();
    assert_eq!(choose_candidate(&vec![], &ctx, 0), None);
    assert_eq!(choose_candidate(&vec![candidate("a", weight(0))], &ctx, 99), Some(0));

    let shared = vec![
        candidate("a", weight(30)),
        candidate("b", weight(30)),
        candidate("plain", None),
    ];
    assert_eq!(choose_candidate(&shared, &ctx, 29), Some(0));
    assert_eq!(choose_candidate(&shared, &ctx, 30), Some(1));
    assert_eq!(choose_candidate(&shared, &ctx, 60), Some(2));

    let none = vec![candidate("a", weight(30)), candidate("b", weight(30))];
    assert_eq!(choose_candidate(&none, &ctx, 60), None);
}

#[test]
fn the_value_of_a_clock_is_its_nanoseconds_in_steps_and_in_percent() {
    assert_eq!(clock_value(0), 0);
    assert_eq!(clock_value(127), 0);
    assert_eq!(clock_value(128), 1);
    assert_eq!(clock_value(128 * 99 + 5), 99);
    assert_eq!(clock_value(128 * 100), 0);
    assert_eq!(clock_value(999_999_999), 99);
}
