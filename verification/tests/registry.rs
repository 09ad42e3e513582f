use kirin_gateway::data_plane::router::router_white_list::{RouteEntry, RouteRegistry};
use kirin_gateway::data_plane::router::MatchType;

fn entry(id: &str, match_type: MatchType, path: &str, prefix: Option<&str>) -> RouteEntry {
    RouteEntry {
        route_id: id.to_string(),
        path: path.to_string(),
        prefix: prefix.map(|p| p.to_string()),
        match_type,
        methods: vec![],
        upstream: "svc".to_string(),
        applicant: "test".to_string(),
        applied_at: "2026-04-20T00:00:00+08:00".to_string(),
        description: "test".to_string(),
        is_auth: false,
    }
}

#[test]
fn paths_resolve_exact_then_regex_then_longest_prefix() {
    let mut registry = RouteRegistry::new();
    registry.register(entry("p1", MatchType::Prefix, "", Some("/api/")));
    registry.register(entry("p2", MatchType::Prefix, "/api/v2/", None));
    registry.register(entry("re", MatchType::Regex, r"^/api/\d+$", None));
    registry.register(entry("broken", MatchType::Regex, "(", None));
    registry.register(entry("ex", MatchType::Exact, "/api/7", None));
    registry.register(entry("empty", MatchType::Prefix, "", Some("")));
    let resolve = |path: &str| registry.resolve_path(path);
    assert_eq!(resolve("/api/7").as_deref(), Some("ex"));
    assert_eq!(resolve("/api/8").as_deref(), Some("re"));
    assert_eq!(resolve("/api/v2/x").as_deref(), Some("p2"));
    assert_eq!(resolve("/api/v1/x").as_deref(), Some("p1"));
    assert_eq!(resolve("/other"), None);
}

#[test]
fn an_id_is_registered_once() {
    let mut registry = RouteRegistry::new();
    registry.register(entry("a", MatchType::Exact, "/a", None));
    registry.register(entry("b", MatchType::Exact, "/b", None));
    registry.register(entry("a", MatchType::Exact, "/c", None));
    let ids: Vec<&str> = registry.list_routes().iter().map(|e| e.route_id.as_str()).collect();
    assert_eq!(ids, vec!["a", "b"]);
    assert_eq!(registry.find_route("a").unwrap().path, "/c");
    assert!(registry.unregister("a"));
    assert!(!registry.unregister("a"));
    assert!(registry.find_route("a").is_none());
    assert_eq!(registry.resolve_path("/b").as_deref(), Some("b"));
    assert_eq!(registry.resolve_path("/c"), None);
}
