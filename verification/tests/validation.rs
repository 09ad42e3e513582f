use kirin_gateway::config::types::{
    AuthConfigRaw, KirinConfig, NodeConfig, RateLimitConfig, RouteConfig, ServerConfig,
    UpstreamConfig,
};
use kirin_gateway::config::validation::{report_address, validate_config, validate_route_config};
use kirin_gateway::str_map::StrMap;

fn upstreams(name: &str, nodes: Vec<NodeConfig>) -> StrMap<UpstreamConfig> {
    let mut map = StrMap::new();
    map.insert(
        name.to_string(),
        UpstreamConfig {
            nodes,
            algorithm: "round_robin".to_string(),
            health_check: None,
        },
    );
    map
}

fn node(addr: &str, weight: usize) -> NodeConfig {
    NodeConfig {
        addr: addr.to_string(),
        weight,
    }
}

fn make_valid_config() -> KirinConfig {
    KirinConfig {
        server: ServerConfig {
            listen: "0.0.0.0:8080".to_string(),
            threads: Some(2),
            tls: None,
        },
        routes: vec![RouteConfig {
            route_id: "test-route".to_string(),
            path: Some("/api/test".to_string()),
            path_prefix: None,
            match_type: "exact".to_string(),
            methods: vec![],
            upstream: "test-svc".to_string(),
            applicant: "test".to_string(),
            applied_at: "2026-01-01T00:00:00+08:00".to_string(),
            description: "test".to_string(),
            is_auth: false,
            canary: None,
            ip_whitelist: None,
            ip_blacklist: None,
        }],
        upstreams: upstreams("test-svc", vec![node("127.0.0.1:9001", 1)]),
        rate_limit: None,
        admin: None,
        auth: None,
    }
}

#[test]
fn test_validate_config_ok() {
    let config = make_valid_config();
    assert!(validate_config(&config).is_ok());
}

#[test]
fn test_validate_server_listen_invalid_format() {
    let mut config = make_valid_config();
    config.server.listen = "not-an-address".to_string();
    let errors = validate_config(&config).unwrap_err();
    assert!(errors.iter().any(|e| e.field == "server.listen"));
}

#[test]
fn test_validate_server_listen_port_out_of_range() {
    let mut config = make_valid_config();
    config.server.listen = "0.0.0.0:99999".to_string();
    let errors = validate_config(&config).unwrap_err();
    assert!(errors.iter().any(|e| e.field == "server.listen"));
}

#[test]
fn test_validate_server_threads_zero() {
    let mut config = make_valid_config();
    config.server.threads = Some(0);
    let errors = validate_config(&config).unwrap_err();
    assert!(errors.iter().any(|e| e.field == "server.threads"));
}

#[test]
fn test_validate_route_id_empty() {
    let mut config = make_valid_config();
    config.routes[0].route_id = "  ".to_string();
    let errors = validate_config(&config).unwrap_err();
    assert!(errors.iter().any(|e| e.field == "route.route_id"));
}

#[test]
fn test_validate_route_id_duplicate() {
    let mut config = make_valid_config();
    let mut dup_route = config.routes[0].clone();
    dup_route.path = Some("/api/dup".to_string());
    config.routes.push(dup_route);
    let errors = validate_config(&config).unwrap_err();
    assert!(errors.iter().any(|e| e.message.contains("duplicated")));
}

#[test]
fn test_validate_route_match_type_invalid() {
    let mut config = make_valid_config();
    config.routes[0].match_type = "glob".to_string();
    let errors = validate_config(&config).unwrap_err();
    assert!(errors.iter().any(|e| e.field == "route.match_type"));
}

#[test]
fn test_validate_route_path_missing_for_exact() {
    let mut config = make_valid_config();
    config.routes[0].path = None;
    let errors = validate_config(&config).unwrap_err();
    assert!(errors.iter().any(|e| e.field == "route.path"));
}

#[test]
fn test_validate_route_path_prefix_missing_for_prefix() {
    let mut config = make_valid_config();
    config.routes[0].match_type = "prefix".to_string();
    config.routes[0].path = None;
    config.routes[0].path_prefix = None;
    let errors = validate_config(&config).unwrap_err();
    assert!(errors.iter().any(|e| e.field == "route.path_prefix"));
}

#[test]
fn test_validate_route_upstream_not_found() {
    let mut config = make_valid_config();
    config.routes[0].upstream = "nonexistent".to_string();
    let errors = validate_config(&config).unwrap_err();
    assert!(errors.iter().any(|e| e.field == "route.upstream"));
}

#[test]
fn test_validate_upstream_nodes_empty() {
    let mut config = make_valid_config();
    config.upstreams = upstreams("test-svc", vec![]);
    let errors = validate_config(&config).unwrap_err();
    assert!(errors.iter().any(|e| e.field.contains("nodes")));
}

#[test]
fn test_validate_upstream_addr_invalid() {
    let mut config = make_valid_config();
    config.upstreams = upstreams("test-svc", vec![node("bad-addr", 1)]);
    let errors = validate_config(&config).unwrap_err();
    assert!(errors.iter().any(|e| e.field.contains("addr")));
}

#[test]
fn test_validate_upstream_weight_zero() {
    let mut config = make_valid_config();
    config.upstreams = upstreams("test-svc", vec![node("127.0.0.1:9001", 0)]);
    let errors = validate_config(&config).unwrap_err();
    assert!(errors.iter().any(|e| e.field.contains("weight")));
}

#[test]
fn test_validate_rate_limit_capacity_zero() {
    let mut config = make_valid_config();
    config.rate_limit = Some(RateLimitConfig {
        capacity: 0,
        refill_rate: 10,
    });
    let errors = validate_config(&config).unwrap_err();
    assert!(errors.iter().any(|e| e.field == "rate_limit.capacity"));
}

#[test]
fn test_validate_rate_limit_refill_rate_zero() {
    let mut config = make_valid_config();
    config.rate_limit = Some(RateLimitConfig {
        capacity: 100,
        refill_rate: 0,
    });
    let errors = validate_config(&config).unwrap_err();
    assert!(errors.iter().any(|e| e.field == "rate_limit.refill_rate"));
}

#[test]
fn test_validate_auth_algorithm_invalid() {
    let mut config = make_valid_config();
    config.auth = Some(AuthConfigRaw {
        algorithm: "HS256".to_string(),
        public_key_path: "/path/to/key.pem".to_string(),
        issuer: "test-issuer".to_string(),
        claims_to_forward: vec![],
    });
    let errors = validate_config(&config).unwrap_err();
    assert!(errors.iter().any(|e| e.field == "auth.algorithm"));
}

#[test]
fn test_validate_auth_issuer_empty() {
    let mut config = make_valid_config();
    config.auth = Some(AuthConfigRaw {
        algorithm: "RS256".to_string(),
        public_key_path: "/path/to/key.pem".to_string(),
        issuer: "  ".to_string(),
        claims_to_forward: vec![],
    });
    let errors = validate_config(&config).unwrap_err();
    assert!(errors.iter().any(|e| e.field == "auth.issuer"));
}

#[test]
fn test_validate_batch_multiple_errors() {
    let mut config = make_valid_config();
    config.server.listen = "bad".to_string();
    config.server.threads = Some(0);
    config.routes[0].upstream = "missing".to_string();
    let errors = validate_config(&config).unwrap_err();
    assert!(
        errors.len() >= 3,
        "应收集至少 3 个错误，实际: {}",
        errors.len()
    );
}

#[test]
fn test_validate_route_config_single_route() {
    let route = RouteConfig {
        route_id: "new-route".to_string(),
        path: Some("/api/new".to_string()),
        path_prefix: None,
        match_type: "exact".to_string(),
        methods: vec![],
        upstream: "nonexistent".to_string(),
        applicant: "test".to_string(),
        applied_at: "2026-01-01T00:00:00+08:00".to_string(),
        description: "test".to_string(),
        is_auth: false,
        canary: None,
        ip_whitelist: None,
        ip_blacklist: None,
    };
    let upstreams = StrMap::new();
    let errors = validate_route_config(&route, &upstreams).unwrap_err();
    assert!(errors.iter().any(|e| e.field == "route.upstream"));
}

#[test]
fn a_good_route_passes_alone() {
    let config = make_valid_config();
    assert!(validate_route_config(&config.routes[0], &config.upstreams).is_ok());
}

#[test]
fn all_mistakes_come_in_order_with_their_messages() {
    let mut config = make_valid_config();
    config.server.listen = "bad".to_string();
    config.server.threads = Some(0);
    config.routes[0].match_type = "glob".to_string();
    config.routes[0].upstream = "missing".to_string();
    config.upstreams = upstreams("test-svc", vec![node("127.0.0.1:9001", 1), node("x", 0)]);
    config.auth = Some(AuthConfigRaw {
        algorithm: "RS256".to_string(),
        public_key_path: "\t ".to_string(),
        issuer: "i".to_string(),
        claims_to_forward: vec![],
    });
    let errors = validate_config(&config).unwrap_err();
    let texts: Vec<String> = errors.iter().map(|e| e.to_text()).collect();
    assert_eq!(
        texts,
        vec![
            "server.listen: invalid listen address: invalid socket address syntax",
            "server.threads: worker threads of gateway must be greater than 0",
            "[route=test-route] route.match_type: Invalid match_type glob. You can choose: \
             exact, prefix, regex",
            "[route=test-route] route.upstream: upstream 'missing' does not exist. You can \
             choose: [\"test-svc\"]",
            "upstream.test-svc.nodes[1].addr: 地址格式无效: invalid socket address syntax",
            "upstream.test-svc.nodes[1].weight: 权重必须大于 0",
            "auth.public_key_path: 公钥文件路径不能为空",
        ]
    );
}

#[test]
fn a_blank_id_hides_the_other_mistakes_of_its_route() {
    let mut config = make_valid_config();
    config.routes[0].route_id = String::new();
    config.routes[0].match_type = "glob".to_string();
    config.routes[0].upstream = "missing".to_string();
    let errors = validate_config(&config).unwrap_err();
    assert_eq!(errors.len(), 1);
    assert_eq!(errors[0].message, "route_id must not be empty");
    assert!(errors[0].route_id.is_none());
}

#[test]
fn a_repeated_id_is_reported_once_for_each_repetition() {
    let mut config = make_valid_config();
    let again = config.routes[0].clone();
    let once_more = config.routes[0].clone();
    config.routes.push(again);
    config.routes.push(once_more);
    let errors = validate_config(&config).unwrap_err();
    assert_eq!(errors.len(), 2);
    assert_eq!(errors[0].message, "route_id 'test-route' is duplicated");
    assert_eq!(errors[1].route_id.as_deref(), Some("test-route"));
}

#[test]
fn regex_and_prefix_routes_need_their_paths() {
    let mut config = make_valid_config();
    config.routes[0].match_type = "regex".to_string();
    config.routes[0].path = Some(" \u{3000}".to_string());
    let errors = validate_config(&config).unwrap_err();
    assert_eq!(errors.len(), 1);
    assert_eq!(errors[0].message, "match_type 为 'regex' 时 path 必须存在且非空");

    let mut config = make_valid_config();
    config.routes[0].match_type = "prefix".to_string();
    config.routes[0].path_prefix = Some("/".to_string());
    config.routes[0].path = None;
    assert!(validate_config(&config).is_ok());
}

#[test]
fn an_address_is_reported_only_if_it_is_none() {
    let mut errors = vec![];
    report_address(&mut errors, "listen".to_string(), "bad: ", &Ok(()));
    assert!(errors.is_empty());
    report_address(&mut errors, "listen".to_string(), "bad: ", &Err("why".to_string()));
    assert_eq!(errors.len(), 1);
    assert_eq!(errors[0].to_text(), "listen: bad: why");
    assert_eq!(errors[0].route_id, None);
}
