use kirin_gateway::config::types::{
    AuthConfigRaw, CanaryConfig, KirinConfig, NodeConfig, RateLimitConfig, RouteConfig,
    ServerConfig, UpstreamConfig,
};
use kirin_gateway::control_plane::gateway_state::{upstreams_differ, GatewayState, StateError};
use kirin_gateway::control_plane::reload::Loaded;
use kirin_gateway::data_plane::filter::FilterName;
use kirin_gateway::data_plane::rate_limit::Uptime;
use kirin_gateway::data_plane::router::CanaryContext;
use kirin_gateway::str_map::StrMap;
use std::sync::Arc;

fn no_file() -> Result<String, String> {
    Err("no key file".to_string())
}

fn upstream(addr: &str) -> UpstreamConfig {
    UpstreamConfig {
        nodes: vec![NodeConfig {
            addr: addr.to_string(),
            weight: 1,
        }],
        algorithm: "round_robin".to_string(),
        health_check: None,
    }
}

fn route(id: &str, path: Option<&str>, prefix: Option<&str>, match_type: &str, svc: &str) -> RouteConfig {
    RouteConfig {
        route_id: id.to_string(),
        path: path.map(|p| p.to_string()),
        path_prefix: prefix.map(|p| p.to_string()),
        match_type: match_type.to_string(),
        methods: vec![],
        upstream: svc.to_string(),
        applicant: "test".to_string(),
        applied_at: "2026-04-20T00:00:00+08:00".to_string(),
        description: "test route".to_string(),
        is_auth: false,
        canary: None,
        ip_whitelist: None,
        ip_blacklist: None,
    }
}

fn server() -> ServerConfig {
    ServerConfig {
        listen: "0.0.0.0:8080".to_string(),
        threads: Some(1),
        tls: None,
    }
}

fn make_config() -> KirinConfig {
    let mut upstreams = StrMap::new();
    upstreams.insert("user-service".to_string(), upstream("127.0.0.1:9001"));
    upstreams.insert("default-service".to_string(), upstream("127.0.0.1:9002"));
    KirinConfig {
        server: server(),
        routes: vec![
            route("test-user-route", Some("/api/users"), None, "exact", "user-service"),
            route("test-default-route", None, Some("/api/"), "prefix", "default-service"),
        ],
        upstreams,
        rate_limit: None,
        admin: None,
        auth: None,
    }
}

fn make_base_config() -> KirinConfig {
    let mut upstreams = StrMap::new();
    upstreams.insert("svc-a".to_string(), upstream("127.0.0.1:9001"));
    KirinConfig {
        server: server(),
        routes: vec![route("route-a", Some("/a"), None, "exact", "svc-a")],
        upstreams,
        rate_limit: Some(RateLimitConfig {
            capacity: 100,
            refill_rate: 10,
        }),
        admin: None,
        auth: None,
    }
}

fn matches(state: &GatewayState, path: &str) -> bool {
    state.match_route(path, &CanaryContext::empty()).is_some()
}

#[test]
fn test_from_config_unknown_upstream() {
    let mut config = make_config();
    config.routes.push(route(
        "test-bad-upstream",
        Some("/api/orders"),
        None,
        "exact",
        "nonexistent-service",
    ));

    let result = GatewayState::from_config(&config, &no_file());
    match result {
        Err(StateError::UnknownUpstream {
            path,
            upstream,
            available,
        }) => {
            assert_eq!(path, "/api/orders");
            assert_eq!(upstream, "nonexistent-service");
            assert!(available.contains(&"user-service".to_string()));
        },
        Ok(_) => panic!("期望返回 StateError::UnknownUpstream，但构建成功"),
        Err(other) => panic!("期望 StateError::UnknownUpstream，但得到: {:?}", other),
    }
}

#[test]
fn test_from_config_success() {
    let config = make_config();
    let state = GatewayState::from_config(&config, &no_file()).unwrap();
    let ctx = CanaryContext::empty();

    assert_eq!(
        state.match_route("/api/users", &ctx).unwrap().upstream,
        "user-service"
    );
    assert_eq!(
        state.match_route("/api/orders", &ctx).unwrap().upstream,
        "default-service"
    );
    assert!(state.match_route("/health", &ctx).is_none());

    assert!(state.get_cluster("user-service").is_some());
    assert!(state.get_cluster("default-service").is_some());
    assert!(state.get_cluster("nonexistent").is_none());

    assert!(state.rate_limiter.is_none());

    assert_eq!(state.registry.list_routes().len(), 2);
    assert!(state.registry.find_route("test-user-route").is_some());
    assert_eq!(
        state.registry.resolve_path("/api/users"),
        Some("test-user-route".to_string())
    );

    assert_eq!(state.filter_chain().len(), 5);
}

#[test]
fn test_diff_add_route() {
    let old_config = make_base_config();
    let mut state = GatewayState::from_config(&old_config, &no_file()).unwrap();
    assert_eq!(state.registry.list_routes().len(), 1);

    let mut new_config = old_config.clone();
    new_config
        .routes
        .push(route("route-b", Some("/b"), None, "exact", "svc-a"));

    state.diff_update(&new_config, &no_file()).unwrap();
    assert_eq!(state.registry.list_routes().len(), 2);
    assert!(state
        .router
        .match_route("/b", &CanaryContext::empty())
        .is_some());
    assert!(state
        .router
        .match_route("/a", &CanaryContext::empty())
        .is_some());
}

#[test]
fn test_diff_remove_route() {
    let old_config = make_base_config();
    let mut state = GatewayState::from_config(&old_config, &no_file()).unwrap();

    let mut new_config = old_config.clone();
    new_config.routes.clear();

    state.diff_update(&new_config, &no_file()).unwrap();
    assert_eq!(state.registry.list_routes().len(), 0);
    assert!(state
        .router
        .match_route("/a", &CanaryContext::empty())
        .is_none());
}

#[test]
fn test_diff_unchanged_cluster_preserved() {
    let old_config = make_base_config();
    let mut state = GatewayState::from_config(&old_config, &no_file()).unwrap();

    let old_cluster = state.clusters.get("svc-a").unwrap().clone();

    let new_config = old_config.clone();
    state.diff_update(&new_config, &no_file()).unwrap();

    let new_cluster = state.clusters.get("svc-a").unwrap();
    assert!(
        Arc::ptr_eq(&old_cluster, new_cluster),
        "未变更的集群应保持原实例"
    );
}

#[test]
fn test_diff_rate_limit_preserves_buckets() {
    let old_config = make_base_config();
    let mut state = GatewayState::from_config(&old_config, &no_file()).unwrap();

    let (allowed, remaining) = state.rate_limiter.as_mut().unwrap().check("192.168.1.1");
    assert!(allowed);
    assert_eq!(remaining, 99);

    let mut new_config = old_config.clone();
    new_config.rate_limit = Some(RateLimitConfig {
        capacity: 200,
        refill_rate: 20,
    });

    state.diff_update(&new_config, &no_file()).unwrap();

    let (allowed, remaining) = state.rate_limiter.as_mut().unwrap().check("192.168.1.1");
    assert!(allowed);
    assert!(remaining < 100, "限流器应保持原实例");

    let summary = state.rate_limit_summary().unwrap();
    assert_eq!(summary.capacity, Some(200));
}

#[test]
fn the_filters_stand_in_their_order() {
    let state = GatewayState::from_config(&make_config(), &no_file()).unwrap();
    let chain = state.filter_chain();
    let names: Vec<String> = (0..chain.len()).map(|i| chain.filter_at(i).to_text()).collect();
    assert_eq!(
        names,
        vec![
            "method-filter",
            "auth-filter",
            "rate-limit-filter",
            "header-filter",
            "logging-filter",
        ]
    );
    assert_eq!(FilterName::WhiteList.to_text(), "whitelist-filter");
    assert_eq!(FilterName::Custom("mine".to_string()).to_text(), "mine");
}

#[test]
fn each_error_has_its_input_and_its_message() {
    let text = |config: &KirinConfig| match GatewayState::from_config(config, &no_file()) {
        Err(e) => e.to_text(),
        Ok(_) => panic!("accepted"),
    };

    let mut config = make_config();
    config.routes[0].upstream = "x".to_string();
    assert_eq!(
        text(&config),
        "路由 '/api/users' 引用了不存在的上游 'x'，可用上游: [\"user-service\", \"default-service\"]"
    );

    let mut config = make_config();
    config.routes[0].match_type = "glob".to_string();
    assert_eq!(
        text(&config),
        "路由 'test-user-route' 的 match_type 'glob' 无效，可选: exact, prefix, regex"
    );

    let mut config = make_config();
    config.routes[1].path_prefix = None;
    assert_eq!(
        text(&config),
        "路由 'test-default-route' 构建失败: match_type 为 Prefix，但缺少对应的路径配置（path 或 path_prefix）"
    );

    let mut config = make_config();
    config.routes[1].route_id = "test-user-route".to_string();
    assert_eq!(
        text(&config),
        "路由 'test-user-route' 构建失败: route_id 'test-user-route' 已存在"
    );

    let mut config = make_config();
    config.routes[0].ip_blacklist = Some(vec!["10.0.0.0/8".to_string(), "10.0.0".to_string()]);
    assert_eq!(
        text(&config),
        "路由 'test-user-route' 构建失败: IP 名单条目 '10.0.0' 无效"
    );

    let mut config = make_config();
    config.routes = vec![];
    let mut svc = upstream("127.0.0.1:9001");
    svc.algorithm = "least_conn".to_string();
    config.upstreams.insert("svc".to_string(), svc);
    match GatewayState::from_config(&config, &no_file()) {
        Err(StateError::UpstreamBuildFailed { name, .. }) => assert_eq!(name, "svc"),
        _ => panic!("accepted"),
    }

    let mut config = make_config();
    config.upstreams.insert("broken".to_string(), upstream("nowhere"));
    assert_eq!(
        text(&config),
        "上游集群 'broken' 构建失败: 节点地址 'nowhere' 无效: ' InternalError context: invalid socket \
         addr cause: invalid socket address syntax'"
    );

    let mut config = make_config();
    config.auth = Some(AuthConfigRaw {
        algorithm: "RS256".to_string(),
        public_key_path: "/no/such/file".to_string(),
        issuer: "i".to_string(),
        claims_to_forward: vec![],
    });
    assert_eq!(text(&config), "认证配置加载失败: no key file");

    let garbage: Result<String, String> = Ok("not a pem".to_string());
    match GatewayState::from_config(&config, &garbage) {
        Err(StateError::AuthConfigFailed { reason }) => assert_eq!(reason, "InvalidKeyFormat"),
        _ => panic!("accepted"),
    }
}

#[test]
fn a_changed_route_is_replaced_and_its_neighbours_stay() {
    let mut state = GatewayState::from_config(&make_config(), &no_file()).unwrap();
    let mut config = make_config();
    config.routes[0].path = Some("/v2/users".to_string());
    state.diff_update(&config, &no_file()).unwrap();
    assert!(matches(&state, "/v2/users"));
    assert_eq!(
        state
            .match_route("/api/users", &CanaryContext::empty())
            .unwrap()
            .route_id,
        "test-default-route"
    );
    assert_eq!(state.config().routes[0].path.as_deref(), Some("/v2/users"));
}

#[test]
fn a_changed_release_is_noticed() {
    let mut state = GatewayState::from_config(&make_config(), &no_file()).unwrap();
    let mut config = make_config();
    config.routes[0].canary = Some(CanaryConfig {
        weight: 7,
        match_rules: vec![],
        stick: None,
        sticky_cookie: None,
    });
    state.diff_update(&config, &no_file()).unwrap();
    let release = state.find_canary_config_by_route_id("test-user-route").unwrap();
    assert_eq!(release.weight, 7);
    assert!(state.find_canary_config_by_route_id("test-default-route").is_none());
}

#[test]
fn clusters_come_and_go_with_their_upstreams() {
    let mut state = GatewayState::from_config(&make_config(), &no_file()).unwrap();
    let kept = state.get_cluster("user-service").unwrap();
    let replaced = state.get_cluster("default-service").unwrap();
    let mut config = make_config();
    config.upstreams.insert("default-service".to_string(), upstream("127.0.0.1:9999"));
    config.upstreams.insert("new-service".to_string(), upstream("127.0.0.1:9003"));
    state.diff_update(&config, &no_file()).unwrap();
    assert!(Arc::ptr_eq(&kept, &state.get_cluster("user-service").unwrap()));
    assert!(!Arc::ptr_eq(&replaced, &state.get_cluster("default-service").unwrap()));
    assert_eq!(
        state.get_cluster("default-service").unwrap().summary().nodes,
        vec!["127.0.0.1:9999"]
    );
    assert!(state.get_cluster("new-service").is_some());

    state.diff_update(&make_config(), &no_file()).unwrap();
    assert!(state.get_cluster("new-service").is_none());
    let names: Vec<String> = state.clusters_summary().into_iter().map(|c| c.name).collect();
    assert_eq!(names, vec!["user-service", "default-service"]);
}

#[test]
fn a_failed_change_ends_where_it_fails() {
    let mut state = GatewayState::from_config(&make_base_config(), &no_file()).unwrap();
    let mut config = make_base_config();
    config.routes.push(route("good", Some("/good"), None, "exact", "svc-a"));
    config.routes.push(route("bad", Some("("), None, "regex", "svc-a"));
    config.routes.push(route("late", Some("/late"), None, "exact", "svc-a"));
    config.rate_limit = None;
    let error = state.diff_update(&config, &no_file()).unwrap_err();
    assert!(error.to_text().starts_with("路由 'bad' 构建失败: 正则表达式 '(' 编译失败"));
    assert!(matches(&state, "/good"));
    assert!(!matches(&state, "/late"));
    assert!(state.rate_limiter.is_some());
    assert_eq!(state.config().routes.len(), 1);

    let mut config = make_base_config();
    config.routes[0].match_type = "prefix".to_string();
    let error = state.diff_update(&config, &no_file()).unwrap_err();
    assert_eq!(
        error.to_text(),
        "路由 'route-a' 构建失败: match_type 为 Prefix，但缺少对应的路径配置"
    );
    assert!(!matches(&state, "/a"));

    let mut config = make_base_config();
    config.upstreams.insert(
        "odd".to_string(),
        UpstreamConfig {
            nodes: vec![],
            algorithm: "least_conn".to_string(),
            health_check: None,
        },
    );
    let mut state = GatewayState::from_config(&make_base_config(), &no_file()).unwrap();
    let error = state.diff_update(&config, &no_file()).unwrap_err();
    assert_eq!(
        error.to_text(),
        "上游集群 'odd' 构建失败: 不支持的负载均衡算法 'least_conn'，可选: round_robin, consistent_hash"
    );
}

#[test]
fn the_limiter_comes_and_goes_with_its_policy() {
    let mut state = GatewayState::from_config(&make_base_config(), &no_file()).unwrap();
    let mut config = make_base_config();
    config.rate_limit = None;
    state.diff_update(&config, &no_file()).unwrap();
    assert!(state.rate_limit_summary().is_none());
    assert!(state.check_rate_limit("10.0.0.1").is_none());
    state.diff_update(&make_base_config(), &no_file()).unwrap();
    assert_eq!(state.check_rate_limit("10.0.0.1"), Some((true, 99)));
    state.update_rate_limit_policy(3, 1);
    assert_eq!(state.rate_limit_summary().unwrap().capacity, Some(3));
    assert_eq!(state.check_rate_limit("10.0.0.2"), Some((true, 2)));
}

#[test]
fn a_full_reload_replaces_the_state_or_leaves_it() {
    let mut state = GatewayState::from_config(&make_base_config(), &no_file()).unwrap();
    assert_eq!(state.check_rate_limit("10.0.0.1"), Some((true, 99)));

    let error = state
        .reload_simple(&Loaded::Unreadable("gone".to_string()), &no_file())
        .unwrap_err();
    assert_eq!(error, "加载失败: gone");
    let error = state
        .reload_simple(&Loaded::Unparsable("not yaml".to_string()), &no_file())
        .unwrap_err();
    assert_eq!(error, "配置文件解析失败: not yaml");
    let mut bad = make_base_config();
    bad.routes[0].upstream = "x".to_string();
    let error = state.reload_simple(&Loaded::Config(bad), &no_file()).unwrap_err();
    assert!(error.starts_with("配置文件校验失败: 路由 '/a' 引用了不存在的上游 'x'"));
    assert!(matches(&state, "/a"));
    assert_eq!(state.check_rate_limit("10.0.0.1"), Some((true, 98)));

    state
        .reload_simple(&Loaded::Config(make_base_config()), &no_file())
        .unwrap();
    assert_eq!(state.check_rate_limit("10.0.0.1"), Some((true, 99)));
}

#[test]
fn an_incremental_reload_validates_first() {
    let mut state = GatewayState::from_config(&make_base_config(), &no_file()).unwrap();
    assert_eq!(state.check_rate_limit("10.0.0.1"), Some((true, 99)));
    let mut bad = make_base_config();
    bad.server.threads = Some(0);
    bad.routes[0].upstream = "x".to_string();
    let error = state.reload_diff(&Loaded::Config(bad), &no_file()).unwrap_err();
    assert_eq!(
        error,
        "配置文件校验失败: server.threads: worker threads of gateway must be greater than 0; \
         [route=route-a] route.upstream: upstream 'x' does not exist. You can choose: [\"svc-a\"]"
    );
    let mut bad = make_base_config();
    bad.routes[0].match_type = "regex".to_string();
    bad.routes[0].path = Some("(".to_string());
    let error = state.reload_diff(&Loaded::Config(bad), &no_file()).unwrap_err();
    assert!(error.starts_with("配置更新失败: 路由 'route-a' 构建失败: "));
    assert_eq!(
        state
            .reload_diff(&Loaded::Unreadable("gone".to_string()), &no_file())
            .unwrap_err(),
        "加载失败: gone"
    );
    assert_eq!(
        state
            .reload_diff(&Loaded::Unparsable("bad".to_string()), &no_file())
            .unwrap_err(),
        "配置文件解析失败: bad"
    );

    let mut good = make_base_config();
    good.rate_limit = Some(RateLimitConfig {
        capacity: 5,
        refill_rate: 1,
    });
    state.reload_diff(&Loaded::Config(good), &no_file()).unwrap();
    assert_eq!(state.check_rate_limit("10.0.0.1"), Some((true, 98)));
    assert_eq!(state.check_rate_limit("10.0.0.2"), Some((true, 4)));
}

#[test]
fn a_path_resolves_to_the_route_that_it_takes() {
    let mut config = make_config();
    config.routes = vec![
        route("short", None, Some("/api/"), "prefix", "default-service"),
        route("twin", None, Some("/xyz/"), "prefix", "default-service"),
        route("pattern", Some("^/api/v[0-9]+$"), None, "regex", "user-service"),
        route("later", Some("^/api/v1$"), None, "regex", "user-service"),
        route("long", None, Some("/api/v1/"), "prefix", "user-service"),
        route("exact", Some("/api/v1"), None, "exact", "user-service"),
    ];
    let paths = ["/api/v1", "/api/v2", "/api/v1/x", "/api/x", "/xyz/1", "/none"];
    let agrees = |state: &GatewayState| {
        for path in paths {
            let taken = state.match_route(path, &CanaryContext::empty());
            assert_eq!(state.resolve_path(path), taken.map(|m| m.route_id), "{}", path);
        }
    };

    let mut state = GatewayState::from_config(&config, &no_file()).unwrap();
    agrees(&state);
    assert_eq!(state.resolve_path("/api/v1"), Some("exact".to_string()));
    assert_eq!(state.resolve_path("/api/v2"), Some("pattern".to_string()));
    assert_eq!(state.resolve_path("/api/v1/x"), Some("long".to_string()));

    // A route that changes is registered anew, behind the others of its kind.
    config.routes[2].upstream = "default-service".to_string();
    config.routes.remove(5);
    state.diff_update(&config, &no_file()).unwrap();
    agrees(&state);
    assert_eq!(state.resolve_path("/api/v1"), Some("later".to_string()));
}

#[test]
fn the_state_limits_each_client_over_time() {
    let mut config = make_base_config();
    config.rate_limit = Some(RateLimitConfig {
        capacity: 2,
        refill_rate: 1,
    });
    let mut state = GatewayState::from_config(&config, &no_file()).unwrap();
    let at = |secs: u64| Uptime { secs, nanos: 0 };
    assert_eq!(state.check_rate_limit_at("10.0.0.1", at(5)), Some((true, 1)));
    assert_eq!(state.check_rate_limit_at("10.0.0.1", at(5)), Some((true, 0)));
    assert_eq!(state.check_rate_limit_at("10.0.0.1", at(5)), Some((false, 0)));
    assert_eq!(state.check_rate_limit_at("10.0.0.2", at(5)), Some((true, 1)));
    assert_eq!(state.check_rate_limit_at("10.0.0.1", at(6)), Some((true, 0)));
    assert_eq!(state.check_rate_limit_at("10.0.0.1", at(9)), Some((true, 1)));

    config.rate_limit = None;
    let mut state = GatewayState::from_config(&config, &no_file()).unwrap();
    assert_eq!(state.check_rate_limit_at("10.0.0.1", at(5)), None);
}

#[test]
fn upstreams_differ_in_what_they_hold() {
    let node = |addr: &str, weight: usize| NodeConfig {
        addr: addr.to_string(),
        weight,
    };
    let mut a = upstream("127.0.0.1:9001");
    a.nodes.push(node("127.0.0.1:9002", 2));
    let differs = |b: &UpstreamConfig| {
        assert_eq!(upstreams_differ(&a, b), upstreams_differ(b, &a));
        upstreams_differ(&a, b)
    };
    assert!(!differs(&a.clone()));
    let mut b = a.clone();
    b.algorithm = "consistent_hash".to_string();
    assert!(differs(&b));
    let mut b = a.clone();
    b.health_check = Some(Default::default());
    assert!(differs(&b));
    let mut b = a.clone();
    b.nodes.push(node("127.0.0.1:9003", 1));
    assert!(differs(&b));
    let mut b = a.clone();
    b.nodes.pop();
    assert!(differs(&b));
    let mut b = a.clone();
    b.nodes.swap(0, 1);
    assert!(differs(&b));
    let mut b = a.clone();
    b.nodes[1].weight = 3;
    assert!(differs(&b));
}

#[test]
fn a_change_leaves_the_ids_of_the_new_configuration_even_if_one_is_repeated() {
    let mut config = make_config();
    let mut state = GatewayState::from_config(&config, &no_file()).unwrap();
    // The first form of the route is unchanged, the second one replaces it.
    let mut again = config.routes[0].clone();
    again.upstream = "default-service".to_string();
    config.routes = vec![config.routes[0].clone(), again];
    state.diff_update(&config, &no_file()).unwrap();
    assert!(state.find_registered("test-user-route").is_some());
    assert!(state.find_route_info_by_id("test-user-route").is_some());
    assert!(state.find_registered("test-default-route").is_none());
    assert!(state.find_route_info_by_id("test-default-route").is_none());
    assert_eq!(
        state.match_route("/api/users", &CanaryContext::empty()).unwrap().upstream,
        "default-service"
    );
}
