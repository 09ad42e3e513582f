use kirin_gateway::config::types::{
    CanaryConfig, KirinConfig, NodeConfig, RouteConfig, ServerConfig, StickyCookieConfig,
    StickyStrategy, UpstreamConfig,
};
use kirin_gateway::control_plane::gateway_state::GatewayState;
use kirin_gateway::data_plane::filter::{FilterReject, FilterResult, HeaderLine};
use kirin_gateway::data_plane::proxy::{
    begin_request, build_canary_context, is_cookie_sticky_match, peer_key, plan_upstream,
    refused_status, request_record, sticky_cookie_header, upstream_peer, CanaryDecision, PeerError,
    RequestContext,
};
use kirin_gateway::data_plane::router::{CanaryContext, RouteMatch};
use kirin_gateway::str_map::StrMap;
use std::time::Instant;

fn header(name: &str, value: Option<&str>) -> HeaderLine {
    HeaderLine {
        name: name.to_string(),
        value: value.map(|v| v.to_string()),
    }
}

fn cookie_release() -> Option<CanaryConfig> {
    Some(CanaryConfig {
        weight: 100,
        match_rules: vec![],
        stick: Some(StickyStrategy::Cookie),
        sticky_cookie: None,
    })
}

fn make_state() -> GatewayState {
    let mut upstreams = StrMap::new();
    upstreams.insert(
        "svc".to_string(),
        UpstreamConfig {
            nodes: vec![NodeConfig {
                addr: "127.0.0.1:9001".to_string(),
                weight: 1,
            }],
            algorithm: "consistent_hash".to_string(),
            health_check: None,
        },
    );
    let route = |id: &str, path: &str, canary, white: Option<&str>, black: Option<&str>| RouteConfig {
        route_id: id.to_string(),
        path: Some(path.to_string()),
        path_prefix: None,
        match_type: "exact".to_string(),
        methods: vec![],
        upstream: "svc".to_string(),
        applicant: "test".to_string(),
        applied_at: "2026-04-20T00:00:00+08:00".to_string(),
        description: "test".to_string(),
        is_auth: false,
        canary,
        ip_whitelist: white.map(|w| vec![w.to_string()]),
        ip_blacklist: black.map(|b| vec![b.to_string()]),
    };
    let config = KirinConfig {
        server: ServerConfig {
            listen: "0.0.0.0:8080".to_string(),
            threads: None,
            tls: None,
        },
        routes: vec![
            route("open", "/open", None, None, None),
            route("inside", "/inside", None, Some("10.0.0.0/8"), Some("10.9.0.0/16")),
            route("release", "/release", cookie_release(), None, None),
        ],
        upstreams,
        rate_limit: None,
        admin: None,
        auth: None,
    };
    GatewayState::from_config(&config, &Err("none".to_string())).unwrap()
}

fn begun(state: &GatewayState, path: &str, ip: Option<&str>) -> RequestContext {
    let mut ctx = RequestContext::new();
    let metrics = begin_request(
        &mut ctx,
        &Some(path.to_string()),
        "GET",
        &ip.map(|i| i.to_string()),
        Instant::now(),
        state,
    );
    assert!(!metrics);
    ctx
}

fn from_ip(ip: Option<&str>) -> CanaryContext {
    build_canary_context(&vec![], &None, &ip.map(|i| i.to_string()))
}

#[test]
fn a_request_begins_with_its_registered_route() {
    let state = make_state();
    let ctx = begun(&state, "/open", Some("10.0.0.1"));
    let f = ctx.filter_ctx.as_ref().unwrap();
    assert_eq!(f.path, "/open");
    assert_eq!(f.method, "GET");
    assert_eq!(f.client_ip, "10.0.0.1");
    assert_eq!(f.route_id.as_deref(), Some("open"));
    assert!(f.upstream_name.is_none());
    assert!(ctx.canary_decision.is_none());
    assert_eq!(peer_key(&ctx), "10.0.0.1");

    let mut ctx = RequestContext::new();
    assert!(!begin_request(&mut ctx, &None, "GET", &None, Instant::now(), &state));
    let f = ctx.filter_ctx.as_ref().unwrap();
    assert_eq!(f.path, "/");
    assert_eq!(f.client_ip, "");
    assert_eq!(f.route_id, None);
}

#[test]
fn the_metrics_page_is_served_by_the_gateway() {
    let state = make_state();
    let mut ctx = RequestContext::new();
    let path = Some("/metrics".to_string());
    assert!(begin_request(&mut ctx, &path, "GET", &None, Instant::now(), &state));
    assert!(ctx.filter_ctx.is_none());
    assert_eq!(peer_key(&ctx), "");
    assert_eq!(refused_status(&FilterResult::Continue), None);
    assert_eq!(
        refused_status(&FilterResult::Stop(FilterReject::TooManyRequests)),
        Some(429)
    );
}

#[test]
fn what_a_request_carries() {
    let ctx = build_canary_context(
        &vec![
            header("x-a", Some("1")),
            header("x-a", Some("2")),
            header("x-bin", None),
            header("cookie", Some(" a = 1 ;b=2=3; c ;=x;a=4")),
            header("cookie", Some("ignored=1")),
        ],
        &Some("p=1&q&r=&p=2=3&=z".to_string()),
        &Some("10.0.0.1".to_string()),
    );
    let get = |map: &StrMap<String>, key: &str| map.get(key).cloned();
    assert_eq!(get(&ctx.headers, "x-a").as_deref(), Some("2"));
    assert_eq!(get(&ctx.headers, "x-bin"), None);
    assert_eq!(get(&ctx.headers, "cookie").as_deref(), Some("ignored=1"));
    assert_eq!(ctx.headers.len(), 2);
    assert_eq!(get(&ctx.cookies, "a").as_deref(), Some("4"));
    assert_eq!(get(&ctx.cookies, "b").as_deref(), Some("2=3"));
    assert_eq!(get(&ctx.cookies, "").as_deref(), Some("x"));
    assert_eq!(ctx.cookies.len(), 3);
    assert_eq!(get(&ctx.query_params, "p").as_deref(), Some("2=3"));
    assert_eq!(get(&ctx.query_params, "r").as_deref(), Some(""));
    assert_eq!(get(&ctx.query_params, "").as_deref(), Some("z"));
    assert_eq!(ctx.query_params.len(), 3);
    assert_eq!(ctx.client_ip.as_deref(), Some("10.0.0.1"));

    let ctx = build_canary_context(&vec![header("cookie", None)], &None, &None);
    assert!(ctx.cookies.is_empty());
    assert!(ctx.query_params.is_empty());
    assert_eq!(ctx.client_ip, None);
}

#[test]
fn a_routed_request_finds_its_cluster() {
    let state = make_state();
    let mut ctx = begun(&state, "/open", Some("10.0.0.1"));
    let cluster = upstream_peer(&state, "/open", &from_ip(Some("10.0.0.1")), &mut ctx)
        .ok()
        .unwrap();
    assert_eq!(cluster.name, "svc");
    let f = ctx.filter_ctx.as_ref().unwrap();
    assert_eq!(f.upstream_name.as_deref(), Some("svc"));
    assert_eq!(f.route_id.as_deref(), Some("open"));
    assert!(ctx.canary_decision.is_none());
}

#[test]
fn each_way_to_fail_has_its_error() {
    let mut state = make_state();
    let ip = from_ip(Some("10.0.0.1"));
    let mut ctx = begun(&state, "/nowhere", None);
    let fails = |state: &GatewayState, path: &str, ip: &CanaryContext, ctx: &mut RequestContext| {
        upstream_peer(state, path, ip, ctx).err().unwrap()
    };
    assert_eq!(fails(&state, "/nowhere", &ip, &mut ctx), PeerError::NoRoute);
    assert_eq!(ctx.filter_ctx.as_ref().unwrap().route_id, None);

    let taken = Some(RouteMatch {
        upstream: "svc".to_string(),
        route_id: "open".to_string(),
        captures: None,
    });
    assert_eq!(
        plan_upstream(&state, "/nowhere", &ip, &taken, &mut ctx).err(),
        Some(PeerError::NotRegistered)
    );
    let strange = Some(RouteMatch {
        upstream: "other".to_string(),
        route_id: "open".to_string(),
        captures: None,
    });
    assert_eq!(
        plan_upstream(&state, "/open", &ip, &strange, &mut ctx).err(),
        Some(PeerError::NoCluster)
    );

    let outside = from_ip(Some("192.168.0.1"));
    assert_eq!(fails(&state, "/inside", &outside, &mut ctx), PeerError::IpNotAllowed);
    assert_eq!(ctx.filter_ctx.as_ref().unwrap().route_id.as_deref(), Some("inside"));
    assert_eq!(ctx.filter_ctx.as_ref().unwrap().upstream_name, None);
    let barred = from_ip(Some("10.9.1.1"));
    assert_eq!(fails(&state, "/inside", &barred, &mut ctx), PeerError::IpNotAllowed);
    assert!(upstream_peer(&state, "/inside", &ip, &mut ctx).is_ok());
    assert!(upstream_peer(&state, "/inside", &from_ip(None), &mut ctx).is_ok());

    state.registry.unregister("open");
    assert_eq!(fails(&state, "/open", &ip, &mut ctx), PeerError::NotRegistered);

    assert_eq!(PeerError::NoRoute.to_text(), "404 No route matched");
    assert_eq!(PeerError::NotRegistered.to_text(), "403 Route not registered in whitelist");
    assert_eq!(PeerError::NoCluster.to_text(), "上游集群未注册");
    assert_eq!(PeerError::IpNotAllowed.to_text(), "403 IP not allowed");
    assert_eq!(PeerError::NoPeer.to_text(), "无可用上游节点");
    assert_eq!(PeerError::NoRoute.status_code(), 500);
    assert_eq!(PeerError::NotRegistered.status_code(), 403);
    assert_eq!(PeerError::NoCluster.status_code(), 500);
    assert_eq!(PeerError::IpNotAllowed.status_code(), 500);
    assert_eq!(PeerError::NoPeer.status_code(), 502);
}

#[test]
fn a_new_client_gets_a_cookie_and_keeps_it() {
    let state = make_state();
    let mut ctx = begun(&state, "/release", None);
    upstream_peer(&state, "/release", &from_ip(None), &mut ctx).ok().unwrap();
    let set = sticky_cookie_header(&ctx).unwrap();
    assert_eq!(set.name, "Set-Cookie");
    assert_eq!(set.value, "kirin_canary=release; Path=/; Max-Age=3600");

    let back = build_canary_context(
        &vec![header("cookie", Some("kirin_canary=release"))],
        &None,
        &None,
    );
    let mut ctx = begun(&state, "/release", None);
    upstream_peer(&state, "/release", &back, &mut ctx).ok().unwrap();
    assert!(!ctx.canary_decision.as_ref().unwrap().is_new_assignment);
    assert!(sticky_cookie_header(&ctx).is_none());

    let mut unfiltered = RequestContext::new();
    unfiltered.canary_decision = Some(CanaryDecision {
        route_id: "release".to_string(),
        sticky_cookie: Some(StickyCookieConfig {
            name: "n".to_string(),
            path: "/p".to_string(),
            max_age: 5,
        }),
        is_new_assignment: true,
    });
    assert!(sticky_cookie_header(&unfiltered).is_none());
}

#[test]
fn only_the_cookie_strategy_looks_at_cookies() {
    let release = cookie_release().unwrap();
    let with = build_canary_context(&vec![header("cookie", Some("kirin_canary=a"))], &None, &None);
    assert!(is_cookie_sticky_match(&release, &with, "a"));
    assert!(!is_cookie_sticky_match(&release, &with, "b"));
    assert!(!is_cookie_sticky_match(&release, &CanaryContext::empty(), "a"));
    let mut other = cookie_release().unwrap();
    other.stick = Some(StickyStrategy::IpHash);
    assert!(!is_cookie_sticky_match(&other, &with, "a"));
    let mut named = cookie_release().unwrap();
    named.sticky_cookie = Some(StickyCookieConfig {
        name: "mine".to_string(),
        path: "/".to_string(),
        max_age: 1,
    });
    assert!(!is_cookie_sticky_match(&named, &with, "a"));
}

#[test]
fn a_finished_request_is_counted() {
    let state = make_state();
    assert!(request_record(&RequestContext::new(), false).is_none());
    let ctx = begun(&state, "/nowhere", None);
    let record = request_record(&ctx, true).unwrap();
    assert_eq!(record.method, "GET");
    assert_eq!(record.upstream, "unknown");
    assert!(record.failed);
    assert_eq!(record.canary, None);

    let mut ctx = begun(&state, "/release", None);
    upstream_peer(&state, "/release", &from_ip(None), &mut ctx).ok().unwrap();
    let record = request_record(&ctx, false).unwrap();
    assert_eq!(record.upstream, "svc");
    assert_eq!(record.canary, Some(("release".to_string(), "200".to_string())));
    let record = request_record(&ctx, true).unwrap();
    assert_eq!(record.canary, Some(("release".to_string(), "500".to_string())));
}
