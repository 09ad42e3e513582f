use kirin_gateway::config::types::{KirinConfig, RateLimitConfig, ServerConfig};
use kirin_gateway::control_plane::admin_api::dto::{RateLimitDTO, RouteRegistryDTO};
use kirin_gateway::control_plane::admin_api::{
    admin_action, build_error_response, build_ok_response, not_found_response,
    rate_limit_or_default, reload_response, unavailable_response, AdminAction,
};
use kirin_gateway::control_plane::gateway_state::GatewayState;
use kirin_gateway::data_plane::router::router_white_list::RouteEntry;
use kirin_gateway::data_plane::router::MatchType;
use kirin_gateway::str_map::StrMap;

#[test]
fn test_build_ok_response() {
    let data = serde_json::to_string(&vec!["route1", "route2"]).unwrap();
    let (status, body) = build_ok_response(&data);
    assert_eq!(status, 200);
    assert!(body.contains("\"status\":\"ok\""));
    assert!(body.contains("route1"));
}

#[test]
fn test_build_error_response() {
    let (status, body) = build_error_response(500, "内部错误");
    assert_eq!(status, 500);
    assert!(body.contains("\"status\":\"error\""));
    assert!(body.contains("内部错误"));
}

#[test]
fn answers_are_json() {
    let (_, body) = build_error_response(400, "a \"b\"\n");
    assert_eq!(body, r#"{"status":"error","message":"a \"b\"\n"}"#);
    let value: serde_json::Value = serde_json::from_str(&body).unwrap();
    assert_eq!(value["message"], "a \"b\"\n");
    let (_, body) = build_ok_response("[1,2]");
    assert_eq!(body, r#"{"status":"ok","data":[1,2]}"#);
}

#[test]
fn each_request_asks_for_something() {
    assert_eq!(admin_action("GET", "/admin/routes"), AdminAction::Routes);
    assert_eq!(admin_action("GET", "/admin/upstreams"), AdminAction::Upstreams);
    assert_eq!(admin_action("GET", "/admin/rate-limit"), AdminAction::RateLimit);
    assert_eq!(admin_action("POST", "/admin/reload"), AdminAction::Reload);
    assert_eq!(admin_action("GET", "/admin/reload"), AdminAction::NotFound);
    assert_eq!(admin_action("POST", "/admin/routes"), AdminAction::NotFound);
    assert_eq!(admin_action("GET", "/admin/routes/"), AdminAction::NotFound);
    assert_eq!(
        not_found_response(),
        (404, r#"{"status":"error","message":"接口不存在"}"#.to_string())
    );
    assert_eq!(
        unavailable_response(),
        (500, r#"{"status":"error","message":"内部错误"}"#.to_string())
    );
}

#[test]
fn a_reload_is_answered() {
    assert_eq!(
        reload_response(&Ok(())),
        (200, r#"{"status":"ok","data":"重载成功"}"#.to_string())
    );
    assert_eq!(
        reload_response(&Err("bad".to_string())),
        (400, r#"{"status":"error","message":"bad"}"#.to_string())
    );
}

#[test]
fn the_rate_limit_is_shown() {
    let mut config = KirinConfig {
        server: ServerConfig {
            listen: "0.0.0.0:1".to_string(),
            threads: None,
            tls: None,
        },
        routes: vec![],
        upstreams: StrMap::new(),
        rate_limit: None,
        admin: None,
        auth: None,
    };
    let none = Err("none".to_string());
    let state = GatewayState::from_config(&config, &none).unwrap();
    assert_eq!(rate_limit_or_default(&state), RateLimitDTO::default());
    assert!(!rate_limit_or_default(&state).enabled);
    config.rate_limit = Some(RateLimitConfig {
        capacity: 3,
        refill_rate: 2,
    });
    let state = GatewayState::from_config(&config, &none).unwrap();
    let dto = rate_limit_or_default(&state);
    assert_eq!((dto.enabled, dto.capacity, dto.refill_rate), (true, Some(3), Some(2)));
}

#[test]
fn a_registered_route_is_shown() {
    let entry = RouteEntry {
        route_id: "id".to_string(),
        path: "/p".to_string(),
        prefix: Some("/p".to_string()),
        match_type: MatchType::Prefix,
        methods: vec!["GET".to_string()],
        upstream: "svc".to_string(),
        applicant: "me".to_string(),
        applied_at: "now".to_string(),
        description: "d".to_string(),
        is_auth: true,
    };
    let dto = RouteRegistryDTO::from_entry(&entry);
    assert_eq!(dto.route_id, "id");
    assert_eq!(dto.match_type, "prefix");
    assert_eq!(dto.prefix.as_deref(), Some("/p"));
    assert_eq!(dto.methods, vec!["GET"]);
    assert_eq!(dto.applicant, "me");
}
