use kirin_gateway::config::types::{
    AuthConfigRaw, KirinConfig, NodeConfig, RateLimitConfig, RouteConfig, ServerConfig,
    UpstreamConfig,
};
use kirin_gateway::control_plane::gateway_state::GatewayState;
use kirin_gateway::data_plane::filter::auth::{
    capitalize, claim_to_string, AuthFilter, AuthOutcome, AuthStep, ClaimValue, JwtClaims,
    TokenAlgorithm, TokenCheck,
};
use kirin_gateway::data_plane::filter::header::{gateway_header, HeaderFilter};
use kirin_gateway::data_plane::filter::logging::LoggingFilter;
use kirin_gateway::data_plane::filter::method::MethodFilter;
use kirin_gateway::data_plane::filter::rate_limit_filter::RateLimitFilter;
use kirin_gateway::data_plane::filter::whitelist::WhiteListFilter;
use kirin_gateway::data_plane::filter::{
    ChainStep, FilterChain, FilterContext, FilterName, FilterReject, FilterResult, HeaderLine,
};
use kirin_gateway::data_plane::middleware::{HeaderMiddleware, LoggingMiddleware};
use kirin_gateway::str_map::StrMap;
use std::time::Instant;

/// An RSA public key.
fn public_key() -> String {
    [
        "-----BEGIN PUBLIC KEY-----",
        "MIIBIjANBgkqhkiG9w0BAQEFAAOCAQ8AMIIBCgKCAQEA9hQzgZTeVUKQuQgboodl",
        "I0hrk4cRzmoPI5lEDhbxRAN3qqdVur0bwV4o2AjVWKXZDQfex7Fyzol0mv6Ihnv4",
        "Ou3ayYZSL3yJmIs2vrcKRMYJfsSP69nLgd2Wz/Q3PJ+M50zMXi2RtY0SheU4gmQ9",
        "HIXSDYZVBBM5a2M+nqh1Nn4/syxkR8+HinoA73s8EB0JYRR5kndvy6YvFYiDERb7",
        "NrzsFa0y4GI0b7gUKmJQOUwuxHfI7vPXE43ASg1fHn20D2yKx7Hhbv1blmMdYVRt",
        "kteKLu/IqZadryNtnekioYu3YI2SEjHTvmsxAKaqkkVSvdeqmPia8wqlQev8AoPS",
        "yQIDAQAB",
        "-----END PUBLIC KEY-----",
    ]
    .join("\n")
}

/// A token of the issuer "kirin-auth" for the subject "user-42", signed with the private key
/// that belongs to the public one.
fn signed_token() -> String {
    let head = "eyJhbGciOiJSUzI1NiIsInR5cCI6IkpXVCJ9";
    let claims = [
        "eyJpc3MiOiJraXJpbi1hdXRoIiwic3ViIjoidXNl",
        "ci00MiIsImV4cCI6NDEwMjQ0NDgwMCwiaWF0IjoxNzY3MjI1NjAwfQ",
    ]
    .concat();
    let signature = [
        "6jioW1d8zBpZJQsq2wAp56DAD9_7oBfHT1W12NorAe3ckw9pbrMIKDoOMP1B",
        "Oj-g0LjKF3F1c5GXIWdwa8N-xc54awTJIF-yj7pB0DG13CBg0gKV650N9VCo",
        "zIfVNOInNjgARR8kVt2croVTh7poJfdOcklwhs5HpZ6gIBlNlqKR0leb4HzU",
        "P-ZObuOBwLoP6SjRXEEsgnDo9H4ZNEIQF1XKtg0vexhX9dnePl-UcsFUBtCE",
        "OLpynIelBTA6J5mNtJw2R62gkn9C45kR5Zv7qoFR0ddAvKFk-fO4teHgskbt",
        "7GMJDjRlr__dKsMCninIquOnjFB6a-rQD_Mjj-2iDg",
    ]
    .concat();
    [head, claims.as_str(), signature.as_str()].join(".")
}

fn make_state(auth: bool, limit: Option<RateLimitConfig>) -> GatewayState {
    let mut upstreams = StrMap::new();
    upstreams.insert(
        "svc".to_string(),
        UpstreamConfig {
            nodes: vec![NodeConfig {
                addr: "127.0.0.1:9001".to_string(),
                weight: 1,
            }],
            algorithm: "round_robin".to_string(),
            health_check: None,
        },
    );
    let route = |id: &str, path: &str, methods: Vec<String>, is_auth: bool| RouteConfig {
        route_id: id.to_string(),
        path: Some(path.to_string()),
        path_prefix: None,
        match_type: "exact".to_string(),
        methods,
        upstream: "svc".to_string(),
        applicant: "test".to_string(),
        applied_at: "2026-04-20T00:00:00+08:00".to_string(),
        description: "test".to_string(),
        is_auth,
        canary: None,
        ip_whitelist: None,
        ip_blacklist: None,
    };
    let config = KirinConfig {
        server: ServerConfig {
            listen: "0.0.0.0:8080".to_string(),
            threads: None,
            tls: None,
        },
        routes: vec![
            route("open", "/open", vec![], false),
            route("read", "/read", vec!["GET".to_string(), "HEAD".to_string()], false),
            route("private", "/private", vec![], true),
        ],
        upstreams,
        rate_limit: limit,
        admin: None,
        auth: if auth {
            Some(AuthConfigRaw {
                algorithm: "RS256".to_string(),
                public_key_path: "key.pem".to_string(),
                issuer: "kirin-auth".to_string(),
                claims_to_forward: vec![
                    "sub".to_string(),
                    "iat".to_string(),
                    "roles".to_string(),
                    "exp".to_string(),
                ],
            })
        } else {
            None
        },
    };
    GatewayState::from_config(&config, &Ok(public_key())).unwrap()
}

fn context(method: &str, path: &str, route_id: Option<&str>) -> FilterContext {
    FilterContext {
        path: path.to_string(),
        method: method.to_string(),
        client_ip: "10.0.0.1".to_string(),
        upstream_name: None,
        route_id: route_id.map(|r| r.to_string()),
        start_time: Instant::now(),
        rate_limit_remaining: None,
        auth_user_id: None,
    }
}

fn header(name: &str, value: Option<&str>) -> HeaderLine {
    HeaderLine {
        name: name.to_string(),
        value: value.map(|v| v.to_string()),
    }
}

fn status(result: &FilterResult) -> Option<u16> {
    match result {
        FilterResult::Continue => None,
        FilterResult::Stop(reject) => Some(reject.status_code()),
    }
}

#[test]
fn test_empty_chain_returns_continue() {
    let chain = FilterChain::new();
    assert!(matches!(
        chain.run_request_filters(0, FilterResult::Continue),
        ChainStep::Done(FilterResult::Continue)
    ));
    assert_eq!(chain.run_response_filters(0), None);
}

#[test]
fn test_filter_chain_len() {
    let mut chain = FilterChain::new();
    assert!(chain.is_empty());
    assert_eq!(chain.len(), 0);
    chain.add_filter(FilterName::Custom("always-continue".to_string()));
    assert!(!chain.is_empty());
    assert_eq!(chain.len(), 1);
}

#[test]
fn a_refusal_ends_the_chain_and_responses_pass_every_filter() {
    let mut chain = FilterChain::new();
    chain.add_filter(FilterName::Custom("always-continue".to_string()));
    chain.add_filter(FilterName::Custom("always-stop".to_string()));
    chain.add_filter(FilterName::Logging);
    let results = [
        FilterResult::Continue,
        FilterResult::Stop(FilterReject::Forbidden),
        FilterResult::Continue,
    ];
    let mut asked = vec![];
    let mut last = FilterResult::Continue;
    let outcome = loop {
        match chain.run_request_filters(asked.len(), last) {
            ChainStep::Run(i) => {
                asked.push(chain.filter_at(i).to_text());
                last = match &results[i] {
                    FilterResult::Continue => FilterResult::Continue,
                    FilterResult::Stop(reject) => FilterResult::Stop(reject.clone()),
                };
            },
            ChainStep::Done(result) => break result,
        }
    };
    assert_eq!(status(&outcome), Some(403));
    assert_eq!(asked, vec!["always-continue", "always-stop"]);

    let copy = chain.clone();
    let mut ran = 0;
    while let Some(i) = copy.run_response_filters(ran) {
        assert_eq!(i, ran);
        ran += 1;
    }
    assert_eq!(ran, 3);
}

#[test]
fn each_refusal_has_its_status() {
    assert_eq!(FilterReject::Unauthorized.status_code(), 401);
    assert_eq!(FilterReject::Forbidden.status_code(), 403);
    assert_eq!(FilterReject::NotFound.status_code(), 404);
    assert_eq!(FilterReject::MethodNotAllowed.status_code(), 405);
    assert_eq!(FilterReject::TooManyRequests.status_code(), 429);
    assert_eq!(FilterReject::InternalError.status_code(), 500);
    let custom = FilterReject::Custom {
        code: 418,
        reason: "teapot".to_string(),
    };
    assert_eq!(custom.status_code(), 418);
}

#[test]
fn a_route_may_allow_some_methods_only() {
    let state = make_state(false, None);
    let ask = |method: &str, route_id: Option<&str>| {
        status(&MethodFilter.request_filter(&context(method, "/read", route_id), &state))
    };
    assert_eq!(ask("GET", Some("read")), None);
    assert_eq!(ask("HEAD", Some("read")), None);
    assert_eq!(ask("POST", Some("read")), Some(405));
    assert_eq!(ask("get", Some("read")), Some(405));
    assert_eq!(ask("POST", Some("open")), None);
    assert_eq!(ask("POST", Some("unknown")), None);
    assert_eq!(ask("POST", None), None);
}

#[test]
fn only_registered_paths_pass_the_whitelist() {
    let state = make_state(false, None);
    let mut ctx = context("GET", "/read", None);
    assert_eq!(status(&WhiteListFilter.request_filter(&mut ctx, &state)), None);
    assert_eq!(ctx.route_id.as_deref(), Some("read"));
    let mut ctx = context("GET", "/nowhere", None);
    assert_eq!(status(&WhiteListFilter.request_filter(&mut ctx, &state)), Some(403));
    assert_eq!(ctx.route_id, None);
}

#[test]
fn a_client_without_tokens_is_refused() {
    let mut state = make_state(
        false,
        Some(RateLimitConfig {
            capacity: 1,
            refill_rate: 1,
        }),
    );
    let mut ctx = context("GET", "/open", Some("open"));
    assert_eq!(status(&RateLimitFilter.request_filter(&mut ctx, &mut state)), None);
    assert_eq!(ctx.rate_limit_remaining, Some(0));
    assert_eq!(status(&RateLimitFilter.request_filter(&mut ctx, &mut state)), Some(429));
    let set = RateLimitFilter.response_filter(&ctx).unwrap();
    assert_eq!((set.name.as_str(), set.value.as_str()), ("X-RateLimit-Remaining", "0"));

    let mut free = make_state(false, None);
    let mut ctx = context("GET", "/open", Some("open"));
    assert_eq!(status(&RateLimitFilter.request_filter(&mut ctx, &mut free)), None);
    assert_eq!(ctx.rate_limit_remaining, None);
    assert!(RateLimitFilter.response_filter(&ctx).is_none());
    assert_eq!(status(&RateLimitFilter.decide(&mut ctx, Some((true, 1234)))), None);
    assert_eq!(RateLimitFilter.response_filter(&ctx).unwrap().value, "1234");
}

#[test]
fn only_protected_routes_ask_for_a_token() {
    let state = make_state(true, None);
    let none: Vec<HeaderLine> = vec![];
    let outcome = |route_id: Option<&str>, headers: &Vec<HeaderLine>, state: &GatewayState| {
        match AuthFilter.request_filter(&context("GET", "/x", route_id), headers, state) {
            AuthOutcome::Pass => (None, String::new()),
            AuthOutcome::Refuse { reject, reason } => (Some(reject.status_code()), reason),
            AuthOutcome::Claims(claims) => (Some(0), claims),
        }
    };
    let pass = (None, String::new());
    let refused = |reason: &str| (Some(401), reason.to_string());
    assert_eq!(outcome(Some("open"), &none, &state), pass);
    assert_eq!(outcome(Some("unknown"), &none, &state), pass);
    assert_eq!(outcome(None, &none, &state), pass);
    assert_eq!(outcome(Some("private"), &none, &make_state(false, None)), pass);
    let missing = refused("missing Authorization Header");
    assert_eq!(outcome(Some("private"), &none, &state), missing);
    let basic = vec![header("authorization", Some("Basic abc"))];
    let no_bearer = refused("invalid Authorization Header, require Bearer type");
    assert_eq!(outcome(Some("private"), &basic, &state), no_bearer);
    let empty = vec![header("authorization", Some("Bearer   "))];
    assert_eq!(outcome(Some("private"), &empty, &state), refused("Token is empty"));
    let binary = vec![header("authorization", None)];
    assert_eq!(outcome(Some("private"), &binary, &state), missing);
    let no_token = vec![header("host", Some("x")), header("authorization", Some("Bearer  a.b "))];
    assert_eq!(outcome(Some("private"), &no_token, &state), refused("InvalidToken"));
    assert_eq!(outcome(Some("open"), &no_token, &state), pass);
    match AuthFilter.prepare(&context("GET", "/x", Some("private")), &no_token, &state) {
        AuthStep::Verify(check) => {
            assert_eq!(check.token, "a.b");
            assert_eq!(check.issuer, "kirin-auth");
            assert_eq!(check.leeway_secs, 30);
            assert_eq!(check.algorithm, TokenAlgorithm::Rs256);
            assert_eq!(check.required_claims, vec!["exp", "iss"]);
            assert!(!check.checks_audience);
        },
        _ => panic!("no token"),
    }
}

#[test]
fn the_reason_for_a_missing_token_is_told() {
    let ask = |value: Option<&str>| AuthFilter::extract_bearer_token(&vec![header("authorization", value)]);
    assert_eq!(
        AuthFilter::extract_bearer_token(&vec![]),
        Err("missing Authorization Header")
    );
    assert_eq!(ask(None), Err("missing Authorization Header"));
    assert_eq!(
        ask(Some("bearer x")),
        Err("invalid Authorization Header, require Bearer type")
    );
    assert_eq!(ask(Some("Bearer ")), Err("Token is empty"));
    assert_eq!(ask(Some("Bearer x y")), Ok("x y".to_string()));
}

#[test]
fn a_signed_token_opens_a_protected_route() {
    let state = make_state(true, None);
    let line = ["Bearer ", signed_token().as_str()].concat();
    let headers = vec![header("authorization", Some(line.as_str()))];
    let mut ctx = context("GET", "/private", Some("private"));
    let text = match AuthFilter.request_filter(&ctx, &headers, &state) {
        AuthOutcome::Claims(text) => text,
        _ => panic!("refused"),
    };

    let auth = state.auth_config().unwrap().clone();
    let data: serde_json::Value = serde_json::from_str(&text).unwrap();
    let claims = JwtClaims {
        iss: data["iss"].as_str().unwrap().to_string(),
        sub: data["sub"].as_str().unwrap().to_string(),
        exp: data["exp"].as_u64().unwrap() as usize,
        iat: data["iat"].as_u64().map(|t| t as usize),
        extra: StrMap::new(),
    };

    let (result, set) = AuthFilter.verified(&mut ctx, &auth, &Ok(claims));
    assert_eq!(status(&result), None);
    assert_eq!(ctx.auth_user_id.as_deref(), Some("user-42"));
    let set: Vec<(&str, &str)> = set.iter().map(|h| (h.name.as_str(), h.value.as_str())).collect();
    assert_eq!(
        set,
        vec![
            ("X-User-Sub", "user-42"),
            ("X-User-Iat", "1767225600"),
            ("X-User-Exp", "4102444800"),
        ]
    );

    let mut ctx = context("GET", "/private", Some("private"));
    let (result, set) = AuthFilter.verified(&mut ctx, &auth, &Err("no claims".to_string()));
    assert_eq!(status(&result), Some(401));
    assert!(set.is_empty());
    assert_eq!(ctx.auth_user_id, None);
}

#[test]
fn a_token_that_fails_a_check_is_refused() {
    let state = make_state(true, None);
    let key = &state.auth_config().unwrap().decoding_key;
    let check = |token: &str, issuer: &str| TokenCheck::new(token.to_string(), issuer.to_string());
    let token = signed_token();
    assert!(check(&token, "kirin-auth").verify(key).unwrap().contains("user-42"));
    let refused = |check: &TokenCheck| check.verify(key).unwrap_err();

    assert_eq!(refused(&check(&token, "someone-else")), "InvalidIssuer");
    let parts: Vec<&str> = token.split('.').collect();
    let cut = [parts[0], parts[1], "AAAA"].join(".");
    assert_eq!(refused(&check(&cut, "kirin-auth")), "InvalidSignature");
    // {"alg":"HS256","typ":"JWT"}
    let other = ["eyJhbGciOiJIUzI1NiIsInR5cCI6IkpXVCJ9", parts[1], parts[2]].join(".");
    assert_eq!(refused(&check(&other, "kirin-auth")), "InvalidAlgorithm");
    let mut more = check(&token, "kirin-auth");
    more.required_claims.push("nbf".to_string());
    assert_eq!(refused(&more), "Missing required claim: nbf");

    match AuthOutcome::of(Err("InvalidSignature".to_string())) {
        AuthOutcome::Refuse { reject, reason } => {
            assert_eq!(reject.status_code(), 401);
            assert_eq!(reason, "InvalidSignature");
        },
        _ => panic!("accepted"),
    }
}

#[test]
fn every_configured_claim_of_the_token_is_handed_on() {
    let state = make_state(true, None);
    let auth = state.auth_config().unwrap();
    let mut extra = StrMap::new();
    extra.insert("roles".to_string(), ClaimValue::Text("admin".to_string()));
    extra.insert("tenant".to_string(), ClaimValue::Json("{\"id\":1}".to_string()));
    let claims = JwtClaims {
        iss: "kirin-auth".to_string(),
        sub: "u1".to_string(),
        exp: 4102444800,
        iat: Some(5),
        extra,
    };
    let mut ctx = context("GET", "/private", Some("private"));
    let (result, set) = AuthFilter.verified(&mut ctx, auth, &Ok(claims));
    assert_eq!(status(&result), None);
    let set: Vec<(&str, &str)> = set.iter().map(|h| (h.name.as_str(), h.value.as_str())).collect();
    assert_eq!(
        set,
        vec![
            ("X-User-Sub", "u1"),
            ("X-User-Iat", "5"),
            ("X-User-Roles", "admin"),
            ("X-User-Exp", "4102444800"),
        ]
    );
}

#[test]
fn claims_become_texts() {
    let mut extra = StrMap::new();
    extra.insert("roles".to_string(), ClaimValue::Json("[\"a\",\"b\"]".to_string()));
    extra.insert("sub".to_string(), ClaimValue::Text("other".to_string()));
    let claims = JwtClaims {
        iss: "i".to_string(),
        sub: "s".to_string(),
        exp: 7,
        iat: None,
        extra,
    };
    assert_eq!(claim_to_string(&claims, "roles").as_deref(), Some("[\"a\",\"b\"]"));
    assert_eq!(claim_to_string(&claims, "iss").as_deref(), Some("i"));
    assert_eq!(claim_to_string(&claims, "sub").as_deref(), Some("s"));
    assert_eq!(claim_to_string(&claims, "exp").as_deref(), Some("7"));
    assert_eq!(claim_to_string(&claims, "iat").as_deref(), Some("null"));
    assert_eq!(claim_to_string(&claims, "aud"), None);
    assert_eq!(capitalize("sub"), "Sub");
    assert_eq!(capitalize("ßa"), "SSa");
    assert_eq!(capitalize(""), "");
}

#[test]
fn headers_and_log_lines() {
    let ctx = context("GET", "/a", None);
    assert_eq!(status(&HeaderFilter.request_filter()), None);
    let set = HeaderFilter.response_filter();
    assert_eq!((set.name.as_str(), set.value.as_str()), ("X-Powered-By", "Kirin Gateway"));
    let set = gateway_header();
    assert_eq!((set.name.as_str(), set.value.as_str()), ("X-Gateway", "Kirin Gateway"));
    let (result, line) = LoggingFilter.request_filter(&ctx);
    assert_eq!(status(&result), None);
    assert_eq!(line, "[LoggingFilter] GET /a");
    assert_eq!(LoggingFilter.response_filter(204), "[LoggingFilter] Response status: 204");

    assert_eq!(HeaderMiddleware.name(), "header-middleware");
    assert_eq!(HeaderMiddleware.request_filter().name, "X-Gateway");
    assert_eq!(HeaderMiddleware.response_filter().name, "X-Powered-By");
    assert_eq!(LoggingMiddleware.name(), "logging-middleware");
    assert_eq!(
        LoggingMiddleware.request_filter("GET", Some("/a?b=c")),
        "[LoggingMiddleware] GET /a?b=c"
    );
    assert_eq!(LoggingMiddleware.request_filter("GET", None), "[LoggingMiddleware] GET /");
    assert_eq!(
        LoggingMiddleware.response_filter(500),
        "[LoggingMiddleware] Response status: 500"
    );

    assert_eq!(MethodFilter.name().to_text(), "method-filter");
    assert_eq!(AuthFilter.name().to_text(), "auth-filter");
    assert_eq!(RateLimitFilter.name().to_text(), "rate-limit-filter");
    assert_eq!(HeaderFilter.name().to_text(), "header-filter");
    assert_eq!(LoggingFilter.name().to_text(), "logging-filter");
    assert_eq!(WhiteListFilter.name().to_text(), "whitelist-filter");
}
