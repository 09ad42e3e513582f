//! The way of a request through the gateway: what is decided at each stage of it.
use crate::config::types::{
    CanaryConfig, CanaryView, StickyCookieConfig, StickyCookieView, StickyStrategy,
};
use crate::control_plane::gateway_state::model::StateView;
use crate::control_plane::gateway_state::GatewayState;
use crate::data_plane::filter::auth::needs_token;
use crate::data_plane::filter::method::method_decision;
use crate::data_plane::filter::{
    find_header_text, header_text, reject_status, FilterContext, FilterContextView, FilterReject,
    FilterResult, HeaderChange, HeaderChangeView, HeaderLine, HeaderView,
};
use crate::data_plane::ip::{ip_allowed, is_ip_allowed};
use crate::data_plane::router::model::{cookie_name, fair_value, ContextView, MatchView};
use crate::data_plane::router::router_white_list::{
    resolve, resolved_route_is_registered, valid_entries,
};
use crate::data_plane::router::{sticky_cookie_name, CanaryContext, RouteMatch};
use crate::data_plane::upstream::{ClusterView, UpstreamCluster};
use crate::model::{map_views, opt_view, views};
use crate::str_map::{entry_of, lemma_map_views, with_entry, StrMap};
use crate::text::{
    copy_opt, cut, decimal, decimal_text, join5, opt_text, pieces, same_text, split, split_once,
    texts, trim, trimmed,
};
use std::sync::Arc;
use std::time::Instant;
use vstd::prelude::*;

pub mod laws;

verus! {

/// Which version of a service a request was sent to, and how it is kept there.
pub struct CanaryDecision {
    /// Id of the route.
    pub route_id: String,
    /// The cookie that keeps the client on the route, if any.
    pub sticky_cookie: Option<StickyCookieConfig>,
    /// Whether the client was not yet kept there by its cookie.
    pub is_new_assignment: bool,
}

#[verifier::ext_equal]
pub struct DecisionView {
    pub route_id: Seq<char>,
    pub sticky_cookie: Option<StickyCookieView>,
    pub is_new_assignment: bool,
}

impl View for CanaryDecision {
    type V = DecisionView;

    open spec fn view(&self) -> DecisionView {
        DecisionView {
            route_id: self.route_id@,
            sticky_cookie: opt_view(self.sticky_cookie),
            is_new_assignment: self.is_new_assignment,
        }
    }
}

/// What is known of a request on its way.
pub struct RequestContext {
    pub filter_ctx: Option<FilterContext>,
    pub canary_decision: Option<CanaryDecision>,
}

#[verifier::ext_equal]
pub struct RequestView {
    pub filter_ctx: Option<FilterContextView>,
    pub canary_decision: Option<DecisionView>,
}

impl View for RequestContext {
    type V = RequestView;

    open spec fn view(&self) -> RequestView {
        RequestView {
            filter_ctx: opt_view(self.filter_ctx),
            canary_decision: opt_view(self.canary_decision),
        }
    }
}

impl RequestContext {
    /// Nothing is known of a request at first.
    pub fn new() -> (r: Self)
        ensures
            r@ == (RequestView { filter_ctx: None, canary_decision: None }),
    {
        RequestContext { filter_ctx: None, canary_decision: None }
    }
}

// ---- the beginning of a request ----

/// The path of a request: "/" where it has none.
pub open spec fn path_or_root(path: Option<Seq<char>>) -> Seq<char> {
    match path {
        Some(p) => p,
        None => "/"@,
    }
}

/// What the filters know of a request at first. The route is that of the registry, so
/// that the method filter and the authentication filter can act on it.
pub open spec fn first_context(
    path: Option<Seq<char>>,
    method: Seq<char>,
    client_ip: Option<Seq<char>>,
    start_time: Instant,
    state: StateView,
) -> FilterContextView {
    FilterContextView {
        path: path_or_root(path),
        method,
        client_ip: match client_ip {
            Some(ip) => ip,
            None => Seq::empty(),
        },
        upstream_name: None,
        route_id: match resolve(state.entries, path_or_root(path)) {
            Some(entry) => Some(entry.route_id),
            None => None,
        },
        start_time,
        rate_limit_remaining: None,
        auth_user_id: None,
    }
}

/// Begins a request: the metrics page is served by the gateway itself, any other request
/// goes to the filters. Tells whether the request is for the metrics page.
pub fn begin_request(
    ctx: &mut RequestContext,
    path: &Option<String>,
    method: &str,
    client_ip: &Option<String>,
    start_time: Instant,
    state: &GatewayState,
) -> (r: bool)
    ensures
        r == (path_or_root(opt_text(*path)) == "/metrics"@),
        r ==> final(ctx)@ == old(ctx)@,
        !r ==> final(ctx)@ == (RequestView {
            filter_ctx: Some(
                first_context(opt_text(*path), method@, opt_text(*client_ip), start_time, state@),
            ),
            ..old(ctx)@
        }),
{
    let path = match path {
        Some(p) => p.clone(),
        None => "/".to_owned(),
    };
    if same_text(path.as_str(), "/metrics") {
        return true;
    }
    let client_ip = match client_ip {
        Some(ip) => ip.clone(),
        None => {
            let none = String::new();
            assert(none@ =~= Seq::<char>::empty());
            none
        },
    };
    let route_id = state.resolve_path(path.as_str());
    ctx.filter_ctx = Some(
        FilterContext {
            path,
            method: method.to_owned(),
            client_ip,
            upstream_name: None,
            route_id,
            start_time,
            rate_limit_remaining: None,
            auth_user_id: None,
        },
    );
    false
}

/// The status with which a request is answered at once, if the filters refuse it.
pub fn refused_status(result: &FilterResult) -> (r: Option<u16>)
    ensures
        r == match *result {
            FilterResult::Continue => None,
            FilterResult::Stop(reject) => Some(reject_status(reject)),
        },
{
    match result {
        FilterResult::Continue => None,
        FilterResult::Stop(reject) => Some(reject.status_code()),
    }
}

// ---- what a request carries ----

/// Texts by name.
pub type TextMap = Seq<(Seq<char>, Seq<char>)>;

/// The headers of a request that are text, by name; the last one of a name counts.
pub open spec fn header_map(headers: Seq<HeaderView>) -> TextMap
    decreases headers.len(),
{
    if headers.len() == 0 {
        Seq::empty()
    } else {
        let before = header_map(headers.drop_last());
        match headers.last().value {
            Some(value) => with_entry(before, headers.last().name, value),
            None => before,
        }
    }
}

/// The cookies of a list of "name=value" pieces; white space round names and values does
/// not count, nor does a piece without "=".
pub open spec fn cookie_map(list: Seq<Seq<char>>) -> TextMap
    decreases list.len(),
{
    if list.len() == 0 {
        Seq::empty()
    } else {
        let before = cookie_map(list.drop_last());
        match cut(trimmed(list.last()), '=') {
            Some((key, value)) => with_entry(before, trimmed(key), trimmed(value)),
            None => before,
        }
    }
}

/// The parameters of a list of "name=value" pieces; a piece without "=" does not count.
pub open spec fn query_map(list: Seq<Seq<char>>) -> TextMap
    decreases list.len(),
{
    if list.len() == 0 {
        Seq::empty()
    } else {
        let before = query_map(list.drop_last());
        match cut(list.last(), '=') {
            Some((key, value)) => with_entry(before, key, value),
            None => before,
        }
    }
}

/// What a request carries that can decide between versions.
pub open spec fn canary_context(
    headers: Seq<HeaderView>,
    query: Option<Seq<char>>,
    client_ip: Option<Seq<char>>,
) -> ContextView {
    ContextView {
        headers: header_map(headers),
        cookies: match header_text(headers, "cookie"@) {
            Some(line) => cookie_map(pieces(line, ';')),
            None => Seq::empty(),
        },
        query_params: match query {
            Some(q) => query_map(pieces(q, '&')),
            None => Seq::empty(),
        },
        client_ip,
    }
}

/// What a request carries that can decide between versions.
pub fn build_canary_context(
    headers: &Vec<HeaderLine>,
    query: &Option<String>,
    client_ip: &Option<String>,
) -> (r: CanaryContext)
    ensures
        r@ == canary_context(views(headers@), opt_text(*query), opt_text(*client_ip)),
{
    let cookies = match find_header_text(headers, "cookie") {
        Some(line) => parse_cookies(&split(line.as_str(), ';')),
        None => {
            let none: StrMap<String> = StrMap::new();
            assert(map_views(none@) =~= Seq::<(Seq<char>, Seq<char>)>::empty());
            none
        },
    };
    let query_params = match query {
        Some(q) => parse_query(&split(q.as_str(), '&')),
        None => {
            let none: StrMap<String> = StrMap::new();
            assert(map_views(none@) =~= Seq::<(Seq<char>, Seq<char>)>::empty());
            none
        },
    };
    CanaryContext {
        headers: collect_headers(headers),
        cookies,
        query_params,
        client_ip: copy_opt(client_ip),
    }
}

fn collect_headers(headers: &Vec<HeaderLine>) -> (r: StrMap<String>)
    ensures
        map_views(r@) == header_map(views(headers@)),
{
    let ghost all = views(headers@);
    let mut r: StrMap<String> = StrMap::new();
    let mut i: usize = 0;
    assert(map_views(r@) =~= header_map(all.take(0)));
    while i < headers.len()
        invariant
            i <= headers@.len(),
            all == views(headers@),
            map_views(r@) == header_map(all.take(i as int)),
        decreases headers@.len() - i,
    {
        proof {
            assert(all.take(i + 1).drop_last() =~= all.take(i as int));
            assert(all.take(i + 1).last() == headers@[i as int]@);
            lemma_map_views(r@, headers@[i as int].name@);
        }
        if let Some(value) = &headers[i].value {
            r.insert(headers[i].name.clone(), value.clone());
        }
        i += 1;
    }
    assert(all.take(i as int) =~= all);
    r
}

fn parse_cookies(list: &Vec<String>) -> (r: StrMap<String>)
    ensures
        map_views(r@) == cookie_map(texts(list@)),
{
    let ghost all = texts(list@);
    let mut r: StrMap<String> = StrMap::new();
    let mut i: usize = 0;
    assert(map_views(r@) =~= cookie_map(all.take(0)));
    while i < list.len()
        invariant
            i <= list@.len(),
            all == texts(list@),
            map_views(r@) == cookie_map(all.take(i as int)),
        decreases list@.len() - i,
    {
        proof {
            assert(all.take(i + 1).drop_last() =~= all.take(i as int));
            assert(all.take(i + 1).last() == list@[i as int]@);
        }
        if let Some((key, value)) = split_once(trim(list[i].as_str()), '=') {
            let key = trim(key.as_str()).to_owned();
            proof {
                lemma_map_views(r@, key@);
            }
            r.insert(key, trim(value.as_str()).to_owned());
        }
        i += 1;
    }
    assert(all.take(i as int) =~= all);
    r
}

fn parse_query(list: &Vec<String>) -> (r: StrMap<String>)
    ensures
        map_views(r@) == query_map(texts(list@)),
{
    let ghost all = texts(list@);
    let mut r: StrMap<String> = StrMap::new();
    let mut i: usize = 0;
    assert(map_views(r@) =~= query_map(all.take(0)));
    while i < list.len()
        invariant
            i <= list@.len(),
            all == texts(list@),
            map_views(r@) == query_map(all.take(i as int)),
        decreases list@.len() - i,
    {
        proof {
            assert(all.take(i + 1).drop_last() =~= all.take(i as int));
            assert(all.take(i + 1).last() == list@[i as int]@);
        }
        if let Some((key, value)) = split_once(list[i].as_str(), '=') {
            proof {
                lemma_map_views(r@, key@);
            }
            r.insert(key, value);
        }
        i += 1;
    }
    assert(all.take(i as int) =~= all);
    r
}

// ---- the choice of an upstream ----

/// Why a request cannot be sent on.
#[derive(Clone, Copy, Debug, PartialEq, Eq, Structural)]
pub enum PeerError {
    /// No route matches.
    NoRoute,
    /// The path is not registered.
    NotRegistered,
    /// The cluster of the route is not there.
    NoCluster,
    /// The address lists of the route keep the client out.
    IpNotAllowed,
    /// No node of the cluster can take the request.
    NoPeer,
}

/// The message of the error.
pub open spec fn peer_error_text(e: PeerError) -> Seq<char> {
    match e {
        PeerError::NoRoute => "404 No route matched"@,
        PeerError::NotRegistered => "403 Route not registered in whitelist"@,
        PeerError::NoCluster => "上游集群未注册"@,
        PeerError::IpNotAllowed => "403 IP not allowed"@,
        PeerError::NoPeer => "无可用上游节点"@,
    }
}

/// The status with which the client is answered.
pub open spec fn peer_error_status(e: PeerError) -> u16 {
    match e {
        PeerError::NotRegistered => 403,
        PeerError::NoRoute | PeerError::NoCluster | PeerError::IpNotAllowed => 500,
        PeerError::NoPeer => 502,
    }
}

impl PeerError {
    /// The message of the error.
    pub fn to_text(&self) -> (r: &'static str)
        ensures
            r@ == peer_error_text(*self),
    {
        match self {
            PeerError::NoRoute => "404 No route matched",
            PeerError::NotRegistered => "403 Route not registered in whitelist",
            PeerError::NoCluster => "上游集群未注册",
            PeerError::IpNotAllowed => "403 IP not allowed",
            PeerError::NoPeer => "无可用上游节点",
        }
    }

    /// The status with which the client is answered.
    pub fn status_code(&self) -> (r: u16)
        ensures
            r == peer_error_status(*self),
    {
        match self {
            PeerError::NotRegistered => 403,
            PeerError::NoRoute | PeerError::NoCluster | PeerError::IpNotAllowed => 500,
            PeerError::NoPeer => 502,
        }
    }
}

/// Whether the cookie of a request already keeps it on the given route.
pub open spec fn kept_by_cookie(canary: CanaryView, ctx: ContextView, route_id: Seq<char>) -> bool {
    canary.stick == Some(StickyStrategy::Cookie) && entry_of(ctx.cookies, cookie_name(canary))
        == Some(route_id)
}

/// Whether the cookie of a request already keeps it on the given route.
pub fn is_cookie_sticky_match(
    canary: &CanaryConfig,
    ctx: &CanaryContext,
    matched_route_id: &str,
) -> (r: bool)
    ensures
        r == kept_by_cookie(canary@, ctx@, matched_route_id@),
{
    let by_cookie = match canary.stick {
        Some(stick) => stick == StickyStrategy::Cookie,
        None => false,
    };
    if !by_cookie {
        return false;
    }
    let name = sticky_cookie_name(canary);
    proof {
        lemma_map_views(ctx.cookies@, name@);
    }
    match ctx.cookies.get(name.as_str()) {
        Some(value) => same_text(value.as_str(), matched_route_id),
        None => false,
    }
}

/// What is decided about the version of a service when a request takes a route with a
/// canary release.
pub open spec fn decision(canary: CanaryView, ctx: ContextView, route_id: Seq<char>) -> DecisionView {
    DecisionView {
        route_id,
        sticky_cookie: if canary.stick == Some(StickyStrategy::Cookie) {
            match canary.sticky_cookie {
                Some(cookie) => Some(cookie),
                None => Some(crate::config::types::default_cookie()),
            }
        } else {
            None
        },
        is_new_assignment: !kept_by_cookie(canary, ctx, route_id),
    }
}

/// What is decided about the version of a service.
fn decide(canary: &CanaryConfig, ctx: &CanaryContext, route_id: &str) -> (r: CanaryDecision)
    ensures
        r@ == decision(canary@, ctx@, route_id@),
{
    let by_cookie = match canary.stick {
        Some(stick) => stick == StickyStrategy::Cookie,
        None => false,
    };
    let sticky_cookie = if by_cookie {
        match &canary.sticky_cookie {
            Some(cookie) => Some(cookie.clone()),
            None => Some(StickyCookieConfig::default()),
        }
    } else {
        None
    };
    CanaryDecision {
        route_id: route_id.to_owned(),
        sticky_cookie,
        is_new_assignment: !is_cookie_sticky_match(canary, ctx, route_id),
    }
}

/// The cluster that a request is sent to when it has taken the given route, or why it is
/// sent nowhere: there is no route, the path is not registered, there is no cluster, or
/// the client is kept out.
pub open spec fn peer_cluster(
    state: StateView,
    path: Seq<char>,
    ctx: ContextView,
    taken: Option<MatchView>,
) -> Result<ClusterView, PeerError> {
    match taken {
        None => Err(PeerError::NoRoute),
        Some(m) => if resolve(state.entries, path) is None {
            Err(PeerError::NotRegistered)
        } else {
            match entry_of(state.clusters, m.upstream) {
                None => Err(PeerError::NoCluster),
                Some(cluster) => if client_allowed(state, ctx, m) {
                    Ok(cluster)
                } else {
                    Err(PeerError::IpNotAllowed)
                },
            }
        },
    }
}

/// Whether the address lists of the route taken let the client in.
pub open spec fn client_allowed(state: StateView, ctx: ContextView, m: MatchView) -> bool {
    match state.router.find(m.route_id) {
        Some(rule) => ip_allowed(
            match ctx.client_ip {
                Some(ip) => ip,
                None => ""@,
            },
            rule.ip_whitelist,
            rule.ip_blacklist,
        ),
        None => true,
    }
}

/// What is noted of a request when it has taken the given route.
pub open spec fn peer_noted(
    request: RequestView,
    state: StateView,
    path: Seq<char>,
    ctx: ContextView,
    taken: Option<MatchView>,
) -> RequestView {
    match peer_cluster(state, path, ctx, taken) {
        Err(PeerError::IpNotAllowed) => RequestView {
            filter_ctx: match request.filter_ctx {
                Some(f) => Some(
                    FilterContextView {
                        route_id: Some(resolve(state.entries, path)->0.route_id),
                        ..f
                    },
                ),
                None => None,
            },
            ..request
        },
        Err(_) => request,
        Ok(_) => {
            let m = taken->0;
            RequestView {
                filter_ctx: match request.filter_ctx {
                    Some(f) => Some(
                        FilterContextView {
                            route_id: Some(resolve(state.entries, path)->0.route_id),
                            upstream_name: Some(m.upstream),
                            ..f
                        },
                    ),
                    None => None,
                },
                canary_decision: match state.router.find(m.route_id) {
                    Some(rule) => match rule.canary {
                        Some(canary) => Some(decision(canary, ctx, m.route_id)),
                        None => request.canary_decision,
                    },
                    None => request.canary_decision,
                },
            }
        },
    }
}

/// Chooses the cluster of a request that has taken the given route, and notes what was
/// decided.
pub fn plan_upstream(
    state: &GatewayState,
    path: &str,
    canary_ctx: &CanaryContext,
    taken: &Option<RouteMatch>,
    ctx: &mut RequestContext,
) -> (r: Result<Arc<UpstreamCluster>, PeerError>)
    ensures
        match r {
            Ok(cluster) => peer_cluster(state@, path@, canary_ctx@, opt_view(*taken)) == Ok::<
                ClusterView,
                PeerError,
            >(cluster@),
            Err(e) => peer_cluster(state@, path@, canary_ctx@, opt_view(*taken)) == Err::<
                ClusterView,
                PeerError,
            >(e),
        },
        final(ctx)@ == peer_noted(
            old(ctx)@,
            state@,
            path@,
            canary_ctx@,
            opt_view(*taken),
        ),
{
    let route_match = match taken {
        Some(m) => m,
        None => {
            return Err(PeerError::NoRoute);
        },
    };
    let route_id = match state.resolve_path(path) {
        Some(id) => id,
        None => {
            return Err(PeerError::NotRegistered);
        },
    };
    let cluster = match state.get_cluster(route_match.upstream.as_str()) {
        Some(c) => c,
        None => {
            return Err(PeerError::NoCluster);
        },
    };
    if let Some(fctx) = &mut ctx.filter_ctx {
        fctx.route_id = Some(route_id);
    }
    if let Some(info) = state.find_route_info_by_id(route_match.route_id.as_str()) {
        let client_ip = match &canary_ctx.client_ip {
            Some(ip) => ip.as_str(),
            None => "",
        };
        if !is_ip_allowed(client_ip, &info.ip_whitelist, &info.ip_blacklist) {
            return Err(PeerError::IpNotAllowed);
        }
    }
    if let Some(canary) = state.find_canary_config_by_route_id(route_match.route_id.as_str()) {
        ctx.canary_decision = Some(decide(&canary, canary_ctx, route_match.route_id.as_str()));
    }
    if let Some(fctx) = &mut ctx.filter_ctx {
        fctx.upstream_name = Some(route_match.upstream.clone());
    }
    Ok(cluster)
}

/// Routes a request and chooses its cluster.
pub fn upstream_peer(
    state: &GatewayState,
    path: &str,
    canary_ctx: &CanaryContext,
    ctx: &mut RequestContext,
) -> (r: Result<Arc<UpstreamCluster>, PeerError>)
    ensures
        exists|value: u8|
            #![trigger state@.router.route(path@, canary_ctx@, value)]
            fair_value(state@.router.candidates(path@), canary_ctx@, value) && ({
                let taken = state@.router.route(path@, canary_ctx@, value);
                &&& final(ctx)@ == peer_noted(old(ctx)@, state@, path@, canary_ctx@, taken)
                &&& match r {
                    Ok(cluster) => peer_cluster(state@, path@, canary_ctx@, taken) == Ok::<
                        ClusterView,
                        PeerError,
                    >(cluster@),
                    Err(e) => peer_cluster(state@, path@, canary_ctx@, taken) == Err::<
                        ClusterView,
                        PeerError,
                    >(e),
                }
            }),
{
    let taken = state.match_route(path, canary_ctx);
    plan_upstream(state, path, canary_ctx, &taken, ctx)
}

/// The key by which a cluster with consistent hashing chooses a node: the address of the
/// client.
pub fn peer_key(ctx: &RequestContext) -> (r: String)
    ensures
        r@ == match ctx@.filter_ctx {
            Some(f) => f.client_ip,
            None => ""@,
        },
{
    match &ctx.filter_ctx {
        Some(f) => f.client_ip.clone(),
        None => "".to_owned(),
    }
}

// ---- the response ----

/// The cookie that keeps a client on its route, as a header of the response: it is set
/// where the client was newly assigned to a route that keeps clients by cookie.
pub open spec fn sticky_header(request: RequestView) -> Option<HeaderChangeView> {
    match (request.filter_ctx, request.canary_decision) {
        (Some(_), Some(d)) => match d.sticky_cookie {
            Some(cookie) => if d.is_new_assignment {
                Some(
                    HeaderChangeView {
                        name: "Set-Cookie"@,
                        value: cookie.name + "="@ + d.route_id + "; Path="@ + cookie.path
                            + "; Max-Age="@ + decimal(cookie.max_age as nat),
                    },
                )
            } else {
                None
            },
            None => None,
        },
        _ => None,
    }
}

/// The cookie that keeps a client on its route, as a header of the response.
pub fn sticky_cookie_header(ctx: &RequestContext) -> (r: Option<HeaderChange>)
    ensures
        opt_view(r) == sticky_header(ctx@),
{
    if ctx.filter_ctx.is_none() {
        return None;
    }
    match &ctx.canary_decision {
        Some(d) => match &d.sticky_cookie {
            Some(cookie) => {
                if d.is_new_assignment {
                    let mut value = join5(
                        cookie.name.as_str(),
                        "=",
                        d.route_id.as_str(),
                        "; Path=",
                        cookie.path.as_str(),
                    );
                    value.append("; Max-Age=");
                    value.append(decimal_text(cookie.max_age).as_str());
                    Some(HeaderChange { name: "Set-Cookie".to_owned(), value })
                } else {
                    None
                }
            },
            None => None,
        },
        None => None,
    }
}

// ---- the end of a request ----

/// Under which labels a finished request is counted.
pub struct RequestRecord {
    /// HTTP method.
    pub method: String,
    /// Name of the upstream cluster.
    pub upstream: String,
    /// Whether the request failed.
    pub failed: bool,
    /// Id of the route and status, where the route has a canary release.
    pub canary: Option<(String, String)>,
}

#[verifier::ext_equal]
pub struct RecordView {
    pub method: Seq<char>,
    pub upstream: Seq<char>,
    pub failed: bool,
    pub canary: Option<(Seq<char>, Seq<char>)>,
}

impl View for RequestRecord {
    type V = RecordView;

    open spec fn view(&self) -> RecordView {
        RecordView {
            method: self.method@,
            upstream: self.upstream@,
            failed: self.failed,
            canary: match self.canary {
                Some(c) => Some((c.0@, c.1@)),
                None => None,
            },
        }
    }
}

/// Under which labels a finished request is counted; one that the filters never saw is
/// not counted.
pub open spec fn record(request: RequestView, failed: bool) -> Option<RecordView> {
    match request.filter_ctx {
        None => None,
        Some(f) => Some(
            RecordView {
                method: f.method,
                upstream: match f.upstream_name {
                    Some(u) => u,
                    None => "unknown"@,
                },
                failed,
                canary: match request.canary_decision {
                    Some(d) => Some(
                        (
                            d.route_id,
                            if failed {
                                "500"@
                            } else {
                                "200"@
                            },
                        ),
                    ),
                    None => None,
                },
            },
        ),
    }
}

/// Under which labels a finished request is counted.
pub fn request_record(ctx: &RequestContext, failed: bool) -> (r: Option<RequestRecord>)
    ensures
        opt_view(r) == record(ctx@, failed),
{
    match &ctx.filter_ctx {
        None => None,
        Some(f) => {
            let upstream = match &f.upstream_name {
                Some(u) => u.clone(),
                None => "unknown".to_owned(),
            };
            let canary = match &ctx.canary_decision {
                Some(d) => {
                    let status = if failed {
                        "500".to_owned()
                    } else {
                        "200".to_owned()
                    };
                    Some((d.route_id.clone(), status))
                },
                None => None,
            };
            Some(RequestRecord { method: f.method.clone(), upstream, failed, canary })
        },
    }
}

// ---- laws ----

/// Where authentication is configured, every request for a path whose registered route is
/// protected needs a token, from the beginning of the request on.
pub proof fn protected_paths_need_a_token(
    path: Option<Seq<char>>,
    method: Seq<char>,
    client_ip: Option<Seq<char>>,
    start_time: Instant,
    state: StateView,
)
    requires
        valid_entries(state.entries),
        state.auth is Some,
        resolve(state.entries, path_or_root(path)) matches Some(entry) && entry.is_auth,
    ensures
        needs_token(first_context(path, method, client_ip, start_time, state), state),
{
    resolved_route_is_registered(state.entries, path_or_root(path));
}

/// Every request for a path whose registered route does not allow its method is refused by
/// the method filter, from the beginning of the request on.
pub proof fn disallowed_methods_of_a_path_are_refused(
    path: Option<Seq<char>>,
    method: Seq<char>,
    client_ip: Option<Seq<char>>,
    start_time: Instant,
    state: StateView,
)
    requires
        valid_entries(state.entries),
        resolve(state.entries, path_or_root(path)) matches Some(entry) && entry.methods.len() > 0
            && !entry.methods.contains(method),
    ensures
        method_decision(
            first_context(path, method, client_ip, start_time, state),
            state.entries,
        ) == FilterResult::Stop(FilterReject::MethodNotAllowed),
{
    resolved_route_is_registered(state.entries, path_or_root(path));
}

/// A client that comes back with the cookie of the route that it takes is not given the
/// cookie again.
pub proof fn sticky_cookie_is_given_once(
    canary: CanaryView,
    ctx: ContextView,
    request: RequestView,
    route_id: Seq<char>,
)
    requires
        canary.stick == Some(StickyStrategy::Cookie),
        entry_of(ctx.cookies, cookie_name(canary)) == Some(route_id),
        request.canary_decision == Some(decision(canary, ctx, route_id)),
    ensures
        sticky_header(request) is None,
{
}

/// A client without the cookie is given one that names its route.
pub proof fn new_client_is_given_a_cookie(
    canary: CanaryView,
    ctx: ContextView,
    request: RequestView,
    route_id: Seq<char>,
)
    requires
        canary.stick == Some(StickyStrategy::Cookie),
        entry_of(ctx.cookies, cookie_name(canary)) is None,
        request.filter_ctx is Some,
        request.canary_decision == Some(decision(canary, ctx, route_id)),
    ensures
        sticky_header(request) matches Some(h) && h.name == "Set-Cookie"@ && (cookie_name(canary)
            + "="@ + route_id).is_prefix_of(h.value),
{
    let d = decision(canary, ctx, route_id);
    let cookie = d.sticky_cookie->0;
    assert(cookie.name == cookie_name(canary));
    let h = sticky_header(request)->0;
    let start = cookie.name + "="@ + route_id;
    assert(h.value =~= start + ("; Path="@ + cookie.path + "; Max-Age="@ + decimal(
        cookie.max_age as nat,
    )));
    assert(h.value.subrange(0, start.len() as int) =~= start);
}

/// A request is sent on only if it has taken a route, its path is registered, the cluster
/// of the route is there and the address lists of the route let the client in; and it is
/// then sent to that cluster.
pub proof fn requests_are_sent_on_only_if_allowed(
    state: StateView,
    path: Seq<char>,
    ctx: ContextView,
    taken: Option<MatchView>,
)
    ensures
        peer_cluster(state, path, ctx, taken) is Ok <==> {
            &&& taken matches Some(m) && resolve(state.entries, path) is Some && client_allowed(
                state,
                ctx,
                m,
            ) && entry_of(state.clusters, m.upstream) is Some
        },
        peer_cluster(state, path, ctx, taken) matches Ok(cluster) ==> entry_of(
            state.clusters,
            taken->0.upstream,
        ) == Some(cluster),
{
}

} // verus!
