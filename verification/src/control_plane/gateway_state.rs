//! The state of the gateway: how it is made from a configuration and how it follows
//! the changes of one.
use crate::clock::monotonic_reading;
use crate::config::types::{
    copy_canary, file_view, opt_texts, AuthConfig, AuthConfigRaw, CanaryConfig, CanaryMatchRule,
    KirinConfig, NodeConfig, RouteConfig, StickyCookieConfig, UpstreamConfig,
};
use crate::config::validation::id_among;
use crate::control_plane::admin_api::cluster_summaries;
use crate::control_plane::admin_api::dto::{RateLimitDTO, UpstreamDTO};
use crate::data_plane::filter::{FilterChain, FilterName};
use crate::data_plane::ip::parse_opt_list;
use crate::data_plane::rate_limit::{clock_shows, LimiterView, RateLimiter, Uptime};
use crate::data_plane::router::model as router_model;
use crate::data_plane::router::router_white_list::{resolve, RouteEntry, RouteRegistry};
use crate::data_plane::router::{
    CanaryContext, MatchType, RouteMatch, RouteRule, RouteRuleInfo, Router,
};
use crate::data_plane::upstream::{ClusterView, UpstreamCluster};
use crate::model::{map_views, opt_list, opt_view, views};
use crate::outside::debug_texts;
use crate::str_map::{entry_of, lemma_map_views, StrMap};
use crate::text::{
    copy_opt, copy_texts, join2, join3, join5, opt_text, same_opt, same_text, same_texts, texts,
};
use std::sync::Arc;
use std::time::Instant;
use vstd::prelude::*;

pub mod agreement;
pub mod follow_laws;
pub mod laws;
pub mod model;

verus! {

/// Why a configuration cannot be put into effect.
#[derive(Debug)]
pub enum StateError {
    /// A route names an upstream that is not configured.
    UnknownUpstream { path: String, upstream: String, available: Vec<String> },
    /// A route names no known match type.
    InvalidMatchType { route_id: String, value: String },
    /// A route cannot be built: its path is missing, its pattern does not compile, its
    /// id is in use, or an address list is no such list.
    RouteBuildFailed { route_id: String, reason: String },
    /// The key file cannot be used.
    AuthConfigFailed { reason: String },
    /// A cluster cannot be built.
    UpstreamBuildFailed { name: String, reason: String },
}

impl View for StateError {
    type V = model::StateErrorView;

    open spec fn view(&self) -> model::StateErrorView {
        match *self {
            StateError::UnknownUpstream { path, upstream, available } => {
                model::StateErrorView::UnknownUpstream {
                    path: path@,
                    upstream: upstream@,
                    available: texts(available@),
                }
            },
            StateError::InvalidMatchType { route_id, value } => {
                model::StateErrorView::InvalidMatchType { route_id: route_id@, value: value@ }
            },
            StateError::RouteBuildFailed { route_id, reason } => {
                model::StateErrorView::RouteBuildFailed { route_id: route_id@, reason: reason@ }
            },
            StateError::AuthConfigFailed { reason } => {
                model::StateErrorView::AuthConfigFailed { reason: reason@ }
            },
            StateError::UpstreamBuildFailed { name, reason } => {
                model::StateErrorView::UpstreamBuildFailed { name: name@, reason: reason@ }
            },
        }
    }
}

impl StateError {
    /// The message of the error.
    pub fn to_text(&self) -> (r: String)
        ensures
            r@ == self@.text(),
    {
        match self {
            StateError::UnknownUpstream { path, upstream, available } => {
                let mut r = join5(
                    "路由 '",
                    path.as_str(),
                    "' 引用了不存在的上游 '",
                    upstream.as_str(),
                    "'，可用上游: ",
                );
                r.append(debug_texts(available).as_str());
                r
            },
            StateError::InvalidMatchType { route_id, value } => join5(
                "路由 '",
                route_id.as_str(),
                "' 的 match_type '",
                value.as_str(),
                "' 无效，可选: exact, prefix, regex",
            ),
            StateError::RouteBuildFailed { route_id, reason } => {
                let mut r = join3("路由 '", route_id.as_str(), "' 构建失败: ");
                r.append(reason.as_str());
                r
            },
            StateError::AuthConfigFailed { reason } => join2(
                "认证配置加载失败: ",
                reason.as_str(),
            ),
            StateError::UpstreamBuildFailed { name, reason } => {
                let mut r = join3("上游集群 '", name.as_str(), "' 构建失败: ");
                r.append(reason.as_str());
                r
            },
        }
    }
}

/// What the data plane and the control plane share.
pub struct GatewayState {
    /// The routing table.
    pub router: Router,
    /// The registry of routes.
    pub registry: RouteRegistry,
    /// Upstream clusters by name.
    pub clusters: StrMap<Arc<UpstreamCluster>>,
    /// The filters.
    pub filter_chain: FilterChain,
    /// The rate limiter, where requests are limited.
    pub rate_limiter: Option<RateLimiter>,
    /// Authentication, where it is configured.
    pub auth_config: Option<AuthConfig>,
    config_snapshot: KirinConfig,
}

impl View for GatewayState {
    type V = model::StateView;

    closed spec fn view(&self) -> model::StateView {
        model::StateView {
            router: self.router@,
            entries: self.registry@,
            clusters: map_views(self.clusters@),
            chain: self.filter_chain@,
            limiter: opt_view(self.rate_limiter),
            auth: opt_view(self.auth_config),
            config: self.config_snapshot@,
        }
    }
}

/// The tables of a router and a registry.
spec fn tables(router: Router, registry: RouteRegistry) -> model::Tables {
    model::Tables { router: router@, entries: registry@ }
}

/// The match type that a configuration names.
pub fn parse_match_type(s: &str) -> (r: Option<MatchType>)
    ensures
        r == model::match_type_named(s@),
{
    if same_text(s, "exact") {
        Some(MatchType::Exact)
    } else if same_text(s, "prefix") {
        Some(MatchType::Prefix)
    } else if same_text(s, "regex") {
        Some(MatchType::Regex)
    } else {
        None
    }
}

/// The routing rule of a configured route.
fn build_rule(route_cfg: &RouteConfig, hint: &str) -> (r: Result<RouteRule, StateError>)
    ensures
        match r {
            Ok(rule) => model::rule_of(route_cfg@, hint@) == Ok::<
                router_model::RuleView,
                model::StateErrorView,
            >(rule@),
            Err(e) => model::rule_of(route_cfg@, hint@) == Err::<
                router_model::RuleView,
                model::StateErrorView,
            >(e@),
        },
{
    let match_type = match parse_match_type(route_cfg.match_type.as_str()) {
        Some(mt) => mt,
        None => {
            return Err(
                StateError::InvalidMatchType {
                    route_id: route_cfg.route_id.clone(),
                    value: route_cfg.match_type.clone(),
                },
            );
        },
    };
    let configured = match match_type {
        MatchType::Prefix => copy_opt(&route_cfg.path_prefix),
        _ => copy_opt(&route_cfg.path),
    };
    let path = match configured {
        Some(p) => p,
        None => {
            let label = match match_type {
                MatchType::Exact => "Exact",
                MatchType::Prefix => "Prefix",
                MatchType::Regex => "Regex",
            };
            let mut reason = join3("match_type 为 ", label, "，但缺少对应的路径配置");
            reason.append(hint);
            return Err(
                StateError::RouteBuildFailed { route_id: route_cfg.route_id.clone(), reason },
            );
        },
    };
    let ip_whitelist = match parse_opt_list(&route_cfg.ip_whitelist) {
        Ok(list) => list,
        Err(entry) => {
            return Err(bad_address(route_cfg, entry.as_str()));
        },
    };
    let ip_blacklist = match parse_opt_list(&route_cfg.ip_blacklist) {
        Ok(list) => list,
        Err(entry) => {
            return Err(bad_address(route_cfg, entry.as_str()));
        },
    };
    Ok(
        RouteRule {
            route_id: route_cfg.route_id.clone(),
            match_type,
            path,
            prefix: copy_opt(&route_cfg.path_prefix),
            methods: copy_texts(&route_cfg.methods),
            upstream: route_cfg.upstream.clone(),
            canary: copy_canary(&route_cfg.canary),
            ip_whitelist,
            ip_blacklist,
        },
    )
}

/// The error for an entry of an address list that denotes no address.
fn bad_address(route_cfg: &RouteConfig, entry: &str) -> (r: StateError)
    ensures
        r@ == (model::StateErrorView::RouteBuildFailed {
            route_id: route_cfg@.route_id,
            reason: model::bad_address_text(entry@),
        }),
{
    StateError::RouteBuildFailed {
        route_id: route_cfg.route_id.clone(),
        reason: join3("IP 名单条目 '", entry, "' 无效"),
    }
}

/// Adds a configured route to the routing table and to the registry.
fn add_route_to(
    router: &mut Router,
    registry: &mut RouteRegistry,
    route_cfg: &RouteConfig,
    hint: &str,
) -> (r: Result<(), StateError>)
    ensures
        match r {
            Ok(_) => tables(*old(router), *old(registry)).add(route_cfg@, hint@) == Ok::<
                model::Tables,
                model::StateErrorView,
            >(tables(*final(router), *final(registry))),
            Err(e) => tables(*old(router), *old(registry)).add(route_cfg@, hint@) == Err::<
                model::Tables,
                model::StateErrorView,
            >(e@) && final(router)@ == old(router)@ && final(registry)@ == old(registry)@,
        },
{
    let rule = build_rule(route_cfg, hint)?;
    let entry = RouteEntry {
        route_id: route_cfg.route_id.clone(),
        path: rule.path.clone(),
        prefix: copy_opt(&route_cfg.path_prefix),
        match_type: rule.match_type,
        methods: copy_texts(&route_cfg.methods),
        upstream: route_cfg.upstream.clone(),
        applicant: route_cfg.applicant.clone(),
        applied_at: route_cfg.applied_at.clone(),
        description: route_cfg.description.clone(),
        is_auth: route_cfg.is_auth,
    };
    assert(entry@ == model::registration(route_cfg@, rule@));
    match router.add_route(rule) {
        Ok(_) => {
            registry.register(entry);
            Ok(())
        },
        Err(e) => Err(
            StateError::RouteBuildFailed {
                route_id: route_cfg.route_id.clone(),
                reason: e.to_text(),
            },
        ),
    }
}

/// Whether one of the routes has the given id.
fn has_route(routes: &Vec<RouteConfig>, id: &str) -> (r: bool)
    ensures
        r == id_among(views(routes@), id@),
{
    let ghost all = views(routes@);
    let mut i: usize = 0;
    while i < routes.len()
        invariant
            i <= routes@.len(),
            all == views(routes@),
            forall|j: int| 0 <= j < i ==> #[trigger] all[j].route_id != id@,
        decreases routes@.len() - i,
    {
        assert(all[i as int] == routes@[i as int]@);
        if same_text(routes[i].route_id.as_str(), id) {
            assert(all[i as int].route_id == id@);
            return true;
        }
        i += 1;
    }
    false
}

/// The first route with the given id.
fn find_route<'a>(routes: &'a Vec<RouteConfig>, id: &str) -> (r: Option<&'a RouteConfig>)
    ensures
        match r {
            Some(route) => model::route_named(views(routes@), id@) == Some(route@),
            None => model::route_named(views(routes@), id@) is None,
        },
{
    let ghost all = views(routes@);
    let mut i: usize = 0;
    assert(all.skip(0) =~= all);
    while i < routes.len()
        invariant
            i <= routes@.len(),
            all == views(routes@),
            model::route_named(all, id@) == model::route_named(all.skip(i as int), id@),
        decreases routes@.len() - i,
    {
        proof {
            assert(all.skip(i as int)[0] == routes@[i as int]@);
            assert(all.skip(i as int).skip(1) =~= all.skip(i + 1));
        }
        if same_text(routes[i].route_id.as_str(), id) {
            return Some(&routes[i]);
        }
        i += 1;
    }
    None
}

/// Whether two optional lists hold the same texts.
fn same_opt_texts(a: &Option<Vec<String>>, b: &Option<Vec<String>>) -> (r: bool)
    ensures
        r == (opt_texts(*a) == opt_texts(*b)),
{
    match (a, b) {
        (Some(x), Some(y)) => same_texts(x, y),
        (None, None) => true,
        _ => false,
    }
}

/// Whether two optional cookies are the same.
fn same_cookie(a: &Option<StickyCookieConfig>, b: &Option<StickyCookieConfig>) -> (r: bool)
    ensures
        r == (opt_view(*a) == opt_view(*b)),
{
    match (a, b) {
        (Some(x), Some(y)) => same_text(x.name.as_str(), y.name.as_str()) && same_text(
            x.path.as_str(),
            y.path.as_str(),
        ) && x.max_age == y.max_age,
        (None, None) => true,
        _ => false,
    }
}

/// Whether two lists of canary rules are the same.
fn same_rules(a: &Vec<CanaryMatchRule>, b: &Vec<CanaryMatchRule>) -> (r: bool)
    ensures
        r == (views(a@) == views(b@)),
{
    if a.len() != b.len() {
        assert(views(a@).len() != views(b@).len());
        return false;
    }
    let mut i: usize = 0;
    while i < a.len()
        invariant
            i <= a@.len(),
            a@.len() == b@.len(),
            forall|j: int| 0 <= j < i ==> #[trigger] views(a@)[j] == views(b@)[j],
        decreases a@.len() - i,
    {
        assert(views(a@)[i as int] == a@[i as int]@);
        assert(views(b@)[i as int] == b@[i as int]@);
        if a[i].match_type != b[i].match_type || !same_text(a[i].key.as_str(), b[i].key.as_str())
            || !same_text(a[i].value.as_str(), b[i].value.as_str()) {
            return false;
        }
        i += 1;
    }
    assert(views(a@) =~= views(b@));
    true
}

/// Whether two optional canary releases are the same.
fn same_canary(a: &Option<CanaryConfig>, b: &Option<CanaryConfig>) -> (r: bool)
    ensures
        r == (opt_view(*a) == opt_view(*b)),
{
    match (a, b) {
        (Some(x), Some(y)) => {
            let stick = match (x.stick, y.stick) {
                (Some(s), Some(t)) => s == t,
                (None, None) => true,
                _ => false,
            };
            x.weight == y.weight && same_rules(&x.match_rules, &y.match_rules) && stick
                && same_cookie(&x.sticky_cookie, &y.sticky_cookie)
        },
        (None, None) => true,
        _ => false,
    }
}

/// Whether two configurations of a route ask for different tables.
fn routes_differ(a: &RouteConfig, b: &RouteConfig) -> (r: bool)
    ensures
        r == model::routes_changed(a@, b@),
{
    !same_opt(&a.path, &b.path) || !same_opt(&a.path_prefix, &b.path_prefix) || !same_text(
        a.match_type.as_str(),
        b.match_type.as_str(),
    ) || !same_texts(&a.methods, &b.methods) || !same_text(a.upstream.as_str(), b.upstream.as_str())
        || a.is_auth != b.is_auth || !same_canary(&a.canary, &b.canary) || !same_opt_texts(
        &a.ip_whitelist,
        &b.ip_whitelist,
    ) || !same_opt_texts(&a.ip_blacklist, &b.ip_blacklist)
}

/// Whether two lists of nodes are the same.
fn same_nodes(a: &Vec<NodeConfig>, b: &Vec<NodeConfig>) -> (r: bool)
    ensures
        r == (views(a@) == views(b@)),
{
    if a.len() != b.len() {
        assert(views(a@).len() != views(b@).len());
        return false;
    }
    let mut i: usize = 0;
    while i < a.len()
        invariant
            i <= a@.len(),
            a@.len() == b@.len(),
            forall|j: int| 0 <= j < i ==> #[trigger] views(a@)[j] == views(b@)[j],
        decreases a@.len() - i,
    {
        assert(views(a@)[i as int] == a@[i as int]@);
        assert(views(b@)[i as int] == b@[i as int]@);
        if !same_text(a[i].addr.as_str(), b[i].addr.as_str()) || a[i].weight != b[i].weight {
            return false;
        }
        i += 1;
    }
    assert(views(a@) =~= views(b@));
    true
}

/// Whether two configurations of an upstream differ.
pub fn upstreams_differ(a: &UpstreamConfig, b: &UpstreamConfig) -> (r: bool)
    ensures
        r == model::upstreams_changed(a@, b@),
        r == (a@ != b@),
{
    proof {
        laws::upstreams_differ_in_what_they_hold(a@, b@);
    }
    let health_check = match (a.health_check, b.health_check) {
        (Some(x), Some(y)) => x == y,
        (None, None) => true,
        _ => false,
    };
    !same_text(a.algorithm.as_str(), b.algorithm.as_str()) || !same_nodes(&a.nodes, &b.nodes)
        || !health_check
}

/// Whether two configurations of authentication differ.
fn auth_differs(a: &Option<AuthConfigRaw>, b: &Option<AuthConfigRaw>) -> (r: bool)
    ensures
        r == (opt_view(*a) != opt_view(*b)),
{
    match (a, b) {
        (None, None) => false,
        (Some(x), Some(y)) => !same_text(x.algorithm.as_str(), y.algorithm.as_str()) || !same_text(
            x.public_key_path.as_str(),
            y.public_key_path.as_str(),
        ) || !same_text(x.issuer.as_str(), y.issuer.as_str()) || !same_texts(
            &x.claims_to_forward,
            &y.claims_to_forward,
        ),
        _ => true,
    }
}

/// Makes the clusters of a configuration; where one cannot be made, its name and the
/// reason.
fn build_clusters(upstreams: &StrMap<UpstreamConfig>) -> (r: Result<
    StrMap<Arc<UpstreamCluster>>,
    (String, String),
>)
    ensures
        match r {
            Ok(clusters) => model::clusters_of(map_views(upstreams@)) == Ok::<
                model::Clusters,
                (Seq<char>, Seq<char>),
            >(map_views(clusters@)),
            Err(e) => model::clusters_of(map_views(upstreams@)) == Err::<
                model::Clusters,
                (Seq<char>, Seq<char>),
            >((e.0@, e.1@)),
        },
{
    let ghost all = map_views(upstreams@);
    let mut clusters: StrMap<Arc<UpstreamCluster>> = StrMap::new();
    let mut i: usize = 0;
    assert(map_views(clusters@) =~= Seq::<(Seq<char>, ClusterView)>::empty());
    while i < upstreams.len()
        invariant
            i <= upstreams@.len(),
            all == map_views(upstreams@),
            model::clusters_of(all.take(i as int)) == Ok::<
                model::Clusters,
                (Seq<char>, Seq<char>),
            >(map_views(clusters@)),
        decreases upstreams@.len() - i,
    {
        let name = upstreams.key_at(i);
        let config = upstreams.value_at(i);
        proof {
            assert(all.take(i + 1).drop_last() =~= all.take(i as int));
            assert(all.take(i + 1).last() == (name@, config@));
            lemma_map_views(clusters@, name@);
        }
        match UpstreamCluster::from_config(name.as_str(), config) {
            Ok(cluster) => {
                clusters.insert(name.clone(), Arc::new(cluster));
            },
            Err(reason) => {
                proof {
                    lemma_clusters_error(all, i + 1, (name@, reason@));
                }
                return Err((name.clone(), reason));
            },
        }
        i += 1;
    }
    assert(all.take(i as int) =~= all);
    Ok(clusters)
}

/// An upstream without a cluster spoils every list that begins with it.
proof fn lemma_clusters_error(
    upstreams: Seq<(Seq<char>, crate::config::types::UpstreamView)>,
    n: int,
    e: (Seq<char>, Seq<char>),
)
    requires
        0 <= n <= upstreams.len(),
        model::clusters_of(upstreams.take(n)) == Err::<model::Clusters, (Seq<char>, Seq<char>)>(e),
    ensures
        model::clusters_of(upstreams) == Err::<model::Clusters, (Seq<char>, Seq<char>)>(e),
    decreases upstreams.len() - n,
{
    if n < upstreams.len() {
        assert(upstreams.take(n + 1).drop_last() =~= upstreams.take(n));
        lemma_clusters_error(upstreams, n + 1, e);
    } else {
        assert(upstreams.take(n) =~= upstreams);
    }
}

/// Makes the routing table and the registry of a configuration.
fn build_tables(routes: &Vec<RouteConfig>) -> (r: Result<(Router, RouteRegistry), StateError>)
    ensures
        match r {
            Ok(t) => model::tables_of(views(routes@)) == Ok::<
                model::Tables,
                model::StateErrorView,
            >(tables(t.0, t.1)),
            Err(e) => model::tables_of(views(routes@)) == Err::<
                model::Tables,
                model::StateErrorView,
            >(e@),
        },
{
    let ghost all = views(routes@);
    let mut router = Router::new();
    let mut registry = RouteRegistry::new();
    let mut i: usize = 0;
    while i < routes.len()
        invariant
            i <= routes@.len(),
            all == views(routes@),
            model::tables_of(all.take(i as int)) == Ok::<model::Tables, model::StateErrorView>(
                tables(router, registry),
            ),
        decreases routes@.len() - i,
    {
        proof {
            assert(all.take(i + 1).drop_last() =~= all.take(i as int));
            assert(all.take(i + 1).last() == routes@[i as int]@);
        }
        match add_route_to(
            &mut router,
            &mut registry,
            &routes[i],
            "（path 或 path_prefix）",
        ) {
            Ok(_) => {},
            Err(e) => {
                proof {
                    lemma_tables_error(all, i + 1, e@);
                }
                return Err(e);
            },
        }
        i += 1;
    }
    assert(all.take(i as int) =~= all);
    Ok((router, registry))
}

/// A route that cannot be added spoils every list that begins with it.
proof fn lemma_tables_error(
    routes: Seq<crate::config::types::RouteView>,
    n: int,
    e: model::StateErrorView,
)
    requires
        0 <= n <= routes.len(),
        model::tables_of(routes.take(n)) == Err::<model::Tables, model::StateErrorView>(e),
    ensures
        model::tables_of(routes) == Err::<model::Tables, model::StateErrorView>(e),
    decreases routes.len() - n,
{
    if n < routes.len() {
        assert(routes.take(n + 1).drop_last() =~= routes.take(n));
        lemma_tables_error(routes, n + 1, e);
    } else {
        assert(routes.take(n) =~= routes);
    }
}

/// The first route whose upstream is not configured.
fn find_stray<'a>(routes: &'a Vec<RouteConfig>, upstreams: &StrMap<UpstreamConfig>) -> (r: Option<
    &'a RouteConfig,
>)
    ensures
        match r {
            Some(route) => model::first_stray(views(routes@), map_views(upstreams@)) == Some(
                route@,
            ),
            None => model::first_stray(views(routes@), map_views(upstreams@)) is None,
        },
{
    let ghost all = views(routes@);
    let ghost known = map_views(upstreams@);
    let mut i: usize = 0;
    assert(all.skip(0) =~= all);
    while i < routes.len()
        invariant
            i <= routes@.len(),
            all == views(routes@),
            known == map_views(upstreams@),
            model::first_stray(all, known) == model::first_stray(all.skip(i as int), known),
        decreases routes@.len() - i,
    {
        proof {
            assert(all.skip(i as int)[0] == routes@[i as int]@);
            assert(all.skip(i as int).skip(1) =~= all.skip(i + 1));
            lemma_map_views(upstreams@, routes@[i as int].upstream@);
        }
        if !upstreams.contains_key(routes[i].upstream.as_str()) {
            return Some(&routes[i]);
        }
        i += 1;
    }
    None
}

/// Makes authentication as configured.
fn build_auth(raw: &Option<AuthConfigRaw>, key_file: &Result<String, String>) -> (r: Result<
    Option<AuthConfig>,
    StateError,
>)
    ensures
        match r {
            Ok(auth) => model::auth_of(opt_view(*raw), file_view(*key_file)) == Ok::<
                Option<crate::config::types::AuthView>,
                model::StateErrorView,
            >(opt_view(auth)),
            Err(e) => model::auth_of(opt_view(*raw), file_view(*key_file)) == Err::<
                Option<crate::config::types::AuthView>,
                model::StateErrorView,
            >(e@),
        },
{
    match raw {
        None => Ok(None),
        Some(a) => match a.clone().into_auth_config(key_file) {
            Ok(auth) => Ok(Some(auth)),
            Err(reason) => Err(StateError::AuthConfigFailed { reason }),
        },
    }
}

impl GatewayState {
    /// When the clock of the limiter started, where requests are limited.
    pub closed spec fn limiter_origin(self) -> Option<Instant> {
        match self.rate_limiter {
            Some(limiter) => Some(limiter.origin()),
            None => None,
        }
    }

    /// Makes the state that a configuration describes. `key_file` is what was read from
    /// the key file of the configuration, where it names one.
    pub fn from_config(config: &KirinConfig, key_file: &Result<String, String>) -> (r: Result<
        Self,
        StateError,
    >)
        ensures
            match r {
                Ok(state) => model::state_of(config@, file_view(*key_file)) == Ok::<
                    model::StateView,
                    model::StateErrorView,
                >(state@),
                Err(e) => model::state_of(config@, file_view(*key_file)) == Err::<
                    model::StateView,
                    model::StateErrorView,
                >(e@),
            },
            r matches Ok(state) ==> (state.limiter_origin() is Some <==> state@.limiter is Some),
            r matches Ok(state) ==> (state.limiter_origin() matches Some(origin)
                ==> monotonic_reading(origin)),
    {
        if let Some(route) = find_stray(&config.routes, &config.upstreams) {
            let available = config.upstreams.keys();
            let path = match &route.path {
                Some(p) => p.clone(),
                None => String::new(),
            };
            proof {
                lemma_map_views(config.upstreams@, route.upstream@);
                assert(route.path is None ==> path@ =~= Seq::<char>::empty());
            }
            return Err(
                StateError::UnknownUpstream {
                    path,
                    upstream: route.upstream.clone(),
                    available,
                },
            );
        }
        let clusters = match build_clusters(&config.upstreams) {
            Ok(c) => c,
            Err((name, reason)) => {
                return Err(StateError::UpstreamBuildFailed { name, reason });
            },
        };
        let (router, registry) = build_tables(&config.routes)?;
        let rate_limiter = match &config.rate_limit {
            Some(rl) => Some(RateLimiter::new(rl.capacity, rl.refill_rate)),
            None => None,
        };
        let auth_config = build_auth(&config.auth, key_file)?;
        Ok(
            GatewayState {
                router,
                registry,
                clusters,
                filter_chain: GatewayState::build_default_filter_chain(),
                rate_limiter,
                auth_config,
                config_snapshot: config.clone(),
            },
        )
    }

    /// The filters of a gateway. Methods are checked before tokens, so that no
    /// signature is verified in vain, and tokens before the rate, so that bad tokens use
    /// up none of it.
    fn build_default_filter_chain() -> (r: FilterChain)
        ensures
            r@ == model::default_chain(),
    {
        let mut chain = FilterChain::new();
        chain.add_filter(FilterName::Method);
        chain.add_filter(FilterName::Auth);
        chain.add_filter(FilterName::RateLimit);
        chain.add_filter(FilterName::Header);
        chain.add_filter(FilterName::Logging);
        assert(chain@ =~= model::default_chain());
        chain
    }

    /// The route that a request for `path` takes.
    pub fn match_route(&self, path: &str, canary_ctx: &CanaryContext) -> (r: Option<RouteMatch>)
        ensures
            exists|value: u8|
                #![trigger self@.router.route(path@, canary_ctx@, value)]
                router_model::fair_value(self@.router.candidates(path@), canary_ctx@, value)
                    && opt_view(r) == self@.router.route(path@, canary_ctx@, value),
            self@.router.valid(),
    {
        self.router.match_route(path, canary_ctx)
    }

    /// The cluster with the given name.
    pub fn get_cluster(&self, name: &str) -> (r: Option<Arc<UpstreamCluster>>)
        ensures
            opt_view(r) == entry_of(self@.clusters, name@),
    {
        proof {
            lemma_map_views(self.clusters@, name@);
        }
        match self.clusters.get(name) {
            Some(c) => Some(c.clone()),
            None => None,
        }
    }

    /// The filters.
    pub fn filter_chain(&self) -> (r: &FilterChain)
        ensures
            r@ == self@.chain,
    {
        &self.filter_chain
    }

    /// The rate limiter, where requests are limited.
    pub fn rate_limiter(&self) -> (r: Option<&RateLimiter>)
        ensures
            match r {
                Some(l) => self@.limiter == Some(l@),
                None => self@.limiter is None,
            },
    {
        self.rate_limiter.as_ref()
    }

    /// Authentication, where it is configured.
    pub fn auth_config(&self) -> (r: Option<&AuthConfig>)
        ensures
            match r {
                Some(a) => self@.auth == Some(a@),
                None => self@.auth is None,
            },
    {
        self.auth_config.as_ref()
    }

    /// The configuration in effect.
    pub fn config(&self) -> (r: &KirinConfig)
        ensures
            r@ == self@.config,
    {
        &self.config_snapshot
    }

    /// The address lists of a route.
    pub fn find_route_info_by_id(&self, route_id: &str) -> (r: Option<RouteRuleInfo>)
        ensures
            match r {
                Some(info) => self@.router.find(route_id@) matches Some(rule) && opt_list(
                    info.ip_whitelist,
                ) == rule.ip_whitelist && opt_list(info.ip_blacklist) == rule.ip_blacklist,
                None => self@.router.find(route_id@) is None,
            },
    {
        self.router.find_route_info_by_id(route_id)
    }

    /// The canary release of a route.
    pub fn find_canary_config_by_route_id(&self, route_id: &str) -> (r: Option<CanaryConfig>)
        ensures
            opt_view(r) == match self@.router.find(route_id@) {
                Some(rule) => rule.canary,
                None => None,
            },
    {
        self.router.find_canary_config_by_id(route_id)
    }

    /// The registered route with the given id.
    pub fn find_registered(&self, route_id: &str) -> (r: Option<&RouteEntry>)
        ensures
            match r {
                Some(e) => entry_of(self@.entries, route_id@) == Some(e@),
                None => entry_of(self@.entries, route_id@) is None,
            },
    {
        self.registry.find_route(route_id)
    }

    /// The id of the registered route of a path.
    pub fn resolve_path(&self, path: &str) -> (r: Option<String>)
        ensures
            opt_text(r) == match resolve(self@.entries, path@) {
                Some(e) => Some(e.route_id),
                None => None,
            },
    {
        self.registry.resolve_path(path)
    }

    /// Whether a request of `ip` is let through now, and the tokens left to `ip`; nothing
    /// where requests are not limited. Now is what the clock of the limiter shows.
    pub fn check_rate_limit(&mut self, ip: &str) -> (r: Option<(bool, usize)>)
        ensures
            exists|now: Uptime|
                #![trigger model::rate_checked(old(self)@, ip@, now)]
                now.valid() && (old(self).limiter_origin() matches Some(origin) ==> clock_shows(
                    origin,
                    now,
                )) && model::rate_checked(old(self)@, ip@, now) == (final(self)@, r),
            old(self).limiter_origin() is Some <==> old(self)@.limiter is Some,
            final(self).limiter_origin() == old(self).limiter_origin(),
    {
        match &mut self.rate_limiter {
            Some(limiter) => {
                let r = limiter.check(ip);
                proof {
                    let before = old(self)@.limiter->0;
                    let now = choose|now: Uptime|
                        #![trigger before.check(ip@, now)]
                        now.valid() && clock_shows(old(self).limiter_origin()->0, now) && r.0
                            == before.bucket(ip@, now).allows(now) && r.1
                            == before.bucket(ip@, now).acquire(now).tokens && limiter@
                            == before.check(ip@, now);
                    assert(model::rate_checked(old(self)@, ip@, now).1 == Some(r));
                }
                Some(r)
            },
            None => {
                let now = Uptime { secs: 0, nanos: 0 };
                assert(now.valid() && model::rate_checked(old(self)@, ip@, now) == (
                    self@,
                    None::<(bool, usize)>,
                ));
                None
            },
        }
    }

    /// The same at a given time.
    pub fn check_rate_limit_at(&mut self, ip: &str, now: Uptime) -> (r: Option<(bool, usize)>)
        requires
            now.valid(),
        ensures
            (final(self)@, r) == model::rate_checked(old(self)@, ip@, now),
            final(self).limiter_origin() == old(self).limiter_origin(),
    {
        match &mut self.rate_limiter {
            Some(limiter) => Some(limiter.check_at(ip, now)),
            None => None,
        }
    }

    /// What is shown of all clusters.
    pub fn clusters_summary(&self) -> (r: Vec<UpstreamDTO>)
        ensures
            views(r@) == cluster_summaries(self@.clusters),
    {
        let mut r: Vec<UpstreamDTO> = Vec::new();
        let mut i: usize = 0;
        while i < self.clusters.len()
            invariant
                i <= self.clusters@.len(),
                r@.len() == i,
                forall|j: int|
                    0 <= j < i ==> (#[trigger] r@[j])@ == cluster_summaries(self@.clusters)[j],
            decreases self.clusters@.len() - i,
        {
            r.push(self.clusters.value_at(i).summary());
            i += 1;
        }
        assert(views(r@) =~= cluster_summaries(self@.clusters));
        r
    }

    /// Replaces the rate limiting policy, where requests are limited; the buckets stay.
    pub fn update_rate_limit_policy(&mut self, capacity: usize, refill_rate: usize)
        ensures
            final(self)@ == (model::StateView {
                limiter: match old(self)@.limiter {
                    Some(l) => Some(LimiterView { capacity, refill_rate, ..l }),
                    None => None,
                },
                ..old(self)@
            }),
            final(self).limiter_origin() == old(self).limiter_origin(),
    {
        if let Some(limiter) = &mut self.rate_limiter {
            limiter.update_policy(capacity, refill_rate);
        }
    }

    /// The rate limiting policy, where requests are limited.
    pub fn rate_limit_summary(&self) -> (r: Option<RateLimitDTO>)
        ensures
            r == match self@.limiter {
                Some(l) => Some(
                    RateLimitDTO {
                        enabled: true,
                        capacity: Some(l.capacity),
                        refill_rate: Some(l.refill_rate),
                    },
                ),
                None => None,
            },
    {
        match &self.rate_limiter {
            Some(limiter) => Some(limiter.summary()),
            None => None,
        }
    }
}

impl GatewayState {
    /// Follows a change of the configuration: only what has changed is made anew. On an
    /// error the configuration stays the old one, but what was changed until then stays
    /// changed. `key_file` is what was read from the key file of the new configuration.
    pub fn diff_update(&mut self, new_config: &KirinConfig, key_file: &Result<String, String>) -> (r:
        Result<(), StateError>)
        ensures
            final(self)@ == model::changed_state(old(self)@, new_config@, file_view(*key_file)).0,
            match r {
                Ok(_) => model::changed_state(
                    old(self)@,
                    new_config@,
                    file_view(*key_file),
                ).1 is None,
                Err(e) => model::changed_state(old(self)@, new_config@, file_view(*key_file)).1
                    == Some(e@),
            },
            old(self)@.config.rate_limit is Some && new_config@.rate_limit is Some
                ==> final(self).limiter_origin() == old(self).limiter_origin(),
            r is Ok && old(self)@.config.rate_limit is None && new_config@.rate_limit is Some ==> (
            final(self).limiter_origin() matches Some(origin) && monotonic_reading(origin)),
    {
        let old_config = self.config_snapshot.clone();
        self.diff_routes(&old_config, new_config)?;
        self.diff_clusters(&old_config, new_config)?;
        self.diff_rate_limiter(&old_config, new_config);
        self.diff_auth(&old_config, new_config, key_file)?;
        self.config_snapshot = new_config.clone();
        Ok(())
    }

    /// Follows a change of the routes.
    fn diff_routes(&mut self, old_config: &KirinConfig, new_config: &KirinConfig) -> (r: Result<
        (),
        StateError,
    >)
        ensures
            ({
                let changed = model::changed_routes(
                    old(self)@.tables(),
                    old_config@.routes,
                    new_config@.routes,
                );
                &&& final(self)@ == (model::StateView {
                    router: changed.0.router,
                    entries: changed.0.entries,
                    ..old(self)@
                })
                &&& match r {
                    Ok(_) => changed.1 is None,
                    Err(e) => changed.1 == Some(e@),
                }
            }),
            final(self).limiter_origin() == old(self).limiter_origin(),
    {
        let ghost olds = old_config@.routes;
        let ghost news = new_config@.routes;
        let ghost before = self@;
        let mut i: usize = 0;
        while i < old_config.routes.len()
            invariant
                i <= old_config.routes@.len(),
                olds == views(old_config.routes@),
                news == views(new_config.routes@),
                self@ == (model::StateView {
                    router: self@.router,
                    entries: self@.entries,
                    ..before
                }),
                self.limiter_origin() == old(self).limiter_origin(),
                self@.tables() == model::without_lost_routes(
                    before.tables(),
                    olds.take(i as int),
                    news,
                ),
            decreases old_config.routes@.len() - i,
        {
            let id = &old_config.routes[i].route_id;
            proof {
                assert(olds.take(i + 1).drop_last() =~= olds.take(i as int));
                assert(olds.take(i + 1).last() == old_config.routes@[i as int]@);
            }
            if !has_route(&new_config.routes, id.as_str()) {
                self.router.remove_route(id.as_str());
                self.registry.unregister(id.as_str());
            }
            i += 1;
        }
        assert(olds.take(i as int) =~= olds);
        let ghost start = self@.tables();

        let mut i: usize = 0;
        while i < new_config.routes.len()
            invariant
                i <= new_config.routes@.len(),
                olds == views(old_config.routes@),
                news == views(new_config.routes@),
                olds == old_config@.routes,
                news == new_config@.routes,
                before == old(self)@,
                start == model::without_lost_routes(before.tables(), olds, news),
                self@ == (model::StateView {
                    router: self@.router,
                    entries: self@.entries,
                    ..before
                }),
                self.limiter_origin() == old(self).limiter_origin(),
                model::with_routes(start, olds, news.take(i as int)) == (
                    self@.tables(),
                    None::<model::StateErrorView>,
                ),
            decreases new_config.routes@.len() - i,
        {
            let route_cfg = &new_config.routes[i];
            proof {
                assert(news.take(i + 1).drop_last() =~= news.take(i as int));
                assert(news.take(i + 1).last() == route_cfg@);
            }
            let needed = match find_route(&old_config.routes, route_cfg.route_id.as_str()) {
                None => true,
                Some(old_route) => {
                    let changed = routes_differ(old_route, route_cfg);
                    if changed {
                        self.router.remove_route(route_cfg.route_id.as_str());
                        self.registry.unregister(route_cfg.route_id.as_str());
                    }
                    changed
                },
            };
            if needed {
                match self.add_route_from_config(route_cfg) {
                    Ok(_) => {},
                    Err(e) => {
                        proof {
                            lemma_routes_error(start, olds, news, i + 1, self@.tables(), e@);
                        }
                        return Err(e);
                    },
                }
            }
            i += 1;
        }
        assert(news.take(i as int) =~= news);
        Ok(())
    }

    /// Adds a configured route.
    fn add_route_from_config(&mut self, route_cfg: &RouteConfig) -> (r: Result<(), StateError>)
        ensures
            final(self)@ == (model::StateView {
                router: final(self)@.router,
                entries: final(self)@.entries,
                ..old(self)@
            }),
            match r {
                Ok(_) => old(self)@.tables().add(route_cfg@, ""@) == Ok::<
                    model::Tables,
                    model::StateErrorView,
                >(final(self)@.tables()),
                Err(e) => old(self)@.tables().add(route_cfg@, ""@) == Err::<
                    model::Tables,
                    model::StateErrorView,
                >(e@) && final(self)@ == old(self)@,
            },
            final(self).limiter_origin() == old(self).limiter_origin(),
    {
        add_route_to(&mut self.router, &mut self.registry, route_cfg, "")
    }

    /// Follows a change of the upstreams; the cluster of an upstream that has not
    /// changed stays, with the health of its nodes.
    fn diff_clusters(&mut self, old_config: &KirinConfig, new_config: &KirinConfig) -> (r: Result<
        (),
        StateError,
    >)
        ensures
            ({
                let changed = model::changed_clusters(
                    old(self)@.clusters,
                    old_config@.upstreams,
                    new_config@.upstreams,
                );
                &&& final(self)@ == (model::StateView { clusters: changed.0, ..old(self)@ })
                &&& match r {
                    Ok(_) => changed.1 is None,
                    Err(e) => changed.1 == Some(e@),
                }
            }),
            final(self).limiter_origin() == old(self).limiter_origin(),
    {
        let ghost olds = old_config@.upstreams;
        let ghost news = new_config@.upstreams;
        let ghost before = self@;
        let mut i: usize = 0;
        while i < old_config.upstreams.len()
            invariant
                i <= old_config.upstreams@.len(),
                olds == map_views(old_config.upstreams@),
                news == map_views(new_config.upstreams@),
                self@ == (model::StateView { clusters: self@.clusters, ..before }),
                self.limiter_origin() == old(self).limiter_origin(),
                self@.clusters == model::without_lost_clusters(
                    before.clusters,
                    olds.take(i as int),
                    news,
                ),
            decreases old_config.upstreams@.len() - i,
        {
            let name = old_config.upstreams.key_at(i);
            proof {
                assert(olds.take(i + 1).drop_last() =~= olds.take(i as int));
                assert(olds.take(i + 1).last().0 == name@);
                lemma_map_views(new_config.upstreams@, name@);
                lemma_map_views(self.clusters@, name@);
            }
            if !new_config.upstreams.contains_key(name.as_str()) {
                self.clusters.remove(name.as_str());
            }
            i += 1;
        }
        assert(olds.take(i as int) =~= olds);
        let ghost start = self@.clusters;

        let mut i: usize = 0;
        while i < new_config.upstreams.len()
            invariant
                i <= new_config.upstreams@.len(),
                olds == map_views(old_config.upstreams@),
                news == map_views(new_config.upstreams@),
                olds == old_config@.upstreams,
                news == new_config@.upstreams,
                before == old(self)@,
                start == model::without_lost_clusters(before.clusters, olds, news),
                self@ == (model::StateView { clusters: self@.clusters, ..before }),
                self.limiter_origin() == old(self).limiter_origin(),
                model::with_clusters(start, olds, news.take(i as int)) == (
                    self@.clusters,
                    None::<model::StateErrorView>,
                ),
            decreases new_config.upstreams@.len() - i,
        {
            let name = new_config.upstreams.key_at(i);
            let config = new_config.upstreams.value_at(i);
            proof {
                assert(news.take(i + 1).drop_last() =~= news.take(i as int));
                assert(news.take(i + 1).last() == (name@, config@));
                lemma_map_views(old_config.upstreams@, name@);
                lemma_map_views(self.clusters@, name@);
            }
            let needed = match old_config.upstreams.get(name.as_str()) {
                None => true,
                Some(old_upstream) => upstreams_differ(old_upstream, config),
            };
            if needed {
                match UpstreamCluster::from_config(name.as_str(), config) {
                    Ok(cluster) => {
                        self.clusters.insert(name.clone(), Arc::new(cluster));
                    },
                    Err(reason) => {
                        let e = StateError::UpstreamBuildFailed { name: name.clone(), reason };
                        proof {
                            lemma_upstreams_error(start, olds, news, i + 1, self@.clusters, e@);
                        }
                        return Err(e);
                    },
                }
            }
            i += 1;
        }
        assert(news.take(i as int) =~= news);
        Ok(())
    }

    /// Follows a change of the rate limiting policy; the buckets stay where requests go
    /// on being limited.
    fn diff_rate_limiter(&mut self, old_config: &KirinConfig, new_config: &KirinConfig)
        ensures
            final(self)@ == (model::StateView {
                limiter: model::changed_limiter(
                    old(self)@.limiter,
                    old_config@.rate_limit,
                    new_config@.rate_limit,
                ),
                ..old(self)@
            }),
            old_config@.rate_limit is Some && new_config@.rate_limit is Some
                ==> final(self).limiter_origin() == old(self).limiter_origin(),
            old_config@.rate_limit is None && new_config@.rate_limit is Some ==> (
            final(self).limiter_origin() matches Some(origin) && monotonic_reading(origin)),
    {
        match (&old_config.rate_limit, &new_config.rate_limit) {
            (None, Some(new_rl)) => {
                self.rate_limiter = Some(RateLimiter::new(new_rl.capacity, new_rl.refill_rate));
            },
            (Some(_), None) => {
                self.rate_limiter = None;
            },
            (Some(old_rl), Some(new_rl)) => {
                if old_rl.capacity != new_rl.capacity || old_rl.refill_rate != new_rl.refill_rate {
                    self.update_rate_limit_policy(new_rl.capacity, new_rl.refill_rate);
                }
            },
            (None, None) => {},
        }
    }

    /// Follows a change of authentication.
    fn diff_auth(
        &mut self,
        old_config: &KirinConfig,
        new_config: &KirinConfig,
        key_file: &Result<String, String>,
    ) -> (r: Result<(), StateError>)
        ensures
            ({
                let changed = model::changed_auth(
                    old(self)@.auth,
                    old_config@.auth,
                    new_config@.auth,
                    file_view(*key_file),
                );
                match r {
                    Ok(_) => changed matches Ok(auth) && final(self)@ == (model::StateView {
                        auth,
                        ..old(self)@
                    }),
                    Err(e) => changed == Err::<
                        Option<crate::config::types::AuthView>,
                        model::StateErrorView,
                    >(e@) && final(self)@ == old(self)@,
                }
            }),
            final(self).limiter_origin() == old(self).limiter_origin(),
    {
        if auth_differs(&old_config.auth, &new_config.auth) {
            self.auth_config = build_auth(&new_config.auth, key_file)?;
        }
        Ok(())
    }
}

/// A route that cannot be added ends a change of the routes.
proof fn lemma_routes_error(
    start: model::Tables,
    olds: Seq<crate::config::types::RouteView>,
    news: Seq<crate::config::types::RouteView>,
    n: int,
    left: model::Tables,
    e: model::StateErrorView,
)
    requires
        0 <= n <= news.len(),
        model::with_routes(start, olds, news.take(n)) == (left, Some(e)),
    ensures
        model::with_routes(start, olds, news) == (left, Some(e)),
    decreases news.len() - n,
{
    if n < news.len() {
        assert(news.take(n + 1).drop_last() =~= news.take(n));
        lemma_routes_error(start, olds, news, n + 1, left, e);
    } else {
        assert(news.take(n) =~= news);
    }
}

/// An upstream without a cluster ends a change of the upstreams.
proof fn lemma_upstreams_error(
    start: model::Clusters,
    olds: Seq<(Seq<char>, crate::config::types::UpstreamView)>,
    news: Seq<(Seq<char>, crate::config::types::UpstreamView)>,
    n: int,
    left: model::Clusters,
    e: model::StateErrorView,
)
    requires
        0 <= n <= news.len(),
        model::with_clusters(start, olds, news.take(n)) == (left, Some(e)),
    ensures
        model::with_clusters(start, olds, news) == (left, Some(e)),
    decreases news.len() - n,
{
    if n < news.len() {
        assert(news.take(n + 1).drop_last() =~= news.take(n));
        lemma_upstreams_error(start, olds, news, n + 1, left, e);
    } else {
        assert(news.take(n) =~= news);
    }
}

} // verus!
