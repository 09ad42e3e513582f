//! The state of the gateway and its changes, as mathematics.
use crate::config::types::{
    auth_with_key, AuthRawView, AuthView, KirinView, RateLimitConfig, RouteView, UpstreamView,
};
use crate::config::validation::id_among;
use crate::data_plane::filter::FilterName;
use crate::data_plane::ip::opt_blocks;
use crate::data_plane::rate_limit::{LimiterView, Uptime};
use crate::data_plane::router::model::{RouterView, RuleView};
use crate::data_plane::router::router_white_list::{Entries, EntryView};
use crate::data_plane::router::MatchType;
use crate::data_plane::upstream::{cluster_of, ClusterView};
use crate::outside::debug_list;
use crate::str_map::{entry_of, has_key, keys_of, with_entry, without_entry};
use vstd::prelude::*;

verus! {

/// Why a configuration cannot be put into effect.
pub enum StateErrorView {
    UnknownUpstream { path: Seq<char>, upstream: Seq<char>, available: Seq<Seq<char>> },
    InvalidMatchType { route_id: Seq<char>, value: Seq<char> },
    RouteBuildFailed { route_id: Seq<char>, reason: Seq<char> },
    AuthConfigFailed { reason: Seq<char> },
    UpstreamBuildFailed { name: Seq<char>, reason: Seq<char> },
}

impl StateErrorView {
    /// The message of the error.
    pub open spec fn text(self) -> Seq<char> {
        match self {
            StateErrorView::UnknownUpstream { path, upstream, available } => "路由 '"@ + path
                + "' 引用了不存在的上游 '"@ + upstream + "'，可用上游: "@ + debug_list(available),
            StateErrorView::InvalidMatchType { route_id, value } => "路由 '"@ + route_id
                + "' 的 match_type '"@ + value + "' 无效，可选: exact, prefix, regex"@,
            StateErrorView::RouteBuildFailed { route_id, reason } => "路由 '"@ + route_id
                + "' 构建失败: "@ + reason,
            StateErrorView::AuthConfigFailed { reason } => "认证配置加载失败: "@ + reason,
            StateErrorView::UpstreamBuildFailed { name, reason } => "上游集群 '"@ + name
                + "' 构建失败: "@ + reason,
        }
    }
}

// ---- routes ----

/// The match type that a configuration names.
pub open spec fn match_type_named(s: Seq<char>) -> Option<MatchType> {
    if s == "exact"@ {
        Some(MatchType::Exact)
    } else if s == "prefix"@ {
        Some(MatchType::Prefix)
    } else if s == "regex"@ {
        Some(MatchType::Regex)
    } else {
        None
    }
}

/// The name of a match type in messages.
pub open spec fn match_type_label(mt: MatchType) -> Seq<char> {
    match mt {
        MatchType::Exact => "Exact"@,
        MatchType::Prefix => "Prefix"@,
        MatchType::Regex => "Regex"@,
    }
}

/// The path of a configured route: the prefix of a prefix route, the path of any
/// other.
pub open spec fn route_path(route: RouteView, mt: MatchType) -> Option<Seq<char>> {
    match mt {
        MatchType::Prefix => route.path_prefix,
        _ => route.path,
    }
}

/// The message for a route without a path; `hint` says where the path belongs.
pub open spec fn no_path_text(mt: MatchType, hint: Seq<char>) -> Seq<char> {
    "match_type 为 "@ + match_type_label(mt) + "，但缺少对应的路径配置"@ + hint
}

/// The message for an entry of an address list that denotes no address.
pub open spec fn bad_address_text(entry: Seq<char>) -> Seq<char> {
    "IP 名单条目 '"@ + entry + "' 无效"@
}

/// The routing rule of a configured route, or why there is none.
pub open spec fn rule_of(route: RouteView, hint: Seq<char>) -> Result<RuleView, StateErrorView> {
    let id = route.route_id;
    match match_type_named(route.match_type) {
        None => Err(StateErrorView::InvalidMatchType { route_id: id, value: route.match_type }),
        Some(mt) => match route_path(route, mt) {
            None => Err(
                StateErrorView::RouteBuildFailed { route_id: id, reason: no_path_text(mt, hint) },
            ),
            Some(path) => match opt_blocks(route.ip_whitelist) {
                Err(entry) => Err(
                    StateErrorView::RouteBuildFailed {
                        route_id: id,
                        reason: bad_address_text(entry),
                    },
                ),
                Ok(ip_whitelist) => match opt_blocks(route.ip_blacklist) {
                    Err(entry) => Err(
                        StateErrorView::RouteBuildFailed {
                            route_id: id,
                            reason: bad_address_text(entry),
                        },
                    ),
                    Ok(ip_blacklist) => Ok(
                        RuleView {
                            route_id: id,
                            match_type: mt,
                            path,
                            prefix: route.path_prefix,
                            methods: route.methods,
                            upstream: route.upstream,
                            canary: route.canary,
                            ip_whitelist,
                            ip_blacklist,
                        },
                    ),
                },
            },
        },
    }
}

/// The registry entry of a configured route with the given rule.
pub open spec fn registration(route: RouteView, rule: RuleView) -> EntryView {
    EntryView {
        route_id: route.route_id,
        path: rule.path,
        prefix: route.path_prefix,
        match_type: rule.match_type,
        methods: route.methods,
        upstream: route.upstream,
        applicant: route.applicant,
        applied_at: route.applied_at,
        description: route.description,
        is_auth: route.is_auth,
    }
}

/// The routing table and the registry.
#[verifier::ext_equal]
pub struct Tables {
    pub router: RouterView,
    pub entries: Entries,
}

impl Tables {
    /// No routes.
    pub open spec fn empty() -> Tables {
        Tables { router: RouterView::empty(), entries: Seq::empty() }
    }

    /// The tables with one more route, or why it cannot be added.
    pub open spec fn add(self, route: RouteView, hint: Seq<char>) -> Result<
        Tables,
        StateErrorView,
    > {
        match rule_of(route, hint) {
            Err(e) => Err(e),
            Ok(rule) => match self.router.add(rule) {
                Err(e) => Err(
                    StateErrorView::RouteBuildFailed { route_id: route.route_id, reason: e.text() },
                ),
                Ok(router) => Ok(
                    Tables {
                        router,
                        entries: with_entry(
                            self.entries,
                            route.route_id,
                            registration(route, rule),
                        ),
                    },
                ),
            },
        }
    }

    /// The tables without a route.
    pub open spec fn remove(self, id: Seq<char>) -> Tables {
        Tables { router: self.router.remove(id), entries: without_entry(self.entries, id) }
    }
}

/// The hint of messages about a whole configuration.
pub open spec fn full_hint() -> Seq<char> {
    "（path 或 path_prefix）"@
}

/// The tables of a list of routes, or why they cannot be made.
pub open spec fn tables_of(routes: Seq<RouteView>) -> Result<Tables, StateErrorView>
    decreases routes.len(),
{
    if routes.len() == 0 {
        Ok(Tables::empty())
    } else {
        match tables_of(routes.drop_last()) {
            Err(e) => Err(e),
            Ok(tables) => tables.add(routes.last(), full_hint()),
        }
    }
}

/// The first route whose upstream is not configured.
pub open spec fn first_stray(
    routes: Seq<RouteView>,
    upstreams: Seq<(Seq<char>, UpstreamView)>,
) -> Option<RouteView>
    decreases routes.len(),
{
    if routes.len() == 0 {
        None
    } else if !has_key(upstreams, routes[0].upstream) {
        Some(routes[0])
    } else {
        first_stray(routes.skip(1), upstreams)
    }
}

// ---- clusters ----

/// Clusters by name.
pub type Clusters = Seq<(Seq<char>, ClusterView)>;

/// The clusters of a list of upstreams, or the first that cannot be made and why.
pub open spec fn clusters_of(upstreams: Seq<(Seq<char>, UpstreamView)>) -> Result<
    Clusters,
    (Seq<char>, Seq<char>),
>
    decreases upstreams.len(),
{
    if upstreams.len() == 0 {
        Ok(Seq::empty())
    } else {
        match clusters_of(upstreams.drop_last()) {
            Err(e) => Err(e),
            Ok(clusters) => {
                let (name, config) = upstreams.last();
                match cluster_of(name, config) {
                    Err(reason) => Err((name, reason)),
                    Ok(cluster) => Ok(with_entry(clusters, name, cluster)),
                }
            },
        }
    }
}

// ---- the whole state ----

/// The state of the gateway.
#[verifier::ext_equal]
pub struct StateView {
    pub router: RouterView,
    pub entries: Entries,
    pub clusters: Clusters,
    pub chain: Seq<FilterName>,
    pub limiter: Option<LimiterView>,
    pub auth: Option<AuthView>,
    pub config: KirinView,
}

impl StateView {
    /// The routing table and the registry of the state.
    pub open spec fn tables(self) -> Tables {
        Tables { router: self.router, entries: self.entries }
    }
}

/// The filters of a gateway, in the order in which they are asked.
pub open spec fn default_chain() -> Seq<FilterName> {
    seq![
        FilterName::Method,
        FilterName::Auth,
        FilterName::RateLimit,
        FilterName::Header,
        FilterName::Logging,
    ]
}

/// A limiter under a configured policy, which has met no client yet.
pub open spec fn fresh_limiter(policy: RateLimitConfig) -> LimiterView {
    LimiterView {
        capacity: policy.capacity,
        refill_rate: policy.refill_rate,
        buckets: Seq::empty(),
    }
}

/// Authentication as configured, or why it cannot be had. `key_file` is what was
/// read from the key file.
pub open spec fn auth_of(
    raw: Option<AuthRawView>,
    key_file: Result<Seq<char>, Seq<char>>,
) -> Result<Option<AuthView>, StateErrorView> {
    match raw {
        None => Ok(None),
        Some(a) => match auth_with_key(a, key_file) {
            Ok(auth) => Ok(Some(auth)),
            Err(reason) => Err(StateErrorView::AuthConfigFailed { reason }),
        },
    }
}

/// The state that a configuration describes, or the first reason why it describes
/// none: an upstream that is not configured, a cluster, a route, the key file.
pub open spec fn state_of(config: KirinView, key_file: Result<Seq<char>, Seq<char>>) -> Result<
    StateView,
    StateErrorView,
> {
    match first_stray(config.routes, config.upstreams) {
        Some(route) => Err(
            StateErrorView::UnknownUpstream {
                path: match route.path {
                    Some(p) => p,
                    None => Seq::empty(),
                },
                upstream: route.upstream,
                available: keys_of(config.upstreams),
            },
        ),
        None => match clusters_of(config.upstreams) {
            Err((name, reason)) => Err(StateErrorView::UpstreamBuildFailed { name, reason }),
            Ok(clusters) => match tables_of(config.routes) {
                Err(e) => Err(e),
                Ok(tables) => match auth_of(config.auth, key_file) {
                    Err(e) => Err(e),
                    Ok(auth) => Ok(
                        StateView {
                            router: tables.router,
                            entries: tables.entries,
                            clusters,
                            chain: default_chain(),
                            limiter: match config.rate_limit {
                                Some(policy) => Some(fresh_limiter(policy)),
                                None => None,
                            },
                            auth,
                            config,
                        },
                    ),
                },
            },
        },
    }
}

// ---- changes ----

/// The first route with the given id.
pub open spec fn route_named(routes: Seq<RouteView>, id: Seq<char>) -> Option<RouteView>
    decreases routes.len(),
{
    if routes.len() == 0 {
        None
    } else if routes[0].route_id == id {
        Some(routes[0])
    } else {
        route_named(routes.skip(1), id)
    }
}

/// Whether two configurations of a route ask for different tables.
pub open spec fn routes_changed(a: RouteView, b: RouteView) -> bool {
    ||| a.path != b.path
    ||| a.path_prefix != b.path_prefix
    ||| a.match_type != b.match_type
    ||| a.methods != b.methods
    ||| a.upstream != b.upstream
    ||| a.is_auth != b.is_auth
    ||| a.canary != b.canary
    ||| a.ip_whitelist != b.ip_whitelist
    ||| a.ip_blacklist != b.ip_blacklist
}

/// Whether two configurations of an upstream ask for different clusters: in the algorithm,
/// in the health check, or in the address or the weight of a node.
pub open spec fn upstreams_changed(a: UpstreamView, b: UpstreamView) -> bool {
    ||| a.algorithm != b.algorithm
    ||| a.health_check != b.health_check
    ||| a.nodes.len() != b.nodes.len()
    ||| exists|i: int|
        0 <= i < a.nodes.len() && ((#[trigger] a.nodes[i]).addr != b.nodes[i].addr
            || a.nodes[i].weight != b.nodes[i].weight)
}

/// The tables without the routes of the old configuration that the new one lacks.
pub open spec fn without_lost_routes(
    tables: Tables,
    olds: Seq<RouteView>,
    news: Seq<RouteView>,
) -> Tables
    decreases olds.len(),
{
    if olds.len() == 0 {
        tables
    } else {
        let rest = without_lost_routes(tables, olds.drop_last(), news);
        if id_among(news, olds.last().route_id) {
            rest
        } else {
            rest.remove(olds.last().route_id)
        }
    }
}

/// The tables after one route of the new configuration, and the error if it cannot
/// be added: a new route is added, a changed one is taken out and added again, one
/// that has not changed stays as it is.
pub open spec fn with_route(tables: Tables, olds: Seq<RouteView>, route: RouteView) -> (
    Tables,
    Option<StateErrorView>,
) {
    match route_named(olds, route.route_id) {
        None => match tables.add(route, ""@) {
            Ok(added) => (added, None),
            Err(e) => (tables, Some(e)),
        },
        Some(old_route) => if routes_changed(old_route, route) {
            let rest = tables.remove(route.route_id);
            match rest.add(route, ""@) {
                Ok(added) => (added, None),
                Err(e) => (rest, Some(e)),
            }
        } else {
            (tables, None)
        },
    }
}

/// The tables after the routes of the new configuration, up to the first that
/// cannot be added, and the error if there is one.
pub open spec fn with_routes(tables: Tables, olds: Seq<RouteView>, news: Seq<RouteView>) -> (
    Tables,
    Option<StateErrorView>,
)
    decreases news.len(),
{
    if news.len() == 0 {
        (tables, None)
    } else {
        let (sofar, error) = with_routes(tables, olds, news.drop_last());
        if error is Some {
            (sofar, error)
        } else {
            with_route(sofar, olds, news.last())
        }
    }
}

/// The tables after a change of the routes, and the error if there is one.
pub open spec fn changed_routes(tables: Tables, olds: Seq<RouteView>, news: Seq<RouteView>) -> (
    Tables,
    Option<StateErrorView>,
) {
    with_routes(without_lost_routes(tables, olds, news), olds, news)
}

/// The clusters without those of the old configuration that the new one lacks.
pub open spec fn without_lost_clusters(
    clusters: Clusters,
    olds: Seq<(Seq<char>, UpstreamView)>,
    news: Seq<(Seq<char>, UpstreamView)>,
) -> Clusters
    decreases olds.len(),
{
    if olds.len() == 0 {
        clusters
    } else {
        let rest = without_lost_clusters(clusters, olds.drop_last(), news);
        if has_key(news, olds.last().0) {
            rest
        } else {
            without_entry(rest, olds.last().0)
        }
    }
}

/// The clusters after one upstream of the new configuration, and the error if its
/// cluster cannot be made; the cluster of an upstream that has not changed stays.
pub open spec fn with_cluster(
    clusters: Clusters,
    olds: Seq<(Seq<char>, UpstreamView)>,
    name: Seq<char>,
    config: UpstreamView,
) -> (Clusters, Option<StateErrorView>) {
    if entry_of(olds, name) == Some(config) {
        (clusters, None)
    } else {
        match cluster_of(name, config) {
            Ok(cluster) => (with_entry(clusters, name, cluster), None),
            Err(reason) => (
                clusters,
                Some(StateErrorView::UpstreamBuildFailed { name, reason }),
            ),
        }
    }
}

/// The clusters after the upstreams of the new configuration, up to the first whose
/// cluster cannot be made, and the error if there is one.
pub open spec fn with_clusters(
    clusters: Clusters,
    olds: Seq<(Seq<char>, UpstreamView)>,
    news: Seq<(Seq<char>, UpstreamView)>,
) -> (Clusters, Option<StateErrorView>)
    decreases news.len(),
{
    if news.len() == 0 {
        (clusters, None)
    } else {
        let (sofar, error) = with_clusters(clusters, olds, news.drop_last());
        if error is Some {
            (sofar, error)
        } else {
            with_cluster(sofar, olds, news.last().0, news.last().1)
        }
    }
}

/// The clusters after a change of the upstreams, and the error if there is one.
pub open spec fn changed_clusters(
    clusters: Clusters,
    olds: Seq<(Seq<char>, UpstreamView)>,
    news: Seq<(Seq<char>, UpstreamView)>,
) -> (Clusters, Option<StateErrorView>) {
    with_clusters(without_lost_clusters(clusters, olds, news), olds, news)
}

/// The limiter after a change of the policy: one that goes on limiting keeps its
/// buckets.
pub open spec fn changed_limiter(
    limiter: Option<LimiterView>,
    old_policy: Option<RateLimitConfig>,
    new_policy: Option<RateLimitConfig>,
) -> Option<LimiterView> {
    match (old_policy, new_policy) {
        (None, Some(policy)) => Some(fresh_limiter(policy)),
        (Some(_), None) => None,
        (Some(before), Some(policy)) => if before != policy {
            match limiter {
                Some(l) => Some(
                    LimiterView {
                        capacity: policy.capacity,
                        refill_rate: policy.refill_rate,
                        ..l
                    },
                ),
                None => None,
            }
        } else {
            limiter
        },
        (None, None) => limiter,
    }
}

/// Authentication after a change of its configuration, or why it cannot be had.
pub open spec fn changed_auth(
    auth: Option<AuthView>,
    old_raw: Option<AuthRawView>,
    new_raw: Option<AuthRawView>,
    key_file: Result<Seq<char>, Seq<char>>,
) -> Result<Option<AuthView>, StateErrorView> {
    if old_raw == new_raw {
        Ok(auth)
    } else {
        auth_of(new_raw, key_file)
    }
}

/// The state after a change to a new configuration, and the error if there is one.
/// Routes, clusters, limiter and authentication change in this order, up to the
/// first error; the configuration itself is replaced only without one.
pub open spec fn changed_state(
    state: StateView,
    config: KirinView,
    key_file: Result<Seq<char>, Seq<char>>,
) -> (StateView, Option<StateErrorView>) {
    let (tables, route_error) = changed_routes(
        state.tables(),
        state.config.routes,
        config.routes,
    );
    let routed = StateView { router: tables.router, entries: tables.entries, ..state };
    if route_error is Some {
        (routed, route_error)
    } else {
        let (clusters, cluster_error) = changed_clusters(
            state.clusters,
            state.config.upstreams,
            config.upstreams,
        );
        let clustered = StateView { clusters, ..routed };
        if cluster_error is Some {
            (clustered, cluster_error)
        } else {
            let limited = StateView {
                limiter: changed_limiter(
                    state.limiter,
                    state.config.rate_limit,
                    config.rate_limit,
                ),
                ..clustered
            };
            match changed_auth(state.auth, state.config.auth, config.auth, key_file) {
                Err(e) => (limited, Some(e)),
                Ok(auth) => (StateView { auth, config, ..limited }, None),
            }
        }
    }
}

// ---- requests ----

/// The state after the rate of a client is checked at `now`, and what the check says:
/// whether the request is let through and how many tokens are left, or nothing where
/// requests are not limited.
pub open spec fn rate_checked(state: StateView, ip: Seq<char>, now: Uptime) -> (
    StateView,
    Option<(bool, usize)>,
) {
    match state.limiter {
        None => (state, None),
        Some(l) => {
            let bucket = l.bucket(ip, now);
            (
                StateView { limiter: Some(l.check(ip, now)), ..state },
                Some((bucket.allows(now), bucket.acquire(now).tokens as usize)),
            )
        },
    }
}

} // verus!
