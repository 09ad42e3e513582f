//! How the parts of the state follow the configuration, field by field.
use crate::config::types::{
    AuthRawView, AuthView, KirinView, NodeView, RouteView, UpstreamView,
};
use crate::control_plane::gateway_state::laws::{lemma_add, sound};
use crate::control_plane::gateway_state::model::{
    changed_clusters, changed_routes, changed_state, clusters_of, first_stray, full_hint,
    registration, routes_changed, rule_of, state_of, tables_of, Clusters, StateErrorView,
    StateView, Tables,
};
use crate::data_plane::filter::FilterName;
use crate::data_plane::ip::{opt_blocks, IpNet};
use crate::data_plane::router::laws::added_rule_is_found;
use crate::data_plane::router::model::{RouterErrorView, RuleView};
use crate::data_plane::router::router_white_list::{registered_route_is_found, EntryView};
use crate::data_plane::router::MatchType;
use crate::data_plane::upstream::{
    cluster_of, clusters_need_algorithm_and_addresses, first_bad_node, ClusterView,
    LoadBalancerKind,
};
use crate::outside::{
    debug_list, jwt_error_message, regex_error_message, rsa_key, socket_addr_error,
};
use crate::str_map::{entry_of, has_key, keys_of};
use vstd::prelude::*;

verus! {

// ---- authentication ----

/// Whether two configurations of authentication differ in anything: only one is there, or
/// the algorithm, the path of the key file, the issuer or the claims are not the same.
pub open spec fn auth_differs_somewhere(
    before: Option<AuthRawView>,
    after: Option<AuthRawView>,
) -> bool {
    ||| before is Some != after is Some
    ||| before is Some && after is Some && {
        ||| before->0.algorithm != after->0.algorithm
        ||| before->0.public_key_path != after->0.public_key_path
        ||| before->0.issuer != after->0.issuer
        ||| before->0.claims_to_forward != after->0.claims_to_forward
    }
}

/// Whether authentication is what the configuration and the key file say: the key is the
/// one that the file holds, the issuer and the claims are the configured ones. Without a
/// configuration there is none.
pub open spec fn auth_as_configured(
    auth: Option<AuthView>,
    raw: Option<AuthRawView>,
    key_file: Result<Seq<char>, Seq<char>>,
) -> bool {
    match raw {
        None => auth is None,
        Some(raw) => auth matches Some(a) && (key_file matches Ok(pem) && rsa_key(pem)
            == Ok::<_, jsonwebtoken::errors::Error>(a.decoding_key)) && a.issuer == raw.issuer
            && a.claims_to_forward == raw.claims_to_forward,
    }
}

/// After a change without an error that changes anything about authentication, be it only
/// the path of the key file, tokens are verified with the key that was read for the new
/// configuration. One that changes nothing about it leaves it as it was.
pub proof fn changed_authentication_takes_the_new_key(
    state: StateView,
    config: KirinView,
    key_file: Result<Seq<char>, Seq<char>>,
)
    requires
        changed_state(state, config, key_file).1 is None,
    ensures
        auth_differs_somewhere(state.config.auth, config.auth) ==> auth_as_configured(
            changed_state(state, config, key_file).0.auth,
            config.auth,
            key_file,
        ),
        !auth_differs_somewhere(state.config.auth, config.auth) ==> changed_state(
            state,
            config,
            key_file,
        ).0.auth == state.auth,
{
    if !auth_differs_somewhere(state.config.auth, config.auth) && config.auth is Some {
        assert(state.config.auth->0 =~= config.auth->0);
    }
}

/// A state that is made from a configuration verifies tokens with the key that was read for
/// it.
pub proof fn configured_authentication_takes_the_key(
    config: KirinView,
    key_file: Result<Seq<char>, Seq<char>>,
)
    ensures
        state_of(config, key_file) matches Ok(state) ==> auth_as_configured(
            state.auth,
            config.auth,
            key_file,
        ),
{
}

/// A change that alters authentication ends with an error where the key file cannot be read
/// or holds no key, and the old authentication stays.
pub proof fn no_change_without_a_key(
    state: StateView,
    config: KirinView,
    key_file: Result<Seq<char>, Seq<char>>,
)
    requires
        auth_differs_somewhere(state.config.auth, config.auth),
        config.auth is Some,
        key_file matches Ok(pem) ==> rsa_key(pem) is Err,
    ensures
        changed_state(state, config, key_file).1 is Some,
        changed_state(state, config, key_file).0.auth == state.auth,
        changed_state(state, config, key_file).0.config == state.config,
        changed_routes(state.tables(), state.config.routes, config.routes).1 is None
            && changed_clusters(state.clusters, state.config.upstreams, config.upstreams).1 is None
            ==> changed_state(state, config, key_file).1 == Some(
            StateErrorView::AuthConfigFailed {
                reason: match key_file {
                    Err(e) => e,
                    Ok(pem) => jwt_error_message(rsa_key(pem)->Err_0),
                },
            },
        ),
        state_of(config, key_file) is Err,
{
}

// ---- routes ----

/// The path that a route of the given kind is matched by.
pub open spec fn configured_path(route: RouteView, kind: MatchType) -> Option<Seq<char>> {
    if kind == MatchType::Prefix {
        route.path_prefix
    } else {
        route.path
    }
}

/// Whether a rule is the one that a configured route asks for, in every respect.
pub open spec fn rule_as_configured(rule: RuleView, route: RouteView) -> bool {
    &&& rule.route_id == route.route_id
    &&& route.match_type == "exact"@ <==> rule.match_type == MatchType::Exact
    &&& route.match_type == "prefix"@ <==> rule.match_type == MatchType::Prefix
    &&& route.match_type == "regex"@ <==> rule.match_type == MatchType::Regex
    &&& Some(rule.path) == configured_path(route, rule.match_type)
    &&& rule.prefix == route.path_prefix
    &&& rule.methods == route.methods
    &&& rule.upstream == route.upstream
    &&& rule.canary == route.canary
    &&& Ok::<Option<Seq<IpNet>>, Seq<char>>(rule.ip_whitelist) == opt_blocks(route.ip_whitelist)
    &&& Ok::<Option<Seq<IpNet>>, Seq<char>>(rule.ip_blacklist) == opt_blocks(route.ip_blacklist)
}

/// Whether a registry entry is the one that a configured route asks for, in every respect.
pub open spec fn entry_as_configured(entry: EntryView, route: RouteView) -> bool {
    &&& entry.route_id == route.route_id
    &&& route.match_type == "exact"@ <==> entry.match_type == MatchType::Exact
    &&& route.match_type == "prefix"@ <==> entry.match_type == MatchType::Prefix
    &&& route.match_type == "regex"@ <==> entry.match_type == MatchType::Regex
    &&& Some(entry.path) == configured_path(route, entry.match_type)
    &&& entry.prefix == route.path_prefix
    &&& entry.methods == route.methods
    &&& entry.upstream == route.upstream
    &&& entry.applicant == route.applicant
    &&& entry.applied_at == route.applied_at
    &&& entry.description == route.description
    &&& entry.is_auth == route.is_auth
}

proof fn lemma_match_types_differ()
    ensures
        "exact"@ != "prefix"@,
        "exact"@ != "regex"@,
        "prefix"@ != "regex"@,
{
    reveal_strlit("exact");
    reveal_strlit("prefix");
    reveal_strlit("regex");
    assert("exact"@[0] == 'e');
    assert("prefix"@[0] == 'p');
    assert("regex"@[0] == 'r');
}

/// A route has a rule if and only if its match type is one of the three, its path is there
/// and its address lists hold nothing but addresses and blocks; the rule is then as the
/// route says.
pub proof fn rules_are_as_configured(route: RouteView, hint: Seq<char>)
    ensures
        rule_of(route, hint) matches Ok(rule) ==> rule_as_configured(rule, route)
            && entry_as_configured(registration(route, rule), route),
        rule_of(route, hint) is Ok <==> {
            &&& {
                ||| route.match_type == "exact"@ && route.path is Some
                ||| route.match_type == "regex"@ && route.path is Some
                ||| route.match_type == "prefix"@ && route.path_prefix is Some
            }
            &&& opt_blocks(route.ip_whitelist) is Ok
            &&& opt_blocks(route.ip_blacklist) is Ok
        },
{
    lemma_match_types_differ();
}

/// A route that is added stands in both tables under its id, as the route says, and the
/// other routes stay as they were.
pub proof fn added_routes_are_as_configured(
    tables: Tables,
    route: RouteView,
    hint: Seq<char>,
    other: Seq<char>,
)
    requires
        sound(tables),
    ensures
        tables.add(route, hint) matches Ok(added) ==> {
            &&& sound(added)
            &&& added.router.find(route.route_id) matches Some(rule) && rule_as_configured(
                rule,
                route,
            )
            &&& entry_of(added.entries, route.route_id) matches Some(entry) && entry_as_configured(
                entry,
                route,
            )
            &&& other != route.route_id ==> added.router.find(other) == tables.router.find(other)
                && entry_of(added.entries, other) == entry_of(tables.entries, other)
        },
{
    rules_are_as_configured(route, hint);
    if let Ok(added) = tables.add(route, hint) {
        let rule = rule_of(route, hint)->Ok_0;
        lemma_add(tables, route, hint, other);
        lemma_add(tables, route, hint, route.route_id);
        added_rule_is_found(tables.router, rule);
        registered_route_is_found(tables.entries, registration(route, rule), route.route_id);
    }
}

/// Two configurations of a route ask for the same tables if and only if they agree in their
/// paths, their kind, their methods, their upstream, in whether they ask for a token, in
/// their release and in their address lists.
pub proof fn routes_differ_in_what_requests_see(a: RouteView, b: RouteView)
    ensures
        routes_changed(a, b) == routes_changed(b, a),
        !routes_changed(a, a),
        a.route_id == b.route_id && !routes_changed(a, b) ==> (rule_of(a, ""@) == rule_of(b, ""@)
            && forall|rule: RuleView|
            (#[trigger] registration(a, rule)).is_auth == registration(b, rule).is_auth
                && registration(a, rule).methods == registration(b, rule).methods && registration(
                a,
                rule,
            ).upstream == registration(b, rule).upstream),
        a.is_auth != b.is_auth ==> routes_changed(a, b),
        a.methods != b.methods ==> routes_changed(a, b),
        a.upstream != b.upstream ==> routes_changed(a, b),
        a.canary != b.canary ==> routes_changed(a, b),
        a.match_type != b.match_type ==> routes_changed(a, b),
        a.path != b.path || a.path_prefix != b.path_prefix ==> routes_changed(a, b),
        a.ip_whitelist != b.ip_whitelist || a.ip_blacklist != b.ip_blacklist ==> routes_changed(
            a,
            b,
        ),
{
}

// ---- clusters ----

/// A cluster has the name and the nodes that are configured for it, with their addresses
/// and weights, and the configured health check; it shares the load in turn, or by consistent
/// hashing where that is configured.
pub proof fn clusters_are_as_configured(name: Seq<char>, config: UpstreamView)
    ensures
        cluster_of(name, config) matches Ok(cluster) ==> {
            &&& cluster.name == name
            &&& cluster.nodes.len() == config.nodes.len()
            &&& forall|i: int|
                0 <= i < config.nodes.len() ==> (#[trigger] cluster.nodes[i]).addr
                    == config.nodes[i].addr && cluster.nodes[i].weight == config.nodes[i].weight
            &&& cluster.health_check == config.health_check
            &&& cluster.lb == LoadBalancerKind::Consistent <==> config.algorithm
                == "consistent_hash"@
        },
        cluster_of(name, config) is Ok <==> {
            &&& config.algorithm == "round_robin"@ || config.algorithm == ""@ || config.algorithm
                == "consistent_hash"@
            &&& forall|i: int|
                0 <= i < config.nodes.len() ==> socket_addr_error(
                    (#[trigger] config.nodes[i]).addr,
                ) is None
        },
{
    reveal_strlit("round_robin");
    reveal_strlit("");
    reveal_strlit("consistent_hash");
    assert("round_robin"@[0] == 'r');
    assert("consistent_hash"@[0] == 'c');
    assert(""@.len() == 0);
    clusters_need_algorithm_and_addresses(name, config);
}

// ---- the limiter and the filters ----

/// After a change without an error requests are limited if and only if the new
/// configuration says so, under its policy. A limiter that was there keeps its buckets, and
/// one that is new has met no client.
pub proof fn limiter_follows_the_policy(
    state: StateView,
    config: KirinView,
    key_file: Result<Seq<char>, Seq<char>>,
)
    requires
        changed_state(state, config, key_file).1 is None,
        state.limiter is Some <==> state.config.rate_limit is Some,
        state.limiter matches Some(l) ==> l.capacity == state.config.rate_limit->0.capacity
            && l.refill_rate == state.config.rate_limit->0.refill_rate,
    ensures
        ({
            let after = changed_state(state, config, key_file).0.limiter;
            &&& after is Some <==> config.rate_limit is Some
            &&& after matches Some(l) ==> {
                &&& l.capacity == config.rate_limit->0.capacity
                &&& l.refill_rate == config.rate_limit->0.refill_rate
                &&& state.limiter matches Some(before) ==> l.buckets == before.buckets
                &&& state.limiter is None ==> l.buckets.len() == 0
            }
        }),
{
}

/// A state that is made from a configuration limits requests as the configuration says, and
/// its limiter has met no client.
pub proof fn configured_limiter_is_fresh(
    config: KirinView,
    key_file: Result<Seq<char>, Seq<char>>,
)
    ensures
        state_of(config, key_file) matches Ok(state) ==> (match config.rate_limit {
            Some(policy) => state.limiter matches Some(l) && l.capacity == policy.capacity
                && l.refill_rate == policy.refill_rate && l.buckets.len() == 0,
            None => state.limiter is None,
        }),
{
}

/// The filters are asked in a fixed order: the method, the token, the rate, the headers, the
/// log. A change of the configuration keeps the filters.
pub proof fn filters_are_asked_in_order(
    state: StateView,
    config: KirinView,
    key_file: Result<Seq<char>, Seq<char>>,
)
    ensures
        state_of(config, key_file) matches Ok(made) ==> {
            &&& made.chain.len() == 5
            &&& made.chain[0] == FilterName::Method
            &&& made.chain[1] == FilterName::Auth
            &&& made.chain[2] == FilterName::RateLimit
            &&& made.chain[3] == FilterName::Header
            &&& made.chain[4] == FilterName::Logging
        },
        changed_state(state, config, key_file).0.chain == state.chain,
{
}

// ---- errors ----

proof fn lemma_first_stray_is_first(
    routes: Seq<RouteView>,
    upstreams: Seq<(Seq<char>, UpstreamView)>,
    k: int,
)
    requires
        0 <= k < routes.len(),
        !has_key(upstreams, routes[k].upstream),
        forall|i: int| 0 <= i < k ==> has_key(upstreams, (#[trigger] routes[i]).upstream),
    ensures
        first_stray(routes, upstreams) == Some(routes[k]),
    decreases routes.len(),
{
    if k > 0 {
        assert(has_key(upstreams, routes[0].upstream));
        let rest = routes.skip(1);
        assert forall|i: int| 0 <= i < k - 1 implies has_key(
            upstreams,
            (#[trigger] rest[i]).upstream,
        ) by {
            assert(rest[i] == routes[i + 1]);
        }
        lemma_first_stray_is_first(rest, upstreams, k - 1);
    }
}

/// The first route whose upstream is not configured is reported, with its path, its upstream
/// and the names of the upstreams that there are.
pub proof fn unknown_upstreams_are_reported(
    config: KirinView,
    key_file: Result<Seq<char>, Seq<char>>,
    k: int,
)
    requires
        0 <= k < config.routes.len(),
        !has_key(config.upstreams, config.routes[k].upstream),
        forall|i: int|
            0 <= i < k ==> has_key(config.upstreams, (#[trigger] config.routes[i]).upstream),
    ensures
        state_of(config, key_file) matches Err(StateErrorView::UnknownUpstream {
            path,
            upstream,
            available,
        }) && upstream == config.routes[k].upstream && available == keys_of(config.upstreams) && (
        match config.routes[k].path {
            Some(p) => path == p,
            None => path.len() == 0,
        }),
{
    lemma_first_stray_is_first(config.routes, config.upstreams, k);
}

/// Whether a state is made, and if not for which reason: first an upstream that is not
/// configured, next a cluster that cannot be made, next a route that cannot be added, last the
/// key file.
pub proof fn the_first_obstacle_is_reported(
    config: KirinView,
    key_file: Result<Seq<char>, Seq<char>>,
)
    requires
        first_stray(config.routes, config.upstreams) is None,
    ensures
        clusters_of(config.upstreams) matches Err(e) ==> state_of(config, key_file) == Err::<
            StateView,
            StateErrorView,
        >(StateErrorView::UpstreamBuildFailed { name: e.0, reason: e.1 }),
        clusters_of(config.upstreams) is Ok ==> (tables_of(config.routes) matches Err(e)
            ==> state_of(config, key_file) == Err::<StateView, StateErrorView>(e)),
        clusters_of(config.upstreams) is Ok && tables_of(config.routes) is Ok ==> (state_of(
            config,
            key_file,
        ) is Ok <==> (config.auth is Some ==> (key_file matches Ok(pem) && rsa_key(pem) is Ok))),
        state_of(config, key_file) matches Ok(state) ==> {
            &&& tables_of(config.routes) == Ok::<Tables, StateErrorView>(state.tables())
            &&& clusters_of(config.upstreams) == Ok::<Clusters, (Seq<char>, Seq<char>)>(
                state.clusters,
            )
            &&& state.config == config
        },
{
    if let Ok(state) = state_of(config, key_file) {
        assert(state.tables() =~= tables_of(config.routes)->Ok_0);
    }
}

/// The first route that cannot be added is the one that is reported, at whatever place it
/// stands.
pub proof fn the_first_bad_route_is_reported(routes: Seq<RouteView>, k: int, e: StateErrorView)
    requires
        0 <= k < routes.len(),
        tables_of(routes.take(k)) matches Ok(tables) && tables.add(routes[k], full_hint()) == Err::<
            Tables,
            StateErrorView,
        >(e),
    ensures
        tables_of(routes) == Err::<Tables, StateErrorView>(e),
    decreases routes.len(),
{
    let front = routes.drop_last();
    if k < routes.len() - 1 {
        assert(front.take(k) =~= routes.take(k));
        the_first_bad_route_is_reported(front, k, e);
    } else {
        assert(front =~= routes.take(k));
    }
}

/// The first upstream whose cluster cannot be made is the one that is reported, at whatever
/// place it stands.
pub proof fn the_first_bad_upstream_is_reported(
    upstreams: Seq<(Seq<char>, UpstreamView)>,
    k: int,
    reason: Seq<char>,
)
    requires
        0 <= k < upstreams.len(),
        clusters_of(upstreams.take(k)) is Ok,
        cluster_of(upstreams[k].0, upstreams[k].1) == Err::<ClusterView, Seq<char>>(reason),
    ensures
        clusters_of(upstreams) == Err::<Clusters, (Seq<char>, Seq<char>)>(
            (upstreams[k].0, reason),
        ),
    decreases upstreams.len(),
{
    let front = upstreams.drop_last();
    if k < upstreams.len() - 1 {
        assert(front[k] == upstreams[k]);
        assert(front.take(k) =~= upstreams.take(k));
        the_first_bad_upstream_is_reported(front, k, reason);
    } else {
        assert(front =~= upstreams.take(k));
    }
}

/// Why a cluster cannot be made: its algorithm is not known, or else a node has no socket
/// address, and the first such node is named.
pub proof fn bad_clusters_are_explained(name: Seq<char>, config: UpstreamView, k: int)
    requires
        0 <= k < config.nodes.len(),
        socket_addr_error(config.nodes[k].addr) is Some,
        forall|i: int|
            0 <= i < k ==> socket_addr_error((#[trigger] config.nodes[i]).addr) is None,
    ensures
        cluster_of(name, config) matches Err(text) && text == if config.algorithm
            == "round_robin"@ || config.algorithm == ""@ || config.algorithm
            == "consistent_hash"@ {
            "节点地址 '"@ + config.nodes[k].addr
                + "' 无效: ' InternalError context: invalid socket addr cause: "@
                + socket_addr_error(config.nodes[k].addr)->0 + "'"@
        } else {
            "不支持的负载均衡算法 '"@ + config.algorithm
                + "'，可选: round_robin, consistent_hash"@
        },
{
    lemma_first_bad_node_is(config.nodes, k);
}

proof fn lemma_first_bad_node_is(nodes: Seq<NodeView>, k: int)
    requires
        0 <= k < nodes.len(),
        socket_addr_error(nodes[k].addr) is Some,
        forall|i: int| 0 <= i < k ==> socket_addr_error((#[trigger] nodes[i]).addr) is None,
    ensures
        first_bad_node(nodes) == Some((nodes[k].addr, socket_addr_error(nodes[k].addr)->0)),
    decreases nodes.len(),
{
    if k > 0 {
        assert(socket_addr_error(nodes[0].addr) is None);
        let rest = nodes.skip(1);
        assert forall|i: int| 0 <= i < k - 1 implies socket_addr_error(
            (#[trigger] rest[i]).addr,
        ) is None by {
            assert(rest[i] == nodes[i + 1]);
        }
        lemma_first_bad_node_is(rest, k - 1);
    }
}

/// Why a route has no rule: its match type is none, else its path is missing, else an entry
/// of its whitelist or of its blacklist is no address.
pub proof fn bad_routes_are_explained(route: RouteView, hint: Seq<char>)
    ensures
        route.match_type != "exact"@ && route.match_type != "prefix"@ && route.match_type
            != "regex"@ ==> rule_of(route, hint) == Err::<RuleView, StateErrorView>(
            StateErrorView::InvalidMatchType {
                route_id: route.route_id,
                value: route.match_type,
            },
        ),
        route.match_type == "exact"@ && route.path is None ==> rule_of(route, hint) == Err::<
            RuleView,
            StateErrorView,
        >(
            StateErrorView::RouteBuildFailed {
                route_id: route.route_id,
                reason: "match_type 为 "@ + "Exact"@ + "，但缺少对应的路径配置"@ + hint,
            },
        ),
        route.match_type == "prefix"@ && route.path_prefix is None ==> rule_of(route, hint)
            == Err::<RuleView, StateErrorView>(
            StateErrorView::RouteBuildFailed {
                route_id: route.route_id,
                reason: "match_type 为 "@ + "Prefix"@ + "，但缺少对应的路径配置"@ + hint,
            },
        ),
        route.match_type == "regex"@ && route.path is None ==> rule_of(route, hint) == Err::<
            RuleView,
            StateErrorView,
        >(
            StateErrorView::RouteBuildFailed {
                route_id: route.route_id,
                reason: "match_type 为 "@ + "Regex"@ + "，但缺少对应的路径配置"@ + hint,
            },
        ),
        ((route.match_type == "exact"@ || route.match_type == "regex"@) && route.path is Some
            || route.match_type == "prefix"@ && route.path_prefix is Some) ==> (match opt_blocks(
            route.ip_whitelist,
        ) {
            Err(entry) => rule_of(route, hint) == Err::<RuleView, StateErrorView>(
                StateErrorView::RouteBuildFailed {
                    route_id: route.route_id,
                    reason: "IP 名单条目 '"@ + entry + "' 无效"@,
                },
            ),
            Ok(_) => opt_blocks(route.ip_blacklist) matches Err(entry) ==> rule_of(route, hint)
                == Err::<RuleView, StateErrorView>(
                StateErrorView::RouteBuildFailed {
                    route_id: route.route_id,
                    reason: "IP 名单条目 '"@ + entry + "' 无效"@,
                },
            ),
        }),
{
    lemma_match_types_differ();
}

/// A change that fails at a route leaves the clusters, the limiter and authentication as they
/// were; one that fails at a cluster leaves the limiter and authentication; one that fails at
/// the key file leaves authentication.
pub proof fn a_failed_change_goes_no_further(
    state: StateView,
    config: KirinView,
    key_file: Result<Seq<char>, Seq<char>>,
)
    requires
        changed_state(state, config, key_file).1 is Some,
    ensures
        ({
            let after = changed_state(state, config, key_file).0;
            let routes = changed_routes(state.tables(), state.config.routes, config.routes);
            let clusters = changed_clusters(
                state.clusters,
                state.config.upstreams,
                config.upstreams,
            );
            &&& after.tables() == routes.0
            &&& after.auth == state.auth
            &&& after.config == state.config
            &&& after.chain == state.chain
            &&& routes.1 is Some ==> after.clusters == state.clusters && after.limiter
                == state.limiter && changed_state(state, config, key_file).1 == routes.1
            &&& routes.1 is None ==> after.clusters == clusters.0
            &&& routes.1 is None && clusters.1 is Some ==> after.limiter == state.limiter
                && changed_state(state, config, key_file).1 == clusters.1
        }),
{
    let after = changed_state(state, config, key_file).0;
    let routes = changed_routes(state.tables(), state.config.routes, config.routes);
    assert(after.tables() =~= routes.0);
}

/// The messages of the errors name what is at fault.
pub proof fn error_messages_name_what_is_at_fault(
    id: Seq<char>,
    value: Seq<char>,
    list: Seq<Seq<char>>,
)
    ensures
        (StateErrorView::UnknownUpstream { path: id, upstream: value, available: list }).text()
            == "路由 '"@ + id + "' 引用了不存在的上游 '"@ + value + "'，可用上游: "@ + debug_list(
            list,
        ),
        (StateErrorView::InvalidMatchType { route_id: id, value }).text() == "路由 '"@ + id
            + "' 的 match_type '"@ + value + "' 无效，可选: exact, prefix, regex"@,
        (StateErrorView::RouteBuildFailed { route_id: id, reason: value }).text() == "路由 '"@ + id
            + "' 构建失败: "@ + value,
        (StateErrorView::AuthConfigFailed { reason: value }).text() == "认证配置加载失败: "@
            + value,
        (StateErrorView::UpstreamBuildFailed { name: id, reason: value }).text() == "上游集群 '"@
            + id + "' 构建失败: "@ + value,
        (RouterErrorView::DuplicateRouteId { route_id: id }).text() == "route_id '"@ + id
            + "' 已存在"@,
        (RouterErrorView::InvalidMatchType { value }).text() == "无效的匹配类型 '"@ + value
            + "', 可选: exact, prefix, regex"@,
        forall|source: regex::Error|
            (#[trigger] RouterErrorView::InvalidRegex { pattern: id, source }.text())
                == "正则表达式 '"@ + id + "' 编译失败: "@ + regex_error_message(source),
{
}

} // verus!
