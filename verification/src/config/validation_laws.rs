//! Every mistake of a configuration is reported, wherever it stands.
use crate::config::types::{AuthRawView, KirinView, NodeView, RouteView, UpstreamView};
use crate::config::validation::{
    auth_mistakes, config_mistakes, given, id_among, known_match_type, missing, mistake,
    node_mistakes, nodes_mistakes, rate_limit_mistakes, route_mistakes,
    routes_mistakes, server_mistakes, upstream_mistakes, upstreams_mistakes, MistakeView,
};
use crate::outside::{debug_list, socket_addr_error};
use crate::str_map::{has_key, keys_of};
use crate::text::{blank, decimal};
use vstd::prelude::*;

verus! {

proof fn lemma_in_both(a: Seq<MistakeView>, b: Seq<MistakeView>, m: MistakeView)
    ensures
        (a + b).contains(m) <==> a.contains(m) || b.contains(m),
{
    if a.contains(m) {
        let i = choose|i: int| 0 <= i < a.len() && a[i] == m;
        assert((a + b)[i] == m);
    }
    if b.contains(m) {
        let i = choose|i: int| 0 <= i < b.len() && b[i] == m;
        assert((a + b)[a.len() + i] == m);
    }
}

proof fn lemma_given(condition: bool, m: MistakeView, other: MistakeView)
    ensures
        given(condition, m).contains(other) <==> condition && other == m,
        given(condition, m).len() == if condition {
            1nat
        } else {
            0
        },
{
    if condition {
        assert(given(condition, m)[0] == m);
    }
}

// ---- routes ----

/// The fields of a route at which a mistake can be reported, but for the id.
#[derive(Clone, Copy, PartialEq, Eq, Structural)]
pub enum RouteFault {
    Repeated,
    MatchType,
    Path,
    PathPrefix,
    Upstream,
}

/// Whether a route has the given fault: its id is that of an earlier route, its match type
/// is none, the path that its match type asks for is missing, or its upstream is not there.
pub open spec fn has_fault(
    fault: RouteFault,
    route: RouteView,
    repeated: bool,
    upstreams: Seq<(Seq<char>, UpstreamView)>,
) -> bool {
    match fault {
        RouteFault::Repeated => repeated,
        RouteFault::MatchType => route.match_type != "exact"@ && route.match_type != "prefix"@
            && route.match_type != "regex"@,
        RouteFault::Path => (route.match_type == "exact"@ || route.match_type == "regex"@) && (
        route.path matches Some(p) ==> blank(p)),
        RouteFault::PathPrefix => route.match_type == "prefix"@ && (
        route.path_prefix matches Some(p) ==> blank(p)),
        RouteFault::Upstream => !has_key(upstreams, route.upstream),
    }
}

/// What is reported of a fault: the field, what is wrong with it, and the id of the route.
pub open spec fn fault_report(
    fault: RouteFault,
    route: RouteView,
    upstreams: Seq<(Seq<char>, UpstreamView)>,
) -> MistakeView {
    MistakeView {
        field: match fault {
            RouteFault::Repeated => "route.route_id"@,
            RouteFault::MatchType => "route.match_type"@,
            RouteFault::Path => "route.path"@,
            RouteFault::PathPrefix => "route.path_prefix"@,
            RouteFault::Upstream => "route.upstream"@,
        },
        message: match fault {
            RouteFault::Repeated => "route_id '"@ + route.route_id + "' is duplicated"@,
            RouteFault::MatchType => "Invalid match_type "@ + route.match_type
                + ". You can choose: exact, prefix, regex"@,
            RouteFault::Path => "match_type 为 '"@ + route.match_type
                + "' 时 path 必须存在且非空"@,
            RouteFault::PathPrefix => "match_type 为 'prefix' 时 path_prefix 必须存在且非空"@,
            RouteFault::Upstream => "upstream '"@ + route.upstream
                + "' does not exist. You can choose: "@ + debug_list(keys_of(upstreams)),
        },
        route_id: Some(route.route_id),
    }
}

/// Each fault of a route with an id is reported, however many there are, and nothing else;
/// of a route without an id only that is reported.
pub proof fn every_fault_of_a_route_is_reported(
    route: RouteView,
    repeated: bool,
    upstreams: Seq<(Seq<char>, UpstreamView)>,
    m: MistakeView,
)
    ensures
        blank(route.route_id) ==> (route_mistakes(route, repeated, upstreams).contains(m) <==> m
            == (MistakeView {
            field: "route.route_id"@,
            message: "route_id must not be empty"@,
            route_id: None,
        })),
        !blank(route.route_id) ==> (route_mistakes(route, repeated, upstreams).contains(m)
            <==> exists|fault: RouteFault|
            #[trigger] has_fault(fault, route, repeated, upstreams) && m == fault_report(
                fault,
                route,
                upstreams,
            )),
{
    let id = route.route_id;
    if blank(id) {
        let only = mistake("route.route_id"@, "route_id must not be empty"@);
        assert(route_mistakes(route, repeated, upstreams) == seq![only]);
        assert(seq![only][0] == only);
    } else {
        let unknown = !known_match_type(route.match_type);
        let no_path = (route.match_type == "exact"@ || route.match_type == "regex"@) && missing(
            route.path,
        );
        let no_prefix = route.match_type == "prefix"@ && missing(route.path_prefix);
        let stray = !has_key(upstreams, route.upstream);
        let r1 = fault_report(RouteFault::Repeated, route, upstreams);
        let r2 = fault_report(RouteFault::MatchType, route, upstreams);
        let r3 = fault_report(RouteFault::Path, route, upstreams);
        let r4 = fault_report(RouteFault::PathPrefix, route, upstreams);
        let r5 = fault_report(RouteFault::Upstream, route, upstreams);
        let (g1, g2) = (given(repeated, r1), given(unknown, r2));
        let (g3, g4) = (given(no_path, r3), given(no_prefix, r4));
        let g5 = given(stray, r5);
        assert(route_mistakes(route, repeated, upstreams) == g1 + g2 + g3 + g4 + g5);
        lemma_in_both(g1, g2, m);
        lemma_in_both(g1 + g2, g3, m);
        lemma_in_both(g1 + g2 + g3, g4, m);
        lemma_in_both(g1 + g2 + g3 + g4, g5, m);
        lemma_given(repeated, r1, m);
        lemma_given(unknown, r2, m);
        lemma_given(no_path, r3, m);
        lemma_given(no_prefix, r4, m);
        lemma_given(stray, r5, m);
        assert(has_fault(RouteFault::Repeated, route, repeated, upstreams) == repeated);
        assert(has_fault(RouteFault::MatchType, route, repeated, upstreams) == unknown);
        assert(has_fault(RouteFault::Path, route, repeated, upstreams) == no_path);
        assert(has_fault(RouteFault::PathPrefix, route, repeated, upstreams) == no_prefix);
        assert(has_fault(RouteFault::Upstream, route, repeated, upstreams) == stray);
    }
}

proof fn lemma_mistakes_of_a_route(
    routes: Seq<RouteView>,
    upstreams: Seq<(Seq<char>, UpstreamView)>,
    i: int,
    m: MistakeView,
)
    requires
        0 <= i < routes.len(),
        route_mistakes(
            routes[i],
            id_among(routes.take(i), routes[i].route_id),
            upstreams,
        ).contains(m),
    ensures
        routes_mistakes(routes, upstreams).contains(m),
    decreases routes.len(),
{
    let front = routes.drop_last();
    let own = route_mistakes(
        routes.last(),
        id_among(front, routes.last().route_id),
        upstreams,
    );
    lemma_in_both(routes_mistakes(front, upstreams), own, m);
    if i < routes.len() - 1 {
        assert(front[i] == routes[i]);
        assert(front.take(i) =~= routes.take(i));
        lemma_mistakes_of_a_route(front, upstreams, i, m);
    } else {
        assert(front =~= routes.take(i));
    }
}

proof fn lemma_in_the_whole(config: KirinView, m: MistakeView)
    ensures
        server_mistakes(config.server).contains(m) ==> config_mistakes(config).contains(m),
        routes_mistakes(config.routes, config.upstreams).contains(m) ==> config_mistakes(
            config,
        ).contains(m),
        upstreams_mistakes(config.upstreams).contains(m) ==> config_mistakes(config).contains(m),
        config.rate_limit matches Some(rl) ==> (rate_limit_mistakes(rl).contains(m)
            ==> config_mistakes(config).contains(m)),
        config.auth matches Some(auth) ==> (auth_mistakes(auth).contains(m) ==> config_mistakes(
            config,
        ).contains(m)),
{
    let a = server_mistakes(config.server);
    let b = routes_mistakes(config.routes, config.upstreams);
    let c = upstreams_mistakes(config.upstreams);
    let d = match config.rate_limit {
        Some(rl) => rate_limit_mistakes(rl),
        None => Seq::empty(),
    };
    let e = match config.auth {
        Some(auth) => auth_mistakes(auth),
        None => Seq::empty(),
    };
    lemma_in_both(a, b, m);
    lemma_in_both(a + b, c, m);
    lemma_in_both(a + b + c, d, m);
    lemma_in_both(a + b + c + d, e, m);
}

/// Each fault of each route of a configuration is reported, at whatever place the route
/// stands and whatever else is wrong.
pub proof fn every_fault_of_every_route_is_reported(config: KirinView, i: int, fault: RouteFault)
    requires
        0 <= i < config.routes.len(),
        !blank(config.routes[i].route_id),
        has_fault(
            fault,
            config.routes[i],
            exists|j: int| 0 <= j < i && (#[trigger] config.routes[j]).route_id
                == config.routes[i].route_id,
            config.upstreams,
        ),
    ensures
        config_mistakes(config).contains(
            fault_report(fault, config.routes[i], config.upstreams),
        ),
{
    let route = config.routes[i];
    let m = fault_report(fault, route, config.upstreams);
    let before = config.routes.take(i);
    let repeated = id_among(before, route.route_id);
    if exists|j: int| 0 <= j < i && (#[trigger] config.routes[j]).route_id == route.route_id {
        let j = choose|j: int|
            0 <= j < i && (#[trigger] config.routes[j]).route_id == route.route_id;
        assert(before[j].route_id == route.route_id);
    }
    if repeated {
        let j = choose|j: int|
            0 <= j < before.len() && #[trigger] before[j].route_id == route.route_id;
        assert(config.routes[j].route_id == route.route_id);
    }
    assert(has_fault(fault, route, repeated, config.upstreams));
    every_fault_of_a_route_is_reported(route, repeated, config.upstreams, m);
    lemma_mistakes_of_a_route(config.routes, config.upstreams, i, m);
    lemma_in_the_whole(config, m);
}

/// Each route without an id is reported.
pub proof fn every_route_without_an_id_is_reported(config: KirinView, i: int)
    requires
        0 <= i < config.routes.len(),
        blank(config.routes[i].route_id),
    ensures
        config_mistakes(config).contains(
            MistakeView {
                field: "route.route_id"@,
                message: "route_id must not be empty"@,
                route_id: None,
            },
        ),
{
    let route = config.routes[i];
    let m = mistake("route.route_id"@, "route_id must not be empty"@);
    let repeated = id_among(config.routes.take(i), route.route_id);
    every_fault_of_a_route_is_reported(route, repeated, config.upstreams, m);
    lemma_mistakes_of_a_route(config.routes, config.upstreams, i, m);
    lemma_in_the_whole(config, m);
}

// ---- upstreams ----

proof fn lemma_mistakes_of_a_node(name: Seq<char>, nodes: Seq<NodeView>, i: int, m: MistakeView)
    requires
        0 <= i < nodes.len(),
        node_mistakes(name, i as nat, nodes[i]).contains(m),
    ensures
        nodes_mistakes(name, nodes).contains(m),
    decreases nodes.len(),
{
    let front = nodes.drop_last();
    lemma_in_both(
        nodes_mistakes(name, front),
        node_mistakes(name, (nodes.len() - 1) as nat, nodes.last()),
        m,
    );
    if i < nodes.len() - 1 {
        assert(front[i] == nodes[i]);
        lemma_mistakes_of_a_node(name, front, i, m);
    }
}

proof fn lemma_mistakes_of_an_upstream(
    upstreams: Seq<(Seq<char>, UpstreamView)>,
    k: int,
    m: MistakeView,
)
    requires
        0 <= k < upstreams.len(),
        upstream_mistakes(upstreams[k].0, upstreams[k].1).contains(m),
    ensures
        upstreams_mistakes(upstreams).contains(m),
    decreases upstreams.len(),
{
    let front = upstreams.drop_last();
    lemma_in_both(
        upstreams_mistakes(front),
        upstream_mistakes(upstreams.last().0, upstreams.last().1),
        m,
    );
    if k < upstreams.len() - 1 {
        assert(front[k] == upstreams[k]);
        lemma_mistakes_of_an_upstream(front, k, m);
    }
}

/// An upstream without nodes is reported, and so is each node whose address is none or whose
/// weight is zero, under the name of the upstream and the place of the node.
pub proof fn every_fault_of_every_upstream_is_reported(config: KirinView, k: int, i: int)
    requires
        0 <= k < config.upstreams.len(),
    ensures
        config.upstreams[k].1.nodes.len() == 0 ==> config_mistakes(config).contains(
            mistake(
                "upstream."@ + config.upstreams[k].0 + ".nodes"@,
                "至少需要一个节点"@,
            ),
        ),
        0 <= i < config.upstreams[k].1.nodes.len() ==> (socket_addr_error(
            config.upstreams[k].1.nodes[i].addr,
        ) matches Some(e) ==> config_mistakes(config).contains(
            mistake(
                "upstream."@ + config.upstreams[k].0 + ".nodes["@ + decimal(i as nat)
                    + "].addr"@,
                "地址格式无效: "@ + e,
            ),
        )),
        0 <= i < config.upstreams[k].1.nodes.len() && config.upstreams[k].1.nodes[i].weight == 0
            ==> config_mistakes(config).contains(
            mistake(
                "upstream."@ + config.upstreams[k].0 + ".nodes["@ + decimal(i as nat)
                    + "].weight"@,
                "权重必须大于 0"@,
            ),
        ),
{
    let (name, upstream) = config.upstreams[k];
    let nodes = upstream.nodes;
    let none = mistake("upstream."@ + name + ".nodes"@, "至少需要一个节点"@);
    let first = given(nodes.len() == 0, none);
    if nodes.len() == 0 {
        lemma_given(true, none, none);
        lemma_in_both(first, nodes_mistakes(name, nodes), none);
        lemma_mistakes_of_an_upstream(config.upstreams, k, none);
        lemma_in_the_whole(config, none);
    }
    if 0 <= i < nodes.len() {
        let at = "upstream."@ + name + ".nodes["@ + decimal(i as nat);
        let heavy = mistake(at + "].weight"@, "权重必须大于 0"@);
        let weight = given(nodes[i].weight == 0, heavy);
        if let Some(e) = socket_addr_error(nodes[i].addr) {
            let m = mistake(at + "].addr"@, "地址格式无效: "@ + e);
            assert(seq![m][0] == m);
            lemma_in_both(seq![m], weight, m);
            lemma_mistakes_of_a_node(name, nodes, i, m);
            lemma_in_both(first, nodes_mistakes(name, nodes), m);
            lemma_mistakes_of_an_upstream(config.upstreams, k, m);
            lemma_in_the_whole(config, m);
        }
        if nodes[i].weight == 0 {
            let addr = match socket_addr_error(nodes[i].addr) {
                Some(e) => seq![mistake(at + "].addr"@, "地址格式无效: "@ + e)],
                None => Seq::empty(),
            };
            lemma_given(true, heavy, heavy);
            lemma_in_both(addr, weight, heavy);
            lemma_mistakes_of_a_node(name, nodes, i, heavy);
            lemma_in_both(first, nodes_mistakes(name, nodes), heavy);
            lemma_mistakes_of_an_upstream(config.upstreams, k, heavy);
            lemma_in_the_whole(config, heavy);
        }
    }
}

// ---- the listener and the policies ----

/// The faults of the listener and of the policies are each reported, whatever else is wrong.
pub proof fn every_fault_of_the_policies_is_reported(config: KirinView)
    ensures
        socket_addr_error(config.server.listen) matches Some(e) ==> config_mistakes(
            config,
        ).contains(mistake("server.listen"@, "invalid listen address: "@ + e)),
        config.server.threads == Some(0usize) ==> config_mistakes(config).contains(
            mistake("server.threads"@, "worker threads of gateway must be greater than 0"@),
        ),
        config.rate_limit matches Some(rl) ==> (rl.capacity == 0 ==> config_mistakes(
            config,
        ).contains(mistake("rate_limit.capacity"@, "令牌桶容量必须大于 0"@))),
        config.rate_limit matches Some(rl) ==> (rl.refill_rate == 0 ==> config_mistakes(
            config,
        ).contains(mistake("rate_limit.refill_rate"@, "令牌补充速率必须大于 0"@))),
        config.auth matches Some(auth) ==> (auth.algorithm != "RS256"@ ==> config_mistakes(
            config,
        ).contains(
            mistake(
                "auth.algorithm"@,
                "签名算法 '"@ + auth.algorithm + "' 无效，当前仅支持 RS256"@,
            ),
        )),
        config.auth matches Some(auth) ==> (blank(auth.public_key_path) ==> config_mistakes(
            config,
        ).contains(mistake("auth.public_key_path"@, "公钥文件路径不能为空"@))),
        config.auth matches Some(auth) ==> (blank(auth.issuer) ==> config_mistakes(
            config,
        ).contains(mistake("auth.issuer"@, "Token 签发者不能为空"@))),
{
    let no_threads = mistake(
        "server.threads"@,
        "worker threads of gateway must be greater than 0"@,
    );
    let threads = given(config.server.threads == Some(0usize), no_threads);
    let listen = match socket_addr_error(config.server.listen) {
        Some(e) => seq![mistake("server.listen"@, "invalid listen address: "@ + e)],
        None => Seq::empty(),
    };
    if let Some(e) = socket_addr_error(config.server.listen) {
        let m = mistake("server.listen"@, "invalid listen address: "@ + e);
        assert(seq![m][0] == m);
        lemma_in_both(listen, threads, m);
        lemma_in_the_whole(config, m);
    }
    lemma_given(config.server.threads == Some(0usize), no_threads, no_threads);
    lemma_in_both(listen, threads, no_threads);
    lemma_in_the_whole(config, no_threads);
    if let Some(rl) = config.rate_limit {
        let m = mistake("rate_limit.capacity"@, "令牌桶容量必须大于 0"@);
        let n = mistake("rate_limit.refill_rate"@, "令牌补充速率必须大于 0"@);
        lemma_given(rl.capacity == 0, m, m);
        lemma_given(rl.refill_rate == 0, n, n);
        lemma_in_both(given(rl.capacity == 0, m), given(rl.refill_rate == 0, n), m);
        lemma_in_both(given(rl.capacity == 0, m), given(rl.refill_rate == 0, n), n);
        lemma_in_the_whole(config, m);
        lemma_in_the_whole(config, n);
    }
    if let Some(auth) = config.auth {
        lemma_mistakes_of_the_tokens(config, auth);
    }
}

proof fn lemma_mistakes_of_the_tokens(config: KirinView, auth: AuthRawView)
    requires
        config.auth == Some(auth),
    ensures
        auth.algorithm != "RS256"@ ==> config_mistakes(config).contains(
            mistake(
                "auth.algorithm"@,
                "签名算法 '"@ + auth.algorithm + "' 无效，当前仅支持 RS256"@,
            ),
        ),
        blank(auth.public_key_path) ==> config_mistakes(config).contains(
            mistake("auth.public_key_path"@, "公钥文件路径不能为空"@),
        ),
        blank(auth.issuer) ==> config_mistakes(config).contains(
            mistake("auth.issuer"@, "Token 签发者不能为空"@),
        ),
{
    let x = mistake(
        "auth.algorithm"@,
        "签名算法 '"@ + auth.algorithm + "' 无效，当前仅支持 RS256"@,
    );
    let y = mistake("auth.public_key_path"@, "公钥文件路径不能为空"@);
    let z = mistake("auth.issuer"@, "Token 签发者不能为空"@);
    let a = given(auth.algorithm != "RS256"@, x);
    let b = given(blank(auth.public_key_path), y);
    let c = given(blank(auth.issuer), z);
    lemma_given(auth.algorithm != "RS256"@, x, x);
    lemma_given(blank(auth.public_key_path), y, y);
    lemma_given(blank(auth.issuer), z, z);
    lemma_in_both(a, b, x);
    lemma_in_both(a + b, c, x);
    lemma_in_both(a, b, y);
    lemma_in_both(a + b, c, y);
    lemma_in_both(a + b, c, z);
    lemma_in_the_whole(config, x);
    lemma_in_the_whole(config, y);
    lemma_in_the_whole(config, z);
}

/// The mistakes are reported in order: those of the listener, of the routes as they stand, of
/// the upstreams as they stand, of the rate limit and of authentication.
pub proof fn mistakes_are_reported_in_order(
    config: KirinView,
    routes: Seq<RouteView>,
    route: RouteView,
    upstreams: Seq<(Seq<char>, UpstreamView)>,
    name: Seq<char>,
    upstream: UpstreamView,
)
    ensures
        config.rate_limit is None && config.auth is None ==> config_mistakes(config)
            == server_mistakes(config.server) + routes_mistakes(config.routes, config.upstreams)
            + upstreams_mistakes(config.upstreams),
        config.rate_limit is Some && config.auth is None ==> config_mistakes(config)
            == config_mistakes(KirinView { rate_limit: None, ..config }) + rate_limit_mistakes(
            config.rate_limit->0,
        ),
        config.auth is Some ==> config_mistakes(config) == config_mistakes(
            KirinView { auth: None, ..config },
        ) + auth_mistakes(config.auth->0),
        routes_mistakes(Seq::empty(), upstreams).len() == 0,
        routes_mistakes(routes.push(route), upstreams) == routes_mistakes(routes, upstreams)
            + route_mistakes(route, id_among(routes, route.route_id), upstreams),
        upstreams_mistakes(Seq::empty()).len() == 0,
        upstreams_mistakes(upstreams.push((name, upstream))) == upstreams_mistakes(upstreams)
            + upstream_mistakes(name, upstream),
{
    assert(routes.push(route).drop_last() =~= routes);
    assert(upstreams.push((name, upstream)).drop_last() =~= upstreams);
    let none = Seq::<MistakeView>::empty();
    let first = server_mistakes(config.server) + routes_mistakes(config.routes, config.upstreams)
        + upstreams_mistakes(config.upstreams);
    assert(first + none =~= first);
    let limit = match config.rate_limit {
        Some(rl) => rate_limit_mistakes(rl),
        None => none,
    };
    assert(first + limit + none =~= first + limit);
}

} // verus!
