//! What holds of every state of the gateway and of every change of it.
use crate::config::types::{KirinView, NodeView, RateLimitConfig, RouteView, UpstreamView};
use crate::config::validation::{distinct_ids, id_among};
use crate::control_plane::gateway_state::model::{
    changed_clusters, changed_routes, changed_state, clusters_of, first_stray, full_hint,
    registration, route_named, routes_changed, rule_of, state_of, tables_of, upstreams_changed,
    with_clusters, with_routes, without_lost_clusters, without_lost_routes, Clusters,
    StateErrorView, StateView, Tables,
};
use crate::data_plane::rate_limit::LimiterView;
use crate::data_plane::router::laws::{
    added_rule_is_found, addition_leaves_the_others, lemma_rule_at, removal_leaves_the_others,
    removed_rule_is_gone, taken_route_is_a_matching_rule,
};
use crate::data_plane::router::model::{
    lemma_added_is_valid, lemma_id_position, lemma_removed_is_valid, ContextView, RouterView,
    RuleView,
};
use crate::data_plane::router::router_white_list::{
    lemma_registered_is_valid, lemma_unregistered_is_valid, paths_resolve_by_priority,
    registered_route_is_found, resolve, unregistered_route_is_gone, valid_entries, EntryView,
};
use crate::data_plane::router::MatchType;
use crate::data_plane::upstream::{cluster_of, ClusterView};
use crate::str_map::{
    distinct_keys, entry_of, has_key, key_position, lemma_entry_after_change,
    lemma_key_position, lemma_key_position_is, without_entry,
};
use vstd::prelude::*;

verus! {

// ---- what it means for the state to follow a configuration ----

/// Whether two registry entries agree in everything that requests depend on.
pub open spec fn same_registration(a: EntryView, b: EntryView) -> bool {
    &&& a.route_id == b.route_id
    &&& a.path == b.path
    &&& a.prefix == b.prefix
    &&& a.match_type == b.match_type
    &&& a.methods == b.methods
    &&& a.upstream == b.upstream
    &&& a.is_auth == b.is_auth
}

/// Whether the tables hold the given route under the given id, or nothing where there
/// is none.
pub open spec fn holds_route(tables: Tables, route: Option<RouteView>, id: Seq<char>) -> bool {
    match route {
        None => tables.router.find(id) is None && entry_of(tables.entries, id) is None,
        Some(r) => rule_of(r, ""@) matches Ok(rule) && tables.router.find(id) == Some(rule) && (
        entry_of(tables.entries, id) matches Some(e) && same_registration(
            e,
            registration(r, rule),
        )),
    }
}

/// Whether the tables hold exactly the routes of a configuration.
pub open spec fn routes_in_sync(tables: Tables, routes: Seq<RouteView>) -> bool {
    forall|id: Seq<char>| #[trigger] holds_route(tables, route_named(routes, id), id)
}

/// The cluster of an optional upstream.
pub open spec fn cluster_for(name: Seq<char>, config: Option<UpstreamView>) -> Option<ClusterView> {
    match config {
        Some(c) => match cluster_of(name, c) {
            Ok(cluster) => Some(cluster),
            Err(_) => None,
        },
        None => None,
    }
}

/// Whether a name stands for the cluster of its upstream.
pub open spec fn holds_cluster(
    clusters: Clusters,
    config: Option<UpstreamView>,
    name: Seq<char>,
) -> bool {
    &&& entry_of(clusters, name) == cluster_for(name, config)
    &&& config is Some ==> entry_of(clusters, name) is Some
}

/// Whether there are exactly the clusters of a configuration.
pub open spec fn clusters_in_sync(
    clusters: Clusters,
    upstreams: Seq<(Seq<char>, UpstreamView)>,
) -> bool {
    forall|name: Seq<char>| #[trigger] holds_cluster(clusters, entry_of(upstreams, name), name)
}

/// Whether a limiter follows a configured policy.
pub open spec fn limiter_in_sync(
    limiter: Option<LimiterView>,
    policy: Option<RateLimitConfig>,
) -> bool {
    match (limiter, policy) {
        (Some(l), Some(p)) => l.capacity == p.capacity && l.refill_rate == p.refill_rate,
        (None, None) => true,
        _ => false,
    }
}

/// Whether a state is sound and does what its configuration says.
pub open spec fn in_sync(state: StateView) -> bool {
    &&& state.router.valid()
    &&& valid_entries(state.entries)
    &&& distinct_keys(state.clusters)
    &&& distinct_ids(state.config.routes)
    &&& distinct_keys(state.config.upstreams)
    &&& routes_in_sync(state.tables(), state.config.routes)
    &&& clusters_in_sync(state.clusters, state.config.upstreams)
    &&& limiter_in_sync(state.limiter, state.config.rate_limit)
    &&& match (state.auth, state.config.auth) {
        (Some(a), Some(raw)) => a.issuer == raw.issuer && a.claims_to_forward
            == raw.claims_to_forward,
        (None, None) => true,
        _ => false,
    }
}

// ---- single steps ----

/// Whether the tables are sound.
pub open spec fn sound(tables: Tables) -> bool {
    &&& tables.router.valid()
    &&& valid_entries(tables.entries)
}

pub proof fn lemma_rule_of_id(route: RouteView, hint: Seq<char>)
    ensures
        rule_of(route, hint) matches Ok(rule) ==> rule.route_id == route.route_id && rule_of(
            route,
            ""@,
        ) == Ok::<RuleView, StateErrorView>(rule),
{
}

/// After a route is added it is held, and every other id stands for what it stood for.
pub proof fn lemma_add(tables: Tables, route: RouteView, hint: Seq<char>, id: Seq<char>)
    requires
        sound(tables),
        tables.add(route, hint) is Ok,
    ensures
        sound(tables.add(route, hint)->Ok_0),
        tables.router.find(route.route_id) is None,
        id == route.route_id ==> holds_route(tables.add(route, hint)->Ok_0, Some(route), id),
        id != route.route_id ==> tables.add(route, hint)->Ok_0.router.find(id)
            == tables.router.find(id) && entry_of(tables.add(route, hint)->Ok_0.entries, id)
            == entry_of(tables.entries, id),
{
    lemma_rule_of_id(route, hint);
    let rule = rule_of(route, hint)->Ok_0;
    let entry = registration(route, rule);
    lemma_added_is_valid(tables.router, rule);
    lemma_registered_is_valid(tables.entries, entry);
    registered_route_is_found(tables.entries, entry, id);
    added_rule_is_found(tables.router, rule);
    if id != route.route_id {
        addition_leaves_the_others(tables.router, rule, id);
    }
}

/// After a route is removed it is gone, and every other id stands for what it stood
/// for.
pub proof fn lemma_remove(tables: Tables, gone: Seq<char>, id: Seq<char>)
    requires
        sound(tables),
    ensures
        sound(tables.remove(gone)),
        id == gone ==> tables.remove(gone).router.find(id) is None && entry_of(
            tables.remove(gone).entries,
            id,
        ) is None,
        id != gone ==> tables.remove(gone).router.find(id) == tables.router.find(id) && entry_of(
            tables.remove(gone).entries,
            id,
        ) == entry_of(tables.entries, id),
{
    lemma_removed_is_valid(tables.router, gone);
    lemma_unregistered_is_valid(tables.entries, gone);
    unregistered_route_is_gone(tables.entries, gone, id);
    removed_rule_is_gone(tables.router, gone);
    if id != gone {
        removal_leaves_the_others(tables.router, gone, id);
    }
}

// ---- lists of routes ----

proof fn lemma_route_named(routes: Seq<RouteView>, id: Seq<char>)
    ensures
        route_named(routes, id) is Some <==> id_among(routes, id),
        route_named(routes, id) matches Some(r) ==> r.route_id == id && routes.contains(r),
    decreases routes.len(),
{
    if routes.len() > 0 {
        let rest = routes.skip(1);
        lemma_route_named(rest, id);
        if routes[0].route_id == id {
            assert(id_among(routes, id));
        } else {
            if id_among(rest, id) {
                let i = choose|i: int| 0 <= i < rest.len() && #[trigger] rest[i].route_id == id;
                assert(routes[i + 1] == rest[i]);
            }
            if id_among(routes, id) {
                let i = choose|i: int| 0 <= i < routes.len() && #[trigger] routes[i].route_id == id;
                assert(rest[i - 1] == routes[i]);
            }
            if let Some(r) = route_named(rest, id) {
                let i = choose|i: int| 0 <= i < rest.len() && rest[i] == r;
                assert(routes[i + 1] == r);
            }
        }
    }
}

proof fn lemma_route_at(routes: Seq<RouteView>, i: int)
    requires
        distinct_ids(routes),
        0 <= i < routes.len(),
    ensures
        route_named(routes, routes[i].route_id) == Some(routes[i]),
{
    let id = routes[i].route_id;
    lemma_route_named(routes, id);
    assert(id_among(routes, id));
    let r = route_named(routes, id)->0;
    let j = choose|j: int| 0 <= j < routes.len() && routes[j] == r;
    if j < i {
        assert(routes[j].route_id != routes[i].route_id);
    } else if i < j {
        assert(routes[i].route_id != routes[j].route_id);
    }
}

/// The route under an id in a list with one more route.
proof fn lemma_route_named_push(routes: Seq<RouteView>, id: Seq<char>)
    requires
        routes.len() > 0,
        distinct_ids(routes),
    ensures
        distinct_ids(routes.drop_last()),
        route_named(routes, id) == if routes.last().route_id == id {
            Some(routes.last())
        } else {
            route_named(routes.drop_last(), id)
        },
        !id_among(routes.drop_last(), routes.last().route_id),
{
    let front = routes.drop_last();
    let last = routes.last();
    assert forall|i: int, j: int| 0 <= i < j < front.len() implies #[trigger] front[i].route_id
        != #[trigger] front[j].route_id by {
        assert(routes[i].route_id != routes[j].route_id);
    }
    if id_among(front, last.route_id) {
        let i = choose|i: int|
            0 <= i < front.len() && #[trigger] front[i].route_id == last.route_id;
        assert(routes[i].route_id != routes[routes.len() - 1].route_id);
    }
    if last.route_id == id {
        lemma_route_at(routes, routes.len() - 1);
    } else {
        lemma_route_named(routes, id);
        lemma_route_named(front, id);
        if let Some(r) = route_named(front, id) {
            let i = choose|i: int| 0 <= i < front.len() && front[i] == r;
            assert(routes[i] == r);
            lemma_route_at(routes, i);
        } else if let Some(r) = route_named(routes, id) {
            let i = choose|i: int| 0 <= i < routes.len() && routes[i] == r;
            assert(front[i] == r);
            assert(id_among(front, id));
        }
    }
}

/// The tables of a list of routes hold these routes.
proof fn lemma_tables_of(routes: Seq<RouteView>)
    ensures
        tables_of(routes) matches Ok(t) ==> sound(t) && distinct_ids(routes) && routes_in_sync(
            t,
            routes,
        ),
    decreases routes.len(),
{
    if let Ok(t) = tables_of(routes) {
        if routes.len() == 0 {
            assert forall|id: Seq<char>| #[trigger] holds_route(
                t,
                route_named(routes, id),
                id,
            ) by {
                lemma_id_position(t.router.exact, id);
                lemma_id_position(t.router.regex, id);
                lemma_id_position(t.router.prefix, id);
                lemma_key_position(t.entries, id);
            }
        } else {
            let front = routes.drop_last();
            let last = routes.last();
            lemma_tables_of(front);
            let sofar = tables_of(front)->Ok_0;
            lemma_add(sofar, last, full_hint(), last.route_id);
            assert(holds_route(
                sofar,
                route_named(front, last.route_id),
                last.route_id,
            ));
            lemma_route_named(front, last.route_id);
            assert(!id_among(front, last.route_id));
            assert forall|i: int, j: int| 0 <= i < j < routes.len() implies #[trigger] routes[i].route_id
                != #[trigger] routes[j].route_id by {
                assert(front[i].route_id == routes[i].route_id);
                if j < routes.len() - 1 {
                    assert(front[i].route_id != front[j].route_id);
                }
            }
            assert forall|id: Seq<char>| #[trigger] holds_route(
                t,
                route_named(routes, id),
                id,
            ) by {
                lemma_add(sofar, last, full_hint(), id);
                lemma_route_named_push(routes, id);
                assert(holds_route(sofar, route_named(front, id), id));
            }
        }
    }
}

// ---- lists of clusters ----

proof fn lemma_entry_push<V>(entries: Seq<(Seq<char>, V)>, key: Seq<char>)
    requires
        entries.len() > 0,
        distinct_keys(entries),
    ensures
        distinct_keys(entries.drop_last()),
        entry_of(entries, key) == if entries.last().0 == key {
            Some(entries.last().1)
        } else {
            entry_of(entries.drop_last(), key)
        },
        !has_key(entries.drop_last(), entries.last().0),
{
    let front = entries.drop_last();
    let last = entries.len() - 1;
    assert forall|i: int, j: int| 0 <= i < j < front.len() implies #[trigger] front[i].0
        != #[trigger] front[j].0 by {
        assert(entries[i].0 != entries[j].0);
    }
    lemma_key_position(front, key);
    let at = key_position(front, key) as int;
    if entries[last].0 == key {
        assert forall|i: int| 0 <= i < last implies #[trigger] entries[i].0 != key by {
            assert(entries[i].0 != entries[last].0);
        }
        lemma_key_position_is(entries, key, last);
    } else {
        assert forall|i: int| 0 <= i < at implies #[trigger] entries[i].0 != key by {
            assert(front[i].0 != key);
        }
        if at < front.len() {
            lemma_key_position_is(entries, key, at);
        } else {
            lemma_key_position_is(entries, key, entries.len() as int);
        }
    }
}

proof fn lemma_entry_is_key<V>(entries: Seq<(Seq<char>, V)>, key: Seq<char>)
    ensures
        entry_of(entries, key) is Some <==> has_key(entries, key),
{
    lemma_key_position(entries, key);
}

proof fn lemma_clusters_of(upstreams: Seq<(Seq<char>, UpstreamView)>)
    requires
        distinct_keys(upstreams),
    ensures
        clusters_of(upstreams) matches Ok(clusters) ==> distinct_keys(clusters)
            && clusters_in_sync(clusters, upstreams),
    decreases upstreams.len(),
{
    if let Ok(clusters) = clusters_of(upstreams) {
        if upstreams.len() == 0 {
            assert forall|name: Seq<char>| #[trigger] holds_cluster(
                clusters,
                entry_of(upstreams, name),
                name,
            ) by {
                lemma_key_position(clusters, name);
                lemma_key_position(upstreams, name);
            }
        } else {
            let front = upstreams.drop_last();
            let (last, config) = upstreams.last();
            lemma_entry_push(upstreams, last);
            lemma_clusters_of(front);
            let sofar = clusters_of(front)->Ok_0;
            let cluster = cluster_of(last, config)->Ok_0;
            lemma_entry_after_change(sofar, last, cluster, last);
            assert forall|name: Seq<char>| #[trigger] holds_cluster(
                clusters,
                entry_of(upstreams, name),
                name,
            ) by {
                lemma_entry_push(upstreams, name);
                lemma_entry_after_change(sofar, last, cluster, name);
                assert(holds_cluster(sofar, entry_of(front, name), name));
            }
        }
    }
}

/// A state that is made from a configuration does what the configuration says.
pub proof fn configured_state_is_in_sync(
    config: KirinView,
    key_file: Result<Seq<char>, Seq<char>>,
)
    requires
        distinct_keys(config.upstreams),
    ensures
        state_of(config, key_file) matches Ok(state) ==> in_sync(state) && state.config == config
            && upstreams_known(config),
{
    if let Ok(state) = state_of(config, key_file) {
        lemma_tables_of(config.routes);
        lemma_clusters_of(config.upstreams);
        lemma_first_stray(config.routes, config.upstreams);
        assert(state.tables() =~= tables_of(config.routes)->Ok_0);
    }
}

/// Whether every route names an upstream of the configuration.
pub open spec fn upstreams_known(config: KirinView) -> bool {
    forall|i: int|
        0 <= i < config.routes.len() ==> has_key(
            config.upstreams,
            (#[trigger] config.routes[i]).upstream,
        )
}

proof fn lemma_first_stray(routes: Seq<RouteView>, upstreams: Seq<(Seq<char>, UpstreamView)>)
    ensures
        first_stray(routes, upstreams) is None ==> forall|i: int|
            0 <= i < routes.len() ==> has_key(upstreams, (#[trigger] routes[i]).upstream),
    decreases routes.len(),
{
    if routes.len() > 0 && first_stray(routes, upstreams) is None {
        let rest = routes.skip(1);
        lemma_first_stray(rest, upstreams);
        assert forall|i: int| 0 <= i < routes.len() implies has_key(
            upstreams,
            (#[trigger] routes[i]).upstream,
        ) by {
            if i > 0 {
                assert(rest[i - 1] == routes[i]);
            }
        }
    }
}

// ---- changes of the routes ----

proof fn lemma_lost_routes(
    tables: Tables,
    olds: Seq<RouteView>,
    news: Seq<RouteView>,
    id: Seq<char>,
)
    requires
        sound(tables),
    ensures
        ({
            let rest = without_lost_routes(tables, olds, news);
            &&& sound(rest)
            &&& id_among(olds, id) && !id_among(news, id) ==> rest.router.find(id) is None
                && entry_of(rest.entries, id) is None
            &&& !id_among(olds, id) || id_among(news, id) ==> rest.router.find(id)
                == tables.router.find(id) && entry_of(rest.entries, id) == entry_of(
                tables.entries,
                id,
            )
        }),
    decreases olds.len(),
{
    if olds.len() > 0 {
        let front = olds.drop_last();
        let last = olds.last().route_id;
        lemma_lost_routes(tables, front, news, id);
        lemma_remove(without_lost_routes(tables, front, news), last, id);
        if id_among(front, id) {
            let i = choose|i: int| 0 <= i < front.len() && #[trigger] front[i].route_id == id;
            assert(olds[i].route_id == id);
        }
        if id_among(olds, id) && !id_among(front, id) {
            let i = choose|i: int| 0 <= i < olds.len() && #[trigger] olds[i].route_id == id;
            if i < olds.len() - 1 {
                assert(front[i].route_id == id);
            }
            assert(id == last);
        }
        if last == id {
            assert(olds[olds.len() - 1].route_id == id);
        }
    }
}

/// The route of the old configuration that is left under an id when the lost ones are
/// gone.
spec fn kept(olds: Seq<RouteView>, news: Seq<RouteView>, id: Seq<char>) -> Option<RouteView> {
    if id_among(news, id) {
        route_named(olds, id)
    } else {
        None
    }
}

/// The route under an id when the first routes of the new configuration are in place.
spec fn mixed(
    olds: Seq<RouteView>,
    news: Seq<RouteView>,
    part: Seq<RouteView>,
    id: Seq<char>,
) -> Option<RouteView> {
    if id_among(part, id) {
        route_named(part, id)
    } else {
        kept(olds, news, id)
    }
}

/// A route that has not changed is held where its old form is held.
proof fn lemma_unchanged(tables: Tables, old_route: RouteView, route: RouteView)
    requires
        old_route.route_id == route.route_id,
        !routes_changed(old_route, route),
        holds_route(tables, Some(old_route), route.route_id),
    ensures
        holds_route(tables, Some(route), route.route_id),
{
    assert(rule_of(old_route, ""@) == rule_of(route, ""@));
}

proof fn lemma_with_routes(
    tables: Tables,
    olds: Seq<RouteView>,
    news: Seq<RouteView>,
    n: int,
)
    requires
        sound(tables),
        distinct_ids(news),
        0 <= n <= news.len(),
        forall|id: Seq<char>| #[trigger] holds_route(tables, kept(olds, news, id), id),
    ensures
        ({
            let part = news.take(n);
            let (after, error) = with_routes(tables, olds, part);
            error is None ==> sound(after) && forall|id: Seq<char>| #[trigger]
                holds_route(after, mixed(olds, news, part, id), id)
        }),
    decreases n,
{
    let part = news.take(n);
    let (after, error) = with_routes(tables, olds, part);
    if n == 0 {
        assert forall|id: Seq<char>| #[trigger]
            holds_route(after, mixed(olds, news, part, id), id) by {
            assert(holds_route(tables, kept(olds, news, id), id));
        }
    } else if error is None {
        let front = news.take(n - 1);
        let last = news[n - 1];
        assert(part.drop_last() =~= front);
        assert(part.last() == last);
        lemma_with_routes(tables, olds, news, n - 1);
        let (sofar, earlier) = with_routes(tables, olds, front);
        assert(earlier is None);
        assert(distinct_ids(part)) by {
            assert forall|i: int, j: int| 0 <= i < j < part.len() implies #[trigger] part[i].route_id
                != #[trigger] part[j].route_id by {
                assert(news[i].route_id != news[j].route_id);
            }
        }
        lemma_route_named_push(part, last.route_id);
        lemma_route_named(olds, last.route_id);
        assert(id_among(news, last.route_id)) by {
            assert(news[n - 1].route_id == last.route_id);
        }
        assert(holds_route(sofar, mixed(olds, news, front, last.route_id), last.route_id));
        assert(mixed(olds, news, front, last.route_id) == route_named(olds, last.route_id));
        let gone = sofar.remove(last.route_id);
        lemma_remove(sofar, last.route_id, last.route_id);
        match route_named(olds, last.route_id) {
            None => {
                lemma_add(sofar, last, ""@, last.route_id);
            },
            Some(old_route) => {
                if routes_changed(old_route, last) {
                    lemma_add(gone, last, ""@, last.route_id);
                } else {
                    lemma_unchanged(sofar, old_route, last);
                }
            },
        }
        assert forall|id: Seq<char>| #[trigger]
            holds_route(after, mixed(olds, news, part, id), id) by {
            lemma_route_named_push(part, id);
            lemma_route_named(part, id);
            lemma_route_named(front, id);
            assert(holds_route(sofar, mixed(olds, news, front, id), id));
            if id != last.route_id {
                lemma_remove(sofar, last.route_id, id);
                match route_named(olds, last.route_id) {
                    None => {
                        lemma_add(sofar, last, ""@, id);
                    },
                    Some(old_route) => {
                        if routes_changed(old_route, last) {
                            lemma_add(gone, last, ""@, id);
                        }
                    },
                }
            }
        }
    }
}

/// A change of the routes without an error leaves exactly the new routes.
proof fn lemma_changed_routes(tables: Tables, olds: Seq<RouteView>, news: Seq<RouteView>)
    requires
        sound(tables),
        routes_in_sync(tables, olds),
        distinct_ids(news),
    ensures
        ({
            let (after, error) = changed_routes(tables, olds, news);
            error is None ==> sound(after) && routes_in_sync(after, news)
        }),
{
    let start = without_lost_routes(tables, olds, news);
    lemma_lost_routes(tables, olds, news, Seq::empty());
    assert forall|id: Seq<char>| #[trigger] holds_route(start, kept(olds, news, id), id) by {
        lemma_lost_routes(tables, olds, news, id);
        lemma_route_named(olds, id);
        assert(holds_route(tables, route_named(olds, id), id));
    }
    lemma_with_routes(start, olds, news, news.len() as int);
    assert(news.take(news.len() as int) =~= news);
    let (after, error) = changed_routes(tables, olds, news);
    if error is None {
        assert forall|id: Seq<char>| #[trigger] holds_route(
            after,
            route_named(news, id),
            id,
        ) by {
            assert(holds_route(after, mixed(olds, news, news, id), id));
            lemma_route_named(news, id);
        }
    }
}

// ---- changes of the clusters ----

proof fn lemma_without_entry<V>(entries: Seq<(Seq<char>, V)>, gone: Seq<char>, key: Seq<char>)
    requires
        distinct_keys(entries),
    ensures
        distinct_keys(without_entry(entries, gone)),
        entry_of(without_entry(entries, gone), key) == if key == gone {
            None
        } else {
            entry_of(entries, key)
        },
{
    lemma_key_position(entries, gone);
    if key_position(entries, gone) < entries.len() {
        lemma_entry_after_change(entries, gone, entries[0].1, key);
        lemma_entry_after_change(entries, gone, entries[0].1, gone);
    }
}

proof fn lemma_lost_clusters(
    clusters: Clusters,
    olds: Seq<(Seq<char>, UpstreamView)>,
    news: Seq<(Seq<char>, UpstreamView)>,
    name: Seq<char>,
)
    requires
        distinct_keys(clusters),
    ensures
        ({
            let rest = without_lost_clusters(clusters, olds, news);
            &&& distinct_keys(rest)
            &&& entry_of(rest, name) == if has_key(olds, name) && !has_key(news, name) {
                None
            } else {
                entry_of(clusters, name)
            }
        }),
    decreases olds.len(),
{
    if olds.len() > 0 {
        let front = olds.drop_last();
        let last = olds.last().0;
        lemma_lost_clusters(clusters, front, news, name);
        lemma_without_entry(without_lost_clusters(clusters, front, news), last, name);
        if has_key(front, name) {
            let i = choose|i: int| 0 <= i < front.len() && #[trigger] front[i].0 == name;
            assert(olds[i].0 == name);
        }
        if has_key(olds, name) && !has_key(front, name) {
            let i = choose|i: int| 0 <= i < olds.len() && #[trigger] olds[i].0 == name;
            if i < olds.len() - 1 {
                assert(front[i].0 == name);
            }
            assert(name == last);
        }
        if last == name {
            assert(olds[olds.len() - 1].0 == name);
        }
    }
}

/// What stands under a name when the first upstreams of the new configuration are in
/// place: what stood there at first where the upstream is not among them or has not
/// changed, and its new cluster otherwise.
proof fn lemma_with_clusters(
    clusters: Clusters,
    olds: Seq<(Seq<char>, UpstreamView)>,
    news: Seq<(Seq<char>, UpstreamView)>,
    name: Seq<char>,
)
    requires
        distinct_keys(clusters),
        distinct_keys(news),
    ensures
        ({
            let (after, error) = with_clusters(clusters, olds, news);
            &&& distinct_keys(after)
            &&& !has_key(news, name) || entry_of(news, name) == entry_of(olds, name) ==> entry_of(
                after,
                name,
            ) == entry_of(clusters, name)
            &&& error is None && has_key(news, name) && entry_of(news, name) != entry_of(olds, name)
                ==> entry_of(after, name) is Some && entry_of(after, name) == cluster_for(
                name,
                entry_of(news, name),
            )
        }),
    decreases news.len(),
{
    if news.len() > 0 {
        let front = news.drop_last();
        let (last, config) = news.last();
        lemma_entry_push(news, name);
        lemma_entry_push(news, last);
        lemma_with_clusters(clusters, olds, front, name);
        let (sofar, earlier) = with_clusters(clusters, olds, front);
        lemma_entry_is_key(news, name);
        lemma_entry_is_key(front, name);
        if cluster_of(last, config) is Ok {
            lemma_entry_after_change(sofar, last, cluster_of(last, config)->Ok_0, name);
            lemma_entry_after_change(sofar, last, cluster_of(last, config)->Ok_0, last);
        }
    }
}

/// A change of the upstreams without an error leaves exactly the new clusters.
proof fn lemma_changed_clusters(
    clusters: Clusters,
    olds: Seq<(Seq<char>, UpstreamView)>,
    news: Seq<(Seq<char>, UpstreamView)>,
)
    requires
        distinct_keys(clusters),
        distinct_keys(news),
        clusters_in_sync(clusters, olds),
    ensures
        ({
            let (after, error) = changed_clusters(clusters, olds, news);
            error is None ==> distinct_keys(after) && clusters_in_sync(after, news)
        }),
{
    let start = without_lost_clusters(clusters, olds, news);
    let (after, error) = changed_clusters(clusters, olds, news);
    lemma_lost_clusters(clusters, olds, news, Seq::empty());
    lemma_with_clusters(start, olds, news, Seq::empty());
    if error is None {
        assert forall|name: Seq<char>| #[trigger] holds_cluster(
            after,
            entry_of(news, name),
            name,
        ) by {
            lemma_lost_clusters(clusters, olds, news, name);
            lemma_with_clusters(start, olds, news, name);
            lemma_entry_is_key(news, name);
            lemma_entry_is_key(olds, name);
            assert(holds_cluster(clusters, entry_of(olds, name), name));
        }
    }
}

// ---- changes of the whole state ----

/// A change without an error leads to a state that does what the new configuration
/// says.
pub proof fn changed_state_is_in_sync(
    state: StateView,
    config: KirinView,
    key_file: Result<Seq<char>, Seq<char>>,
)
    requires
        in_sync(state),
        distinct_ids(config.routes),
        distinct_keys(config.upstreams),
    ensures
        changed_state(state, config, key_file).1 is None ==> in_sync(
            changed_state(state, config, key_file).0,
        ) && changed_state(state, config, key_file).0.config == config,
{
    lemma_changed_routes(state.tables(), state.config.routes, config.routes);
    lemma_changed_clusters(state.clusters, state.config.upstreams, config.upstreams);
    let (after, error) = changed_state(state, config, key_file);
    if error is None {
        let (tables, route_error) = changed_routes(
            state.tables(),
            state.config.routes,
            config.routes,
        );
        assert(after.tables() =~= tables);
    }
}

/// Whether an id stands in both tables, or in neither of them, as it should.
pub open spec fn holds_id(tables: Tables, id: Seq<char>, present: bool) -> bool {
    &&& tables.router.find(id) is Some <==> present
    &&& entry_of(tables.entries, id) is Some <==> present
}

/// Whether the ids in the tables are those of a list of routes.
pub open spec fn ids_in_sync(tables: Tables, routes: Seq<RouteView>) -> bool {
    forall|id: Seq<char>| #[trigger] holds_id(tables, id, id_among(routes, id))
}

/// Which ids the tables hold when the first routes of the new configuration are in place.
proof fn lemma_ids_with_routes(
    tables: Tables,
    olds: Seq<RouteView>,
    news: Seq<RouteView>,
    n: int,
    id: Seq<char>,
)
    requires
        sound(tables),
        0 <= n <= news.len(),
        holds_id(tables, id, id_among(olds, id) && id_among(news, id)),
    ensures
        ({
            let part = news.take(n);
            let (after, error) = with_routes(tables, olds, part);
            error is None ==> sound(after) && holds_id(
                after,
                id,
                id_among(part, id) || (id_among(olds, id) && id_among(news, id)),
            )
        }),
    decreases n,
{
    let part = news.take(n);
    let (after, error) = with_routes(tables, olds, part);
    if n > 0 && error is None {
        let front = news.take(n - 1);
        let last = news[n - 1];
        let (sofar, earlier) = with_routes(tables, olds, front);
        assert(part.drop_last() =~= front);
        assert(part.last() == last);
        assert(earlier is None);
        lemma_ids_with_routes(tables, olds, news, n - 1, id);
        lemma_route_named(olds, last.route_id);
        lemma_remove(sofar, last.route_id, id);
        let gone = sofar.remove(last.route_id);
        match route_named(olds, last.route_id) {
            None => {
                lemma_add(sofar, last, ""@, id);
            },
            Some(old_route) => {
                if routes_changed(old_route, last) {
                    lemma_add(gone, last, ""@, id);
                }
            },
        }
        if id == last.route_id {
            assert(news[n - 1].route_id == id);
            assert(part[n - 1].route_id == id);
        }
        if id_among(part, id) && id != last.route_id {
            let i = choose|i: int| 0 <= i < part.len() && #[trigger] part[i].route_id == id;
            assert(front[i].route_id == id);
        }
        if id_among(front, id) {
            let i = choose|i: int| 0 <= i < front.len() && #[trigger] front[i].route_id == id;
            assert(part[i].route_id == id);
        }
    }
}

/// A change without an error leaves exactly the ids of the new configuration in the
/// routing table and in the registry, also where the new configuration repeats an id.
pub proof fn changed_state_holds_the_configured_ids(
    state: StateView,
    config: KirinView,
    key_file: Result<Seq<char>, Seq<char>>,
)
    requires
        sound(state.tables()),
        ids_in_sync(state.tables(), state.config.routes),
    ensures
        changed_state(state, config, key_file).1 is None ==> sound(
            changed_state(state, config, key_file).0.tables(),
        ) && ids_in_sync(changed_state(state, config, key_file).0.tables(), config.routes),
{
    let olds = state.config.routes;
    let news = config.routes;
    let start = without_lost_routes(state.tables(), olds, news);
    let (after, error) = changed_state(state, config, key_file);
    lemma_lost_routes(state.tables(), olds, news, Seq::empty());
    assert(news.take(news.len() as int) =~= news);
    if error is None {
        assert(after.tables() =~= changed_routes(state.tables(), olds, news).0);
        assert forall|id: Seq<char>| #[trigger] holds_id(
            after.tables(),
            id,
            id_among(news, id),
        ) by {
            assert(holds_id(state.tables(), id, id_among(olds, id)));
            lemma_lost_routes(state.tables(), olds, news, id);
            lemma_ids_with_routes(start, olds, news, news.len() as int, id);
        }
        assert(holds_id(state.tables(), Seq::empty(), id_among(olds, Seq::empty())));
        lemma_ids_with_routes(start, olds, news, news.len() as int, Seq::empty());
    }
}

/// The ids in the tables of a state that follows its configuration are those of the
/// configuration.
pub proof fn state_in_sync_holds_the_configured_ids(state: StateView)
    requires
        in_sync(state),
    ensures
        sound(state.tables()),
        ids_in_sync(state.tables(), state.config.routes),
{
    let routes = state.config.routes;
    assert forall|id: Seq<char>| #[trigger] holds_id(
        state.tables(),
        id,
        id_among(routes, id),
    ) by {
        lemma_route_named(routes, id);
        assert(holds_route(state.tables(), route_named(routes, id), id));
    }
}

/// Two configurations of an upstream are told apart exactly if they differ in the
/// algorithm, in the health check, or in a node at some place: the relation is symmetric,
/// no configuration differs from itself, and a node more, a node less or two nodes in
/// another order make a difference.
pub proof fn upstreams_differ_in_what_they_hold(a: UpstreamView, b: UpstreamView)
    ensures
        upstreams_changed(a, b) <==> a != b,
        upstreams_changed(a, b) == upstreams_changed(b, a),
        !upstreams_changed(a, a),
        !upstreams_changed(a, b) <==> {
            &&& a.algorithm == b.algorithm
            &&& a.health_check == b.health_check
            &&& a.nodes.len() == b.nodes.len()
            &&& forall|i: int|
                0 <= i < a.nodes.len() ==> (#[trigger] a.nodes[i]).addr == b.nodes[i].addr
                    && a.nodes[i].weight == b.nodes[i].weight
        },
        forall|i: int, node: NodeView|
            0 <= i <= a.nodes.len() ==> upstreams_changed(
                a,
                (UpstreamView { nodes: #[trigger] a.nodes.insert(i, node), ..a }),
            ),
        forall|i: int|
            0 <= i < a.nodes.len() ==> upstreams_changed(
                a,
                (UpstreamView { nodes: #[trigger] a.nodes.remove(i), ..a }),
            ),
        forall|i: int, j: int|
            0 <= i < a.nodes.len() && 0 <= j < a.nodes.len() && a.nodes[i] != a.nodes[j]
                ==> upstreams_changed(
                a,
                (UpstreamView {
                    nodes: #[trigger] a.nodes.update(i, a.nodes[j]).update(j, a.nodes[i]),
                    ..a
                }),
            ),
{
    lemma_upstreams_unequal(a, b);
    lemma_upstreams_unequal(b, a);
    lemma_upstreams_unequal(a, a);
    assert forall|i: int, j: int|
        0 <= i < a.nodes.len() && 0 <= j < a.nodes.len() && a.nodes[i]
            != a.nodes[j] implies upstreams_changed(
        a,
        (UpstreamView {
            nodes: #[trigger] a.nodes.update(i, a.nodes[j]).update(j, a.nodes[i]),
            ..a
        }),
    ) by {
        let c = UpstreamView {
            nodes: a.nodes.update(i, a.nodes[j]).update(j, a.nodes[i]),
            ..a
        };
        lemma_upstreams_unequal(a, c);
        assert(c.nodes[i] == a.nodes[j]);
    }
}

/// Configurations of an upstream are unequal exactly if they ask for different clusters.
proof fn lemma_upstreams_unequal(a: UpstreamView, b: UpstreamView)
    ensures
        upstreams_changed(a, b) <==> a != b,
{
    if !upstreams_changed(a, b) {
        assert forall|i: int| 0 <= i < a.nodes.len() implies a.nodes[i] == b.nodes[i] by {
            assert(a.nodes[i].addr == b.nodes[i].addr);
        }
        assert(a.nodes =~= b.nodes);
    }
}

/// An upstream that a change leaves as it is keeps its cluster, even where the change
/// ends with an error.
pub proof fn unchanged_upstream_keeps_its_cluster(
    state: StateView,
    config: KirinView,
    key_file: Result<Seq<char>, Seq<char>>,
    name: Seq<char>,
)
    requires
        distinct_keys(state.clusters),
        distinct_keys(config.upstreams),
        has_key(config.upstreams, name),
        entry_of(config.upstreams, name) == entry_of(state.config.upstreams, name),
    ensures
        entry_of(changed_state(state, config, key_file).0.clusters, name) == entry_of(
            state.clusters,
            name,
        ),
{
    let start = without_lost_clusters(
        state.clusters,
        state.config.upstreams,
        config.upstreams,
    );
    lemma_lost_clusters(state.clusters, state.config.upstreams, config.upstreams, name);
    lemma_with_clusters(start, state.config.upstreams, config.upstreams, name);
}

/// A limiter keeps its buckets through every change after which requests are still
/// limited.
pub proof fn limiter_keeps_its_buckets(
    state: StateView,
    config: KirinView,
    key_file: Result<Seq<char>, Seq<char>>,
)
    requires
        state.config.rate_limit is Some,
        config.rate_limit is Some,
        state.limiter is Some,
    ensures
        changed_state(state, config, key_file).0.limiter matches Some(l) && l.buckets
            == state.limiter->0.buckets,
{
}

/// A change never touches the filters, and one with an error leaves the configuration
/// as it was; the routes and the clusters that were changed before the error stay changed.
pub proof fn failed_change_keeps_the_configuration(
    state: StateView,
    config: KirinView,
    key_file: Result<Seq<char>, Seq<char>>,
)
    ensures
        changed_state(state, config, key_file).0.chain == state.chain,
        changed_state(state, config, key_file).1 is Some ==> changed_state(
            state,
            config,
            key_file,
        ).0.config == state.config,
{
}

proof fn lemma_nothing_lost(tables: Tables, part: Seq<RouteView>, routes: Seq<RouteView>)
    requires
        forall|i: int| 0 <= i < part.len() ==> routes.contains(#[trigger] part[i]),
    ensures
        without_lost_routes(tables, part, routes) == tables,
    decreases part.len(),
{
    if part.len() > 0 {
        let front = part.drop_last();
        assert forall|i: int| 0 <= i < front.len() implies routes.contains(
            #[trigger] front[i],
        ) by {
            assert(front[i] == part[i]);
        }
        lemma_nothing_lost(tables, front, routes);
        assert(routes.contains(part[part.len() - 1]));
        let k = choose|k: int| 0 <= k < routes.len() && routes[k] == part.last();
        assert(routes[k].route_id == part.last().route_id);
    }
}

proof fn lemma_nothing_changed(tables: Tables, routes: Seq<RouteView>, n: int)
    requires
        distinct_ids(routes),
        0 <= n <= routes.len(),
    ensures
        with_routes(tables, routes, routes.take(n)) == (tables, None::<StateErrorView>),
    decreases n,
{
    if n > 0 {
        lemma_nothing_changed(tables, routes, n - 1);
        assert(routes.take(n).drop_last() =~= routes.take(n - 1));
        assert(routes.take(n).last() == routes[n - 1]);
        lemma_route_at(routes, n - 1);
    }
}

proof fn lemma_no_cluster_lost(
    clusters: Clusters,
    part: Seq<(Seq<char>, UpstreamView)>,
    upstreams: Seq<(Seq<char>, UpstreamView)>,
)
    requires
        forall|i: int| 0 <= i < part.len() ==> upstreams.contains(#[trigger] part[i]),
    ensures
        without_lost_clusters(clusters, part, upstreams) == clusters,
    decreases part.len(),
{
    if part.len() > 0 {
        let front = part.drop_last();
        assert forall|i: int| 0 <= i < front.len() implies upstreams.contains(
            #[trigger] front[i],
        ) by {
            assert(front[i] == part[i]);
        }
        lemma_no_cluster_lost(clusters, front, upstreams);
        assert(upstreams.contains(part[part.len() - 1]));
        let k = choose|k: int| 0 <= k < upstreams.len() && upstreams[k] == part.last();
        assert(upstreams[k].0 == part.last().0);
    }
}

proof fn lemma_no_cluster_changed(
    clusters: Clusters,
    upstreams: Seq<(Seq<char>, UpstreamView)>,
    n: int,
)
    requires
        distinct_keys(upstreams),
        0 <= n <= upstreams.len(),
    ensures
        with_clusters(clusters, upstreams, upstreams.take(n)) == (
            clusters,
            None::<StateErrorView>,
        ),
    decreases n,
{
    if n > 0 {
        lemma_no_cluster_changed(clusters, upstreams, n - 1);
        assert(upstreams.take(n).drop_last() =~= upstreams.take(n - 1));
        let last = upstreams[n - 1];
        assert(upstreams.take(n).last() == last);
        assert forall|i: int| 0 <= i < n - 1 implies #[trigger] upstreams[i].0 != last.0 by {
            assert(upstreams[i].0 != upstreams[n - 1].0);
        }
        lemma_key_position_is(upstreams, last.0, n - 1);
    }
}

/// A change to the configuration that is in effect changes nothing.
pub proof fn same_configuration_changes_nothing(
    state: StateView,
    key_file: Result<Seq<char>, Seq<char>>,
)
    requires
        distinct_ids(state.config.routes),
        distinct_keys(state.config.upstreams),
    ensures
        changed_state(state, state.config, key_file) == (state, None::<StateErrorView>),
{
    let routes = state.config.routes;
    let upstreams = state.config.upstreams;
    assert forall|i: int| 0 <= i < routes.len() implies routes.contains(#[trigger] routes[i]) by {}
    assert forall|i: int| 0 <= i < upstreams.len() implies upstreams.contains(
        #[trigger] upstreams[i],
    ) by {}
    lemma_nothing_lost(state.tables(), routes, routes);
    lemma_nothing_changed(state.tables(), routes, routes.len() as int);
    assert(routes.take(routes.len() as int) =~= routes);
    lemma_no_cluster_lost(state.clusters, upstreams, upstreams);
    lemma_no_cluster_changed(state.clusters, upstreams, upstreams.len() as int);
    assert(upstreams.take(upstreams.len() as int) =~= upstreams);
    let (after, error) = changed_state(state, state.config, key_file);
    assert(after =~= state);
}

// ---- requests ----

/// In a state that follows its configuration, the path of every routed request is
/// registered, unless the rule that it matches is an empty prefix.
pub proof fn routed_path_is_registered(
    state: StateView,
    path: Seq<char>,
    ctx: ContextView,
    value: u8,
)
    requires
        in_sync(state),
        forall|j: int|
            0 <= j < state.router.prefix.len() ==> (#[trigger] state.router.prefix[j]).prefix_len()
                > 0,
    ensures
        state.router.route(path, ctx, value) is Some ==> resolve(state.entries, path) is Some,
{
    if let Some(m) = state.router.route(path, ctx, value) {
        let rules = state.router.rules();
        taken_route_is_a_matching_rule(state.router, path, ctx, value);
        let j = choose|j: int|
            0 <= j < rules.len() && (#[trigger] rules[j]).matches_path(path) && m
                == rules[j].candidate(path).chosen();
        lemma_rule_is_found(state.router, j);
        let rule = rules[j];
        let id = rule.route_id;
        assert(holds_route(state.tables(), route_named(state.config.routes, id), id));
        let e = entry_of(state.entries, id)->0;
        lemma_key_position(state.entries, id);
        let k = key_position(state.entries, id) as int;
        assert(state.entries[k].1 == e);
        if rule.match_type == MatchType::Prefix {
            let n = state.router.exact.len() + state.router.regex.len();
            assert(rule == state.router.prefix[j - n]);
        }
        assert(e.matches_path(path));
        paths_resolve_by_priority(state.entries, path);
    }
}

/// Every rule of a sound table is found under its id, and stands in the part of its
/// kind.
pub proof fn lemma_rule_is_found(router: RouterView, j: int)
    requires
        router.valid(),
        0 <= j < router.rules().len(),
    ensures
        router.find(router.rules()[j].route_id) == Some(router.rules()[j]),
        router.rules()[j].match_type == MatchType::Prefix ==> j >= router.exact.len()
            + router.regex.len(),
{
    let n = router.exact.len() as int;
    let k = router.regex.len() as int;
    let rule = router.rules()[j];
    let id = rule.route_id;
    lemma_id_position(router.exact, id);
    lemma_id_position(router.regex, id);
    if j < n {
        assert(rule == router.exact[j]);
        lemma_rule_at(router.exact, j);
    } else if j < n + k {
        assert(rule == router.regex[j - n]);
        lemma_rule_at(router.regex, j - n);
    } else {
        assert(rule == router.prefix[j - n - k]);
        lemma_rule_at(router.prefix, j - n - k);
    }
}

/// In a state that follows a configuration whose routes name known upstreams, every
/// routed request has a cluster.
pub proof fn routed_request_has_a_cluster(
    state: StateView,
    path: Seq<char>,
    ctx: ContextView,
    value: u8,
)
    requires
        in_sync(state),
        upstreams_known(state.config),
    ensures
        state.router.route(path, ctx, value) matches Some(m) ==> entry_of(
            state.clusters,
            m.upstream,
        ) is Some,
{
    if let Some(m) = state.router.route(path, ctx, value) {
        let rules = state.router.rules();
        taken_route_is_a_matching_rule(state.router, path, ctx, value);
        let j = choose|j: int|
            0 <= j < rules.len() && (#[trigger] rules[j]).matches_path(path) && m
                == rules[j].candidate(path).chosen();
        lemma_rule_is_found(state.router, j);
        let id = rules[j].route_id;
        let routes = state.config.routes;
        assert(holds_route(state.tables(), route_named(routes, id), id));
        lemma_route_named(routes, id);
        let route = route_named(routes, id)->0;
        let i = choose|i: int| 0 <= i < routes.len() && routes[i] == route;
        assert(has_key(state.config.upstreams, routes[i].upstream));
        lemma_entry_is_key(state.config.upstreams, m.upstream);
        assert(holds_cluster(
            state.clusters,
            entry_of(state.config.upstreams, m.upstream),
            m.upstream,
        ));
    }
}

} // verus!
