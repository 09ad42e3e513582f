//! The registry and the routing table agree: a path resolves to the first rule that
//! matches it, and a request takes a version of that route.
use crate::config::types::{KirinView, RouteView};
use crate::control_plane::gateway_state::laws::{
    lemma_add, lemma_remove, lemma_rule_is_found, lemma_rule_of_id, sound,
};
use crate::control_plane::gateway_state::model::{
    changed_routes, changed_state, full_hint, registration, route_named, routes_changed, rule_of,
    state_of, tables_of, with_routes, without_lost_routes, StateView, Tables,
};
use crate::data_plane::router::laws::{
    first_matching_pattern_decides, is_first_match, no_matching_rule_no_route, plain,
    plain_routes_go_by_priority, taken_route_is_a_matching_rule,
};
use crate::data_plane::router::model::{
    alike, first_match, id_position, lemma_first_match, lemma_id_position, lemma_id_position_is,
    lemma_prefix_place, prefix_place, rule_named, without_rule, ContextView, RouterView, RuleView,
};
use crate::data_plane::router::router_white_list::{
    first_of_kind, lemma_first_of_kind_at, lemma_longest_prefix_at, paths_resolve_by_priority,
    resolve, EntryView,
};
use crate::data_plane::router::MatchType;
use crate::str_map::{entry_of, key_position, lemma_key_position, lemma_key_position_is};
use vstd::prelude::*;

verus! {

/// The part of a routing table that holds the rules of a kind.
pub open spec fn part_of(router: RouterView, kind: MatchType) -> Seq<RuleView> {
    match kind {
        MatchType::Exact => router.exact,
        MatchType::Regex => router.regex,
        MatchType::Prefix => router.prefix,
    }
}

/// Whether a rule and a registry entry match the same paths.
pub open spec fn same_paths(rule: RuleView, entry: EntryView) -> bool {
    &&& rule.path == entry.path
    &&& rule.prefix == entry.prefix
    &&& rule.match_type == entry.match_type
}

/// Whether an id stands for the same paths in both tables, or for nothing in both.
pub open spec fn pair_at(tables: Tables, id: Seq<char>) -> bool {
    match (tables.router.find(id), entry_of(tables.entries, id)) {
        (Some(rule), Some(entry)) => same_paths(rule, entry),
        (None, None) => true,
        _ => false,
    }
}

/// Whether every route stands in both tables, for the same paths.
pub open spec fn paired(tables: Tables) -> bool {
    forall|id: Seq<char>| #[trigger] pair_at(tables, id)
}

/// Where the rule of a registry entry stands among the rules of its kind.
pub open spec fn place(router: RouterView, entry: EntryView) -> nat {
    id_position(part_of(router, entry.match_type), entry.route_id)
}

/// Whether the rule of an entry is to come before that of a later entry of its kind:
/// longer prefixes come first, else the order is that of registration.
pub open spec fn precedes(entry: EntryView, later: EntryView) -> bool {
    entry.match_type == MatchType::Prefix ==> entry.prefix_len() >= later.prefix_len()
}

/// Whether the rules of two entries stand in the right order.
pub open spec fn ordered_pair(router: RouterView, entry: EntryView, later: EntryView) -> bool {
    entry.match_type == later.match_type ==> (place(router, entry) < place(router, later)
        <==> precedes(entry, later))
}

/// Whether the rules stand in the order in which they were registered, longer prefixes
/// first.
pub open spec fn same_order(tables: Tables) -> bool {
    forall|i: int, j: int|
        #![trigger tables.entries[i], tables.entries[j]]
        0 <= i < j < tables.entries.len() ==> ordered_pair(
            tables.router,
            tables.entries[i].1,
            tables.entries[j].1,
        )
}

/// Whether the two tables agree.
pub open spec fn agreeing(tables: Tables) -> bool {
    &&& sound(tables)
    &&& paired(tables)
    &&& same_order(tables)
}

/// A rule stands in the part of its kind.
proof fn lemma_in_part(router: RouterView, id: Seq<char>)
    requires
        router.valid(),
    ensures
        router.find(id) matches Some(rule) ==> rule.route_id == id && rule_named(
            part_of(router, rule.match_type),
            id,
        ) == Some(rule) && id_position(part_of(router, rule.match_type), id) < part_of(
            router,
            rule.match_type,
        ).len(),
{
    lemma_id_position(router.exact, id);
    lemma_id_position(router.regex, id);
    lemma_id_position(router.prefix, id);
}

/// The entry at a place is found under its id, and so is its rule.
proof fn lemma_entry_at(tables: Tables, i: int)
    requires
        sound(tables),
        paired(tables),
        0 <= i < tables.entries.len(),
    ensures
        ({
            let e = tables.entries[i].1;
            &&& entry_of(tables.entries, e.route_id) == Some(e)
            &&& tables.router.find(e.route_id) matches Some(rule) && same_paths(rule, e)
                && rule_named(part_of(tables.router, e.match_type), e.route_id) == Some(rule)
                && rule.prefix_len() == e.prefix_len()
            &&& place(tables.router, e) < part_of(tables.router, e.match_type).len()
        }),
{
    let e = tables.entries[i].1;
    let id = e.route_id;
    assert(tables.entries[i].0 == id);
    assert forall|k: int| 0 <= k < i implies #[trigger] tables.entries[k].0 != id by {
        assert(tables.entries[k].0 != tables.entries[i].0);
    }
    lemma_key_position_is(tables.entries, id, i);
    assert(pair_at(tables, id));
    lemma_in_part(tables.router, id);
}

/// Where a rule stands when another is put into the list.
proof fn lemma_position_inserted(rules: Seq<RuleView>, at: int, rule: RuleView, id: Seq<char>)
    requires
        0 <= at <= rules.len(),
        rule.route_id != id,
        id_position(rules, id) < rules.len(),
    ensures
        id_position(rules.insert(at, rule), id) == if id_position(rules, id) < at {
            id_position(rules, id)
        } else {
            id_position(rules, id) + 1
        },
{
    lemma_id_position(rules, id);
    let p = id_position(rules, id) as int;
    let more = rules.insert(at, rule);
    let q = if p < at {
        p
    } else {
        p + 1
    };
    assert forall|k: int| 0 <= k < q implies #[trigger] more[k].route_id != id by {
        if k < at {
            assert(more[k] == rules[k]);
        } else if k > at {
            assert(more[k] == rules[k - 1]);
        }
    }
    lemma_id_position_is(more, id, q);
}

/// To add a route keeps the tables in agreement.
proof fn lemma_add_agrees(tables: Tables, route: RouteView, hint: Seq<char>)
    requires
        agreeing(tables),
        tables.add(route, hint) is Ok,
    ensures
        agreeing(tables.add(route, hint)->Ok_0),
{
    let added = tables.add(route, hint)->Ok_0;
    let new_id = route.route_id;
    lemma_add(tables, route, hint, new_id);
    lemma_rule_of_id(route, hint);
    let rule = rule_of(route, hint)->Ok_0;
    let entry = registration(route, rule);
    assert forall|id: Seq<char>| #[trigger] pair_at(added, id) by {
        lemma_add(tables, route, hint, id);
        assert(pair_at(tables, id));
    }
    assert(pair_at(tables, new_id));
    lemma_key_position(tables.entries, new_id);
    let n = tables.entries.len() as int;
    assert(added.entries == tables.entries.push((new_id, entry)));
    let kind = rule.match_type;
    let part = part_of(tables.router, kind);
    let at = if kind == MatchType::Prefix {
        prefix_place(part, rule.prefix_len()) as int
    } else {
        part.len() as int
    };
    lemma_prefix_place(part, rule.prefix_len());
    assert(part_of(added.router, kind) =~= part.insert(at, rule));
    lemma_id_position(tables.router.exact, new_id);
    lemma_id_position(tables.router.regex, new_id);
    lemma_id_position(tables.router.prefix, new_id);
    assert(id_position(part_of(added.router, kind), new_id) == at) by {
        let more = part.insert(at, rule);
        assert forall|k: int| 0 <= k < at implies #[trigger] more[k].route_id != new_id by {
            assert(more[k] == part[k]);
        }
        lemma_id_position_is(more, new_id, at);
    }
    assert forall|i: int, j: int|
        #![trigger added.entries[i], added.entries[j]]
        0 <= i < j < added.entries.len() implies ordered_pair(
        added.router,
        added.entries[i].1,
        added.entries[j].1,
    ) by {
        let a = added.entries[i].1;
        let b = added.entries[j].1;
        assert(tables.entries[i].1 == a);
        lemma_entry_at(tables, i);
        assert(a.route_id != new_id);
        if a.match_type == kind {
            lemma_position_inserted(part, at, rule, a.route_id);
        }
        if j < n {
            assert(tables.entries[j].1 == b);
            lemma_entry_at(tables, j);
            assert(b.route_id != new_id);
            if b.match_type == kind {
                lemma_position_inserted(part, at, rule, b.route_id);
            }
            assert(ordered_pair(tables.router, a, b));
        } else {
            assert(b == entry);
            if a.match_type == kind && kind == MatchType::Prefix {
                let p = id_position(part, a.route_id) as int;
                assert(part[p].prefix_len() == a.prefix_len());
                assert(rule.prefix_len() == entry.prefix_len());
                if p < at {
                    assert(part[p].prefix_len() >= rule.prefix_len());
                } else {
                    assert(part[at].prefix_len() < rule.prefix_len());
                    if at < p {
                        assert(part[at].prefix_len() >= part[p].prefix_len());
                    }
                }
            }
        }
    }
}

/// Where a rule stands when another is taken out of the list.
proof fn lemma_position_without(rules: Seq<RuleView>, gone: Seq<char>, id: Seq<char>)
    requires
        gone != id,
        id_position(rules, id) < rules.len(),
    ensures
        id_position(without_rule(rules, gone), id) == if id_position(rules, id) < id_position(
            rules,
            gone,
        ) {
            id_position(rules, id) as int
        } else {
            id_position(rules, id) - 1
        },
        id_position(rules, id) != id_position(rules, gone),
{
    lemma_id_position(rules, id);
    lemma_id_position(rules, gone);
    let p = id_position(rules, id) as int;
    let g = id_position(rules, gone) as int;
    let rest = without_rule(rules, gone);
    let q = if p < g {
        p
    } else {
        p - 1
    };
    assert forall|k: int| 0 <= k < q implies #[trigger] rest[k].route_id != id by {
        if k < g {
            assert(rest[k] == rules[k]);
        } else {
            assert(rest[k] == rules[k + 1]);
        }
    }
    lemma_id_position_is(rest, id, q);
}

/// To remove a route keeps the tables in agreement.
proof fn lemma_remove_agrees(tables: Tables, gone: Seq<char>)
    requires
        agreeing(tables),
    ensures
        agreeing(tables.remove(gone)),
{
    let rest = tables.remove(gone);
    lemma_remove(tables, gone, gone);
    assert forall|id: Seq<char>| #[trigger] pair_at(rest, id) by {
        lemma_remove(tables, gone, id);
        assert(pair_at(tables, id));
    }
    lemma_key_position(tables.entries, gone);
    let g = key_position(tables.entries, gone) as int;
    assert forall|i: int, j: int|
        #![trigger rest.entries[i], rest.entries[j]]
        0 <= i < j < rest.entries.len() implies ordered_pair(
        rest.router,
        rest.entries[i].1,
        rest.entries[j].1,
    ) by {
        let i2 = if i < g {
            i
        } else {
            i + 1
        };
        let j2 = if j < g {
            j
        } else {
            j + 1
        };
        let a = rest.entries[i].1;
        let b = rest.entries[j].1;
        assert(tables.entries[i2].1 == a);
        assert(tables.entries[j2].1 == b);
        lemma_entry_at(tables, i2);
        lemma_entry_at(tables, j2);
        assert(tables.entries[i2].0 == a.route_id);
        assert(tables.entries[j2].0 == b.route_id);
        if g < tables.entries.len() {
            assert(tables.entries[g].0 == gone);
            assert(a.route_id != gone) by {
                if i2 < g {
                    assert(tables.entries[i2].0 != tables.entries[g].0);
                } else {
                    assert(tables.entries[g].0 != tables.entries[i2].0);
                }
            }
            assert(b.route_id != gone) by {
                if j2 < g {
                    assert(tables.entries[j2].0 != tables.entries[g].0);
                } else {
                    assert(tables.entries[g].0 != tables.entries[j2].0);
                }
            }
        }
        if a.match_type == b.match_type {
            let part = part_of(tables.router, a.match_type);
            lemma_position_without(part, gone, a.route_id);
            lemma_position_without(part, gone, b.route_id);
            assert(part_of(rest.router, a.match_type) == without_rule(part, gone));
            assert(ordered_pair(tables.router, a, b));
            lemma_id_position(part, a.route_id);
            lemma_id_position(part, b.route_id);
            assert(a.route_id != b.route_id) by {
                assert(tables.entries[i2].0 != tables.entries[j2].0);
            }
        }
    }
}

// ---- lists of routes ----

proof fn lemma_tables_of_agree(routes: Seq<RouteView>)
    ensures
        tables_of(routes) matches Ok(tables) ==> agreeing(tables),
    decreases routes.len(),
{
    if let Ok(tables) = tables_of(routes) {
        if routes.len() == 0 {
            assert forall|id: Seq<char>| #[trigger] pair_at(tables, id) by {
                lemma_id_position(tables.router.exact, id);
                lemma_id_position(tables.router.regex, id);
                lemma_id_position(tables.router.prefix, id);
                lemma_key_position(tables.entries, id);
            }
        } else {
            lemma_tables_of_agree(routes.drop_last());
            lemma_add_agrees(
                tables_of(routes.drop_last())->Ok_0,
                routes.last(),
                full_hint(),
            );
        }
    }
}

proof fn lemma_lost_routes_agree(tables: Tables, olds: Seq<RouteView>, news: Seq<RouteView>)
    requires
        agreeing(tables),
    ensures
        agreeing(without_lost_routes(tables, olds, news)),
    decreases olds.len(),
{
    if olds.len() > 0 {
        lemma_lost_routes_agree(tables, olds.drop_last(), news);
        lemma_remove_agrees(
            without_lost_routes(tables, olds.drop_last(), news),
            olds.last().route_id,
        );
    }
}

proof fn lemma_new_routes_agree(tables: Tables, olds: Seq<RouteView>, news: Seq<RouteView>)
    requires
        agreeing(tables),
    ensures
        agreeing(with_routes(tables, olds, news).0),
    decreases news.len(),
{
    if news.len() > 0 {
        lemma_new_routes_agree(tables, olds, news.drop_last());
        let (sofar, error) = with_routes(tables, olds, news.drop_last());
        let route = news.last();
        if error is None {
            lemma_remove_agrees(sofar, route.route_id);
            let rest = sofar.remove(route.route_id);
            match route_named(olds, route.route_id) {
                None => {
                    if sofar.add(route, ""@) is Ok {
                        lemma_add_agrees(sofar, route, ""@);
                    }
                },
                Some(old_route) => {
                    if routes_changed(old_route, route) && rest.add(route, ""@) is Ok {
                        lemma_add_agrees(rest, route, ""@);
                    }
                },
            }
        }
    }
}

/// The registry and the routing table of a configured state agree.
pub proof fn configured_tables_agree(config: KirinView, key_file: Result<Seq<char>, Seq<char>>)
    ensures
        state_of(config, key_file) matches Ok(state) ==> agreeing(state.tables()),
{
    if let Ok(state) = state_of(config, key_file) {
        lemma_tables_of_agree(config.routes);
        assert(state.tables() =~= tables_of(config.routes)->Ok_0);
    }
}

/// A change of the configuration keeps the registry and the routing table in agreement,
/// even where it ends with an error.
pub proof fn changed_tables_agree(
    state: StateView,
    config: KirinView,
    key_file: Result<Seq<char>, Seq<char>>,
)
    requires
        agreeing(state.tables()),
    ensures
        agreeing(changed_state(state, config, key_file).0.tables()),
{
    let olds = state.config.routes;
    let news = config.routes;
    lemma_lost_routes_agree(state.tables(), olds, news);
    lemma_new_routes_agree(without_lost_routes(state.tables(), olds, news), olds, news);
    assert(changed_state(state, config, key_file).0.tables() =~= changed_routes(
        state.tables(),
        olds,
        news,
    ).0);
}

// ---- paths ----

/// Whether no prefix is empty.
pub open spec fn prefixes_are_not_empty(router: RouterView) -> bool {
    forall|i: int| 0 <= i < router.prefix.len() ==> (#[trigger] router.prefix[i]).prefix_len() > 0
}

/// An entry and its rule match the same paths.
proof fn lemma_same_matches(tables: Tables, i: int, path: Seq<char>)
    requires
        agreeing(tables),
        prefixes_are_not_empty(tables.router),
        0 <= i < tables.entries.len(),
    ensures
        ({
            let e = tables.entries[i].1;
            let part = part_of(tables.router, e.match_type);
            let rule = part[place(tables.router, e) as int];
            rule.route_id == e.route_id && rule.match_type == e.match_type && (rule.matches_path(
                path,
            ) <==> e.matches_path(path)) && rule.prefix_len() == e.prefix_len()
        }),
{
    lemma_entry_at(tables, i);
    let e = tables.entries[i].1;
    let part = part_of(tables.router, e.match_type);
    lemma_id_position(part, e.route_id);
    if e.match_type == MatchType::Prefix {
        assert(tables.router.prefix[place(tables.router, e) as int].prefix_len() > 0);
    }
}

/// The index of a rule of a part in the whole table.
spec fn offset(router: RouterView, kind: MatchType) -> int {
    match kind {
        MatchType::Exact => 0,
        MatchType::Regex => router.exact.len() as int,
        MatchType::Prefix => (router.exact.len() + router.regex.len()) as int,
    }
}

proof fn lemma_rule_in_whole(router: RouterView, kind: MatchType, p: int)
    requires
        0 <= p < part_of(router, kind).len(),
    ensures
        0 <= offset(router, kind) + p < router.rules().len(),
        router.rules()[offset(router, kind) + p] == part_of(router, kind)[p],
{
}

/// Where no prefix is empty, a path resolves to the first rule that matches it, whatever
/// canary releases there are, and to none where no rule matches.
pub proof fn paths_resolve_to_the_first_matching_rule(state: StateView, path: Seq<char>)
    requires
        agreeing(state.tables()),
        prefixes_are_not_empty(state.router),
    ensures
        match resolve(state.entries, path) {
            Some(e) => exists|k: int|
                is_first_match(state.router.rules(), path, k) && (
                #[trigger] state.router.rules()[k]).route_id == e.route_id
                    && state.router.rules()[k].match_type == e.match_type,
            None => forall|i: int|
                0 <= i < state.router.rules().len() ==> !(
                #[trigger] state.router.rules()[i]).matches_path(path),
        },
{
    let tables = state.tables();
    let router = state.router;
    let entries = state.entries;
    let rules = router.rules();
    let k = first_match(rules, path) as int;
    lemma_first_match(rules, path);
    paths_resolve_by_priority(entries, path);
    if let Some(e2) = resolve(entries, path) {
        let q = if first_of_kind(entries, MatchType::Exact, path) is Some {
            lemma_first_of_kind_at(entries, MatchType::Exact, path)
        } else if first_of_kind(entries, MatchType::Regex, path) is Some {
            lemma_first_of_kind_at(entries, MatchType::Regex, path)
        } else {
            lemma_longest_prefix_at(entries, path)
        };
        assert(entries[q].1 == e2);
        lemma_same_matches(tables, q, path);
        lemma_entry_at(tables, q);
        let p2 = place(router, e2) as int;
        lemma_rule_in_whole(router, e2.match_type, p2);
        let k2 = offset(router, e2.match_type) + p2;
        assert(rules[k2].matches_path(path));
        assert(k <= k2);
        let rule = rules[k];
        lemma_rule_is_found(router, k);
        let id = rule.route_id;
        assert(pair_at(tables, id));
        lemma_key_position(entries, id);
        let p = key_position(entries, id) as int;
        let e = entries[p].1;
        lemma_same_matches(tables, p, path);
        lemma_entry_at(tables, p);
        lemma_in_part(router, id);
        let p1 = place(router, e) as int;
        lemma_rule_in_whole(router, e.match_type, p1);
        let part = part_of(router, e.match_type);
        assert(part[p1].route_id == id);
        let k1 = offset(router, e.match_type) + p1;
        assert(rules[k1] == rule);
        assert(e.matches_path(path));
        assert(k1 == k) by {
            if k < k1 {
                lemma_rules_are_distinct(router, k, k1);
            } else if k1 < k {
                lemma_rules_are_distinct(router, k1, k);
            }
        }
        assert(e.match_type == e2.match_type);
        if p < q {
            assert(ordered_pair(router, entries[p].1, entries[q].1));
        } else if q < p {
            assert(ordered_pair(router, entries[q].1, entries[p].1));
        }
        assert(p == q);
        assert(is_first_match(rules, path, k));
    } else if k < rules.len() {
        let id = rules[k].route_id;
        lemma_rule_is_found(router, k);
        assert(pair_at(tables, id));
        lemma_key_position(entries, id);
        let p = key_position(entries, id) as int;
        lemma_same_matches(tables, p, path);
        lemma_entry_at(tables, p);
        lemma_in_part(router, id);
        assert(entries[p].1.matches_path(path));
    }
}

/// Where no rule with the pattern that comes first has a canary release and no prefix is
/// empty, the registered route of a path is the route that a request for it takes.
pub proof fn registry_agrees_with_the_router(
    state: StateView,
    path: Seq<char>,
    ctx: ContextView,
    value: u8,
)
    requires
        agreeing(state.tables()),
        prefixes_are_not_empty(state.router),
        plain(state.router, path),
    ensures
        match state.router.route(path, ctx, value) {
            Some(m) => resolve(state.entries, path) matches Some(e) && e.route_id == m.route_id,
            None => resolve(state.entries, path) is None,
        },
{
    let rules = state.router.rules();
    paths_resolve_to_the_first_matching_rule(state, path);
    if let Some(e) = resolve(state.entries, path) {
        let k = choose|k: int|
            is_first_match(rules, path, k) && (#[trigger] rules[k]).route_id == e.route_id
                && rules[k].match_type == e.match_type;
        plain_routes_go_by_priority(state.router, path, ctx, value, k);
    } else {
        no_matching_rule_no_route(state.router, path, ctx, value);
    }
}

/// Where no prefix is empty, the registered route of a path and the route that a request
/// for it takes are versions of one route, of the same kind and with the same pattern,
/// whatever canary releases there are.
pub proof fn registry_and_router_go_by_the_same_pattern(
    state: StateView,
    path: Seq<char>,
    ctx: ContextView,
    value: u8,
)
    requires
        agreeing(state.tables()),
        prefixes_are_not_empty(state.router),
    ensures
        state.router.route(path, ctx, value) matches Some(m) ==> resolve(
            state.entries,
            path,
        ) matches Some(e) && (state.router.find(m.route_id) matches Some(rule) && (
        state.router.find(e.route_id) matches Some(registered) && alike(rule, registered))),
{
    let router = state.router;
    let rules = router.rules();
    paths_resolve_to_the_first_matching_rule(state, path);
    if let Some(m) = router.route(path, ctx, value) {
        taken_route_is_a_matching_rule(router, path, ctx, value);
        let e = resolve(state.entries, path)->0;
        let k = choose|k: int|
            is_first_match(rules, path, k) && (#[trigger] rules[k]).route_id == e.route_id
                && rules[k].match_type == e.match_type;
        first_matching_pattern_decides(router, path, ctx, value, k);
        let j = choose|j: int|
            0 <= j < rules.len() && alike(#[trigger] rules[j], rules[k]) && rules[j].matches_path(
                path,
            ) && m == rules[j].candidate(path).chosen();
        lemma_rule_is_found(router, j);
        lemma_rule_is_found(router, k);
    }
}

/// No two rules of a sound table have the same id.
proof fn lemma_rules_are_distinct(router: RouterView, i: int, j: int)
    requires
        router.valid(),
        0 <= i < j < router.rules().len(),
    ensures
        router.rules()[i].route_id != router.rules()[j].route_id,
{
    let n = router.exact.len() as int;
    let k = router.regex.len() as int;
    let a = router.rules()[i];
    let b = router.rules()[j];
    if i < n {
        assert(a == router.exact[i]);
    } else if i < n + k {
        assert(a == router.regex[i - n]);
    } else {
        assert(a == router.prefix[i - n - k]);
    }
    if j < n {
        assert(b == router.exact[j]);
    } else if j < n + k {
        assert(b == router.regex[j - n]);
    } else {
        assert(b == router.prefix[j - n - k]);
    }
}

} // verus!
