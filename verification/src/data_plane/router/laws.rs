//! What holds of every routing table and of every choice of a route.
use crate::data_plane::router::model::{
    alike, by_condition, by_cookie, by_id, by_no_canary, candidates_of, choice, conditions_met,
    cookie_name, distinct_rules, fair_value, first_match, first_where, id_position, ip_decides,
    lemma_absent, lemma_added_is_valid, lemma_alike, lemma_candidates, lemma_first_match,
    lemma_first_match_is, lemma_first_where, lemma_first_where_is, lemma_id_position,
    lemma_id_position_is, lemma_prefix_place, lemma_without_rule, prefix_place, rule_named,
    weight_choice, weight_of, without_rule, CandidateView, ContextView, RouterView, RuleView,
};
use crate::data_plane::router::MatchType;
use crate::str_map::entry_of;
use vstd::prelude::*;

verus! {

// ---- adding and removing ----

/// To remove a rule that was just added gives back the table as it was.
pub proof fn removal_undoes_addition(router: RouterView, rule: RuleView)
    requires
        router.valid(),
    ensures
        router.add(rule) matches Ok(added) ==> added.remove(rule.route_id) == router,
{
    let id = rule.route_id;
    lemma_absent(router.exact, id);
    lemma_absent(router.regex, id);
    lemma_absent(router.prefix, id);
    if let Ok(added) = router.add(rule) {
        match rule.match_type {
            MatchType::Exact => {
                lemma_id_position_is(added.exact, id, router.exact.len() as int);
                assert(without_rule(added.exact, id) =~= router.exact);
            },
            MatchType::Regex => {
                lemma_id_position_is(added.regex, id, router.regex.len() as int);
                assert(without_rule(added.regex, id) =~= router.regex);
            },
            MatchType::Prefix => {
                let at = prefix_place(router.prefix, rule.prefix_len()) as int;
                lemma_prefix_place(router.prefix, rule.prefix_len());
                lemma_id_position_is(added.prefix, id, at);
                assert(without_rule(added.prefix, id) =~= router.prefix);
            },
        }
    }
}

/// A rule that was added is found under its id.
pub proof fn added_rule_is_found(router: RouterView, rule: RuleView)
    requires
        router.valid(),
    ensures
        router.add(rule) matches Ok(added) ==> added.find(rule.route_id) == Some(rule),
{
    let id = rule.route_id;
    lemma_absent(router.exact, id);
    lemma_absent(router.regex, id);
    lemma_absent(router.prefix, id);
    if let Ok(added) = router.add(rule) {
        match rule.match_type {
            MatchType::Exact => {
                lemma_id_position_is(added.exact, id, router.exact.len() as int);
            },
            MatchType::Regex => {
                lemma_id_position_is(added.regex, id, router.regex.len() as int);
            },
            MatchType::Prefix => {
                let at = prefix_place(router.prefix, rule.prefix_len()) as int;
                lemma_prefix_place(router.prefix, rule.prefix_len());
                lemma_id_position_is(added.prefix, id, at);
            },
        }
    }
}

/// A rule that was removed is found no more.
pub proof fn removed_rule_is_gone(router: RouterView, id: Seq<char>)
    requires
        router.valid(),
    ensures
        router.remove(id).find(id) is None,
{
    lemma_without_rule(router.exact, id);
    lemma_without_rule(router.regex, id);
    lemma_without_rule(router.prefix, id);
    lemma_absent(without_rule(router.exact, id), id);
    lemma_absent(without_rule(router.regex, id), id);
    lemma_absent(without_rule(router.prefix, id), id);
}

/// In a list without repeated ids a rule is found under its id.
pub proof fn lemma_rule_at(rules: Seq<RuleView>, i: int)
    requires
        distinct_rules(rules),
        0 <= i < rules.len(),
    ensures
        rule_named(rules, rules[i].route_id) == Some(rules[i]),
{
    lemma_id_position_is(rules, rules[i].route_id, i);
}

/// Two lists without repeated ids that hold the same rules, but for the ones with the
/// id `id`, agree on every other id.
proof fn lemma_same_others(a: Seq<RuleView>, b: Seq<RuleView>, id: Seq<char>, other: Seq<char>)
    requires
        distinct_rules(a),
        distinct_rules(b),
        other != id,
        forall|i: int|
            0 <= i < a.len() && (#[trigger] a[i]).route_id != id ==> b.contains(a[i]),
        forall|i: int|
            0 <= i < b.len() && (#[trigger] b[i]).route_id != id ==> a.contains(b[i]),
    ensures
        rule_named(a, other) == rule_named(b, other),
{
    lemma_id_position(a, other);
    lemma_id_position(b, other);
    let i = id_position(a, other) as int;
    let j = id_position(b, other) as int;
    if i < a.len() {
        assert(b.contains(a[i]));
        let k = choose|k: int| 0 <= k < b.len() && b[k] == a[i];
        lemma_rule_at(b, k);
    }
    if j < b.len() {
        assert(a.contains(b[j]));
        let k = choose|k: int| 0 <= k < a.len() && a[k] == b[j];
        lemma_rule_at(a, k);
    }
}

proof fn lemma_without_rule_others(rules: Seq<RuleView>, id: Seq<char>, other: Seq<char>)
    requires
        distinct_rules(rules),
        other != id,
    ensures
        rule_named(without_rule(rules, id), other) == rule_named(rules, other),
{
    lemma_without_rule(rules, id);
    lemma_id_position(rules, id);
    let rest = without_rule(rules, id);
    let at = id_position(rules, id) as int;
    assert forall|i: int| 0 <= i < rules.len() && (#[trigger] rules[i]).route_id
        != id implies rest.contains(rules[i]) by {
        if i < at {
            assert(rest[i] == rules[i]);
        } else if at < rules.len() {
            assert(rest[i - 1] == rules[i]);
        }
    }
    lemma_same_others(rest, rules, id, other);
}

/// To remove a rule leaves every other one as it is.
pub proof fn removal_leaves_the_others(router: RouterView, id: Seq<char>, other: Seq<char>)
    requires
        router.valid(),
        other != id,
    ensures
        router.remove(id).find(other) == router.find(other),
{
    lemma_without_rule_others(router.exact, id, other);
    lemma_without_rule_others(router.regex, id, other);
    lemma_without_rule_others(router.prefix, id, other);
}

/// To add a rule leaves every other one as it is.
pub proof fn addition_leaves_the_others(router: RouterView, rule: RuleView, other: Seq<char>)
    requires
        router.valid(),
        other != rule.route_id,
    ensures
        router.add(rule) matches Ok(added) ==> added.find(other) == router.find(other),
{
    if let Ok(added) = router.add(rule) {
        lemma_added_is_valid(router, rule);
        removal_undoes_addition(router, rule);
        removal_leaves_the_others(added, rule.route_id, other);
    }
}

// ---- candidates ----

/// Whether a candidate is a rule of a list that is alike to the given one.
pub open spec fn comes_from(
    c: CandidateView,
    rules: Seq<RuleView>,
    lead: RuleView,
    path: Seq<char>,
) -> bool {
    exists|j: int|
        0 <= j < rules.len() && alike(#[trigger] rules[j], lead) && c == rules[j].candidate(path)
}

/// Each candidate is a rule that is alike to the leading one.
pub proof fn lemma_candidates_come_from(rules: Seq<RuleView>, lead: RuleView, path: Seq<char>)
    ensures
        forall|i: int|
            0 <= i < candidates_of(rules, lead, path).len() ==> comes_from(
                #[trigger] candidates_of(rules, lead, path)[i],
                rules,
                lead,
                path,
            ),
    decreases rules.len(),
{
    if rules.len() > 0 {
        let front = rules.drop_last();
        lemma_candidates_come_from(front, lead, path);
        assert forall|i: int| 0 <= i < candidates_of(rules, lead, path).len() implies comes_from(
            #[trigger] candidates_of(rules, lead, path)[i],
            rules,
            lead,
            path,
        ) by {
            if i < candidates_of(front, lead, path).len() {
                let c = candidates_of(front, lead, path)[i];
                assert(comes_from(c, front, lead, path));
                let j = choose|j: int|
                    0 <= j < front.len() && alike(#[trigger] front[j], lead) && c
                        == front[j].candidate(path);
                assert(rules[j] == front[j]);
            } else {
                assert(alike(rules[rules.len() - 1], lead));
            }
        }
    }
}

/// Where the first rule that is alike to the leading one stands at `k`, it is the first
/// candidate.
proof fn lemma_first_candidate(rules: Seq<RuleView>, lead: RuleView, path: Seq<char>, k: int)
    requires
        0 <= k < rules.len(),
        alike(rules[k], lead),
        forall|i: int| 0 <= i < k ==> !alike(#[trigger] rules[i], lead),
    ensures
        candidates_of(rules, lead, path).len() > 0,
        candidates_of(rules, lead, path)[0] == rules[k].candidate(path),
    decreases rules.len(),
{
    let front = rules.drop_last();
    if k < rules.len() - 1 {
        assert(front[k] == rules[k]);
        assert forall|i: int| 0 <= i < k implies !alike(#[trigger] front[i], lead) by {
            assert(front[i] == rules[i]);
        }
        lemma_first_candidate(front, lead, path, k);
    } else {
        assert forall|i: int| 0 <= i < front.len() implies !alike(#[trigger] front[i], lead) by {
            assert(front[i] == rules[i]);
        }
        lemma_none_alike(front, lead, path);
    }
}

/// Where no rule is alike to the leading one there is no candidate.
proof fn lemma_none_alike(rules: Seq<RuleView>, lead: RuleView, path: Seq<char>)
    requires
        forall|i: int| 0 <= i < rules.len() ==> !alike(#[trigger] rules[i], lead),
    ensures
        candidates_of(rules, lead, path).len() == 0,
    decreases rules.len(),
{
    if rules.len() > 0 {
        let front = rules.drop_last();
        assert forall|i: int| 0 <= i < front.len() implies !alike(#[trigger] front[i], lead) by {
            assert(front[i] == rules[i]);
        }
        assert(!alike(rules[rules.len() - 1], lead));
        lemma_none_alike(front, lead, path);
    }
}

/// A single rule that is alike to the leading one is the only candidate.
proof fn lemma_single_candidate(rules: Seq<RuleView>, lead: RuleView, path: Seq<char>, k: int)
    requires
        0 <= k < rules.len(),
        alike(rules[k], lead),
        forall|i: int| 0 <= i < rules.len() && i != k ==> !alike(#[trigger] rules[i], lead),
    ensures
        candidates_of(rules, lead, path) == seq![rules[k].candidate(path)],
    decreases rules.len(),
{
    let front = rules.drop_last();
    if k < rules.len() - 1 {
        assert(front[k] == rules[k]);
        assert forall|i: int| 0 <= i < front.len() && i != k implies !alike(
            #[trigger] front[i],
            lead,
        ) by {
            assert(front[i] == rules[i]);
        }
        assert(!alike(rules[rules.len() - 1], lead));
        lemma_single_candidate(front, lead, path, k);
    } else {
        assert forall|i: int| 0 <= i < front.len() implies !alike(#[trigger] front[i], lead) by {
            assert(front[i] == rules[i]);
        }
        lemma_none_alike(front, lead, path);
        assert(candidates_of(rules, lead, path) =~= seq![rules[k].candidate(path)]);
    }
}

/// Whether the rule at a place is the first that matches a path.
pub open spec fn is_first_match(rules: Seq<RuleView>, path: Seq<char>, k: int) -> bool {
    &&& 0 <= k < rules.len()
    &&& rules[k].matches_path(path)
    &&& forall|i: int| 0 <= i < k ==> !(#[trigger] rules[i]).matches_path(path)
}

// ---- the choice ----

/// A choice is one of the candidates.
pub proof fn choice_is_a_candidate(cands: Seq<CandidateView>, ctx: ContextView, value: u8)
    ensures
        choice(cands, ctx, value) matches Some(i) ==> 0 <= i < cands.len(),
{
}

/// Whatever canary releases there are, a request takes a version of the route that comes
/// first for its path: a rule of the kind and with the pattern of the first rule that
/// matches, with the upstream, the id and the captures of that rule.
pub proof fn first_matching_pattern_decides(
    router: RouterView,
    path: Seq<char>,
    ctx: ContextView,
    value: u8,
    k: int,
)
    requires
        is_first_match(router.rules(), path, k),
    ensures
        router.route(path, ctx, value) matches Some(m) ==> exists|j: int|
            0 <= j < router.rules().len() && alike(
                #[trigger] router.rules()[j],
                router.rules()[k],
            ) && router.rules()[j].matches_path(path) && m == router.rules()[j].candidate(
                path,
            ).chosen(),
{
    let rules = router.rules();
    let lead = rules[k];
    lemma_first_match_is(rules, path, k);
    if let Some(m) = router.route(path, ctx, value) {
        let i = choice(router.candidates(path), ctx, value)->0;
        let c = router.candidates(path)[i];
        lemma_candidates_come_from(rules, lead, path);
        assert(comes_from(candidates_of(rules, lead, path)[i], rules, lead, path));
        let j = choose|j: int|
            0 <= j < rules.len() && alike(#[trigger] rules[j], lead) && c == rules[j].candidate(
                path,
            );
        lemma_alike(rules[j], lead, path);
    }
}

/// A request takes a route only if a rule of the table matches its path, and then
/// with the upstream, the id and the captures of that rule.
pub proof fn taken_route_is_a_matching_rule(
    router: RouterView,
    path: Seq<char>,
    ctx: ContextView,
    value: u8,
)
    ensures
        router.route(path, ctx, value) matches Some(m) ==> exists|j: int|
            0 <= j < router.rules().len() && (#[trigger] router.rules()[j]).matches_path(path)
                && m == router.rules()[j].candidate(path).chosen(),
{
    lemma_first_match(router.rules(), path);
    let k = first_match(router.rules(), path) as int;
    if k < router.rules().len() {
        first_matching_pattern_decides(router, path, ctx, value, k);
    }
}

/// How specific a kind of rule is: exact rules come first, then expressions, then
/// prefixes.
pub open spec fn rank(kind: MatchType) -> nat {
    match kind {
        MatchType::Exact => 0,
        MatchType::Regex => 1,
        MatchType::Prefix => 2,
    }
}

/// The kind of a rule is that of the part of the table that it stands in.
pub proof fn lemma_rank_at(router: RouterView, i: int)
    requires
        router.valid(),
        0 <= i < router.rules().len(),
    ensures
        rank(router.rules()[i].match_type) == if i < router.exact.len() {
            0nat
        } else if i < router.exact.len() + router.regex.len() {
            1nat
        } else {
            2nat
        },
{
    let n = router.exact.len() as int;
    let m = router.regex.len() as int;
    if i < n {
        assert(router.rules()[i] == router.exact[i]);
    } else if i < n + m {
        assert(router.rules()[i] == router.regex[i - n]);
    } else {
        assert(router.rules()[i] == router.prefix[i - n - m]);
    }
}

/// Whether no rule of a more specific kind than that of the given rule matches a path.
pub open spec fn of_first_kind(rules: Seq<RuleView>, rule: RuleView, path: Seq<char>) -> bool {
    forall|i: int|
        0 <= i < rules.len() && (#[trigger] rules[i]).matches_path(path) ==> rank(rule.match_type)
            <= rank(rules[i].match_type)
}

/// Whatever canary releases there are, the route that a request takes is of the first
/// kind that has a matching rule: exact before regex before prefix.
pub proof fn first_matching_kind_decides(
    router: RouterView,
    path: Seq<char>,
    ctx: ContextView,
    value: u8,
)
    requires
        router.valid(),
    ensures
        router.route(path, ctx, value) matches Some(m) ==> exists|j: int|
            0 <= j < router.rules().len() && (#[trigger] router.rules()[j]).matches_path(path)
                && of_first_kind(router.rules(), router.rules()[j], path) && m
                == router.rules()[j].candidate(path).chosen(),
{
    let rules = router.rules();
    let k = first_match(rules, path) as int;
    lemma_first_match(rules, path);
    if let Some(m) = router.route(path, ctx, value) {
        first_matching_pattern_decides(router, path, ctx, value, k);
        let j = choose|j: int|
            0 <= j < rules.len() && alike(#[trigger] rules[j], rules[k]) && rules[j].matches_path(
                path,
            ) && m == rules[j].candidate(path).chosen();
        lemma_rank_at(router, k);
        assert forall|i: int| 0 <= i < rules.len() && (#[trigger] rules[i]).matches_path(
            path,
        ) implies rank(rules[j].match_type) <= rank(rules[i].match_type) by {
            lemma_rank_at(router, i);
        }
        assert(rules[j].matches_path(path));
    }
}

/// Where no exact rule matches but some expression does, a request takes a rule with the
/// pattern of the expression that was declared first, whatever canary releases there are.
pub proof fn first_declared_expression_decides(
    router: RouterView,
    path: Seq<char>,
    ctx: ContextView,
    value: u8,
    k: int,
)
    requires
        router.valid(),
        forall|i: int|
            0 <= i < router.exact.len() ==> !(#[trigger] router.exact[i]).matches_path(path),
        is_first_match(router.regex, path, k),
    ensures
        router.route(path, ctx, value) matches Some(m) ==> exists|j: int|
            0 <= j < router.regex.len() && (#[trigger] router.regex[j]).path
                == router.regex[k].path && m == router.regex[j].candidate(path).chosen(),
{
    lemma_candidates(router, path);
    lemma_first_match(router.exact, path);
    lemma_first_match_is(router.regex, path, k);
    let lead = router.regex[k];
    lemma_candidates_come_from(router.regex, lead, path);
    if let Some(m) = router.route(path, ctx, value) {
        let i = choice(router.candidates(path), ctx, value)->0;
        let c = candidates_of(router.regex, lead, path)[i];
        assert(comes_from(c, router.regex, lead, path));
        let j = choose|j: int|
            0 <= j < router.regex.len() && alike(#[trigger] router.regex[j], lead) && c
                == router.regex[j].candidate(path);
        assert(router.regex[j].path == lead.path);
    }
}

/// Where neither an exact rule nor an expression matches, a request takes a prefix rule
/// with the longest prefix that matches, whatever canary releases there are.
pub proof fn longest_matching_prefix_decides(
    router: RouterView,
    path: Seq<char>,
    ctx: ContextView,
    value: u8,
)
    requires
        router.valid(),
        forall|i: int|
            0 <= i < router.exact.len() ==> !(#[trigger] router.exact[i]).matches_path(path),
        forall|i: int|
            0 <= i < router.regex.len() ==> !(#[trigger] router.regex[i]).matches_path(path),
    ensures
        router.route(path, ctx, value) matches Some(m) ==> exists|j: int|
            0 <= j < router.prefix.len() && (#[trigger] router.prefix[j]).matches_path(path)
                && has_longest_prefix(router.prefix, router.prefix[j], path) && m
                == router.prefix[j].candidate(path).chosen(),
{
    lemma_candidates(router, path);
    lemma_first_match(router.exact, path);
    lemma_first_match(router.regex, path);
    lemma_first_match(router.prefix, path);
    let k = first_match(router.prefix, path) as int;
    if let Some(m) = router.route(path, ctx, value) {
        let lead = router.prefix[k];
        lemma_candidates_come_from(router.prefix, lead, path);
        let i = choice(router.candidates(path), ctx, value)->0;
        let c = candidates_of(router.prefix, lead, path)[i];
        assert(comes_from(c, router.prefix, lead, path));
        let j = choose|j: int|
            0 <= j < router.prefix.len() && alike(#[trigger] router.prefix[j], lead) && c
                == router.prefix[j].candidate(path);
        assert(router.prefix[j].match_type == MatchType::Prefix);
        assert(lead.match_type == MatchType::Prefix);
        assert(router.prefix[j].prefix_len() == lead.prefix_len());
        assert forall|i: int| 0 <= i < router.prefix.len() && (
        #[trigger] router.prefix[i]).matches_path(path) implies router.prefix[i].prefix_len()
            <= router.prefix[j].prefix_len() by {
            longest_prefix_comes_first(router, path, k, i);
        }
        assert(router.prefix[j].matches_path(path));
    }
}

/// Whether no rule of a list with a longer prefix than the given one matches a path.
pub open spec fn has_longest_prefix(rules: Seq<RuleView>, rule: RuleView, path: Seq<char>) -> bool {
    forall|i: int|
        0 <= i < rules.len() && (#[trigger] rules[i]).matches_path(path) ==> rules[i].prefix_len()
            <= rule.prefix_len()
}

/// Where an exact rule matches, the expressions and the prefixes do not matter, and where
/// an expression matches, the prefixes do not: neither their releases nor anything else of
/// them changes the route.
pub proof fn less_specific_rules_do_not_matter(
    router: RouterView,
    other: RouterView,
    path: Seq<char>,
    ctx: ContextView,
    value: u8,
    k: int,
)
    requires
        router.valid(),
        other.valid(),
        router.exact == other.exact,
    ensures
        is_first_match(router.exact, path, k) ==> router.route(path, ctx, value) == other.route(
            path,
            ctx,
            value,
        ),
        router.regex == other.regex && is_first_match(router.regex, path, k) ==> router.route(
            path,
            ctx,
            value,
        ) == other.route(path, ctx, value),
{
    lemma_candidates(router, path);
    lemma_candidates(other, path);
    if is_first_match(router.exact, path, k) {
        lemma_first_match_is(router.exact, path, k);
    }
    if is_first_match(router.regex, path, k) {
        lemma_first_match_is(router.regex, path, k);
    }
}

/// A rule that comes first for a path and shares its pattern with no other rule is taken by
/// every request for that path, whatever release it or any other rule has.
pub proof fn route_without_versions_is_taken(
    router: RouterView,
    path: Seq<char>,
    ctx: ContextView,
    value: u8,
    k: int,
)
    requires
        is_first_match(router.rules(), path, k),
        forall|i: int|
            0 <= i < router.rules().len() && i != k ==> !alike(
                #[trigger] router.rules()[i],
                router.rules()[k],
            ),
    ensures
        router.route(path, ctx, value) == Some(router.rules()[k].candidate(path).chosen()),
{
    lemma_first_match_is(router.rules(), path, k);
    lemma_single_candidate(router.rules(), router.rules()[k], path, k);
}

/// A route that was removed is never taken again.
pub proof fn removed_route_is_never_taken(
    router: RouterView,
    id: Seq<char>,
    path: Seq<char>,
    ctx: ContextView,
    value: u8,
)
    requires
        router.valid(),
    ensures
        router.remove(id).route(path, ctx, value) matches Some(m) ==> m.route_id != id,
{
    let left = router.remove(id);
    lemma_without_rule(router.exact, id);
    lemma_without_rule(router.regex, id);
    lemma_without_rule(router.prefix, id);
    taken_route_is_a_matching_rule(left, path, ctx, value);
    if let Some(m) = left.route(path, ctx, value) {
        let j = choose|j: int|
            0 <= j < left.rules().len() && (#[trigger] left.rules()[j]).matches_path(path) && m
                == left.rules()[j].candidate(path).chosen();
        let n = left.exact.len();
        let k = left.regex.len();
        if j < n {
            assert(left.rules()[j] == left.exact[j]);
        } else if j < n + k {
            assert(left.rules()[j] == left.regex[j - n]);
        } else {
            assert(left.rules()[j] == left.prefix[j - n - k]);
        }
    }
}

/// Where no rule matches the path, no route is taken.
pub proof fn no_matching_rule_no_route(
    router: RouterView,
    path: Seq<char>,
    ctx: ContextView,
    value: u8,
)
    requires
        forall|i: int|
            0 <= i < router.rules().len() ==> !(#[trigger] router.rules()[i]).matches_path(path),
    ensures
        router.route(path, ctx, value) is None,
{
    lemma_first_match_is(router.rules(), path, router.rules().len() as int);
}

/// Whether no version of the route that comes first for a path has a canary release.
pub open spec fn plain(router: RouterView, path: Seq<char>) -> bool {
    router.lead(path) matches Some(lead) ==> forall|i: int|
        0 <= i < router.rules().len() && alike(#[trigger] router.rules()[i], lead)
            ==> router.rules()[i].canary is None
}

/// Where no rule with the pattern that comes first has a canary release, the request takes
/// the first matching rule: exact rules come before expressions and expressions before
/// prefixes, and within a kind the order is that of the table.
pub proof fn plain_routes_go_by_priority(
    router: RouterView,
    path: Seq<char>,
    ctx: ContextView,
    value: u8,
    k: int,
)
    requires
        is_first_match(router.rules(), path, k),
        plain(router, path),
    ensures
        router.route(path, ctx, value) == Some(router.rules()[k].candidate(path).chosen()),
{
    let rules = router.rules();
    let lead = rules[k];
    let cands = router.candidates(path);
    lemma_first_match_is(rules, path, k);
    lemma_candidates_come_from(rules, lead, path);
    assert forall|i: int| 0 <= i < k implies !alike(#[trigger] rules[i], lead) by {
        if alike(rules[i], lead) {
            lemma_alike(rules[i], lead, path);
        }
    }
    lemma_first_candidate(rules, lead, path, k);
    assert forall|i: int| 0 <= i < cands.len() implies (#[trigger] cands[i]).canary is None by {
        assert(comes_from(candidates_of(rules, lead, path)[i], rules, lead, path));
        let j = choose|j: int|
            0 <= j < rules.len() && alike(#[trigger] rules[j], lead) && cands[i]
                == rules[j].candidate(path);
        assert(rules[j].canary is None);
    }
    lemma_first_where_is(cands, by_condition(ctx), cands.len() as int);
    lemma_first_where_is(cands, by_cookie(), cands.len() as int);
    lemma_first_where_is(cands, by_no_canary(), 0);
    lemma_weightless(cands, value, 0);
}

/// Without canary releases nothing falls by weight.
proof fn lemma_weightless(cands: Seq<CandidateView>, value: u8, before: nat)
    requires
        forall|i: int| 0 <= i < cands.len() ==> (#[trigger] cands[i]).canary is None,
    ensures
        weight_choice(cands, value, before) == cands.len(),
    decreases cands.len(),
{
    if cands.len() > 0 {
        assert forall|i: int| 0 <= i < cands.skip(1).len() implies (
        #[trigger] cands.skip(1)[i]).canary is None by {
            assert(cands[i + 1].canary is None);
        }
        lemma_weightless(cands.skip(1), value, before + weight_of(cands[0]));
    }
}

/// Of the prefix rules that match a path, the first one has the longest prefix.
pub proof fn longest_prefix_comes_first(router: RouterView, path: Seq<char>, k: int, other: int)
    requires
        router.valid(),
        0 <= k < router.prefix.len(),
        0 <= other < router.prefix.len(),
        forall|i: int| 0 <= i < k ==> !(#[trigger] router.prefix[i]).matches_path(path),
        router.prefix[other].matches_path(path),
    ensures
        router.prefix[other].prefix_len() <= router.prefix[k].prefix_len(),
{
    if other < k {
        assert(!router.prefix[other].matches_path(path));
    } else if k < other {
        assert(router.prefix[k].prefix_len() >= router.prefix[other].prefix_len());
    }
}

/// Of several candidates, one whose conditions the request meets is taken, whatever
/// the cookies and the weights say.
pub proof fn conditions_decide_first(
    cands: Seq<CandidateView>,
    ctx: ContextView,
    value: u8,
    k: int,
)
    requires
        cands.len() > 1,
        0 <= k < cands.len(),
        cands[k].canary matches Some(canary) && conditions_met(canary, ctx),
        forall|i: int|
            0 <= i < k ==> !((#[trigger] cands[i]).canary matches Some(canary) && conditions_met(
                canary,
                ctx,
            )),
    ensures
        choice(cands, ctx, value) == Some(k),
{
    lemma_first_where_is(cands, by_condition(ctx), k);
}

/// Where no conditions are met, the candidate that the sticky cookie names is taken,
/// whatever the weights say.
pub proof fn sticky_cookie_decides_second(
    cands: Seq<CandidateView>,
    ctx: ContextView,
    value: u8,
    keeper: int,
    k: int,
)
    requires
        cands.len() > 1,
        forall|i: int|
            0 <= i < cands.len() ==> !((#[trigger] cands[i]).canary matches Some(canary)
                && conditions_met(canary, ctx)),
        0 <= keeper < cands.len(),
        by_cookie()(cands[keeper]),
        forall|i: int| 0 <= i < keeper ==> !by_cookie()(#[trigger] cands[i]),
        0 <= k < cands.len(),
        cands[keeper].canary matches Some(canary) && entry_of(ctx.cookies, cookie_name(canary))
            == Some(cands[k].route_id),
        forall|i: int| 0 <= i < k ==> (#[trigger] cands[i]).route_id != cands[k].route_id,
    ensures
        choice(cands, ctx, value) == Some(k),
{
    lemma_first_where_is(cands, by_condition(ctx), cands.len() as int);
    lemma_first_where_is(cands, by_cookie(), keeper);
    lemma_first_where_is(cands, by_id(cands[k].route_id), k);
}

/// The weights of the first `n` candidates together.
pub open spec fn weight_sum(cands: Seq<CandidateView>, n: int) -> nat
    decreases n,
{
    if n <= 0 {
        0
    } else {
        weight_sum(cands, n - 1) + weight_of(cands[n - 1])
    }
}

/// A candidate without its first element: the weights before an element shrink by
/// that of the first.
proof fn lemma_weight_sum_skip(cands: Seq<CandidateView>, n: int)
    requires
        1 <= n <= cands.len(),
    ensures
        weight_sum(cands, n) == weight_of(cands[0]) + weight_sum(cands.skip(1), n - 1),
    decreases n,
{
    if n > 1 {
        lemma_weight_sum_skip(cands, n - 1);
        assert(cands.skip(1)[n - 2] == cands[n - 1]);
    } else {
        assert(weight_sum(cands, 0) == 0);
        assert(weight_sum(cands.skip(1), 0) == 0);
    }
}

proof fn lemma_weight_choice(cands: Seq<CandidateView>, value: u8, before: nat, k: int)
    requires
        value < 255,
        0 <= k < cands.len(),
        before + weight_sum(cands, k) <= value,
        value < before + weight_sum(cands, k + 1),
    ensures
        weight_choice(cands, value, before) == k,
    decreases cands.len(),
{
    lemma_weight_sum_skip(cands, k + 1);
    if k == 0 {
        assert(weight_sum(cands, 1) == weight_sum(cands, 0) + weight_of(cands[0]));
    } else {
        lemma_weight_sum_skip(cands, k);
        lemma_weight_choice(cands.skip(1), value, before + weight_of(cands[0]), k - 1);
    }
}

/// By weight, a value falls to the candidate whose share of the percentages holds
/// it: the weights before it do not exceed the value, and with its own they do.
pub proof fn weights_share_the_traffic(cands: Seq<CandidateView>, value: u8, k: int)
    requires
        value < 100,
        0 <= k < cands.len(),
        weight_sum(cands, k) <= value < weight_sum(cands, k + 1),
    ensures
        weight_choice(cands, value, 0) == k,
{
    lemma_weight_choice(cands, value, 0, k);
}

/// By weight, a value that is not below all weights together falls to none.
pub proof fn weights_leave_the_rest(cands: Seq<CandidateView>, value: u8)
    requires
        value < 100,
        weight_sum(cands, cands.len() as int) <= value,
    ensures
        weight_choice(cands, value, 0) == cands.len(),
{
    lemma_weight_rest(cands, value, 0);
}

proof fn lemma_weight_rest(cands: Seq<CandidateView>, value: u8, before: nat)
    requires
        value < 100,
        before + weight_sum(cands, cands.len() as int) <= value,
    ensures
        weight_choice(cands, value, before) == cands.len(),
    decreases cands.len(),
{
    if cands.len() > 0 {
        lemma_weight_sum_skip(cands, cands.len() as int);
        lemma_weight_rest(cands.skip(1), value, before + weight_of(cands[0]));
    }
}

/// Where the address of the client decides, the value that decides by weight is a
/// percentage that depends on the address alone: whatever the candidates, the headers, the
/// cookies and the time, it is the same for the same address.
pub proof fn value_of_a_client_depends_on_its_address(
    cands: Seq<CandidateView>,
    ctx: ContextView,
    value: u8,
    other_cands: Seq<CandidateView>,
    other_ctx: ContextView,
    other: u8,
)
    requires
        ip_decides(cands, ctx),
        fair_value(cands, ctx, value),
        ip_decides(other_cands, other_ctx),
        fair_value(other_cands, other_ctx, other),
        ctx.client_ip == other_ctx.client_ip,
    ensures
        value < 100,
        value == other,
{
}

/// Requests of one client are routed alike where the address decides: whatever
/// value is taken, the route is the same.
pub proof fn same_client_same_route(
    router: RouterView,
    path: Seq<char>,
    ctx: ContextView,
    value: u8,
    other: u8,
)
    requires
        ip_decides(router.candidates(path), ctx),
        fair_value(router.candidates(path), ctx, value),
        fair_value(router.candidates(path), ctx, other),
    ensures
        router.route(path, ctx, value) == router.route(path, ctx, other),
{
}

/// Where a version of the route that comes first for a path has no canary release, every
/// request takes some route.
pub proof fn plain_route_catches_the_rest(
    router: RouterView,
    path: Seq<char>,
    ctx: ContextView,
    value: u8,
    k: int,
)
    requires
        0 <= k < router.candidates(path).len(),
        router.candidates(path)[k].canary is None,
    ensures
        router.route(path, ctx, value) is Some,
{
    let cands = router.candidates(path);
    lemma_first_where(cands, by_no_canary());
    if first_where(cands, by_no_canary()) == cands.len() {
        assert(!by_no_canary()(cands[k]));
    }
}

} // verus!
