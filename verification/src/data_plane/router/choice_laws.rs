//! What decides between the versions of a route, and what a rule matches.
use crate::clock::{apart, era_start, wall_reading};
use crate::config::types::{CanaryMatchType, CanaryRuleView, CanaryView, StickyStrategy};
use crate::data_plane::router::laws::{
    comes_from, is_first_match, lemma_candidates_come_from, lemma_rule_at,
    taken_route_is_a_matching_rule,
};
use crate::data_plane::router::model::{
    alike, by_condition, by_cookie, by_id, by_ip_hash, by_no_canary, candidates_of, choice,
    clock_value, conditions_met, cookie_name, fair_value, first_where, ip_decides, lemma_absent, lemma_alike,
    lemma_first_match_is, lemma_first_where, lemma_first_where_is, lemma_prefix_place,
    prefix_place, present, rule_met, CandidateView, ContextView, RouterErrorView, RouterView,
    RuleView,
};
use crate::data_plane::router::{compute_route_value, CanaryContext, MatchType, RouteCandidate};
use crate::model::views;
use crate::outside::{duration_nanos, regex_groups, regex_new, text_hash_input};
use crate::str_map::{distinct_keys, entry_of, lemma_key_position, lemma_key_position_is};
use std::collections::hash_map::DefaultHasher;
use std::time::{Duration, SystemTime};
use vstd::prelude::*;
use vstd::std_specs::hash::*;

verus! {

// ---- the value that decides by weight ----

/// Whether a candidate keeps clients by their address.
pub open spec fn keeps_by_address(c: CandidateView) -> bool {
    c.canary matches Some(canary) && canary.stick == Some(StickyStrategy::IpHash)
}

proof fn lemma_ip_decides(cands: Seq<CandidateView>, ctx: ContextView)
    ensures
        ip_decides(cands, ctx) <==> ctx.client_ip is Some && exists|i: int|
            0 <= i < cands.len() && keeps_by_address(#[trigger] cands[i]),
{
    lemma_first_where(cands, by_ip_hash());
    let at = first_where(cands, by_ip_hash()) as int;
    if at < cands.len() {
        assert(keeps_by_address(cands[at]));
    } else {
        assert forall|i: int| 0 <= i < cands.len() implies !keeps_by_address(
            #[trigger] cands[i],
        ) by {
            assert(!by_ip_hash()(cands[i]));
        }
    }
}

/// Where no candidate keeps clients by their address, or the address is not known, the
/// value that decides by weight is taken from a reading of the wall clock, whatever the
/// candidates: it counts the nanoseconds beyond the last whole second in steps of 128, up
/// to a hundred.
pub proof fn clock_decides_where_the_address_does_not(
    cands: Seq<CandidateView>,
    ctx: ContextView,
    value: u8,
)
    requires
        fair_value(cands, ctx, value),
        ctx.client_ip is None || forall|i: int|
            0 <= i < cands.len() ==> !keeps_by_address(#[trigger] cands[i]),
    ensures
        exists|now: SystemTime, start: SystemTime, span: Duration|
            call_ensures(SystemTime::now, (), now) && era_start(start) && #[trigger] apart(
                now,
                start,
                span,
            ) && value == (duration_nanos(span) / 128) % 100,
{
    lemma_ip_decides(cands, ctx);
    let span = choose|span: Duration| #[trigger]
        wall_reading(span) && value == clock_value(duration_nanos(span));
    let (now, start) = choose|now: SystemTime, start: SystemTime|
        call_ensures(SystemTime::now, (), now) && era_start(start) && #[trigger] apart(
            now,
            start,
            span,
        );
    assert(apart(now, start, span));
}

/// What `compute_route_value` returns where no candidate keeps clients by their address, or
/// the address is not known: the value of a reading of the wall clock, whatever the list of
/// candidates.
pub proof fn computed_values_come_from_the_clock(
    matched: Vec<RouteCandidate>,
    ctx: CanaryContext,
    value: u8,
)
    requires
        call_ensures(compute_route_value, (&matched, &ctx), value),
        ctx.client_ip is None || forall|i: int|
            0 <= i < matched@.len() ==> !((#[trigger] matched@[i]).canary matches Some(canary)
                && canary.stick == Some(StickyStrategy::IpHash)),
    ensures
        exists|span: Duration|
            #[trigger] wall_reading(span) && value == (duration_nanos(span) / 128) % 100,
{
    let cands = views(matched@);
    assert forall|i: int|
        0 <= i < cands.len() && ctx.client_ip is Some implies !keeps_by_address(
        #[trigger] cands[i],
    ) by {
        assert(cands[i] == matched@[i]@);
    }
    clock_decides_where_the_address_does_not(cands, ctx@, value);
    let (now, start, span) = choose|now: SystemTime, start: SystemTime, span: Duration|
        call_ensures(SystemTime::now, (), now) && era_start(start) && #[trigger] apart(
            now,
            start,
            span,
        ) && value == (duration_nanos(span) / 128) % 100;
    assert(wall_reading(span));
}

/// Where the address does not decide, the candidates have no say in the value: what may be
/// taken for one list may be taken for any other, and so may whatever the clock shows.
pub proof fn candidates_have_no_say_in_the_value(
    cands: Seq<CandidateView>,
    ctx: ContextView,
    other_cands: Seq<CandidateView>,
    other_ctx: ContextView,
    value: u8,
    span: Duration,
)
    requires
        ctx.client_ip is None || forall|i: int|
            0 <= i < cands.len() ==> !keeps_by_address(#[trigger] cands[i]),
        other_ctx.client_ip is None || forall|i: int|
            0 <= i < other_cands.len() ==> !keeps_by_address(#[trigger] other_cands[i]),
    ensures
        fair_value(cands, ctx, value) <==> fair_value(other_cands, other_ctx, value),
        wall_reading(span) && value == (duration_nanos(span) / 128) % 100 ==> fair_value(
            cands,
            ctx,
            value,
        ),
{
    lemma_ip_decides(cands, ctx);
    lemma_ip_decides(other_cands, other_ctx);
}

/// Where some candidate, at whatever place, keeps clients by their address and the address
/// is known, the value is the hash of the address, in percent.
pub proof fn address_decides_where_it_is_asked_for(
    cands: Seq<CandidateView>,
    ctx: ContextView,
    value: u8,
    place: int,
    ip: Seq<char>,
)
    requires
        0 <= place < cands.len(),
        keeps_by_address(cands[place]),
        ctx.client_ip == Some(ip),
    ensures
        fair_value(cands, ctx, value) <==> value == DefaultHasher::spec_finish(text_hash_input(ip))
            % 100,
{
    lemma_ip_decides(cands, ctx);
}

/// The value of the clock stays the same for 128 nanoseconds and then goes up by one; after
/// a hundred steps it starts over.
pub proof fn clock_value_goes_up_in_steps(nanos: u32)
    ensures
        nanos < 128 ==> clock_value(nanos) == 0,
        nanos + 128 <= u32::MAX ==> clock_value((nanos + 128) as u32) == (clock_value(nanos) + 1)
            % 100,
        nanos % 128 < 127 ==> clock_value((nanos + 1) as u32) == clock_value(nanos),
        clock_value(nanos) < 100,
{
    let steps = nanos as int / 128;
    assert(nanos / 128 == steps);
    if nanos + 128 <= u32::MAX {
        let later = (nanos + 128) as u32;
        assert(later / 128 == steps + 1);
        assert((steps + 1) % 100 == (steps % 100 + 1) % 100);
    }
    if nanos % 128 < 127 {
        let next = (nanos + 1) as u32;
        assert(next / 128 == steps);
    }
}

// ---- conditions ----

/// Whether a request carries, where a canary rule looks, the value that it asks for.
pub open spec fn carries(rule: CanaryRuleView, ctx: ContextView) -> bool {
    match rule.match_type {
        CanaryMatchType::Header => ctx.headers.contains((rule.key, rule.value)),
        CanaryMatchType::Cookie => ctx.cookies.contains((rule.key, rule.value)),
        CanaryMatchType::Query => ctx.query_params.contains((rule.key, rule.value)),
    }
}

proof fn lemma_entry_is_contained(
    entries: Seq<(Seq<char>, Seq<char>)>,
    key: Seq<char>,
    value: Seq<char>,
)
    requires
        distinct_keys(entries),
    ensures
        entry_of(entries, key) == Some(value) <==> entries.contains((key, value)),
{
    lemma_key_position(entries, key);
    if entries.contains((key, value)) {
        let i = choose|i: int| 0 <= i < entries.len() && entries[i] == (key, value);
        assert forall|j: int| 0 <= j < i implies #[trigger] entries[j].0 != key by {
            assert(entries[j].0 != entries[i].0);
        }
        lemma_key_position_is(entries, key, i);
    }
}

/// The conditions of a canary release are met if and only if the request carries what one
/// of its rules asks for, whichever it is: a header, a cookie or a query parameter with the
/// name and the value of the rule.
pub proof fn any_rule_meets_the_conditions(canary: CanaryView, ctx: ContextView)
    requires
        distinct_keys(ctx.headers),
        distinct_keys(ctx.cookies),
        distinct_keys(ctx.query_params),
    ensures
        conditions_met(canary, ctx) <==> exists|i: int|
            0 <= i < canary.match_rules.len() && carries(#[trigger] canary.match_rules[i], ctx),
{
    assert forall|i: int| 0 <= i < canary.match_rules.len() implies rule_met(
        #[trigger] canary.match_rules[i],
        ctx,
    ) == carries(canary.match_rules[i], ctx) by {
        let rule = canary.match_rules[i];
        lemma_entry_is_contained(ctx.headers, rule.key, rule.value);
        lemma_entry_is_contained(ctx.cookies, rule.key, rule.value);
        lemma_entry_is_contained(ctx.query_params, rule.key, rule.value);
    }
}

// ---- the choice ----

/// Whether no candidate has conditions that the request meets.
pub open spec fn no_condition(cands: Seq<CandidateView>, ctx: ContextView) -> bool {
    forall|i: int|
        0 <= i < cands.len() ==> !((#[trigger] cands[i]).canary matches Some(canary)
            && conditions_met(canary, ctx))
}

/// Whether a candidate keeps clients by a cookie.
pub open spec fn keeps_by_cookie(c: CandidateView) -> bool {
    c.canary matches Some(canary) && canary.stick == Some(StickyStrategy::Cookie)
}

/// Whether no cookie of the request names a candidate: no candidate keeps clients by a
/// cookie, or the request lacks the cookie of the first that does, or that cookie names
/// none of the candidates.
pub open spec fn no_cookie(cands: Seq<CandidateView>, ctx: ContextView) -> bool {
    forall|k: int|
        0 <= k < cands.len() && keeps_by_cookie(#[trigger] cands[k]) && (forall|i: int|
            0 <= i < k ==> !keeps_by_cookie(#[trigger] cands[i])) ==> (entry_of(
            ctx.cookies,
            cookie_name(cands[k].canary->0),
        ) matches Some(id) ==> forall|i: int|
            0 <= i < cands.len() ==> (#[trigger] cands[i]).route_id != id)
}

/// The weights of the canary releases of the first `n` candidates together.
pub open spec fn shares(cands: Seq<CandidateView>, n: int) -> int
    decreases n,
{
    if n <= 0 {
        0
    } else {
        shares(cands, n - 1) + match cands[n - 1].canary {
            Some(canary) => canary.weight as int,
            None => 0,
        }
    }
}

proof fn lemma_shares_are_weights(cands: Seq<CandidateView>, n: int)
    requires
        0 <= n <= cands.len(),
    ensures
        shares(cands, n) == crate::data_plane::router::laws::weight_sum(cands, n),
    decreases n,
{
    if n > 0 {
        lemma_shares_are_weights(cands, n - 1);
    }
}

proof fn lemma_no_condition_no_cookie(cands: Seq<CandidateView>, ctx: ContextView)
    requires
        no_condition(cands, ctx),
        no_cookie(cands, ctx),
    ensures
        first_where(cands, by_condition(ctx)) == cands.len(),
        crate::data_plane::router::model::cookie_choice(cands, ctx) is None,
{
    lemma_first_where_is(cands, by_condition(ctx), cands.len() as int);
    lemma_first_where(cands, by_cookie());
    let keeper = first_where(cands, by_cookie()) as int;
    if keeper < cands.len() {
        assert(keeps_by_cookie(cands[keeper]));
        assert forall|i: int| 0 <= i < keeper implies !keeps_by_cookie(#[trigger] cands[i]) by {
            assert(!by_cookie()(cands[i]));
        }
        if let Some(id) = entry_of(ctx.cookies, cookie_name(cands[keeper].canary->0)) {
            lemma_first_where_is(cands, by_id(id), cands.len() as int);
        }
    }
}

/// A single candidate is taken as it is, whatever release it has.
pub proof fn single_candidate_is_taken(cands: Seq<CandidateView>, ctx: ContextView, value: u8)
    requires
        cands.len() == 1,
    ensures
        choice(cands, ctx, value) == Some(0int),
{
}

/// Where neither conditions nor a cookie decide, a candidate is taken if the value lies in
/// its share: it is no less than the weights before the candidate, and less than these and
/// its own weight together.
pub proof fn weights_decide_third(cands: Seq<CandidateView>, ctx: ContextView, value: u8, k: int)
    requires
        cands.len() > 1,
        no_condition(cands, ctx),
        no_cookie(cands, ctx),
        value < 100,
        0 <= k < cands.len(),
        shares(cands, k) <= value < shares(cands, k + 1),
    ensures
        choice(cands, ctx, value) == Some(k),
{
    lemma_no_condition_no_cookie(cands, ctx);
    lemma_shares_are_weights(cands, k);
    lemma_shares_are_weights(cands, k + 1);
    crate::data_plane::router::laws::weights_share_the_traffic(cands, value, k);
}

/// Where the value lies in no share either, the first candidate without a release is taken,
/// and none where all have one.
pub proof fn plain_candidate_comes_last(
    cands: Seq<CandidateView>,
    ctx: ContextView,
    value: u8,
    k: int,
)
    requires
        cands.len() > 1,
        no_condition(cands, ctx),
        no_cookie(cands, ctx),
        shares(cands, cands.len() as int) <= value < 100,
        0 <= k <= cands.len(),
        forall|i: int| 0 <= i < k ==> (#[trigger] cands[i]).canary is Some,
        k < cands.len() ==> cands[k].canary is None,
    ensures
        choice(cands, ctx, value) == if k < cands.len() {
            Some(k)
        } else {
            None::<int>
        },
{
    lemma_no_condition_no_cookie(cands, ctx);
    lemma_shares_are_weights(cands, cands.len() as int);
    crate::data_plane::router::laws::weights_leave_the_rest(cands, value);
    lemma_first_where_is(cands, by_no_canary(), k);
}

/// Where no conditions are met, the candidate is taken that the cookie names; the cookie is
/// that of the first candidate that keeps clients by one, under the configured name or else
/// under `kirin_canary`.
pub proof fn cookie_keeps_clients(
    cands: Seq<CandidateView>,
    ctx: ContextView,
    value: u8,
    keeper: int,
    name: Seq<char>,
    k: int,
)
    requires
        cands.len() > 1,
        no_condition(cands, ctx),
        0 <= keeper < cands.len(),
        keeps_by_cookie(cands[keeper]),
        forall|i: int| 0 <= i < keeper ==> !keeps_by_cookie(#[trigger] cands[i]),
        name == match cands[keeper].canary->0.sticky_cookie {
            Some(cookie) => cookie.name,
            None => "kirin_canary"@,
        },
        distinct_keys(ctx.cookies),
        0 <= k < cands.len(),
        ctx.cookies.contains((name, cands[k].route_id)),
        forall|i: int| 0 <= i < k ==> (#[trigger] cands[i]).route_id != cands[k].route_id,
    ensures
        choice(cands, ctx, value) == Some(k),
{
    lemma_first_where_is(cands, by_condition(ctx), cands.len() as int);
    assert forall|i: int| 0 <= i < keeper implies !by_cookie()(#[trigger] cands[i]) by {
        assert(!keeps_by_cookie(cands[i]));
    }
    lemma_first_where_is(cands, by_cookie(), keeper);
    lemma_entry_is_contained(ctx.cookies, name, cands[k].route_id);
    lemma_first_where_is(cands, by_id(cands[k].route_id), k);
}

// ---- rules and candidates ----

/// Whether a path is a prefix followed by anything.
pub open spec fn begins_with(path: Seq<char>, prefix: Seq<char>) -> bool {
    exists|rest: Seq<char>| path == #[trigger] (prefix + rest)
}

/// The prefix that a prefix rule asks for: its own, or its path where it has none.
pub open spec fn asked_prefix(rule: RuleView) -> Seq<char> {
    if rule.prefix is Some {
        rule.prefix->0
    } else {
        rule.path
    }
}

/// An exact rule matches its own path and no other; a prefix rule matches what begins with
/// its prefix, or with its path where it has none; a regex rule matches the paths in which
/// its expression is found.
pub proof fn rules_match_by_their_kind(rule: RuleView, path: Seq<char>)
    ensures
        rule.match_type == MatchType::Exact ==> (rule.matches_path(path) <==> path == rule.path),
        rule.match_type == MatchType::Prefix ==> (rule.matches_path(path) <==> begins_with(
            path,
            asked_prefix(rule),
        )),
        rule.match_type == MatchType::Regex ==> (rule.matches_path(path) <==> (regex_new(
            rule.path,
        ) matches Ok(re) && regex_groups(re, path) is Some)),
{
    let prefix = rule.prefix_text();
    if prefix.is_prefix_of(path) {
        assert(path =~= prefix + path.skip(prefix.len() as int));
    }
    if begins_with(path, prefix) {
        let rest = choose|rest: Seq<char>| path == #[trigger] (prefix + rest);
        assert(path.take(prefix.len() as int) =~= prefix);
    }
}

/// The groups of a match that took part in it are kept in order, and no others.
pub proof fn groups_that_took_part_are_kept(
    before: Seq<Option<Seq<char>>>,
    after: Seq<Option<Seq<char>>>,
    group: Seq<char>,
)
    ensures
        present(before + after) == present(before) + present(after),
        present(seq![Some(group)]) == seq![group],
        present(seq![None]) == Seq::<Seq<char>>::empty(),
        present(Seq::empty()) == Seq::<Seq<char>>::empty(),
    decreases after.len(),
{
    if after.len() == 0 {
        assert(before + after =~= before);
        assert(present(before) + present(after) =~= present(before));
    } else {
        groups_that_took_part_are_kept(before, after.drop_last(), group);
        assert((before + after).drop_last() =~= before + after.drop_last());
        assert((before + after).last() == after.last());
        assert(present(before + after) =~= present(before) + present(after));
    }
    let one = seq![Some(group)];
    assert(one.drop_last() =~= Seq::empty());
    assert(present(one.drop_last()) =~= Seq::empty());
    assert(present(one) =~= seq![group]);
    let none: Seq<Option<Seq<char>>> = seq![None];
    assert(none.drop_last() =~= Seq::empty());
    assert(present(none) =~= present(none.drop_last()));
}

/// What a match captures are the groups that took part in it, but for the whole match: at
/// least one, or nothing is captured. Only an expression captures anything.
pub proof fn only_expressions_capture(rule: RuleView, path: Seq<char>)
    ensures
        rule.match_type != MatchType::Regex ==> rule.captures(path) is None,
        rule.match_type == MatchType::Regex ==> (match regex_new(rule.path) {
            Ok(re) => match regex_groups(re, path) {
                Some(groups) => {
                    let inner = groups.subrange(1, groups.len() as int);
                    groups.len() > 0 ==> rule.captures(path) == if present(inner).len() > 0 {
                        Some(present(inner))
                    } else {
                        None
                    }
                },
                None => rule.captures(path) is None,
            },
            Err(_) => rule.captures(path) is None,
        }),
{
    if let Ok(re) = regex_new(rule.path) {
        if let Some(groups) = regex_groups(re, path) {
            if groups.len() > 0 {
                assert(groups.skip(1) =~= groups.subrange(1, groups.len() as int));
            }
        }
    }
}

/// A request takes a route only if a rule with its id stands in the table and matches the
/// path, and then it goes to the upstream cluster of that rule, with what it captures.
pub proof fn taken_route_goes_where_its_rule_says(
    router: RouterView,
    path: Seq<char>,
    ctx: ContextView,
    value: u8,
)
    requires
        router.valid(),
    ensures
        router.route(path, ctx, value) matches Some(m) ==> (router.find(m.route_id) matches Some(
            rule,
        ) && rule.route_id == m.route_id && rule.matches_path(path) && m.upstream == rule.upstream
            && m.captures == rule.captures(path)),
{
    taken_route_is_a_matching_rule(router, path, ctx, value);
    if let Some(m) = router.route(path, ctx, value) {
        let rules = router.rules();
        let j = choose|j: int|
            0 <= j < router.rules().len() && (#[trigger] router.rules()[j]).matches_path(path) && m
                == router.rules()[j].candidate(path).chosen();
        let n = router.exact.len() as int;
        let k = router.regex.len() as int;
        let id = rules[j].route_id;
        lemma_absent(router.exact, id);
        lemma_absent(router.regex, id);
        if j < n {
            assert(rules[j] == router.exact[j]);
            lemma_rule_at(router.exact, j);
        } else if j < n + k {
            assert(rules[j] == router.regex[j - n]);
            lemma_rule_at(router.regex, j - n);
            assert forall|i: int| 0 <= i < n implies #[trigger] router.exact[i].route_id != id by {
                assert(router.exact[i].route_id != router.regex[j - n].route_id);
            }
        } else {
            assert(rules[j] == router.prefix[j - n - k]);
            lemma_rule_at(router.prefix, j - n - k);
            assert forall|i: int| 0 <= i < n implies #[trigger] router.exact[i].route_id != id by {
                assert(router.exact[i].route_id != router.prefix[j - n - k].route_id);
            }
            assert forall|i: int| 0 <= i < k implies #[trigger] router.regex[i].route_id != id by {
                assert(router.regex[i].route_id != router.prefix[j - n - k].route_id);
            }
        }
    }
}

/// Whether two rules are of one kind and stand for the same paths: the same prefix, or the
/// same path for any other kind.
pub open spec fn versions_of_one_route(a: RuleView, b: RuleView) -> bool {
    &&& a.match_type == b.match_type
    &&& a.match_type == MatchType::Prefix ==> asked_prefix(a) == asked_prefix(b)
    &&& a.match_type != MatchType::Prefix ==> a.path == b.path
}

/// Whether a candidate for a path has the id, the upstream and the release of a rule, and
/// what the rule captures.
pub open spec fn stands_for(c: CandidateView, rule: RuleView, path: Seq<char>) -> bool {
    &&& c.route_id == rule.route_id
    &&& c.upstream == rule.upstream
    &&& c.canary == rule.canary
    &&& c.captures == rule.captures(path)
}

/// Every version of the route that comes first for a path is among the candidates, with its
/// id, its upstream, its release and its captures.
pub proof fn every_version_is_a_candidate(router: RouterView, path: Seq<char>, k: int, j: int)
    requires
        is_first_match(router.rules(), path, k),
        0 <= j < router.rules().len(),
        versions_of_one_route(router.rules()[j], router.rules()[k]),
    ensures
        exists|i: int|
            0 <= i < router.candidates(path).len() && stands_for(
                #[trigger] router.candidates(path)[i],
                router.rules()[j],
                path,
            ),
{
    lemma_first_match_is(router.rules(), path, k);
    lemma_version_is_collected(router.rules(), router.rules()[k], path, j);
    let all = candidates_of(router.rules(), router.rules()[k], path);
    let i = choose|i: int|
        0 <= i < all.len() && stands_for(#[trigger] all[i], router.rules()[j], path);
    assert(router.candidates(path)[i] == all[i]);
}

proof fn lemma_version_is_collected(rules: Seq<RuleView>, lead: RuleView, path: Seq<char>, j: int)
    requires
        0 <= j < rules.len(),
        versions_of_one_route(rules[j], lead),
    ensures
        exists|i: int|
            0 <= i < candidates_of(rules, lead, path).len() && stands_for(
                #[trigger] candidates_of(rules, lead, path)[i],
                rules[j],
                path,
            ),
    decreases rules.len(),
{
    let front = rules.drop_last();
    let all = candidates_of(rules, lead, path);
    if j == rules.len() - 1 {
        let i = all.len() - 1;
        assert(all[i] == rules[j].candidate(path));
    } else {
        assert(front[j] == rules[j]);
        lemma_version_is_collected(front, lead, path, j);
        let some = candidates_of(front, lead, path);
        let i = choose|i: int|
            0 <= i < some.len() && stands_for(#[trigger] some[i], rules[j], path);
        assert(all[i] == some[i]);
    }
}

// ---- adding ----

/// A rule is refused if its id is in use, or else if it has an expression that does not
/// compile; every other rule is added.
pub proof fn rules_are_refused_only_for_a_reason(router: RouterView, rule: RuleView)
    ensures
        router.find(rule.route_id) is Some ==> router.add(rule) == Err::<
            RouterView,
            RouterErrorView,
        >(RouterErrorView::DuplicateRouteId { route_id: rule.route_id }),
        router.find(rule.route_id) is None && rule.match_type == MatchType::Regex && regex_new(
            rule.path,
        ) is Err ==> router.add(rule) == Err::<RouterView, RouterErrorView>(
            RouterErrorView::InvalidRegex {
                pattern: rule.path,
                source: regex_new(rule.path)->Err_0,
            },
        ),
        router.find(rule.route_id) is None && (rule.match_type == MatchType::Regex ==> regex_new(
            rule.path,
        ) is Ok) ==> router.add(rule) is Ok,
{
}

/// A new exact rule or expression is tried after those of its kind that are there; a new
/// prefix rule is tried after those whose prefix is as long or longer, and before those with
/// a shorter one. The rules of the other kinds stay as they are.
pub proof fn new_rules_are_tried_after_the_old(router: RouterView, rule: RuleView)
    ensures
        router.add(rule) matches Ok(added) ==> {
            &&& rule.match_type == MatchType::Exact ==> added.exact.len() == router.exact.len() + 1
                && added.exact.last() == rule && added.exact.drop_last() == router.exact
            &&& rule.match_type != MatchType::Exact ==> added.exact == router.exact
            &&& rule.match_type == MatchType::Regex ==> added.regex.len() == router.regex.len() + 1
                && added.regex.last() == rule && added.regex.drop_last() == router.regex
            &&& rule.match_type != MatchType::Regex ==> added.regex == router.regex
            &&& rule.match_type != MatchType::Prefix ==> added.prefix == router.prefix
            &&& rule.match_type == MatchType::Prefix ==> exists|at: int|
                0 <= at < added.prefix.len() && #[trigger] added.prefix[at] == rule
                    && added.prefix.remove(at) == router.prefix && (forall|i: int|
                    0 <= i < at ==> (#[trigger] router.prefix[i]).prefix_len()
                        >= rule.prefix_len()) && (at < router.prefix.len()
                    ==> router.prefix[at].prefix_len() < rule.prefix_len())
        },
{
    if let Ok(added) = router.add(rule) {
        match rule.match_type {
            MatchType::Exact => {
                assert(added.exact.drop_last() =~= router.exact);
            },
            MatchType::Regex => {
                assert(added.regex.drop_last() =~= router.regex);
            },
            MatchType::Prefix => {
                lemma_prefix_place(router.prefix, rule.prefix_len());
                let at = prefix_place(router.prefix, rule.prefix_len()) as int;
                assert(added.prefix[at] == rule);
                assert(added.prefix.remove(at) =~= router.prefix);
            },
        }
    }
}

/// Nothing but the versions of the route that comes first for a path is a candidate.
pub proof fn only_versions_are_candidates(router: RouterView, path: Seq<char>, k: int, i: int)
    requires
        is_first_match(router.rules(), path, k),
        0 <= i < router.candidates(path).len(),
    ensures
        exists|j: int|
            0 <= j < router.rules().len() && versions_of_one_route(
                #[trigger] router.rules()[j],
                router.rules()[k],
            ) && router.rules()[j].matches_path(path) && stands_for(
                router.candidates(path)[i],
                router.rules()[j],
                path,
            ),
{
    let rules = router.rules();
    let lead = rules[k];
    lemma_first_match_is(rules, path, k);
    lemma_candidates_come_from(rules, lead, path);
    let c = candidates_of(rules, lead, path)[i];
    assert(comes_from(c, rules, lead, path));
    let j = choose|j: int|
        0 <= j < rules.len() && alike(#[trigger] rules[j], lead) && c == rules[j].candidate(path);
    lemma_alike(rules[j], lead, path);
    assert(versions_of_one_route(router.rules()[j], router.rules()[k]));
}

/// The candidates stand in the order of their rules: those of a list and of what follows it
/// are those of the list, and then those of what follows.
pub proof fn candidates_stand_in_the_order_of_their_rules(
    rules: Seq<RuleView>,
    rule: RuleView,
    lead: RuleView,
    path: Seq<char>,
)
    ensures
        versions_of_one_route(rule, lead) ==> candidates_of(rules.push(rule), lead, path)
            == candidates_of(rules, lead, path).push(
            CandidateView {
                upstream: rule.upstream,
                route_id: rule.route_id,
                captures: rule.captures(path),
                canary: rule.canary,
            },
        ),
        !versions_of_one_route(rule, lead) ==> candidates_of(rules.push(rule), lead, path)
            == candidates_of(rules, lead, path),
        candidates_of(Seq::empty(), lead, path).len() == 0,
{
    assert(rules.push(rule).drop_last() =~= rules);
}

} // verus!
