//! What a routing table is and which route a request takes, as mathematics.
use crate::clock::wall_reading;
use crate::config::types::{CanaryMatchType, CanaryRuleView, CanaryView, StickyStrategy};
use crate::data_plane::ip::IpNet;
use crate::data_plane::router::MatchType;
use crate::outside::{
    duration_nanos, regex_error_message, regex_groups, regex_new, text_hash_input,
};
use crate::str_map::entry_of;
use std::collections::hash_map::DefaultHasher;
use std::time::Duration;
use vstd::prelude::*;
use vstd::std_specs::hash::*;
use vstd::utf8::encode_utf8;

verus! {

/// A routing rule.
#[verifier::ext_equal]
pub struct RuleView {
    pub route_id: Seq<char>,
    pub match_type: MatchType,
    pub path: Seq<char>,
    pub prefix: Option<Seq<char>>,
    pub methods: Seq<Seq<char>>,
    pub upstream: Seq<char>,
    pub canary: Option<CanaryView>,
    pub ip_whitelist: Option<Seq<IpNet>>,
    pub ip_blacklist: Option<Seq<IpNet>>,
}

impl RuleView {
    /// The prefix of a prefix rule: its own, or else its path.
    pub open spec fn prefix_text(self) -> Seq<char> {
        match self.prefix {
            Some(p) => p,
            None => self.path,
        }
    }

    /// The length of that prefix in bytes.
    pub open spec fn prefix_len(self) -> nat {
        encode_utf8(self.prefix_text()).len()
    }

    /// What the rule stands for, besides its kind: the prefix of a prefix rule, the path
    /// of any other.
    pub open spec fn pattern(self) -> Seq<char> {
        match self.match_type {
            MatchType::Prefix => self.prefix_text(),
            _ => self.path,
        }
    }

    /// The groups of the first match of a regex rule in a path.
    pub open spec fn groups(self, path: Seq<char>) -> Option<Seq<Option<Seq<char>>>> {
        match regex_new(self.path) {
            Ok(re) => regex_groups(re, path),
            Err(_) => None,
        }
    }

    /// Whether the rule matches a path.
    pub open spec fn matches_path(self, path: Seq<char>) -> bool {
        match self.match_type {
            MatchType::Exact => self.path == path,
            MatchType::Regex => self.groups(path) is Some,
            MatchType::Prefix => self.prefix_text().is_prefix_of(path),
        }
    }

    /// What a match of the rule captures: the groups of an expression that took
    /// part, but for the whole match.
    pub open spec fn captures(self, path: Seq<char>) -> Option<Seq<Seq<char>>> {
        match self.match_type {
            MatchType::Regex => match self.groups(path) {
                Some(groups) => captured(groups),
                None => None,
            },
            _ => None,
        }
    }

    /// The rule as a candidate for a path.
    pub open spec fn candidate(self, path: Seq<char>) -> CandidateView {
        CandidateView {
            upstream: self.upstream,
            route_id: self.route_id,
            captures: self.captures(path),
            canary: self.canary,
        }
    }
}

/// The groups that took part in a match, in order.
pub open spec fn present(groups: Seq<Option<Seq<char>>>) -> Seq<Seq<char>>
    decreases groups.len(),
{
    if groups.len() == 0 {
        Seq::empty()
    } else {
        match groups.last() {
            Some(g) => present(groups.drop_last()).push(g),
            None => present(groups.drop_last()),
        }
    }
}

/// The groups that took part in a match, but for the whole match; `None` where
/// there are none.
pub open spec fn captured(groups: Seq<Option<Seq<char>>>) -> Option<Seq<Seq<char>>> {
    let found = present(groups.skip(1));
    if found.len() == 0 {
        None
    } else {
        Some(found)
    }
}

/// A rule that matches a path.
#[verifier::ext_equal]
pub struct CandidateView {
    pub upstream: Seq<char>,
    pub route_id: Seq<char>,
    pub captures: Option<Seq<Seq<char>>>,
    pub canary: Option<CanaryView>,
}

impl CandidateView {
    /// The candidate as the route taken.
    pub open spec fn chosen(self) -> MatchView {
        MatchView { upstream: self.upstream, route_id: self.route_id, captures: self.captures }
    }
}

/// The route that a request takes.
#[verifier::ext_equal]
pub struct MatchView {
    pub upstream: Seq<char>,
    pub route_id: Seq<char>,
    pub captures: Option<Seq<Seq<char>>>,
}

/// What a request carries that can decide between versions.
#[verifier::ext_equal]
pub struct ContextView {
    pub headers: Seq<(Seq<char>, Seq<char>)>,
    pub cookies: Seq<(Seq<char>, Seq<char>)>,
    pub query_params: Seq<(Seq<char>, Seq<char>)>,
    pub client_ip: Option<Seq<char>>,
}

/// Why a rule cannot be added.
pub enum RouterErrorView {
    InvalidRegex { pattern: Seq<char>, source: regex::Error },
    DuplicateRouteId { route_id: Seq<char> },
    InvalidMatchType { value: Seq<char> },
}

impl RouterErrorView {
    /// The message of the error.
    pub open spec fn text(self) -> Seq<char> {
        match self {
            RouterErrorView::InvalidRegex { pattern, source } => "正则表达式 '"@ + pattern
                + "' 编译失败: "@ + regex_error_message(source),
            RouterErrorView::DuplicateRouteId { route_id } => "route_id '"@ + route_id
                + "' 已存在"@,
            RouterErrorView::InvalidMatchType { value } => "无效的匹配类型 '"@ + value
                + "', 可选: exact, prefix, regex"@,
        }
    }
}

// ---- lists of rules ----

/// Where the rule with the given id stands, or the number of rules.
pub open spec fn id_position(rules: Seq<RuleView>, id: Seq<char>) -> nat
    decreases rules.len(),
{
    if rules.len() == 0 || rules[0].route_id == id {
        0
    } else {
        1 + id_position(rules.skip(1), id)
    }
}

/// The rule with the given id.
pub open spec fn rule_named(rules: Seq<RuleView>, id: Seq<char>) -> Option<RuleView> {
    let at = id_position(rules, id) as int;
    if at < rules.len() {
        Some(rules[at])
    } else {
        None
    }
}

/// The rules without the one with the given id.
pub open spec fn without_rule(rules: Seq<RuleView>, id: Seq<char>) -> Seq<RuleView> {
    let at = id_position(rules, id) as int;
    if at < rules.len() {
        rules.remove(at)
    } else {
        rules
    }
}

/// Whether no two rules have the same id.
pub open spec fn distinct_rules(rules: Seq<RuleView>) -> bool {
    forall|i: int, j: int|
        0 <= i < j < rules.len() ==> #[trigger] rules[i].route_id != #[trigger] rules[j].route_id
}

/// Whether no rule of one list has the id of a rule of the other.
pub open spec fn disjoint_rules(a: Seq<RuleView>, b: Seq<RuleView>) -> bool {
    forall|i: int, j: int|
        0 <= i < a.len() && 0 <= j < b.len() ==> #[trigger] a[i].route_id
            != #[trigger] b[j].route_id
}

/// Whether every rule is of the given kind.
pub open spec fn all_of(rules: Seq<RuleView>, kind: MatchType) -> bool {
    forall|i: int| 0 <= i < rules.len() ==> (#[trigger] rules[i]).match_type == kind
}

/// Whether longer prefixes come before shorter ones.
pub open spec fn longest_first(rules: Seq<RuleView>) -> bool {
    forall|i: int, j: int|
        0 <= i < j < rules.len() ==> (#[trigger] rules[i]).prefix_len() >= (
        #[trigger] rules[j]).prefix_len()
}

/// The place of a new prefix of `len` bytes: behind all that are as long or longer.
pub open spec fn prefix_place(rules: Seq<RuleView>, len: nat) -> nat
    decreases rules.len(),
{
    if rules.len() == 0 || rules[0].prefix_len() < len {
        0
    } else {
        1 + prefix_place(rules.skip(1), len)
    }
}

/// Whether two rules stand for the same paths: they are of the same kind and have the same
/// pattern. Such rules are the versions of one route.
pub open spec fn alike(a: RuleView, b: RuleView) -> bool {
    a.match_type == b.match_type && a.pattern() == b.pattern()
}

/// The rules of a list that are alike to the given one, as candidates for a path, in order.
pub open spec fn candidates_of(rules: Seq<RuleView>, lead: RuleView, path: Seq<char>) -> Seq<
    CandidateView,
>
    decreases rules.len(),
{
    if rules.len() == 0 {
        Seq::empty()
    } else if alike(rules.last(), lead) {
        candidates_of(rules.drop_last(), lead, path).push(rules.last().candidate(path))
    } else {
        candidates_of(rules.drop_last(), lead, path)
    }
}

/// The place of the first rule that matches a path, or the number of rules.
pub open spec fn first_match(rules: Seq<RuleView>, path: Seq<char>) -> nat
    decreases rules.len(),
{
    if rules.len() == 0 || rules[0].matches_path(path) {
        0
    } else {
        1 + first_match(rules.skip(1), path)
    }
}

// ---- routing tables ----

/// A routing table: exact rules and regex rules in the order in which they were
/// added, prefix rules with the longest prefix first.
#[verifier::ext_equal]
pub struct RouterView {
    pub exact: Seq<RuleView>,
    pub regex: Seq<RuleView>,
    pub prefix: Seq<RuleView>,
}

impl RouterView {
    /// The table without rules.
    pub open spec fn empty() -> RouterView {
        RouterView { exact: Seq::empty(), regex: Seq::empty(), prefix: Seq::empty() }
    }

    /// All rules, in the order in which they are tried.
    pub open spec fn rules(self) -> Seq<RuleView> {
        self.exact + self.regex + self.prefix
    }

    /// The rule with the given id.
    pub open spec fn find(self, id: Seq<char>) -> Option<RuleView> {
        match rule_named(self.exact, id) {
            Some(rule) => Some(rule),
            None => match rule_named(self.regex, id) {
                Some(rule) => Some(rule),
                None => rule_named(self.prefix, id),
            },
        }
    }

    /// What holds of every routing table: each rule stands where its kind belongs,
    /// no id is used twice, every expression compiles, longer prefixes come first.
    pub open spec fn valid(self) -> bool {
        &&& all_of(self.exact, MatchType::Exact)
        &&& all_of(self.regex, MatchType::Regex)
        &&& all_of(self.prefix, MatchType::Prefix)
        &&& distinct_rules(self.exact)
        &&& distinct_rules(self.regex)
        &&& distinct_rules(self.prefix)
        &&& disjoint_rules(self.exact, self.regex)
        &&& disjoint_rules(self.exact, self.prefix)
        &&& disjoint_rules(self.regex, self.prefix)
        &&& longest_first(self.prefix)
        &&& forall|i: int|
            0 <= i < self.regex.len() ==> regex_new((#[trigger] self.regex[i]).path) is Ok
    }

    /// The table with one more rule, or why it cannot be added.
    pub open spec fn add(self, rule: RuleView) -> Result<RouterView, RouterErrorView> {
        if self.find(rule.route_id) is Some {
            Err(RouterErrorView::DuplicateRouteId { route_id: rule.route_id })
        } else {
            match rule.match_type {
                MatchType::Exact => Ok(RouterView { exact: self.exact.push(rule), ..self }),
                MatchType::Regex => match regex_new(rule.path) {
                    Ok(_) => Ok(RouterView { regex: self.regex.push(rule), ..self }),
                    Err(source) => Err(
                        RouterErrorView::InvalidRegex { pattern: rule.path, source },
                    ),
                },
                MatchType::Prefix => Ok(
                    RouterView {
                        prefix: self.prefix.insert(
                            prefix_place(self.prefix, rule.prefix_len()) as int,
                            rule,
                        ),
                        ..self
                    },
                ),
            }
        }
    }

    /// The table without the rule with the given id.
    pub open spec fn remove(self, id: Seq<char>) -> RouterView {
        RouterView {
            exact: without_rule(self.exact, id),
            regex: without_rule(self.regex, id),
            prefix: without_rule(self.prefix, id),
        }
    }

    /// The rule that comes first for a path: exact rules come before expressions in the
    /// order in which they were added, and expressions before prefixes, the longest first.
    pub open spec fn lead(self, path: Seq<char>) -> Option<RuleView> {
        let k = first_match(self.rules(), path) as int;
        if k < self.rules().len() {
            Some(self.rules()[k])
        } else {
            None
        }
    }

    /// The versions of the route that comes first for a path.
    pub open spec fn candidates(self, path: Seq<char>) -> Seq<CandidateView> {
        match self.lead(path) {
            Some(lead) => candidates_of(self.rules(), lead, path),
            None => Seq::empty(),
        }
    }

    /// The route that a request for `path` takes, where `value` decides by weight.
    pub open spec fn route(self, path: Seq<char>, ctx: ContextView, value: u8) -> Option<MatchView> {
        match choice(self.candidates(path), ctx, value) {
            Some(i) => Some(self.candidates(path)[i].chosen()),
            None => None,
        }
    }
}

// ---- the choice between candidates ----

/// The first place where `p` holds, or the number of candidates.
pub open spec fn first_where(
    cands: Seq<CandidateView>,
    p: spec_fn(CandidateView) -> bool,
) -> nat
    decreases cands.len(),
{
    if cands.len() == 0 || p(cands[0]) {
        0
    } else {
        1 + first_where(cands.skip(1), p)
    }
}

/// Whether a request carries what a canary rule asks for.
pub open spec fn rule_met(rule: CanaryRuleView, ctx: ContextView) -> bool {
    let found = match rule.match_type {
        CanaryMatchType::Header => entry_of(ctx.headers, rule.key),
        CanaryMatchType::Cookie => entry_of(ctx.cookies, rule.key),
        CanaryMatchType::Query => entry_of(ctx.query_params, rule.key),
    };
    found == Some(rule.value)
}

/// Whether a request meets one of the rules of a canary release.
pub open spec fn conditions_met(canary: CanaryView, ctx: ContextView) -> bool {
    exists|i: int|
        0 <= i < canary.match_rules.len() && rule_met(#[trigger] canary.match_rules[i], ctx)
}

/// The candidates whose conditions a request meets.
pub open spec fn by_condition(ctx: ContextView) -> spec_fn(CandidateView) -> bool {
    |c: CandidateView| c.canary matches Some(canary) && conditions_met(canary, ctx)
}

/// The candidates that keep clients by cookie.
pub open spec fn by_cookie() -> spec_fn(CandidateView) -> bool {
    |c: CandidateView| c.canary matches Some(canary) && canary.stick == Some(StickyStrategy::Cookie)
}

/// The candidates that keep clients by address.
pub open spec fn by_ip_hash() -> spec_fn(CandidateView) -> bool {
    |c: CandidateView| c.canary matches Some(canary) && canary.stick == Some(StickyStrategy::IpHash)
}

/// The candidates with the given route id.
pub open spec fn by_id(id: Seq<char>) -> spec_fn(CandidateView) -> bool {
    |c: CandidateView| c.route_id == id
}

/// The candidates without a canary release.
pub open spec fn by_no_canary() -> spec_fn(CandidateView) -> bool {
    |c: CandidateView| c.canary is None
}

/// The name of the cookie of a canary release.
pub open spec fn cookie_name(canary: CanaryView) -> Seq<char> {
    match canary.sticky_cookie {
        Some(cookie) => cookie.name,
        None => "kirin_canary"@,
    }
}

/// The candidate that the cookie of a request names, if any; the cookie is that of
/// the first candidate that keeps clients by cookie.
pub open spec fn cookie_choice(cands: Seq<CandidateView>, ctx: ContextView) -> Option<int> {
    let keeper = first_where(cands, by_cookie()) as int;
    if keeper < cands.len() {
        match cands[keeper].canary {
            Some(canary) => match entry_of(ctx.cookies, cookie_name(canary)) {
                Some(id) => {
                    let at = first_where(cands, by_id(id)) as int;
                    if at < cands.len() {
                        Some(at)
                    } else {
                        None
                    }
                },
                None => None,
            },
            None => None,
        }
    } else {
        None
    }
}

/// The weight of a candidate; nothing without a canary release.
pub open spec fn weight_of(c: CandidateView) -> nat {
    match c.canary {
        Some(canary) => canary.weight as nat,
        None => 0,
    }
}

/// A sum of weights, cut off at the largest `u8`.
pub open spec fn cut_off(sum: nat) -> nat {
    if sum < 255 {
        sum
    } else {
        255
    }
}

/// The first canary candidate whose weight, added to those before it and to
/// `before`, exceeds `value`; the number of candidates if there is none.
pub open spec fn weight_choice(cands: Seq<CandidateView>, value: u8, before: nat) -> nat
    decreases cands.len(),
{
    if cands.len() == 0 || (cands[0].canary is Some && value < cut_off(
        before + weight_of(cands[0]),
    )) {
        0
    } else {
        1 + weight_choice(cands.skip(1), value, before + weight_of(cands[0]))
    }
}

/// Which of the candidates a request takes. A single candidate is taken as it is.
/// Of several, the first whose conditions are met; else the one that the sticky
/// cookie names; else the one to which `value` falls by weight; else the first
/// without a canary release.
pub open spec fn choice(cands: Seq<CandidateView>, ctx: ContextView, value: u8) -> Option<int> {
    let condition = first_where(cands, by_condition(ctx)) as int;
    let weight = weight_choice(cands, value, 0) as int;
    let plain = first_where(cands, by_no_canary()) as int;
    if cands.len() == 0 {
        None
    } else if cands.len() == 1 {
        Some(0)
    } else if condition < cands.len() {
        Some(condition)
    } else if cookie_choice(cands, ctx) is Some {
        cookie_choice(cands, ctx)
    } else if weight < cands.len() {
        Some(weight)
    } else if plain < cands.len() {
        Some(plain)
    } else {
        None
    }
}

/// The value of a client address: its hash, in percent.
pub open spec fn ip_value(ip: Seq<char>) -> u8 {
    (DefaultHasher::spec_finish(text_hash_input(ip)) % 100) as u8
}

/// Whether the address of the client decides by weight: some candidate keeps
/// clients by address, and the address is known.
pub open spec fn ip_decides(cands: Seq<CandidateView>, ctx: ContextView) -> bool {
    first_where(cands, by_ip_hash()) < cands.len() && ctx.client_ip is Some
}

/// The value, in percent, that is taken from the nanoseconds of a clock: they count in
/// steps of 128.
pub open spec fn clock_value(nanos: u32) -> u8 {
    ((nanos / 128) % 100) as u8
}

/// Whether `value` may decide by weight: that of the client address where the
/// address decides, and that of a reading of the wall clock otherwise.
pub open spec fn fair_value(cands: Seq<CandidateView>, ctx: ContextView, value: u8) -> bool {
    &&& value < 100
    &&& ip_decides(cands, ctx) ==> value == ip_value(ctx.client_ip->0)
    &&& !ip_decides(cands, ctx) ==> exists|span: Duration|
        #[trigger] wall_reading(span) && value == clock_value(duration_nanos(span))
}

// ---- lemmas ----

pub proof fn lemma_first_match(rules: Seq<RuleView>, path: Seq<char>)
    ensures
        first_match(rules, path) <= rules.len(),
        first_match(rules, path) < rules.len() ==> rules[first_match(
            rules,
            path,
        ) as int].matches_path(path),
        forall|i: int|
            0 <= i < first_match(rules, path) ==> !(#[trigger] rules[i]).matches_path(path),
    decreases rules.len(),
{
    if rules.len() > 0 && !rules[0].matches_path(path) {
        lemma_first_match(rules.skip(1), path);
        assert forall|i: int| 0 <= i < first_match(rules, path) implies !(
        #[trigger] rules[i]).matches_path(path) by {
            if i > 0 {
                assert(rules[i] == rules.skip(1)[i - 1]);
            }
        }
    }
}

pub proof fn lemma_first_match_is(rules: Seq<RuleView>, path: Seq<char>, k: int)
    requires
        0 <= k <= rules.len(),
        forall|i: int| 0 <= i < k ==> !(#[trigger] rules[i]).matches_path(path),
        k < rules.len() ==> rules[k].matches_path(path),
    ensures
        first_match(rules, path) == k,
{
    lemma_first_match(rules, path);
    let m = first_match(rules, path) as int;
    if m < k {
        assert(!rules[m].matches_path(path));
    }
}

/// Rules that are alike match the same paths.
pub proof fn lemma_alike(a: RuleView, b: RuleView, path: Seq<char>)
    requires
        alike(a, b),
    ensures
        a.matches_path(path) == b.matches_path(path),
        a.captures(path) == b.captures(path),
{
}

/// The candidates of two lists, one behind the other.
proof fn lemma_candidates_of_both(
    a: Seq<RuleView>,
    b: Seq<RuleView>,
    lead: RuleView,
    path: Seq<char>,
)
    ensures
        candidates_of(a + b, lead, path) == candidates_of(a, lead, path) + candidates_of(
            b,
            lead,
            path,
        ),
    decreases b.len(),
{
    if b.len() == 0 {
        assert(a + b =~= a);
        assert(candidates_of(a, lead, path) + candidates_of(b, lead, path) =~= candidates_of(
            a,
            lead,
            path,
        ));
    } else {
        lemma_candidates_of_both(a, b.drop_last(), lead, path);
        assert((a + b).drop_last() =~= a + b.drop_last());
        assert((a + b).last() == b.last());
        assert(candidates_of(a + b, lead, path) =~= candidates_of(a, lead, path)
            + candidates_of(b, lead, path));
    }
}

/// A list of rules of another kind holds no candidate.
proof fn lemma_no_candidate(rules: Seq<RuleView>, kind: MatchType, lead: RuleView, path: Seq<char>)
    requires
        all_of(rules, kind),
        lead.match_type != kind,
    ensures
        candidates_of(rules, lead, path).len() == 0,
    decreases rules.len(),
{
    if rules.len() > 0 {
        let front = rules.drop_last();
        assert forall|i: int| 0 <= i < front.len() implies (#[trigger] front[i]).match_type
            == kind by {
            assert(front[i] == rules[i]);
        }
        assert(rules[rules.len() - 1].match_type == kind);
        lemma_no_candidate(front, kind, lead, path);
    }
}

/// The candidates all stand in the part of the table that holds their kind, and the rule
/// that comes first is the first that matches in the first part with a match.
pub proof fn lemma_candidates(router: RouterView, path: Seq<char>)
    requires
        router.valid(),
    ensures
        ({
            let i = first_match(router.exact, path) as int;
            let j = first_match(router.regex, path) as int;
            let k = first_match(router.prefix, path) as int;
            if i < router.exact.len() {
                router.lead(path) == Some(router.exact[i]) && router.candidates(path)
                    == candidates_of(router.exact, router.exact[i], path)
            } else if j < router.regex.len() {
                router.lead(path) == Some(router.regex[j]) && router.candidates(path)
                    == candidates_of(router.regex, router.regex[j], path)
            } else if k < router.prefix.len() {
                router.lead(path) == Some(router.prefix[k]) && router.candidates(path)
                    == candidates_of(router.prefix, router.prefix[k], path)
            } else {
                router.lead(path) is None && router.candidates(path).len() == 0
            }
        }),
{
    let rules = router.rules();
    let n = router.exact.len() as int;
    let m = router.regex.len() as int;
    let i = first_match(router.exact, path) as int;
    let j = first_match(router.regex, path) as int;
    let k = first_match(router.prefix, path) as int;
    lemma_first_match(router.exact, path);
    lemma_first_match(router.regex, path);
    lemma_first_match(router.prefix, path);
    let at = if i < n {
        i
    } else if j < m {
        n + j
    } else {
        n + m + k
    };
    assert forall|x: int| 0 <= x < at implies !(#[trigger] rules[x]).matches_path(path) by {
        if x < n {
            assert(rules[x] == router.exact[x]);
        } else if x < n + m {
            assert(rules[x] == router.regex[x - n]);
        } else {
            assert(rules[x] == router.prefix[x - n - m]);
        }
    }
    lemma_first_match_is(rules, path, at);
    if at < rules.len() {
        let lead = rules[at];
        lemma_candidates_of_both(router.exact, router.regex, lead, path);
        lemma_candidates_of_both(router.exact + router.regex, router.prefix, lead, path);
        if at < n {
            assert(lead == router.exact[i]);
            lemma_no_candidate(router.regex, MatchType::Regex, lead, path);
            lemma_no_candidate(router.prefix, MatchType::Prefix, lead, path);
            assert(router.candidates(path) =~= candidates_of(router.exact, lead, path));
        } else if at < n + m {
            assert(lead == router.regex[j]);
            lemma_no_candidate(router.exact, MatchType::Exact, lead, path);
            lemma_no_candidate(router.prefix, MatchType::Prefix, lead, path);
            assert(router.candidates(path) =~= candidates_of(router.regex, lead, path));
        } else {
            assert(lead == router.prefix[k]);
            lemma_no_candidate(router.exact, MatchType::Exact, lead, path);
            lemma_no_candidate(router.regex, MatchType::Regex, lead, path);
            assert(router.candidates(path) =~= candidates_of(router.prefix, lead, path));
        }
    }
}

pub proof fn lemma_id_position(rules: Seq<RuleView>, id: Seq<char>)
    ensures
        id_position(rules, id) <= rules.len(),
        id_position(rules, id) < rules.len() ==> rules[id_position(rules, id) as int].route_id == id,
        forall|i: int| 0 <= i < id_position(rules, id) ==> #[trigger] rules[i].route_id != id,
    decreases rules.len(),
{
    if rules.len() > 0 && rules[0].route_id != id {
        lemma_id_position(rules.skip(1), id);
        assert forall|i: int| 0 <= i < id_position(rules, id) implies #[trigger] rules[i].route_id
            != id by {
            if i > 0 {
                assert(rules[i] == rules.skip(1)[i - 1]);
            }
        }
    }
}

pub proof fn lemma_id_position_is(rules: Seq<RuleView>, id: Seq<char>, at: int)
    requires
        0 <= at <= rules.len(),
        forall|i: int| 0 <= i < at ==> #[trigger] rules[i].route_id != id,
        at < rules.len() ==> rules[at].route_id == id,
    ensures
        id_position(rules, id) == at,
{
    lemma_id_position(rules, id);
    let p = id_position(rules, id) as int;
    if p < at {
        assert(rules[p].route_id != id);
    }
    if at < p {
        assert(rules[at].route_id != id);
    }
}

pub proof fn lemma_prefix_place(rules: Seq<RuleView>, len: nat)
    ensures
        prefix_place(rules, len) <= rules.len(),
        prefix_place(rules, len) < rules.len() ==> rules[prefix_place(rules, len) as int].prefix_len()
            < len,
        forall|i: int|
            0 <= i < prefix_place(rules, len) ==> (#[trigger] rules[i]).prefix_len() >= len,
    decreases rules.len(),
{
    if rules.len() > 0 && rules[0].prefix_len() >= len {
        lemma_prefix_place(rules.skip(1), len);
        assert forall|i: int| 0 <= i < prefix_place(rules, len) implies (
        #[trigger] rules[i]).prefix_len() >= len by {
            if i > 0 {
                assert(rules[i] == rules.skip(1)[i - 1]);
            }
        }
    }
}

pub proof fn lemma_prefix_place_is(rules: Seq<RuleView>, len: nat, at: int)
    requires
        0 <= at <= rules.len(),
        forall|i: int| 0 <= i < at ==> (#[trigger] rules[i]).prefix_len() >= len,
        at < rules.len() ==> rules[at].prefix_len() < len,
    ensures
        prefix_place(rules, len) == at,
{
    lemma_prefix_place(rules, len);
    let p = prefix_place(rules, len) as int;
    if p < at {
        assert(rules[p].prefix_len() >= len);
    }
    if at < p {
        assert(rules[at].prefix_len() >= len);
    }
}

pub proof fn lemma_first_where(cands: Seq<CandidateView>, p: spec_fn(CandidateView) -> bool)
    ensures
        first_where(cands, p) <= cands.len(),
        first_where(cands, p) < cands.len() ==> p(cands[first_where(cands, p) as int]),
        forall|i: int| 0 <= i < first_where(cands, p) ==> !p(#[trigger] cands[i]),
    decreases cands.len(),
{
    if cands.len() > 0 && !p(cands[0]) {
        lemma_first_where(cands.skip(1), p);
        assert forall|i: int| 0 <= i < first_where(cands, p) implies !p(#[trigger] cands[i]) by {
            if i > 0 {
                assert(cands[i] == cands.skip(1)[i - 1]);
            }
        }
    }
}

pub proof fn lemma_first_where_is(
    cands: Seq<CandidateView>,
    p: spec_fn(CandidateView) -> bool,
    at: int,
)
    requires
        0 <= at <= cands.len(),
        forall|i: int| 0 <= i < at ==> !p(#[trigger] cands[i]),
        at < cands.len() ==> p(cands[at]),
    ensures
        first_where(cands, p) == at,
{
    lemma_first_where(cands, p);
    let f = first_where(cands, p) as int;
    if f < at {
        assert(!p(cands[f]));
    }
    if at < f {
        assert(!p(cands[at]));
    }
}

pub proof fn lemma_absent(rules: Seq<RuleView>, id: Seq<char>)
    ensures
        rule_named(rules, id) is None <==> forall|i: int|
            0 <= i < rules.len() ==> #[trigger] rules[i].route_id != id,
        rule_named(rules, id) is None ==> without_rule(rules, id) == rules,
{
    lemma_id_position(rules, id);
    if forall|i: int| 0 <= i < rules.len() ==> #[trigger] rules[i].route_id != id {
        lemma_id_position_is(rules, id, rules.len() as int);
    }
}

/// Where each element of a list with an inserted element comes from.
proof fn lemma_inserted(rules: Seq<RuleView>, at: int, rule: RuleView)
    requires
        0 <= at <= rules.len(),
    ensures
        rules.insert(at, rule).len() == rules.len() + 1,
        forall|i: int|
            #![trigger rules.insert(at, rule)[i]]
            0 <= i <= rules.len() ==> rules.insert(at, rule)[i] == if i < at {
                rules[i]
            } else if i == at {
                rule
            } else {
                rules[i - 1]
            },
{
}

pub proof fn lemma_added_is_valid(router: RouterView, rule: RuleView)
    requires
        router.valid(),
    ensures
        router.add(rule) matches Ok(added) ==> added.valid(),
{
    lemma_absent(router.exact, rule.route_id);
    lemma_absent(router.regex, rule.route_id);
    lemma_absent(router.prefix, rule.route_id);
    if let Ok(added) = router.add(rule) {
        let at = prefix_place(router.prefix, rule.prefix_len()) as int;
        lemma_prefix_place(router.prefix, rule.prefix_len());
        lemma_inserted(router.prefix, at, rule);
        if rule.match_type == MatchType::Prefix {
            let p = added.prefix;
            assert forall|i: int, j: int| 0 <= i < j < p.len() implies #[trigger] p[i].route_id
                != #[trigger] p[j].route_id by {
                let i2 = if i < at { i } else { i - 1 };
                let j2 = if j < at { j } else { j - 1 };
                if i != at && j != at {
                    assert(router.prefix[i2].route_id != router.prefix[j2].route_id);
                }
            }
            assert forall|i: int, j: int| 0 <= i < j < p.len() implies (
            #[trigger] p[i]).prefix_len() >= (#[trigger] p[j]).prefix_len() by {
                let i2 = if i < at { i } else { i - 1 };
                let j2 = if j < at { j } else { j - 1 };
                if i != at && j != at {
                    assert(router.prefix[i2].prefix_len() >= router.prefix[j2].prefix_len());
                } else if i == at {
                    assert(router.prefix[at].prefix_len() >= router.prefix[j2].prefix_len());
                }
            }
        }
    }
}

pub proof fn lemma_removed_is_valid(router: RouterView, id: Seq<char>)
    requires
        router.valid(),
    ensures
        router.remove(id).valid(),
{
    lemma_without_rule(router.exact, id);
    lemma_without_rule(router.regex, id);
    lemma_without_rule(router.prefix, id);
}

/// What remains of a list when a rule is taken out of it.
pub proof fn lemma_without_rule(rules: Seq<RuleView>, id: Seq<char>)
    requires
        distinct_rules(rules),
    ensures
        distinct_rules(without_rule(rules, id)),
        longest_first(rules) ==> longest_first(without_rule(rules, id)),
        forall|i: int|
            0 <= i < without_rule(rules, id).len() ==> #[trigger] without_rule(
                rules,
                id,
            )[i].route_id != id,
        forall|i: int|
            0 <= i < without_rule(rules, id).len() ==> rules.contains(
                #[trigger] without_rule(rules, id)[i],
            ),
{
    lemma_id_position(rules, id);
    let at = id_position(rules, id) as int;
    let rest = without_rule(rules, id);
    assert forall|i: int| 0 <= i < rest.len() implies #[trigger] rest[i] == rules[if i < at {
        i
    } else {
        i + 1
    }] by {}
    assert forall|i: int| 0 <= i < rest.len() implies #[trigger] rest[i].route_id != id by {
        if i >= at {
            assert(rules[at].route_id != rules[i + 1].route_id);
        }
    }
}

} // verus!
