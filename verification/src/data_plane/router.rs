//! The router: from request paths to upstream clusters, with canary releases.
use crate::clock::{read_wall_clock, wall_reading};
use crate::config::types::{
    copy_canary, default_cookie_name, opt_texts, CanaryConfig, CanaryMatchType, StickyStrategy,
};
use crate::control_plane::admin_api::dto::{rule_summary, RouteDTO};
use crate::data_plane::ip::IpNet;
use crate::model::{map_views, opt_list, opt_view, views};
use crate::outside::{
    compile_regex, duration_nanos, group_texts, hash_text, regex_captures, regex_error_text,
    regex_is_match, regex_new,
};
use crate::str_map::{entry_of, lemma_map_views, StrMap};
use crate::text::{copy_texts, join3, opt_text, same_text, starts_with, texts};
use regex::Regex;
use std::collections::hash_map::DefaultHasher;
use std::hash::Hasher;
use std::time::Duration;
use vstd::prelude::*;

pub mod choice_laws;
pub mod laws;
pub mod model;
pub mod router_white_list;

verus! {

/// How a rule matches paths.
#[derive(Clone, Copy, Debug, PartialEq, Eq, Structural)]
pub enum MatchType {
    /// The path itself.
    Exact,
    /// The paths that begin with a prefix.
    Prefix,
    /// The paths in which a regular expression matches.
    Regex,
}

/// The route that a request takes.
#[derive(Debug)]
pub struct RouteMatch {
    /// Name of the upstream cluster.
    pub upstream: String,
    /// Id of the route.
    pub route_id: String,
    /// Groups of the regular expression, where the route has one.
    pub captures: Option<Vec<String>>,
}

impl View for RouteMatch {
    type V = model::MatchView;

    open spec fn view(&self) -> model::MatchView {
        model::MatchView {
            upstream: self.upstream@,
            route_id: self.route_id@,
            captures: opt_texts(self.captures),
        }
    }
}

/// Why a rule cannot be added.
#[derive(Debug)]
pub enum RouterErrorBuilder {
    /// The regular expression does not compile.
    InvalidRegex { pattern: String, source: regex::Error },
    /// The id is in use.
    DuplicateRouteId { route_id: String },
    /// There is no such match type.
    InvalidMatchType { value: String },
}

impl View for RouterErrorBuilder {
    type V = model::RouterErrorView;

    open spec fn view(&self) -> model::RouterErrorView {
        match *self {
            RouterErrorBuilder::InvalidRegex { pattern, source } => {
                model::RouterErrorView::InvalidRegex { pattern: pattern@, source }
            },
            RouterErrorBuilder::DuplicateRouteId { route_id } => {
                model::RouterErrorView::DuplicateRouteId { route_id: route_id@ }
            },
            RouterErrorBuilder::InvalidMatchType { value } => {
                model::RouterErrorView::InvalidMatchType { value: value@ }
            },
        }
    }
}

impl RouterErrorBuilder {
    /// The message of the error.
    pub fn to_text(&self) -> (r: String)
        ensures
            r@ == self@.text(),
    {
        match self {
            RouterErrorBuilder::InvalidRegex { pattern, source } => {
                let mut r = join3("正则表达式 '", pattern.as_str(), "' 编译失败: ");
                r.append(regex_error_text(source).as_str());
                r
            },
            RouterErrorBuilder::DuplicateRouteId { route_id } => {
                join3("route_id '", route_id.as_str(), "' 已存在")
            },
            RouterErrorBuilder::InvalidMatchType { value } => join3(
                "无效的匹配类型 '",
                value.as_str(),
                "', 可选: exact, prefix, regex",
            ),
        }
    }
}

/// A routing rule.
pub struct RouteRule {
    /// Unique name of the rule.
    pub route_id: String,
    /// How it matches paths.
    pub match_type: MatchType,
    /// The path of an exact rule, the pattern of a regex rule.
    pub path: String,
    /// The prefix of a prefix rule; its path where there is none.
    pub prefix: Option<String>,
    /// Allowed HTTP methods; every method when empty.
    pub methods: Vec<String>,
    /// Name of the upstream cluster.
    pub upstream: String,
    /// Canary release, if any.
    pub canary: Option<CanaryConfig>,
    /// Only addresses of these blocks may use the route.
    pub ip_whitelist: Option<Vec<IpNet>>,
    /// Addresses of these blocks may not use the route.
    pub ip_blacklist: Option<Vec<IpNet>>,
}

impl View for RouteRule {
    type V = model::RuleView;

    open spec fn view(&self) -> model::RuleView {
        model::RuleView {
            route_id: self.route_id@,
            match_type: self.match_type,
            path: self.path@,
            prefix: opt_text(self.prefix),
            methods: texts(self.methods@),
            upstream: self.upstream@,
            canary: opt_view(self.canary),
            ip_whitelist: opt_list(self.ip_whitelist),
            ip_blacklist: opt_list(self.ip_blacklist),
        }
    }
}

/// The address lists of a route.
pub struct RouteRuleInfo {
    pub ip_whitelist: Option<Vec<IpNet>>,
    pub ip_blacklist: Option<Vec<IpNet>>,
}

/// What a request carries that can decide between versions.
pub struct CanaryContext {
    /// Request headers.
    pub headers: StrMap<String>,
    /// Cookies of the Cookie header.
    pub cookies: StrMap<String>,
    /// Parameters of the query string.
    pub query_params: StrMap<String>,
    /// Address of the client.
    pub client_ip: Option<String>,
}

impl View for CanaryContext {
    type V = model::ContextView;

    open spec fn view(&self) -> model::ContextView {
        model::ContextView {
            headers: map_views(self.headers@),
            cookies: map_views(self.cookies@),
            query_params: map_views(self.query_params@),
            client_ip: opt_text(self.client_ip),
        }
    }
}

impl CanaryContext {
    /// A request that carries nothing.
    pub fn empty() -> (r: Self)
        ensures
            r@ == (model::ContextView {
                headers: Seq::empty(),
                cookies: Seq::empty(),
                query_params: Seq::empty(),
                client_ip: None,
            }),
    {
        let r = CanaryContext {
            headers: StrMap::new(),
            cookies: StrMap::new(),
            query_params: StrMap::new(),
            client_ip: None,
        };
        assert(r@.headers =~= Seq::empty());
        assert(r@.cookies =~= Seq::empty());
        assert(r@.query_params =~= Seq::empty());
        r
    }
}

/// A rule that matches the path of a request.
pub struct RouteCandidate {
    /// Name of the upstream cluster.
    pub upstream: String,
    /// Id of the route.
    pub route_id: String,
    /// Groups of the regular expression, where the route has one.
    pub captures: Option<Vec<String>>,
    /// Canary release, if any.
    pub canary: Option<CanaryConfig>,
}

impl View for RouteCandidate {
    type V = model::CandidateView;

    open spec fn view(&self) -> model::CandidateView {
        model::CandidateView {
            upstream: self.upstream@,
            route_id: self.route_id@,
            captures: opt_texts(self.captures),
            canary: opt_view(self.canary),
        }
    }
}

/// The routing table; it maps paths to names of clusters and holds no cluster.
pub struct Router {
    exact_routes: Vec<RouteRule>,
    regex_routes: Vec<(Regex, RouteRule)>,
    prefix_routes: Vec<RouteRule>,
}

spec fn regex_rules(table: Seq<(Regex, RouteRule)>) -> Seq<model::RuleView> {
    table.map_values(|e: (Regex, RouteRule)| e.1@)
}

/// Every expression of the table is compiled from the path of its rule.
spec fn compiled(table: Seq<(Regex, RouteRule)>) -> bool {
    forall|i: int|
        0 <= i < table.len() ==> regex_new((#[trigger] table[i]).1.path@) == Ok::<
            Regex,
            regex::Error,
        >(table[i].0)
}

impl View for Router {
    type V = model::RouterView;

    closed spec fn view(&self) -> model::RouterView {
        model::RouterView {
            exact: views(self.exact_routes@),
            regex: regex_rules(self.regex_routes@),
            prefix: views(self.prefix_routes@),
        }
    }
}

/// Where the rule with the given id stands in a list, or the length of the list.
fn find_id(rules: &Vec<RouteRule>, id: &str) -> (at: usize)
    ensures
        at == model::id_position(views(rules@), id@),
        at <= rules@.len(),
{
    let ghost all = views(rules@);
    let mut i: usize = 0;
    while i < rules.len()
        invariant
            i <= rules@.len(),
            all == views(rules@),
            forall|j: int| 0 <= j < i ==> #[trigger] all[j].route_id != id@,
        decreases rules@.len() - i,
    {
        assert(all[i as int] == rules@[i as int]@);
        if same_text(rules[i].route_id.as_str(), id) {
            proof {
                model::lemma_id_position_is(all, id@, i as int);
            }
            return i;
        }
        i += 1;
    }
    proof {
        model::lemma_id_position_is(all, id@, i as int);
    }
    i
}

/// Where the regex rule with the given id stands, or the number of such rules.
fn find_regex_id(table: &Vec<(Regex, RouteRule)>, id: &str) -> (at: usize)
    ensures
        at == model::id_position(regex_rules(table@), id@),
        at <= table@.len(),
{
    let ghost all = regex_rules(table@);
    let mut i: usize = 0;
    while i < table.len()
        invariant
            i <= table@.len(),
            all == regex_rules(table@),
            forall|j: int| 0 <= j < i ==> #[trigger] all[j].route_id != id@,
        decreases table@.len() - i,
    {
        assert(all[i as int] == table@[i as int].1@);
        if same_text(table[i].1.route_id.as_str(), id) {
            proof {
                model::lemma_id_position_is(all, id@, i as int);
            }
            return i;
        }
        i += 1;
    }
    proof {
        model::lemma_id_position_is(all, id@, i as int);
    }
    i
}

/// The place of a new prefix of `len` bytes.
fn find_prefix_place(rules: &Vec<RouteRule>, len: usize) -> (at: usize)
    ensures
        at == model::prefix_place(views(rules@), len as nat),
        at <= rules@.len(),
{
    let ghost all = views(rules@);
    let mut i: usize = 0;
    while i < rules.len()
        invariant
            i <= rules@.len(),
            all == views(rules@),
            forall|j: int| 0 <= j < i ==> (#[trigger] all[j]).prefix_len() >= len,
        decreases rules@.len() - i,
    {
        assert(all[i as int] == rules@[i as int]@);
        if prefix_of(&rules[i]).as_bytes().len() < len {
            proof {
                model::lemma_prefix_place_is(all, len as nat, i as int);
            }
            return i;
        }
        i += 1;
    }
    proof {
        model::lemma_prefix_place_is(all, len as nat, i as int);
    }
    i
}

/// The prefix of a prefix rule.
fn prefix_of(rule: &RouteRule) -> (r: &str)
    ensures
        r@ == rule@.prefix_text(),
{
    match &rule.prefix {
        Some(p) => p.as_str(),
        None => rule.path.as_str(),
    }
}

/// The groups of a match that took part, but for the whole match.
pub fn captured_groups(groups: &Vec<Option<String>>) -> (r: Option<Vec<String>>)
    requires
        groups@.len() > 0,
    ensures
        opt_texts(r) == model::captured(group_texts(groups@)),
{
    let ghost tail = group_texts(groups@).skip(1);
    let mut found: Vec<String> = Vec::new();
    let mut i: usize = 1;
    assert(texts(found@) =~= model::present(tail.take(0)));
    while i < groups.len()
        invariant
            1 <= i <= groups@.len(),
            tail == group_texts(groups@).skip(1),
            texts(found@) == model::present(tail.take(i - 1)),
        decreases groups@.len() - i,
    {
        proof {
            assert(tail.take(i as int).drop_last() =~= tail.take(i - 1));
            assert(tail.take(i as int).last() == opt_text(groups@[i as int]));
        }
        if let Some(g) = &groups[i] {
            let ghost before = texts(found@);
            found.push(g.clone());
            assert(texts(found@) =~= before.push(g@));
        }
        i += 1;
    }
    assert(tail.take(i - 1) =~= tail);
    if found.len() == 0 {
        assert(texts(found@).len() == 0);
        None
    } else {
        assert(texts(found@).len() > 0);
        Some(found)
    }
}

impl RouteCandidate {
    fn of(rule: &RouteRule, captures: Option<Vec<String>>) -> (r: RouteCandidate)
        ensures
            r@ == (model::CandidateView {
                upstream: rule@.upstream,
                route_id: rule@.route_id,
                captures: opt_texts(captures),
                canary: rule@.canary,
            }),
    {
        RouteCandidate {
            upstream: rule.upstream.clone(),
            route_id: rule.route_id.clone(),
            captures,
            canary: copy_canary(&rule.canary),
        }
    }

    fn into_match(&self) -> (r: RouteMatch)
        ensures
            r@ == self@.chosen(),
    {
        RouteMatch {
            upstream: self.upstream.clone(),
            route_id: self.route_id.clone(),
            captures: match &self.captures {
                Some(c) => Some(copy_texts(c)),
                None => None,
            },
        }
    }
}

/// A copy of an optional list of blocks.
fn copy_blocks(list: &Option<Vec<IpNet>>) -> (r: Option<Vec<IpNet>>)
    ensures
        opt_list(r) == opt_list(*list),
{
    match list {
        None => None,
        Some(l) => {
            let mut copy: Vec<IpNet> = Vec::new();
            let mut i: usize = 0;
            while i < l.len()
                invariant
                    i <= l@.len(),
                    copy@ == l@.take(i as int),
                decreases l@.len() - i,
            {
                copy.push(l[i]);
                assert(l@.take(i + 1) =~= l@.take(i as int).push(l@[i as int]));
                i += 1;
            }
            assert(l@.take(i as int) =~= l@);
            Some(copy)
        },
    }
}

impl Router {
    #[verifier::type_invariant]
    spec fn inv(self) -> bool {
        &&& self@.valid()
        &&& compiled(self.regex_routes@)
    }

    /// A table without rules.
    pub fn new() -> (r: Self)
        ensures
            r@ == model::RouterView::empty(),
            r@.valid(),
    {
        let r = Router {
            exact_routes: Vec::new(),
            regex_routes: Vec::new(),
            prefix_routes: Vec::new(),
        };
        assert(r@ =~= model::RouterView::empty());
        r
    }

    /// Adds a rule. An id that is in use and a pattern that does not compile are
    /// refused, and the table stays as it is.
    pub fn add_route(&mut self, rule: RouteRule) -> (r: Result<(), RouterErrorBuilder>)
        ensures
            match r {
                Ok(_) => old(self)@.add(rule@) == Ok::<model::RouterView, model::RouterErrorView>(
                    final(self)@,
                ),
                Err(e) => old(self)@.add(rule@) == Err::<model::RouterView, model::RouterErrorView>(
                    e@,
                ) && final(self)@ == old(self)@,
            },
            final(self)@.valid(),
    {
        proof {
            use_type_invariant(&*self);
            model::lemma_added_is_valid(self@, rule@);
            model::lemma_id_position(self@.exact, rule.route_id@);
            model::lemma_id_position(self@.regex, rule.route_id@);
            model::lemma_id_position(self@.prefix, rule.route_id@);
        }
        let ghost before = self@;
        let exists = find_id(&self.exact_routes, rule.route_id.as_str()) < self.exact_routes.len()
            || find_regex_id(&self.regex_routes, rule.route_id.as_str()) < self.regex_routes.len()
            || find_id(&self.prefix_routes, rule.route_id.as_str()) < self.prefix_routes.len();
        if exists {
            return Err(
                RouterErrorBuilder::DuplicateRouteId { route_id: rule.route_id.clone() },
            );
        }
        match rule.match_type {
            MatchType::Exact => {
                let mut table: Vec<RouteRule> = Vec::new();
                core::mem::swap(&mut table, &mut self.exact_routes);
                let ghost rows = table@;
                let ghost added = rule@;
                table.push(rule);
                assert(views(table@) =~= views(rows).push(added));
                self.exact_routes = table;
            },
            MatchType::Regex => match compile_regex(rule.path.as_str()) {
                Ok(re) => {
                    let mut table: Vec<(Regex, RouteRule)> = Vec::new();
                    core::mem::swap(&mut table, &mut self.regex_routes);
                    let ghost rows = table@;
                    let ghost added = rule@;
                    table.push((re, rule));
                    assert(regex_rules(table@) =~= regex_rules(rows).push(added));
                    self.regex_routes = table;
                },
                Err(source) => {
                    return Err(
                        RouterErrorBuilder::InvalidRegex { pattern: rule.path.clone(), source },
                    );
                },
            },
            MatchType::Prefix => {
                let len = prefix_of(&rule).as_bytes().len();
                let at = find_prefix_place(&self.prefix_routes, len);
                let mut table: Vec<RouteRule> = Vec::new();
                core::mem::swap(&mut table, &mut self.prefix_routes);
                let ghost rows = table@;
                let ghost added = rule@;
                table.insert(at, rule);
                assert(views(table@) =~= views(rows).insert(at as int, added));
                self.prefix_routes = table;
            },
        }
        Ok(())
    }

    /// Takes out the rule with the given id; tells whether there was one.
    pub fn remove_route(&mut self, route_id: &str) -> (r: bool)
        ensures
            final(self)@ == old(self)@.remove(route_id@),
            r == (old(self)@.find(route_id@) is Some),
            final(self)@.valid(),
    {
        proof {
            use_type_invariant(&*self);
            model::lemma_removed_is_valid(self@, route_id@);
            lemma_named_once(self@, route_id@);
        }
        let at = find_id(&self.exact_routes, route_id);
        if at < self.exact_routes.len() {
            let mut table: Vec<RouteRule> = Vec::new();
            core::mem::swap(&mut table, &mut self.exact_routes);
            let ghost rows = table@;
            let _ = table.remove(at);
            assert(views(table@) =~= views(rows).remove(at as int));
            self.exact_routes = table;
            return true;
        }
        let at = find_regex_id(&self.regex_routes, route_id);
        if at < self.regex_routes.len() {
            let mut table: Vec<(Regex, RouteRule)> = Vec::new();
            core::mem::swap(&mut table, &mut self.regex_routes);
            let ghost rows = table@;
            let _ = table.remove(at);
            assert(regex_rules(table@) =~= regex_rules(rows).remove(at as int));
            self.regex_routes = table;
            return true;
        }
        let at = find_id(&self.prefix_routes, route_id);
        if at < self.prefix_routes.len() {
            let mut table: Vec<RouteRule> = Vec::new();
            core::mem::swap(&mut table, &mut self.prefix_routes);
            let ghost rows = table@;
            let _ = table.remove(at);
            assert(views(table@) =~= views(rows).remove(at as int));
            self.prefix_routes = table;
            return true;
        }
        false
    }

    /// The rule with the given id.
    fn find_rule(&self, route_id: &str) -> (r: Option<&RouteRule>)
        ensures
            match r {
                Some(rule) => self@.find(route_id@) == Some(rule@),
                None => self@.find(route_id@) is None,
            },
            self@.valid(),
    {
        proof {
            use_type_invariant(self);
        }
        let at = find_id(&self.exact_routes, route_id);
        if at < self.exact_routes.len() {
            return Some(&self.exact_routes[at]);
        }
        let at = find_regex_id(&self.regex_routes, route_id);
        if at < self.regex_routes.len() {
            return Some(&self.regex_routes[at].1);
        }
        let at = find_id(&self.prefix_routes, route_id);
        if at < self.prefix_routes.len() {
            return Some(&self.prefix_routes[at]);
        }
        None
    }

    /// The address lists of the route with the given id.
    pub fn find_route_info_by_id(&self, route_id: &str) -> (r: Option<RouteRuleInfo>)
        ensures
            match r {
                Some(info) => self@.find(route_id@) matches Some(rule) && opt_list(info.ip_whitelist)
                    == rule.ip_whitelist && opt_list(info.ip_blacklist) == rule.ip_blacklist,
                None => self@.find(route_id@) is None,
            },
            self@.valid(),
    {
        match self.find_rule(route_id) {
            Some(rule) => Some(
                RouteRuleInfo {
                    ip_whitelist: copy_blocks(&rule.ip_whitelist),
                    ip_blacklist: copy_blocks(&rule.ip_blacklist),
                },
            ),
            None => None,
        }
    }

    /// The canary release of the route with the given id.
    pub fn find_canary_config_by_id(&self, route_id: &str) -> (r: Option<CanaryConfig>)
        ensures
            opt_view(r) == match self@.find(route_id@) {
                Some(rule) => rule.canary,
                None => None,
            },
    {
        match self.find_rule(route_id) {
            Some(rule) => copy_canary(&rule.canary),
            None => None,
        }
    }

    /// What is shown of all rules.
    pub fn routes_summary(&self) -> (r: Vec<RouteDTO>)
        ensures
            views(r@) == self@.rules().map_values(
                |rule: model::RuleView| rule_summary(rule, rule.match_type),
            ),
            self@.valid(),
    {
        proof {
            use_type_invariant(self);
        }
        let ghost all = self@.rules();
        let mut summaries: Vec<RouteDTO> = Vec::new();
        let mut i: usize = 0;
        while i < self.exact_routes.len()
            invariant
                i <= self.exact_routes@.len(),
                all == self@.rules(),
                self@.valid(),
                summaries@.len() == i,
                forall|j: int|
                    0 <= j < i ==> (#[trigger] summaries@[j])@ == rule_summary(
                        all[j],
                        all[j].match_type,
                    ),
            decreases self.exact_routes@.len() - i,
        {
            assert(all[i as int] == self@.exact[i as int]);
            summaries.push(RouteDTO::from_rule(&self.exact_routes[i], MatchType::Exact));
            i += 1;
        }
        let mut i: usize = 0;
        while i < self.regex_routes.len()
            invariant
                i <= self.regex_routes@.len(),
                all == self@.rules(),
                self@.valid(),
                summaries@.len() == self.exact_routes@.len() + i,
                forall|j: int|
                    0 <= j < summaries@.len() ==> (#[trigger] summaries@[j])@ == rule_summary(
                        all[j],
                        all[j].match_type,
                    ),
            decreases self.regex_routes@.len() - i,
        {
            assert(all[self.exact_routes@.len() + i] == self@.regex[i as int]);
            summaries.push(RouteDTO::from_rule(&self.regex_routes[i].1, MatchType::Regex));
            i += 1;
        }
        let mut i: usize = 0;
        while i < self.prefix_routes.len()
            invariant
                i <= self.prefix_routes@.len(),
                all == self@.rules(),
                self@.valid(),
                summaries@.len() == self.exact_routes@.len() + self.regex_routes@.len() + i,
                forall|j: int|
                    0 <= j < summaries@.len() ==> (#[trigger] summaries@[j])@ == rule_summary(
                        all[j],
                        all[j].match_type,
                    ),
            decreases self.prefix_routes@.len() - i,
        {
            assert(all[self.exact_routes@.len() + self.regex_routes@.len() + i]
                == self@.prefix[i as int]);
            summaries.push(RouteDTO::from_rule(&self.prefix_routes[i], MatchType::Prefix));
            i += 1;
        }
        assert(views(summaries@) =~= all.map_values(
            |rule: model::RuleView| rule_summary(rule, rule.match_type),
        ));
        summaries
    }
}

/// An id that stands in one table stands in no other.
proof fn lemma_named_once(router: model::RouterView, id: Seq<char>)
    requires
        router.valid(),
    ensures
        model::rule_named(router.exact, id) is Some ==> model::without_rule(router.regex, id)
            == router.regex && model::without_rule(router.prefix, id) == router.prefix,
        model::rule_named(router.regex, id) is Some ==> model::without_rule(router.exact, id)
            == router.exact && model::without_rule(router.prefix, id) == router.prefix,
        model::rule_named(router.prefix, id) is Some ==> model::without_rule(router.exact, id)
            == router.exact && model::without_rule(router.regex, id) == router.regex,
{
    model::lemma_id_position(router.exact, id);
    model::lemma_id_position(router.regex, id);
    model::lemma_id_position(router.prefix, id);
}

impl Router {
    /// The versions of the route that comes first for a path: the first exact rule that
    /// matches, else the first expression, else the longest prefix, each with all rules
    /// that have the same pattern.
    fn collect_path_matches(&self, path: &str) -> (r: Vec<RouteCandidate>)
        ensures
            views(r@) == self@.candidates(path@),
            self@.valid(),
    {
        proof {
            use_type_invariant(self);
            model::lemma_candidates(self@, path@);
            model::lemma_first_match(self@.regex, path@);
        }
        let exact = self.first_exact(path);
        if exact < self.exact_routes.len() {
            return self.alike_exact(exact, path);
        }
        let regex = self.first_regex(path);
        if regex < self.regex_routes.len() {
            return self.alike_regex(regex, path);
        }
        let prefix = self.first_prefix(path);
        if prefix < self.prefix_routes.len() {
            return self.alike_prefix(prefix, path);
        }
        let none: Vec<RouteCandidate> = Vec::new();
        assert(views(none@) =~= self@.candidates(path@));
        none
    }

    /// The first exact rule that matches a path, or the number of exact rules.
    fn first_exact(&self, path: &str) -> (at: usize)
        ensures
            at == model::first_match(self@.exact, path@),
            at <= self@.exact.len(),
    {
        proof {
            use_type_invariant(self);
        }
        let ghost exact = self@.exact;
        let mut i: usize = 0;
        while i < self.exact_routes.len() && !same_text(self.exact_routes[i].path.as_str(), path)
            invariant
                i <= self.exact_routes@.len(),
                exact == views(self.exact_routes@),
                model::all_of(exact, MatchType::Exact),
                forall|j: int| 0 <= j < i ==> !(#[trigger] exact[j]).matches_path(path@),
            decreases self.exact_routes@.len() - i,
        {
            assert(exact[i as int] == self.exact_routes@[i as int]@);
            i += 1;
        }
        proof {
            if i < exact.len() {
                assert(exact[i as int] == self.exact_routes@[i as int]@);
            }
            model::lemma_first_match_is(exact, path@, i as int);
        }
        i
    }

    /// The exact rules with the path of the one at `at`.
    fn alike_exact(&self, at: usize, path: &str) -> (r: Vec<RouteCandidate>)
        requires
            at < self@.exact.len(),
        ensures
            views(r@) == model::candidates_of(self@.exact, self@.exact[at as int], path@),
    {
        proof {
            use_type_invariant(self);
        }
        let mut results: Vec<RouteCandidate> = Vec::new();
        let ghost exact = self@.exact;
        let ghost lead = exact[at as int];
        let mut i: usize = 0;
        assert(views(results@) =~= model::candidates_of(exact.take(0), lead, path@));
        while i < self.exact_routes.len()
            invariant
                i <= self.exact_routes@.len(),
                at < self.exact_routes@.len(),
                exact == views(self.exact_routes@),
                lead == exact[at as int],
                model::all_of(exact, MatchType::Exact),
                views(results@) == model::candidates_of(exact.take(i as int), lead, path@),
            decreases self.exact_routes@.len() - i,
        {
            let rule = &self.exact_routes[i];
            proof {
                assert(exact.take(i + 1).drop_last() =~= exact.take(i as int));
                assert(exact[i as int] == rule@);
                assert(exact.take(i + 1).last() == rule@);
                assert(lead == self.exact_routes@[at as int]@);
            }
            if same_text(rule.path.as_str(), self.exact_routes[at].path.as_str()) {
                let ghost before = views(results@);
                results.push(RouteCandidate::of(rule, None));
                assert(views(results@) =~= before.push(rule@.candidate(path@)));
            }
            i += 1;
        }
        assert(exact.take(i as int) =~= exact);
        results
    }

    /// The first expression that matches a path, or the number of expressions.
    fn first_regex(&self, path: &str) -> (at: usize)
        ensures
            at == model::first_match(self@.regex, path@),
            at <= self@.regex.len(),
    {
        proof {
            use_type_invariant(self);
        }
        let ghost regex = self@.regex;
        let mut i: usize = 0;
        while i < self.regex_routes.len() && !regex_is_match(&self.regex_routes[i].0, path)
            invariant
                i <= self.regex_routes@.len(),
                regex == regex_rules(self.regex_routes@),
                compiled(self.regex_routes@),
                model::all_of(regex, MatchType::Regex),
                forall|j: int| 0 <= j < i ==> !(#[trigger] regex[j]).matches_path(path@),
            decreases self.regex_routes@.len() - i,
        {
            proof {
                let e = self.regex_routes@[i as int];
                assert(regex[i as int] == e.1@);
                assert(regex_new(e.1.path@) == Ok::<Regex, regex::Error>(e.0));
            }
            i += 1;
        }
        proof {
            if i < regex.len() {
                let e = self.regex_routes@[i as int];
                assert(regex[i as int] == e.1@);
                assert(regex_new(e.1.path@) == Ok::<Regex, regex::Error>(e.0));
            }
            model::lemma_first_match_is(regex, path@, i as int);
        }
        i
    }

    /// The expressions with the pattern of the one at `at`, which matches the path.
    fn alike_regex(&self, at: usize, path: &str) -> (r: Vec<RouteCandidate>)
        requires
            at < self@.regex.len(),
            self@.regex[at as int].matches_path(path@),
        ensures
            views(r@) == model::candidates_of(self@.regex, self@.regex[at as int], path@),
    {
        proof {
            use_type_invariant(self);
        }
        let mut results: Vec<RouteCandidate> = Vec::new();
        let ghost regex = self@.regex;
        let ghost lead = regex[at as int];
        let mut i: usize = 0;
        assert(views(results@) =~= model::candidates_of(regex.take(0), lead, path@));
        while i < self.regex_routes.len()
            invariant
                i <= self.regex_routes@.len(),
                at < self.regex_routes@.len(),
                regex == regex_rules(self.regex_routes@),
                lead == regex[at as int],
                lead.matches_path(path@),
                compiled(self.regex_routes@),
                model::all_of(regex, MatchType::Regex),
                views(results@) == model::candidates_of(regex.take(i as int), lead, path@),
            decreases self.regex_routes@.len() - i,
        {
            let rule = &self.regex_routes[i].1;
            proof {
                assert(regex.take(i + 1).drop_last() =~= regex.take(i as int));
                assert(regex[i as int] == rule@);
                assert(regex.take(i + 1).last() == rule@);
                assert(lead == self.regex_routes@[at as int].1@);
                assert(regex_new(self.regex_routes@[i as int].1.path@) == Ok::<
                    Regex,
                    regex::Error,
                >(self.regex_routes@[i as int].0));
            }
            if same_text(rule.path.as_str(), self.regex_routes[at].1.path.as_str()) {
                if let Some(groups) = regex_captures(&self.regex_routes[i].0, path) {
                    let ghost before = views(results@);
                    results.push(RouteCandidate::of(rule, captured_groups(&groups)));
                    assert(views(results@) =~= before.push(rule@.candidate(path@)));
                }
            }
            i += 1;
        }
        assert(regex.take(i as int) =~= regex);
        results
    }

    /// The first prefix that matches a path, which is the longest, or the number of
    /// prefixes.
    fn first_prefix(&self, path: &str) -> (at: usize)
        ensures
            at == model::first_match(self@.prefix, path@),
            at <= self@.prefix.len(),
    {
        proof {
            use_type_invariant(self);
        }
        let ghost prefix = self@.prefix;
        let mut i: usize = 0;
        while i < self.prefix_routes.len() && !starts_with(path, prefix_of(&self.prefix_routes[i]))
            invariant
                i <= self.prefix_routes@.len(),
                prefix == views(self.prefix_routes@),
                model::all_of(prefix, MatchType::Prefix),
                forall|j: int| 0 <= j < i ==> !(#[trigger] prefix[j]).matches_path(path@),
            decreases self.prefix_routes@.len() - i,
        {
            assert(prefix[i as int] == self.prefix_routes@[i as int]@);
            i += 1;
        }
        proof {
            if i < prefix.len() {
                assert(prefix[i as int] == self.prefix_routes@[i as int]@);
            }
            model::lemma_first_match_is(prefix, path@, i as int);
        }
        i
    }

    /// The prefix rules with the prefix of the one at `at`.
    fn alike_prefix(&self, at: usize, path: &str) -> (r: Vec<RouteCandidate>)
        requires
            at < self@.prefix.len(),
        ensures
            views(r@) == model::candidates_of(self@.prefix, self@.prefix[at as int], path@),
    {
        proof {
            use_type_invariant(self);
        }
        let mut results: Vec<RouteCandidate> = Vec::new();
        let ghost prefix = self@.prefix;
        let ghost lead = prefix[at as int];
        let mut i: usize = 0;
        assert(views(results@) =~= model::candidates_of(prefix.take(0), lead, path@));
        while i < self.prefix_routes.len()
            invariant
                i <= self.prefix_routes@.len(),
                at < self.prefix_routes@.len(),
                prefix == views(self.prefix_routes@),
                lead == prefix[at as int],
                model::all_of(prefix, MatchType::Prefix),
                views(results@) == model::candidates_of(prefix.take(i as int), lead, path@),
            decreases self.prefix_routes@.len() - i,
        {
            let rule = &self.prefix_routes[i];
            proof {
                assert(prefix.take(i + 1).drop_last() =~= prefix.take(i as int));
                assert(prefix[i as int] == rule@);
                assert(prefix.take(i + 1).last() == rule@);
                assert(lead == self.prefix_routes@[at as int]@);
            }
            if same_text(prefix_of(rule), prefix_of(&self.prefix_routes[at])) {
                let ghost before = views(results@);
                results.push(RouteCandidate::of(rule, None));
                assert(views(results@) =~= before.push(rule@.candidate(path@)));
            }
            i += 1;
        }
        assert(prefix.take(i as int) =~= prefix);
        results
    }

    /// The route that a request for `path` takes, where `value`, in percent, decides
    /// by weight.
    pub fn match_route_with(&self, path: &str, canary_ctx: &CanaryContext, value: u8) -> (r: Option<
        RouteMatch,
    >)
        ensures
            opt_view(r) == self@.route(path@, canary_ctx@, value),
            self@.valid(),
    {
        let matched = self.collect_path_matches(path);
        match choose_candidate(&matched, canary_ctx, value) {
            Some(i) => Some(matched[i].into_match()),
            None => None,
        }
    }

    /// The route that a request for `path` takes. Exact rules come before
    /// expressions, of which the first declared counts, and expressions before prefixes,
    /// of which the longest counts, whatever releases there are. Between several rules
    /// with the same pattern the conditions of a canary release decide, then the sticky
    /// cookie, then the weights: by the address of the client where a rule asks for it, by
    /// the clock otherwise.
    pub fn match_route(&self, path: &str, canary_ctx: &CanaryContext) -> (r: Option<RouteMatch>)
        ensures
            exists|value: u8|
                #![trigger self@.route(path@, canary_ctx@, value)]
                model::fair_value(self@.candidates(path@), canary_ctx@, value) && opt_view(r)
                    == self@.route(path@, canary_ctx@, value),
            self@.valid(),
    {
        let matched = self.collect_path_matches(path);
        let value = compute_route_value(&matched, canary_ctx);
        let r = match choose_candidate(&matched, canary_ctx, value) {
            Some(i) => Some(matched[i].into_match()),
            None => None,
        };
        assert(opt_view(r) == self@.route(path@, canary_ctx@, value));
        r
    }
}

/// Which of the candidates a request takes.
pub fn choose_candidate(matched: &Vec<RouteCandidate>, ctx: &CanaryContext, value: u8) -> (r: Option<
    usize,
>)
    ensures
        match r {
            Some(i) => i < matched@.len() && model::choice(views(matched@), ctx@, value) == Some(
                i as int,
            ),
            None => model::choice(views(matched@), ctx@, value) is None,
        },
{
    if matched.len() == 0 {
        return None;
    }
    if matched.len() == 1 {
        return Some(0);
    }
    let condition = first_condition(matched, ctx);
    if condition < matched.len() {
        return Some(condition);
    }
    if let Some(i) = check_cookie_sticky(matched, ctx) {
        return Some(i);
    }
    let weight = first_by_weight(matched, value);
    if weight < matched.len() {
        return Some(weight);
    }
    let plain = first_plain(matched);
    if plain < matched.len() {
        return Some(plain);
    }
    None
}

/// The first candidate without a canary release, or the number of candidates.
fn first_plain(matched: &Vec<RouteCandidate>) -> (at: usize)
    ensures
        at == model::first_where(views(matched@), model::by_no_canary()),
{
    let ghost cands = views(matched@);
    let mut i: usize = 0;
    while i < matched.len() && matched[i].canary.is_some()
        invariant
            i <= matched@.len(),
            cands == views(matched@),
            forall|j: int| 0 <= j < i ==> !model::by_no_canary()(#[trigger] cands[j]),
        decreases matched@.len() - i,
    {
        assert(cands[i as int] == matched@[i as int]@);
        i += 1;
    }
    proof {
        if i < matched@.len() {
            assert(cands[i as int] == matched@[i as int]@);
        }
        model::lemma_first_where_is(cands, model::by_no_canary(), i as int);
    }
    i
}

/// Whether a map holds `value` under `key`.
fn holds_value(map: &StrMap<String>, key: &str, value: &str) -> (r: bool)
    ensures
        r == (entry_of(map_views(map@), key@) == Some(value@)),
{
    proof {
        lemma_map_views(map@, key@);
    }
    match map.get(key) {
        Some(v) => same_text(v.as_str(), value),
        None => false,
    }
}

/// Whether a request meets one of the rules of a canary release.
fn matches_conditions(canary: &CanaryConfig, ctx: &CanaryContext) -> (r: bool)
    ensures
        r == model::conditions_met(canary@, ctx@),
{
    let mut i: usize = 0;
    while i < canary.match_rules.len()
        invariant
            i <= canary.match_rules@.len(),
            forall|j: int| 0 <= j < i ==> !model::rule_met(#[trigger] canary@.match_rules[j], ctx@),
        decreases canary.match_rules@.len() - i,
    {
        let rule = &canary.match_rules[i];
        assert(canary@.match_rules[i as int] == rule@);
        let met = match rule.match_type {
            CanaryMatchType::Header => holds_value(
                &ctx.headers,
                rule.key.as_str(),
                rule.value.as_str(),
            ),
            CanaryMatchType::Cookie => holds_value(
                &ctx.cookies,
                rule.key.as_str(),
                rule.value.as_str(),
            ),
            CanaryMatchType::Query => holds_value(
                &ctx.query_params,
                rule.key.as_str(),
                rule.value.as_str(),
            ),
        };
        if met {
            assert(model::rule_met(canary@.match_rules[i as int], ctx@));
            return true;
        }
        i += 1;
    }
    false
}

/// The first candidate whose conditions a request meets, or the number of candidates.
fn first_condition(matched: &Vec<RouteCandidate>, ctx: &CanaryContext) -> (at: usize)
    ensures
        at == model::first_where(views(matched@), model::by_condition(ctx@)),
{
    let ghost cands = views(matched@);
    let mut i: usize = 0;
    while i < matched.len()
        invariant
            i <= matched@.len(),
            cands == views(matched@),
            forall|j: int| 0 <= j < i ==> !model::by_condition(ctx@)(#[trigger] cands[j]),
        decreases matched@.len() - i,
    {
        assert(cands[i as int] == matched@[i as int]@);
        let met = match &matched[i].canary {
            Some(canary) => canary.match_rules.len() > 0 && matches_conditions(canary, ctx),
            None => false,
        };
        if met {
            proof {
                model::lemma_first_where_is(cands, model::by_condition(ctx@), i as int);
            }
            return i;
        }
        i += 1;
    }
    proof {
        model::lemma_first_where_is(cands, model::by_condition(ctx@), i as int);
    }
    i
}

/// The candidate that the sticky cookie of a request names.
fn check_cookie_sticky(matched: &Vec<RouteCandidate>, ctx: &CanaryContext) -> (r: Option<usize>)
    ensures
        match r {
            Some(i) => i < matched@.len() && model::cookie_choice(views(matched@), ctx@) == Some(
                i as int,
            ),
            None => model::cookie_choice(views(matched@), ctx@) is None,
        },
{
    let ghost cands = views(matched@);
    let mut keeper: usize = 0;
    while keeper < matched.len() && !is_sticky(&matched[keeper], StickyStrategy::Cookie)
        invariant
            keeper <= matched@.len(),
            cands == views(matched@),
            forall|j: int| 0 <= j < keeper ==> !model::by_cookie()(#[trigger] cands[j]),
        decreases matched@.len() - keeper,
    {
        assert(cands[keeper as int] == matched@[keeper as int]@);
        keeper += 1;
    }
    proof {
        if keeper < matched@.len() {
            assert(cands[keeper as int] == matched@[keeper as int]@);
        }
        model::lemma_first_where_is(cands, model::by_cookie(), keeper as int);
    }
    if keeper >= matched.len() {
        return None;
    }
    let name = match &matched[keeper].canary {
        Some(canary) => sticky_cookie_name(canary),
        None => {
            return None;
        },
    };
    proof {
        lemma_map_views(ctx.cookies@, name@);
    }
    let id = match ctx.cookies.get(name.as_str()) {
        Some(id) => id,
        None => {
            return None;
        },
    };
    let mut i: usize = 0;
    while i < matched.len()
        invariant
            i <= matched@.len(),
            cands == views(matched@),
            keeper < matched@.len(),
            keeper == model::first_where(cands, model::by_cookie()),
            cands[keeper as int].canary matches Some(canary) && entry_of(
                ctx@.cookies,
                model::cookie_name(canary),
            ) == Some(id@),
            forall|j: int| 0 <= j < i ==> !model::by_id(id@)(#[trigger] cands[j]),
        decreases matched@.len() - i,
    {
        assert(cands[i as int] == matched@[i as int]@);
        if same_text(matched[i].route_id.as_str(), id.as_str()) {
            proof {
                model::lemma_first_where_is(cands, model::by_id(id@), i as int);
            }
            return Some(i);
        }
        i += 1;
    }
    proof {
        model::lemma_first_where_is(cands, model::by_id(id@), i as int);
    }
    None
}

/// The name of the cookie of a canary release.
pub fn sticky_cookie_name(canary: &CanaryConfig) -> (r: String)
    ensures
        r@ == model::cookie_name(canary@),
{
    match &canary.sticky_cookie {
        Some(cookie) => cookie.name.clone(),
        None => default_cookie_name(),
    }
}

/// Whether a candidate keeps clients in the given way.
fn is_sticky(candidate: &RouteCandidate, way: StickyStrategy) -> (r: bool)
    ensures
        r == (candidate@.canary matches Some(canary) && canary.stick == Some(way)),
{
    match &candidate.canary {
        Some(canary) => match canary.stick {
            Some(stick) => stick == way,
            None => false,
        },
        None => false,
    }
}

/// The candidate to which `value` falls by weight, or the number of candidates.
fn first_by_weight(matched: &Vec<RouteCandidate>, value: u8) -> (at: usize)
    ensures
        at == model::weight_choice(views(matched@), value, 0),
{
    let ghost cands = views(matched@);
    let mut cumulative: u8 = 0;
    let ghost mut sum: nat = 0;
    let mut i: usize = 0;
    assert(cands.skip(0) =~= cands);
    while i < matched.len()
        invariant
            i <= matched@.len(),
            cands == views(matched@),
            cumulative == model::cut_off(sum),
            model::weight_choice(cands, value, 0) == i + model::weight_choice(
                cands.skip(i as int),
                value,
                sum,
            ),
        decreases matched@.len() - i,
    {
        let ghost rest = cands.skip(i as int);
        proof {
            assert(rest[0] == matched@[i as int]@);
            assert(rest.skip(1) =~= cands.skip(i + 1));
        }
        if let Some(canary) = &matched[i].canary {
            cumulative = cumulative.saturating_add(canary.weight);
            proof {
                sum = sum + canary.weight as nat;
            }
            if value < cumulative {
                return i;
            }
        }
        i += 1;
    }
    i
}

/// The value, in percent, that decides by weight: the hash of the client address
/// where a candidate asks for it, and else one taken from the clock.
pub fn compute_route_value(matched: &Vec<RouteCandidate>, ctx: &CanaryContext) -> (r: u8)
    ensures
        model::fair_value(views(matched@), ctx@, r),
{
    let ghost cands = views(matched@);
    let mut i: usize = 0;
    while i < matched.len() && !is_sticky(&matched[i], StickyStrategy::IpHash)
        invariant
            i <= matched@.len(),
            cands == views(matched@),
            forall|j: int| 0 <= j < i ==> !model::by_ip_hash()(#[trigger] cands[j]),
        decreases matched@.len() - i,
    {
        assert(cands[i as int] == matched@[i as int]@);
        i += 1;
    }
    proof {
        if i < matched@.len() {
            assert(cands[i as int] == matched@[i as int]@);
        }
        model::lemma_first_where_is(cands, model::by_ip_hash(), i as int);
    }
    if i < matched.len() {
        if let Some(ip) = &ctx.client_ip {
            return ip_route_value(ip.as_str());
        }
    }
    clock_route_value()
}

/// The value of a client address.
pub fn ip_route_value(ip: &str) -> (r: u8)
    ensures
        r == model::ip_value(ip@),
        r < 100,
{
    let mut hasher = DefaultHasher::new();
    hash_text(ip, &mut hasher);
    (hasher.finish() % 100) as u8
}

/// The value that is taken from the nanoseconds of a clock.
pub fn clock_value(nanos: u32) -> (r: u8)
    ensures
        r == model::clock_value(nanos),
        r < 100,
{
    assert(nanos >> 7 == nanos / 128) by (bit_vector);
    ((nanos >> 7) % 100) as u8
}

/// A value taken from a reading of the wall clock.
fn clock_route_value() -> (r: u8)
    ensures
        exists|span: Duration|
            #[trigger] wall_reading(span) && r == model::clock_value(duration_nanos(span)),
        r < 100,
{
    let span = read_wall_clock();
    clock_value(span.subsec_nanos())
}

} // verus!
