//! What the Admin API shows of the gateway.
use crate::data_plane::router::router_white_list::RouteEntry;
use crate::data_plane::router::{model, MatchType, RouteRule};
use crate::text;
use vstd::prelude::*;

verus! {

/// The rate limiting policy.
#[derive(Clone, Copy, Debug, PartialEq, Eq, Structural)]
pub struct RateLimitDTO {
    /// Whether requests are limited.
    pub enabled: bool,
    /// Capacity of a bucket, where requests are limited.
    pub capacity: Option<usize>,
    /// Tokens added per second, where requests are limited.
    pub refill_rate: Option<usize>,
}

impl Default for RateLimitDTO {
    /// Requests are not limited.
    fn default() -> (r: Self)
        ensures
            r == (RateLimitDTO { enabled: false, capacity: None, refill_rate: None }),
    {
        RateLimitDTO { enabled: false, capacity: None, refill_rate: None }
    }
}

/// A routing rule.
pub struct RouteDTO {
    pub route_id: String,
    pub path: String,
    pub match_type: String,
    pub methods: Vec<String>,
    pub upstream: String,
}

#[verifier::ext_equal]
pub struct RouteSummary {
    pub route_id: Seq<char>,
    pub path: Seq<char>,
    pub match_type: Seq<char>,
    pub methods: Seq<Seq<char>>,
    pub upstream: Seq<char>,
}

impl View for RouteDTO {
    type V = RouteSummary;

    open spec fn view(&self) -> RouteSummary {
        RouteSummary {
            route_id: self.route_id@,
            path: self.path@,
            match_type: self.match_type@,
            methods: text::texts(self.methods@),
            upstream: self.upstream@,
        }
    }
}

/// What is shown of a routing rule.
pub open spec fn rule_summary(rule: model::RuleView, match_type: MatchType) -> RouteSummary {
    RouteSummary {
        route_id: rule.route_id,
        path: rule.path,
        match_type: match_type_name(match_type),
        methods: rule.methods,
        upstream: rule.upstream,
    }
}

impl RouteDTO {
    /// What is shown of a routing rule.
    pub fn from_rule(rule: &RouteRule, match_type: MatchType) -> (r: Self)
        ensures
            r@ == rule_summary(rule@, match_type),
    {
        RouteDTO {
            route_id: rule.route_id.clone(),
            path: rule.path.clone(),
            match_type: match_type_to_str(&match_type),
            methods: text::copy_texts(&rule.methods),
            upstream: rule.upstream.clone(),
        }
    }
}

/// A registered route.
pub struct RouteRegistryDTO {
    pub route_id: String,
    pub path: String,
    pub prefix: Option<String>,
    pub match_type: String,
    pub methods: Vec<String>,
    pub upstream: String,
    pub applicant: String,
    pub applied_at: String,
    pub description: String,
}

#[verifier::ext_equal]
pub struct RegistrySummary {
    pub route_id: Seq<char>,
    pub path: Seq<char>,
    pub prefix: Option<Seq<char>>,
    pub match_type: Seq<char>,
    pub methods: Seq<Seq<char>>,
    pub upstream: Seq<char>,
    pub applicant: Seq<char>,
    pub applied_at: Seq<char>,
    pub description: Seq<char>,
}

impl View for RouteRegistryDTO {
    type V = RegistrySummary;

    open spec fn view(&self) -> RegistrySummary {
        RegistrySummary {
            route_id: self.route_id@,
            path: self.path@,
            prefix: text::opt_text(self.prefix),
            match_type: self.match_type@,
            methods: text::texts(self.methods@),
            upstream: self.upstream@,
            applicant: self.applicant@,
            applied_at: self.applied_at@,
            description: self.description@,
        }
    }
}

impl RouteRegistryDTO {
    /// What is shown of a registered route.
    pub fn from_entry(entry: &RouteEntry) -> (r: Self)
        ensures
            r@ == (RegistrySummary {
                route_id: entry@.route_id,
                path: entry@.path,
                prefix: entry@.prefix,
                match_type: match_type_name(entry@.match_type),
                methods: entry@.methods,
                upstream: entry@.upstream,
                applicant: entry@.applicant,
                applied_at: entry@.applied_at,
                description: entry@.description,
            }),
    {
        RouteRegistryDTO {
            route_id: entry.route_id.clone(),
            path: entry.path.clone(),
            prefix: text::copy_opt(&entry.prefix),
            match_type: match_type_to_str(&entry.match_type),
            methods: text::copy_texts(&entry.methods),
            upstream: entry.upstream.clone(),
            applicant: entry.applicant.clone(),
            applied_at: entry.applied_at.clone(),
            description: entry.description.clone(),
        }
    }
}

/// The name of a match type in a configuration.
pub open spec fn match_type_name(mt: MatchType) -> Seq<char> {
    match mt {
        MatchType::Exact => "exact"@,
        MatchType::Prefix => "prefix"@,
        MatchType::Regex => "regex"@,
    }
}

/// The name of a match type in a configuration.
pub fn match_type_to_str(mt: &MatchType) -> (r: String)
    ensures
        r@ == match_type_name(*mt),
{
    match mt {
        MatchType::Exact => "exact".to_owned(),
        MatchType::Prefix => "prefix".to_owned(),
        MatchType::Regex => "regex".to_owned(),
    }
}

/// An upstream cluster.
pub struct UpstreamDTO {
    pub name: String,
    pub nodes: Vec<String>,
}

#[verifier::ext_equal]
pub struct UpstreamSummary {
    pub name: Seq<char>,
    pub nodes: Seq<Seq<char>>,
}

impl View for UpstreamDTO {
    type V = UpstreamSummary;

    open spec fn view(&self) -> UpstreamSummary {
        UpstreamSummary { name: self.name@, nodes: text::texts(self.nodes@) }
    }
}

/// Of a rule its id, its path, the name of its kind, its methods and its upstream are shown.
pub proof fn rules_are_shown_as_they_are(rule: model::RuleView)
    ensures
        ({
            let shown = rule_summary(rule, rule.match_type);
            &&& shown.route_id == rule.route_id
            &&& shown.path == rule.path
            &&& shown.methods == rule.methods
            &&& shown.upstream == rule.upstream
            &&& rule.match_type == MatchType::Exact ==> shown.match_type == "exact"@
            &&& rule.match_type == MatchType::Prefix ==> shown.match_type == "prefix"@
            &&& rule.match_type == MatchType::Regex ==> shown.match_type == "regex"@
        }),
{
}

} // verus!
