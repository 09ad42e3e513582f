//! The filter chain: what is asked of a request before it is routed, and what is
//! added to its response.
use crate::text::{copy_opt, opt_text};
use std::time::Instant;
use vstd::prelude::*;

pub mod auth;
pub mod header;
pub mod logging;
pub mod method;
pub mod rate_limit_filter;
pub mod whitelist;

verus! {

/// Why a filter refuses a request.
#[derive(Debug)]
pub enum FilterReject {
    Unauthorized,
    Forbidden,
    NotFound,
    MethodNotAllowed,
    TooManyRequests,
    InternalError,
    Custom { code: u16, reason: String },
}

/// The HTTP status of a refusal.
pub open spec fn reject_status(reject: FilterReject) -> u16 {
    match reject {
        FilterReject::Unauthorized => 401,
        FilterReject::Forbidden => 403,
        FilterReject::NotFound => 404,
        FilterReject::MethodNotAllowed => 405,
        FilterReject::TooManyRequests => 429,
        FilterReject::InternalError => 500,
        FilterReject::Custom { code, .. } => code,
    }
}

impl FilterReject {
    /// The HTTP status of the refusal.
    pub fn status_code(&self) -> (r: u16)
        ensures
            r == reject_status(*self),
    {
        match self {
            FilterReject::Unauthorized => 401,
            FilterReject::Forbidden => 403,
            FilterReject::NotFound => 404,
            FilterReject::MethodNotAllowed => 405,
            FilterReject::TooManyRequests => 429,
            FilterReject::InternalError => 500,
            FilterReject::Custom { code, .. } => *code,
        }
    }
}

impl Clone for FilterReject {
    fn clone(&self) -> (r: Self)
        ensures
            r == *self,
    {
        match self {
            FilterReject::Unauthorized => FilterReject::Unauthorized,
            FilterReject::Forbidden => FilterReject::Forbidden,
            FilterReject::NotFound => FilterReject::NotFound,
            FilterReject::MethodNotAllowed => FilterReject::MethodNotAllowed,
            FilterReject::TooManyRequests => FilterReject::TooManyRequests,
            FilterReject::InternalError => FilterReject::InternalError,
            FilterReject::Custom { code, reason } => FilterReject::Custom {
                code: *code,
                reason: reason.clone(),
            },
        }
    }
}

/// What a filter makes of a request.
#[derive(Debug)]
pub enum FilterResult {
    /// The next filter is asked.
    Continue,
    /// The request is refused.
    Stop(FilterReject),
}

/// The name of a filter.
#[derive(Debug)]
pub enum FilterName {
    WhiteList,
    Method,
    Auth,
    RateLimit,
    Header,
    Logging,
    Custom(String),
}

/// The name of a filter as text.
pub open spec fn filter_name_text(name: FilterName) -> Seq<char> {
    match name {
        FilterName::WhiteList => "whitelist-filter"@,
        FilterName::Method => "method-filter"@,
        FilterName::Auth => "auth-filter"@,
        FilterName::RateLimit => "rate-limit-filter"@,
        FilterName::Header => "header-filter"@,
        FilterName::Logging => "logging-filter"@,
        FilterName::Custom(name) => name@,
    }
}

impl FilterName {
    /// The name as text.
    pub fn to_text(&self) -> (r: String)
        ensures
            r@ == filter_name_text(*self),
    {
        match self {
            FilterName::WhiteList => "whitelist-filter".to_owned(),
            FilterName::Method => "method-filter".to_owned(),
            FilterName::Auth => "auth-filter".to_owned(),
            FilterName::RateLimit => "rate-limit-filter".to_owned(),
            FilterName::Header => "header-filter".to_owned(),
            FilterName::Logging => "logging-filter".to_owned(),
            FilterName::Custom(name) => name.clone(),
        }
    }
}

impl Clone for FilterName {
    fn clone(&self) -> (r: Self)
        ensures
            r == *self,
    {
        match self {
            FilterName::WhiteList => FilterName::WhiteList,
            FilterName::Method => FilterName::Method,
            FilterName::Auth => FilterName::Auth,
            FilterName::RateLimit => FilterName::RateLimit,
            FilterName::Header => FilterName::Header,
            FilterName::Logging => FilterName::Logging,
            FilterName::Custom(name) => FilterName::Custom(name.clone()),
        }
    }
}

/// What the filters know of a request.
pub struct FilterContext {
    /// Path of the request.
    pub path: String,
    /// HTTP method.
    pub method: String,
    /// Address of the client.
    pub client_ip: String,
    /// Name of the upstream cluster, once the request is routed.
    pub upstream_name: Option<String>,
    /// Id of the registered route.
    pub route_id: Option<String>,
    /// When the request came in.
    pub start_time: Instant,
    /// Tokens left to the client, once the rate is checked.
    pub rate_limit_remaining: Option<usize>,
    /// Subject of the JWT, once it is verified.
    pub auth_user_id: Option<String>,
}

#[verifier::ext_equal]
pub struct FilterContextView {
    pub path: Seq<char>,
    pub method: Seq<char>,
    pub client_ip: Seq<char>,
    pub upstream_name: Option<Seq<char>>,
    pub route_id: Option<Seq<char>>,
    pub start_time: Instant,
    pub rate_limit_remaining: Option<usize>,
    pub auth_user_id: Option<Seq<char>>,
}

impl View for FilterContext {
    type V = FilterContextView;

    open spec fn view(&self) -> FilterContextView {
        FilterContextView {
            path: self.path@,
            method: self.method@,
            client_ip: self.client_ip@,
            upstream_name: opt_text(self.upstream_name),
            route_id: opt_text(self.route_id),
            start_time: self.start_time,
            rate_limit_remaining: self.rate_limit_remaining,
            auth_user_id: opt_text(self.auth_user_id),
        }
    }
}

/// A header of a request; the value is absent where it is no visible text.
pub struct HeaderLine {
    /// Name of the header, in lower case.
    pub name: String,
    /// Its value.
    pub value: Option<String>,
}

pub struct HeaderView {
    pub name: Seq<char>,
    pub value: Option<Seq<char>>,
}

impl View for HeaderLine {
    type V = HeaderView;

    open spec fn view(&self) -> HeaderView {
        HeaderView { name: self.name@, value: opt_text(self.value) }
    }
}

/// The first header with a given name.
pub open spec fn header_named(headers: Seq<HeaderView>, name: Seq<char>) -> Option<HeaderView>
    decreases headers.len(),
{
    if headers.len() == 0 {
        None
    } else if headers[0].name == name {
        Some(headers[0])
    } else {
        header_named(headers.skip(1), name)
    }
}

/// The value of the first header with a given name, where it is text.
pub open spec fn header_text(headers: Seq<HeaderView>, name: Seq<char>) -> Option<Seq<char>> {
    match header_named(headers, name) {
        Some(h) => h.value,
        None => None,
    }
}

/// The value of the first header with a given name, where it is text.
pub fn find_header_text(headers: &Vec<HeaderLine>, name: &str) -> (r: Option<String>)
    ensures
        opt_text(r) == header_text(crate::model::views(headers@), name@),
{
    let ghost all = crate::model::views(headers@);
    let mut i: usize = 0;
    assert(all.skip(0) =~= all);
    while i < headers.len()
        invariant
            i <= headers@.len(),
            all == crate::model::views(headers@),
            header_named(all, name@) == header_named(all.skip(i as int), name@),
        decreases headers@.len() - i,
    {
        proof {
            assert(all.skip(i as int)[0] == headers@[i as int]@);
            assert(all.skip(i as int).skip(1) =~= all.skip(i + 1));
        }
        if crate::text::same_text(headers[i].name.as_str(), name) {
            return copy_opt(&headers[i].value);
        }
        i += 1;
    }
    None
}

/// A header that a filter sets.
pub struct HeaderChange {
    pub name: String,
    pub value: String,
}

pub struct HeaderChangeView {
    pub name: Seq<char>,
    pub value: Seq<char>,
}

impl View for HeaderChange {
    type V = HeaderChangeView;

    open spec fn view(&self) -> HeaderChangeView {
        HeaderChangeView { name: self.name@, value: self.value@ }
    }
}

/// What the chain asks for next.
pub enum ChainStep {
    /// Run the filter at this place.
    Run(usize),
    /// The chain is done.
    Done(FilterResult),
}

/// What a chain of `len` filters asks for when `ran` of them have run and the last
/// of these returned `last`: nothing more after a refusal, else the next filter.
pub open spec fn chain_step(len: nat, ran: nat, last: FilterResult) -> ChainStep {
    match last {
        FilterResult::Stop(reject) => ChainStep::Done(FilterResult::Stop(reject)),
        FilterResult::Continue => if ran < len {
            ChainStep::Run(ran as usize)
        } else {
            ChainStep::Done(FilterResult::Continue)
        },
    }
}

/// The filters, in the order in which they are asked.
pub struct FilterChain {
    filters: Vec<FilterName>,
}

impl View for FilterChain {
    type V = Seq<FilterName>;

    closed spec fn view(&self) -> Seq<FilterName> {
        self.filters@
    }
}

impl FilterChain {
    /// A chain without filters.
    pub fn new() -> (r: Self)
        ensures
            r@ == Seq::<FilterName>::empty(),
    {
        FilterChain { filters: Vec::new() }
    }

    /// Appends a filter.
    pub fn add_filter(&mut self, filter: FilterName)
        ensures
            final(self)@ == old(self)@.push(filter),
    {
        self.filters.push(filter);
    }

    /// What the request phase asks for next: `ran` filters have run, and the last of
    /// them returned `last` (`Continue` where none has run).
    pub fn run_request_filters(&self, ran: usize, last: FilterResult) -> (r: ChainStep)
        ensures
            r == chain_step(self@.len(), ran as nat, last),
    {
        match last {
            FilterResult::Stop(reject) => ChainStep::Done(FilterResult::Stop(reject)),
            FilterResult::Continue => {
                if ran < self.filters.len() {
                    ChainStep::Run(ran)
                } else {
                    ChainStep::Done(FilterResult::Continue)
                }
            },
        }
    }

    /// What the response phase asks for next, when `ran` filters have run: every
    /// filter runs, whatever the ones before it did.
    pub fn run_response_filters(&self, ran: usize) -> (r: Option<usize>)
        ensures
            r == if ran < self@.len() {
                Some(ran)
            } else {
                None
            },
    {
        if ran < self.filters.len() {
            Some(ran)
        } else {
            None
        }
    }

    /// The filter at a place.
    pub fn filter_at(&self, i: usize) -> (r: &FilterName)
        requires
            i < self@.len(),
        ensures
            *r == self@[i as int],
    {
        &self.filters[i]
    }

    /// The number of filters.
    pub fn len(&self) -> (r: usize)
        ensures
            r == self@.len(),
    {
        self.filters.len()
    }

    /// Whether there are no filters.
    pub fn is_empty(&self) -> (r: bool)
        ensures
            r == (self@.len() == 0),
    {
        self.filters.len() == 0
    }
}

impl Clone for FilterChain {
    fn clone(&self) -> (r: Self)
        ensures
            r@ == self@,
    {
        let filters = self.filters.clone();
        assert(filters@ =~= self.filters@);
        FilterChain { filters }
    }
}

// ---- laws ----

/// The outcome of a run of a chain of `results.len()` filters, of which `ran` have run
/// and the last returned `last`, where each filter returns its result of the list; with
/// it the number of filters that run in all.
pub open spec fn chain_outcome(results: Seq<FilterResult>, ran: nat, last: FilterResult) -> (
    FilterResult,
    nat,
)
    decreases results.len() - ran,
{
    match chain_step(results.len(), ran, last) {
        ChainStep::Done(result) => (result, ran),
        ChainStep::Run(_) => if ran < results.len() {
            chain_outcome(results, ran + 1, results[ran as int])
        } else {
            (last, ran)
        },
    }
}

/// As long as no filter refuses, the filter behind those that have run is asked next, up to
/// the last; after a refusal none is, whatever is left, and the refusal is the outcome.
pub proof fn filters_are_asked_one_after_the_other(len: nat, ran: usize, reject: FilterReject)
    ensures
        ran < len ==> chain_step(len, ran as nat, FilterResult::Continue) == ChainStep::Run(ran),
        ran >= len ==> chain_step(len, ran as nat, FilterResult::Continue) == ChainStep::Done(
            FilterResult::Continue,
        ),
        chain_step(len, ran as nat, FilterResult::Stop(reject)) == ChainStep::Done(
            FilterResult::Stop(reject),
        ),
{
}

/// Of the headers with a given name the first counts, at whatever place it stands; one that
/// is no text counts as none, and hides those behind it.
pub proof fn first_header_of_a_name_counts(headers: Seq<HeaderView>, name: Seq<char>, k: int)
    requires
        0 <= k <= headers.len(),
        forall|i: int| 0 <= i < k ==> (#[trigger] headers[i]).name != name,
        k < headers.len() ==> headers[k].name == name,
    ensures
        header_text(headers, name) == if k < headers.len() {
            headers[k].value
        } else {
            None
        },
    decreases headers.len(),
{
    if k > 0 {
        assert(headers[0].name != name);
        let rest = headers.skip(1);
        assert forall|i: int| 0 <= i < k - 1 implies (#[trigger] rest[i]).name != name by {
            assert(rest[i] == headers[i + 1]);
        }
        first_header_of_a_name_counts(rest, name, k - 1);
    }
}

/// Each refusal is answered with the HTTP status of its own.
pub proof fn refusals_have_their_statuses(code: u16, reason: String)
    ensures
        reject_status(FilterReject::Unauthorized) == 401,
        reject_status(FilterReject::Forbidden) == 403,
        reject_status(FilterReject::NotFound) == 404,
        reject_status(FilterReject::MethodNotAllowed) == 405,
        reject_status(FilterReject::TooManyRequests) == 429,
        reject_status(FilterReject::InternalError) == 500,
        reject_status(FilterReject::Custom { code, reason }) == code,
{
}

/// A chain ends with the first refusal, and no filter behind it runs.
pub proof fn chain_stops_at_first_refusal(results: Seq<FilterResult>, k: int)
    requires
        results.len() <= usize::MAX,
        0 <= k < results.len(),
        results[k] is Stop,
        forall|i: int| 0 <= i < k ==> #[trigger] results[i] is Continue,
    ensures
        chain_outcome(results, 0, FilterResult::Continue) == (results[k], (k + 1) as nat),
{
    lemma_chain_reaches(results, k, 0);
    assert(chain_outcome(results, (k + 1) as nat, results[k]) == (results[k], (k + 1) as nat));
}

/// A chain without a refusal runs every filter and lets the request through.
pub proof fn chain_without_refusal_continues(results: Seq<FilterResult>)
    requires
        results.len() <= usize::MAX,
        forall|i: int| 0 <= i < results.len() ==> #[trigger] results[i] is Continue,
    ensures
        chain_outcome(results, 0, FilterResult::Continue) == (
            FilterResult::Continue,
            results.len(),
        ),
{
    if results.len() > 0 {
        let k = results.len() - 1;
        lemma_chain_reaches(results, k, 0);
        assert(results[k] is Continue);
    }
}

/// Filters that continue lead to the next one.
proof fn lemma_chain_reaches(results: Seq<FilterResult>, k: int, ran: nat)
    requires
        results.len() <= usize::MAX,
        ran <= k < results.len(),
        forall|i: int| 0 <= i < k ==> #[trigger] results[i] is Continue,
    ensures
        chain_outcome(results, ran, FilterResult::Continue) == chain_outcome(
            results,
            (k + 1) as nat,
            results[k],
        ),
    decreases k - ran,
{
    if ran < k {
        assert(results[ran as int] is Continue);
        lemma_chain_reaches(results, k, ran + 1);
    }
}

/// Each filter has a name of its own.
pub proof fn filters_have_their_names(name: String)
    ensures
        filter_name_text(FilterName::WhiteList) == "whitelist-filter"@,
        filter_name_text(FilterName::Method) == "method-filter"@,
        filter_name_text(FilterName::Auth) == "auth-filter"@,
        filter_name_text(FilterName::RateLimit) == "rate-limit-filter"@,
        filter_name_text(FilterName::Header) == "header-filter"@,
        filter_name_text(FilterName::Logging) == "logging-filter"@,
        filter_name_text(FilterName::Custom(name)) == name@,
{
}

} // verus!
