//! The rate limit filter: each client address has a token bucket.
use crate::control_plane::gateway_state::model::{rate_checked, StateView};
use crate::control_plane::gateway_state::GatewayState;
use crate::data_plane::filter::{
    reject_status, FilterContext, FilterContextView, FilterName, FilterReject, FilterResult,
    HeaderChange, HeaderChangeView,
};
use crate::data_plane::rate_limit::{clock_shows, Uptime};
use crate::model::opt_view;
use crate::text::{decimal, decimal_text};
use vstd::prelude::*;

verus! {

/// Refuses requests of clients that have used up their tokens.
pub struct RateLimitFilter;

/// What the outcome of a rate check makes of a request.
pub open spec fn rate_decision(outcome: Option<(bool, usize)>) -> FilterResult {
    match outcome {
        Some((false, _)) => FilterResult::Stop(FilterReject::TooManyRequests),
        _ => FilterResult::Continue,
    }
}

/// What is noted of the outcome of a rate check.
pub open spec fn rate_noted(
    ctx: FilterContextView,
    outcome: Option<(bool, usize)>,
) -> FilterContextView {
    match outcome {
        Some((_, remaining)) => FilterContextView { rate_limit_remaining: Some(remaining), ..ctx },
        None => ctx,
    }
}

impl RateLimitFilter {
    /// The name of the filter.
    pub fn name(&self) -> (r: FilterName)
        ensures
            r == FilterName::RateLimit,
    {
        FilterName::RateLimit
    }

    /// What the filter makes of a request now, by the clock of the limiter.
    pub fn request_filter(&self, ctx: &mut FilterContext, state: &mut GatewayState) -> (r:
        FilterResult)
        ensures
            exists|now: Uptime|
                #![trigger rate_checked(old(state)@, old(ctx)@.client_ip, now)]
                now.valid() && (old(state).limiter_origin() matches Some(origin) ==> clock_shows(
                    origin,
                    now,
                )) && ({
                    let checked = rate_checked(old(state)@, old(ctx)@.client_ip, now);
                    final(state)@ == checked.0 && r == rate_decision(checked.1) && final(ctx)@
                        == rate_noted(old(ctx)@, checked.1)
                }),
            old(state).limiter_origin() is Some <==> old(state)@.limiter is Some,
            final(state).limiter_origin() == old(state).limiter_origin(),
    {
        let outcome = state.check_rate_limit(ctx.client_ip.as_str());
        self.decide(ctx, outcome)
    }

    /// What the outcome of a rate check makes of a request: whether it is let through, and
    /// how many tokens are left; nothing where requests are not limited.
    pub fn decide(&self, ctx: &mut FilterContext, outcome: Option<(bool, usize)>) -> (r:
        FilterResult)
        ensures
            r == rate_decision(outcome),
            final(ctx)@ == rate_noted(old(ctx)@, outcome),
    {
        match outcome {
            None => FilterResult::Continue,
            Some((allowed, remaining)) => {
                ctx.rate_limit_remaining = Some(remaining);
                if allowed {
                    FilterResult::Continue
                } else {
                    FilterResult::Stop(FilterReject::TooManyRequests)
                }
            },
        }
    }

    /// The header that tells the client how many tokens are left.
    pub fn response_filter(&self, ctx: &FilterContext) -> (r: Option<HeaderChange>)
        ensures
            opt_view(r) == match ctx@.rate_limit_remaining {
                Some(remaining) => Some(
                    HeaderChangeView {
                        name: "X-RateLimit-Remaining"@,
                        value: decimal(remaining as nat),
                    },
                ),
                None => None,
            },
    {
        match ctx.rate_limit_remaining {
            Some(remaining) => Some(
                HeaderChange {
                    name: "X-RateLimit-Remaining".to_owned(),
                    value: decimal_text(remaining as u64),
                },
            ),
            None => None,
        }
    }
}

/// A request is refused for its rate, with status 429, exactly if requests are limited and
/// no token is left to the client.
pub proof fn clients_without_tokens_are_refused(state: StateView, ip: Seq<char>, now: Uptime)
    ensures
        rate_decision(rate_checked(state, ip, now).1) is Stop <==> (state.limiter matches Some(l)
            && l.bucket(ip, now).refill(now).tokens == 0),
        rate_decision(rate_checked(state, ip, now).1) matches FilterResult::Stop(reject)
            ==> reject_status(reject) == 429,
{
}

/// After a check the client is told how many tokens are left in its bucket, and nothing else
/// that is known of the request changes; where requests are not limited nothing changes at
/// all.
pub proof fn clients_are_told_what_is_left(
    ctx: FilterContextView,
    state: StateView,
    ip: Seq<char>,
    now: Uptime,
)
    requires
        state.limiter matches Some(l) ==> l.bucket(ip, now).acquire(now).tokens <= usize::MAX,
    ensures
        ({
            let checked = rate_checked(state, ip, now);
            let noted = rate_noted(ctx, checked.1);
            &&& noted == (FilterContextView {
                rate_limit_remaining: noted.rate_limit_remaining,
                ..ctx
            })
            &&& checked.0 == (StateView { limiter: checked.0.limiter, ..state })
            &&& state.limiter is None ==> noted == ctx && checked.0 == state && checked.1 is None
            &&& state.limiter matches Some(l) ==> {
                &&& noted.rate_limit_remaining matches Some(n) && n == l.bucket(ip, now).acquire(
                    now,
                ).tokens
                &&& checked.0.limiter == Some(l.check(ip, now))
                &&& checked.1 matches Some(outcome) && outcome.0 == l.bucket(ip, now).allows(now)
            }
        }),
{
}

} // verus!
