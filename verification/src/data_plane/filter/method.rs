//! The method filter: a route may allow only some HTTP methods.
use crate::control_plane::gateway_state::GatewayState;
use crate::data_plane::filter::{
    reject_status, FilterContext, FilterContextView, FilterName, FilterReject, FilterResult,
};
use crate::data_plane::router::router_white_list::Entries;
use crate::str_map::entry_of;
use crate::text::contains_text;
use vstd::prelude::*;

verus! {

/// Refuses the methods that the registered route does not allow.
pub struct MethodFilter;

/// What the filter makes of a request: one whose route is not known goes on, and so
/// does one whose route allows every method; any other must use an allowed method.
pub open spec fn method_decision(ctx: FilterContextView, entries: Entries) -> FilterResult {
    match ctx.route_id {
        None => FilterResult::Continue,
        Some(id) => match entry_of(entries, id) {
            None => FilterResult::Continue,
            Some(entry) => if entry.methods.len() == 0 || entry.methods.contains(ctx.method) {
                FilterResult::Continue
            } else {
                FilterResult::Stop(FilterReject::MethodNotAllowed)
            },
        },
    }
}

impl MethodFilter {
    /// The name of the filter.
    pub fn name(&self) -> (r: FilterName)
        ensures
            r == FilterName::Method,
    {
        FilterName::Method
    }

    /// What the filter makes of a request.
    pub fn request_filter(&self, ctx: &FilterContext, state: &GatewayState) -> (r: FilterResult)
        ensures
            r == method_decision(ctx@, state@.entries),
    {
        let route_id = match &ctx.route_id {
            None => {
                return FilterResult::Continue;
            },
            Some(id) => id,
        };
        match state.find_registered(route_id.as_str()) {
            None => FilterResult::Continue,
            Some(entry) => {
                if entry.methods.len() == 0 || contains_text(&entry.methods, ctx.method.as_str()) {
                    FilterResult::Continue
                } else {
                    FilterResult::Stop(FilterReject::MethodNotAllowed)
                }
            },
        }
    }
}

/// A request with a method that its route does not allow is answered with status 405, and
/// no other request is refused for its method.
pub proof fn disallowed_methods_are_refused(ctx: FilterContextView, entries: Entries)
    ensures
        method_decision(ctx, entries) matches FilterResult::Stop(reject) ==> reject_status(reject)
            == 405,
        method_decision(ctx, entries) is Stop <==> (ctx.route_id matches Some(id) && (entry_of(
            entries,
            id,
        ) matches Some(entry) && entry.methods.len() > 0 && !entry.methods.contains(ctx.method))),
{
}

} // verus!
