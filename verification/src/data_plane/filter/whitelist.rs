//! The whitelist filter: only registered paths may be requested.
use crate::control_plane::gateway_state::GatewayState;
use crate::data_plane::filter::{
    FilterContext, FilterContextView, FilterName, FilterReject, FilterResult,
};
use crate::data_plane::router::router_white_list::resolve;
use vstd::prelude::*;

verus! {

/// Refuses the paths that are not registered.
pub struct WhiteListFilter;

impl WhiteListFilter {
    /// The name of the filter.
    pub fn name(&self) -> (r: FilterName)
        ensures
            r == FilterName::WhiteList,
    {
        FilterName::WhiteList
    }

    /// What the filter makes of a request; the route of a registered path is noted.
    pub fn request_filter(&self, ctx: &mut FilterContext, state: &GatewayState) -> (r: FilterResult)
        ensures
            match resolve(state@.entries, old(ctx)@.path) {
                None => r == FilterResult::Stop(FilterReject::Forbidden) && final(ctx)@ == old(
                    ctx,
                )@,
                Some(entry) => r == FilterResult::Continue && final(ctx)@ == (FilterContextView {
                    route_id: Some(entry.route_id),
                    ..old(ctx)@
                }),
            },
    {
        match state.resolve_path(ctx.path.as_str()) {
            None => FilterResult::Stop(FilterReject::Forbidden),
            Some(id) => {
                ctx.route_id = Some(id);
                FilterResult::Continue
            },
        }
    }
}

} // verus!
