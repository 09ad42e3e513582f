//! The logging filter: one line for each request and for each response.
use crate::data_plane::filter::{FilterContext, FilterName, FilterResult};
use crate::text::{decimal, decimal_text, join2, join3};
use vstd::prelude::*;

verus! {

/// Writes a line for each request and for each response.
pub struct LoggingFilter;

impl LoggingFilter {
    /// The name of the filter.
    pub fn name(&self) -> (r: FilterName)
        ensures
            r == FilterName::Logging,
    {
        FilterName::Logging
    }

    /// Every request goes on; with it the line to be written.
    pub fn request_filter(&self, ctx: &FilterContext) -> (r: (FilterResult, String))
        ensures
            r.0 == FilterResult::Continue,
            r.1@ == "[LoggingFilter] "@ + ctx@.method + " "@ + ctx@.path,
    {
        let mut line = join3("[LoggingFilter] ", ctx.method.as_str(), " ");
        line.append(ctx.path.as_str());
        (FilterResult::Continue, line)
    }

    /// The line to be written for a response.
    pub fn response_filter(&self, status: u16) -> (r: String)
        ensures
            r@ == "[LoggingFilter] Response status: "@ + decimal(status as nat),
    {
        join2("[LoggingFilter] Response status: ", decimal_text(status as u64).as_str())
    }
}

} // verus!
