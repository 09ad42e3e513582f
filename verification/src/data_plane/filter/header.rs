//! The header filter: responses name the gateway.
use crate::data_plane::filter::{FilterName, FilterResult, HeaderChange, HeaderChangeView};
use vstd::prelude::*;

verus! {

/// Marks responses as coming through the gateway. Requests are marked when they are
/// sent on, since only then do changes reach the upstream service.
pub struct HeaderFilter;

/// The header that marks responses.
pub open spec fn powered_by() -> HeaderChangeView {
    HeaderChangeView { name: "X-Powered-By"@, value: "Kirin Gateway"@ }
}

/// The header that marks requests to upstream services.
pub open spec fn gateway_mark() -> HeaderChangeView {
    HeaderChangeView { name: "X-Gateway"@, value: "Kirin Gateway"@ }
}

/// The header that marks responses.
pub fn powered_by_header() -> (r: HeaderChange)
    ensures
        r@ == powered_by(),
{
    HeaderChange { name: "X-Powered-By".to_owned(), value: "Kirin Gateway".to_owned() }
}

/// The header that marks requests to upstream services.
pub fn gateway_header() -> (r: HeaderChange)
    ensures
        r@ == gateway_mark(),
{
    HeaderChange { name: "X-Gateway".to_owned(), value: "Kirin Gateway".to_owned() }
}

impl HeaderFilter {
    /// The name of the filter.
    pub fn name(&self) -> (r: FilterName)
        ensures
            r == FilterName::Header,
    {
        FilterName::Header
    }

    /// Every request goes on.
    pub fn request_filter(&self) -> (r: FilterResult)
        ensures
            r == FilterResult::Continue,
    {
        FilterResult::Continue
    }

    /// The header that is set on every response.
    pub fn response_filter(&self) -> (r: HeaderChange)
        ensures
            r@ == powered_by(),
    {
        powered_by_header()
    }
}

/// Responses and requests are marked under different names with the name of the gateway.
pub proof fn traffic_is_marked()
    ensures
        powered_by().name == "X-Powered-By"@,
        gateway_mark().name == "X-Gateway"@,
        powered_by().value == "Kirin Gateway"@,
        gateway_mark().value == "Kirin Gateway"@,
{
}

} // verus!
