//! Middleware: what is done to every request and to every response, without a decision.
use crate::data_plane::filter::header::{
    gateway_header, gateway_mark, powered_by, powered_by_header,
};
use crate::data_plane::filter::HeaderChange;
use crate::text::{decimal, decimal_text, join2, join3};
use vstd::prelude::*;

verus! {

/// Marks requests and responses as going through the gateway.
pub struct HeaderMiddleware;

impl HeaderMiddleware {
    /// The name of the middleware.
    pub fn name(&self) -> (r: &str)
        ensures
            r@ == "header-middleware"@,
    {
        "header-middleware"
    }

    /// The header that is set on every request.
    pub fn request_filter(&self) -> (r: HeaderChange)
        ensures
            r@ == gateway_mark(),
    {
        gateway_header()
    }

    /// The header that is set on every response.
    pub fn response_filter(&self) -> (r: HeaderChange)
        ensures
            r@ == powered_by(),
    {
        powered_by_header()
    }
}

/// Writes a line for each request and for each response.
pub struct LoggingMiddleware;

impl LoggingMiddleware {
    /// The name of the middleware.
    pub fn name(&self) -> (r: &str)
        ensures
            r@ == "logging-middleware"@,
    {
        "logging-middleware"
    }

    /// The line for a request; its path, with the query, is "/" where it has none.
    pub fn request_filter(&self, method: &str, path: Option<&str>) -> (r: String)
        ensures
            r@ == "[LoggingMiddleware] "@ + method@ + " "@ + (match path {
                Some(p) => p@,
                None => "/"@,
            }),
    {
        let mut line = join3("[LoggingMiddleware] ", method, " ");
        match path {
            Some(p) => line.append(p),
            None => line.append("/"),
        }
        line
    }

    /// The line for a response.
    pub fn response_filter(&self, status: u16) -> (r: String)
        ensures
            r@ == "[LoggingMiddleware] Response status: "@ + decimal(status as nat),
    {
        join2("[LoggingMiddleware] Response status: ", decimal_text(status as u64).as_str())
    }
}

} // verus!
