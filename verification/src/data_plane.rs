//! The data plane: what happens to a request.
pub mod filter;
pub mod ip;
pub mod middleware;
pub mod proxy;
pub mod rate_limit;
pub mod router;
pub mod upstream;
