//! The control plane: the state of the gateway, its changes and its Admin API.
pub mod admin_api;
pub mod gateway_state;
pub mod reload;
pub mod watch;
