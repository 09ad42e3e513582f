//! Kirin Gateway: routing, rate limiting, filters and configuration of an HTTP gateway.
pub mod clock;
pub mod config;
pub mod control_plane;
pub mod data_plane;
pub mod model;
pub mod outside;
pub mod str_map;
pub mod text;
pub mod view_laws;
