//! Configuration of the gateway: its types and its validation.
pub mod types;
pub mod validation;
pub mod validation_laws;
