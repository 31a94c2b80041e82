//! The devices of the local owner as a service keeps them, and what it asks of
//! its surroundings.
pub mod app_keys_api;
pub mod app_keys_flow;
pub mod app_keys_manager;
pub mod properties;
pub mod runtime_api;
