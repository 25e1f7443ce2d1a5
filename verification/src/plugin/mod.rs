//! The plugin system: protocol codes, method handling and plugin sessions.
pub mod constants;
pub mod manager;
pub mod types;
pub mod messaging;
pub mod session;
pub mod messaging_methods;
pub mod transport_handler;
pub mod header_modifier;
pub mod cache;
