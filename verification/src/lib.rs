//! Verified core of the Nylon proxy: template expressions, configuration
//! validation, routing tables, plugin protocol decisions and related logic.

pub mod assoc;
pub mod command;
pub mod config;
pub mod error;
pub mod messaging;
pub mod plugin;
pub mod store;
pub mod text;
pub mod text_map;
pub mod tls;
pub mod types;
