pub mod plugins;
pub mod proxy;
pub mod runtime;
pub mod services;
pub mod tls;
