pub mod context;
pub mod eval;
pub mod json;
pub mod plugins;
pub mod route;
pub mod services;
pub mod template;
pub mod tls;
pub mod transport;
pub mod websocket;

use vstd::prelude::*;

verus! {

/// Nylon runtime server instance
#[derive(Debug, Clone)]
pub struct NylonRuntime {}

} // verus!
