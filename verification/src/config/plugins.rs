//! Plugin declarations of the configuration files.
use vstd::prelude::*;

verus! {

#[derive(Debug, Clone, Copy, PartialEq, Eq, Structural)]
pub enum PluginType {
    Wasm,
    Ffi,
}

#[derive(Debug, Clone)]
pub struct LifeCycle {
    pub setup: Option<bool>,
    pub shutdown: Option<bool>,
}

#[derive(Debug, Clone)]
pub struct PluginItem {
    pub name: String,
    pub file: String,
    pub plugin_type: PluginType,
    pub entry: Option<Vec<String>>,
    pub life_cycle: Option<LifeCycle>,
}

} // verus!
