//! Values that the plugin system passes around.
use vstd::prelude::*;
use std::collections::HashMap;

verus! {

/// Built-in plugins that are available by default.
#[derive(Debug, Clone, Copy, PartialEq, Eq, Structural)]
pub enum BuiltinPlugin {
    RequestHeaderModifier,
    ResponseHeaderModifier,
}

/// Result of running a plugin.
#[derive(Debug, Clone, Copy, PartialEq, Eq, Structural)]
pub struct PluginResult {
    /// The HTTP exchange ends here.
    pub http_end: bool,
    /// The plugin's stream ends here.
    pub stream_end: bool,
}

impl PluginResult {
    /// A result with the given flags.
    pub fn new(http_end: bool, stream_end: bool) -> (r: PluginResult)
        ensures
            r.http_end == http_end,
            r.stream_end == stream_end,
    {
        PluginResult { http_end, stream_end }
    }

    /// Neither the exchange nor the stream ends.
    pub fn proceed() -> (r: PluginResult)
        ensures
            !r.http_end,
            !r.stream_end,
    {
        PluginResult { http_end: false, stream_end: false }
    }
}

impl Default for PluginResult {
    fn default() -> (r: PluginResult)
        ensures
            !r.http_end,
            !r.stream_end,
    {
        PluginResult::proceed()
    }
}

/// What a plugin call is given.
#[derive(Debug)]
pub struct PluginExecutionContext<'a> {
    pub plugin_name: &'a str,
    pub entry: &'a str,
    pub payload: &'a Option<Vec<u8>>,
    pub params: &'a Option<HashMap<String, String>>,
}

} // verus!
