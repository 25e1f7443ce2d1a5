//! Lookup of the built-in plugins.
use vstd::prelude::*;
use crate::plugin::constants::{REQUEST_HEADER_MODIFIER, RESPONSE_HEADER_MODIFIER};
use crate::plugin::types::BuiltinPlugin;
use crate::types::eval::text_eq;

verus! {

/// The built-in plugin of a name, if there is one.
pub open spec fn spec_builtin(name: Seq<char>) -> Option<BuiltinPlugin> {
    if name == REQUEST_HEADER_MODIFIER@ {
        Some(BuiltinPlugin::RequestHeaderModifier)
    } else if name == RESPONSE_HEADER_MODIFIER@ {
        Some(BuiltinPlugin::ResponseHeaderModifier)
    } else {
        None
    }
}

/// Entry point of plugin lookups.
pub struct PluginManager;

impl PluginManager {
    /// The built-in plugin called `name`.
    pub fn try_builtin(name: &str) -> (r: Option<BuiltinPlugin>)
        ensures
            r == spec_builtin(name@),
    {
        if text_eq(name, REQUEST_HEADER_MODIFIER) {
            Some(BuiltinPlugin::RequestHeaderModifier)
        } else if text_eq(name, RESPONSE_HEADER_MODIFIER) {
            Some(BuiltinPlugin::ResponseHeaderModifier)
        } else {
            None
        }
    }

    /// Whether `name` is the built-in plugin that runs on requests.
    pub fn is_request_filter(name: &str) -> (r: bool)
        ensures
            r == (name@ == REQUEST_HEADER_MODIFIER@),
    {
        text_eq(name, REQUEST_HEADER_MODIFIER)
    }

    /// Whether `name` is the built-in plugin that runs on responses.
    pub fn is_response_filter(name: &str) -> (r: bool)
        ensures
            r == (name@ == RESPONSE_HEADER_MODIFIER@),
    {
        text_eq(name, RESPONSE_HEADER_MODIFIER)
    }
}


/// Where a middleware item runs.
#[derive(Debug, Clone, Copy, PartialEq, Eq, Structural)]
pub enum MiddlewareTarget {
    /// The item names no plugin or no entry: nothing runs.
    Skip,
    /// A built-in plugin.
    Builtin(BuiltinPlugin),
    /// A plugin session.
    Session,
}

/// Where a middleware item with this plugin and entry runs.
pub fn middleware_target(plugin: Option<&str>, entry: Option<&str>) -> (r: MiddlewareTarget)
    ensures
        match (plugin, entry) {
            (Some(p), Some(_)) => match spec_builtin(p@) {
                Some(b) => r == MiddlewareTarget::Builtin(b),
                None => r == MiddlewareTarget::Session,
            },
            _ => r == MiddlewareTarget::Skip,
        },
{
    match (plugin, entry) {
        (Some(p), Some(_)) => match PluginManager::try_builtin(p) {
            Some(b) => MiddlewareTarget::Builtin(b),
            None => MiddlewareTarget::Session,
        },
        _ => MiddlewareTarget::Skip,
    }
}

} // verus!
