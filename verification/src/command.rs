//! The command line of the proxy: what can be asked of it.
use vstd::prelude::*;

verus! {

/// The parsed command line.
#[derive(Debug)]
pub struct Cli {
    pub command: Commands,
}

/// What to do.
#[derive(Debug)]
pub enum Commands {
    /// Manage the proxy daemon service (install, start, stop, etc.)
    Service(ServiceCommands),
    /// Run the proxy server with a config file
    Run { config: String },
}

/// What to do with the daemon service.
#[derive(Debug, Clone, Copy, PartialEq, Eq, Structural)]
pub enum ServiceCommands {
    Install,
    Uninstall,
    Start,
    Stop,
    Restart,
    Status,
    Reload,
}

/// The configuration file used when `run` names none.
pub const DEFAULT_CONFIG_PATH: &'static str = "/etc/nylon/config.yaml";

} // verus!
