//! Arguments of the `admin` subcommand of the command line client.

use vstd::prelude::*;

verus! {

/// Where the client sends its requests, and with which credentials.
#[derive(Debug)]
pub struct CliBackend {
    /// Backend host URL.
    pub host: Option<String>,
    /// User API token.
    pub token: Option<String>,
}

/// The server administration commands.
#[derive(Debug)]
pub enum CliAdmin {
    /// Restart server
    Restart(CliAdminRestart),
    /// Manage server config
    Config(CliConfig),
}

/// Arguments of `admin restart`.
#[derive(Debug)]
pub struct CliAdminRestart {
    /// Server restart delay seconds (default: 3)
    pub delay: Option<u64>,
    pub backend: CliBackend,
}

/// The server configuration commands.
#[derive(Debug)]
pub enum CliConfig {
    /// Update server config and restart
    Update(CliConfigUpdate),
    /// View server config
    View(CliConfigView),
}

/// Arguments of `admin config update`.
#[derive(Debug)]
pub struct CliConfigUpdate {
    /// New server config
    pub config: String,
    /// Server restart delay seconds (default: 3)
    pub delay: Option<u64>,
    pub backend: CliBackend,
}

/// Arguments of `admin config view`.
#[derive(Debug)]
pub struct CliConfigView {
    pub backend: CliBackend,
}

} // verus!
