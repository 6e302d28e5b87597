//! Server settings: the built-in defaults and the priority between the
//! command line, the config file and those defaults.

use vstd::prelude::*;
use vstd::string::StringExecFns;

verus! {

/// The built-in bind host: all IPv4 interfaces.
pub fn default_host() -> (r: String)
    ensures
        r@ == "0.0.0.0"@,
{
    String::from_str("0.0.0.0")
}

/// The built-in port.
pub fn default_port() -> (r: u16)
    ensures
        r == 5413,
{
    5413
}

/// The `[server]` table of the config file.
pub struct ServerConfig {
    pub host: String,
    pub port: u16,
}

impl Default for ServerConfig {
    /// The built-in host and port.
    fn default() -> (r: Self)
        ensures
            r.host@ == "0.0.0.0"@,
            r.port == 5413,
    {
        ServerConfig { host: default_host(), port: default_port() }
    }
}

/// The config file: its `[server]` table.
pub struct Config {
    pub server: ServerConfig,
}

/// A setting by priority: the command line's, else the config file's,
/// else the built-in one.
pub open spec fn by_priority<T>(cli: Option<T>, config: Option<T>, builtin: T) -> T {
    match cli {
        Some(v) => v,
        None => match config {
            Some(v) => v,
            None => builtin,
        },
    }
}

/// The host to bind to. Priority: command line > config file > built-in
/// default.
pub fn resolve_host(cli_host: Option<String>, config: Option<&Config>) -> (r: String)
    ensures
        r@ == by_priority(
            match cli_host {
                Some(h) => Some(h@),
                None => None,
            },
            match config {
                Some(c) => Some(c.server.host@),
                None => None,
            },
            "0.0.0.0"@,
        ),
{
    match cli_host {
        Some(h) => h,
        None => match config {
            Some(c) => c.server.host.clone(),
            None => default_host(),
        },
    }
}

/// The port to listen on. Priority: command line > config file > built-in
/// default.
pub fn resolve_port(cli_port: Option<u16>, config: Option<&Config>) -> (r: u16)
    ensures
        r == by_priority(
            cli_port,
            match config {
                Some(c) => Some(c.server.port),
                None => None,
            },
            5413u16,
        ),
{
    match cli_port {
        Some(p) => p,
        None => match config {
            Some(c) => c.server.port,
            None => default_port(),
        },
    }
}

} // verus!
