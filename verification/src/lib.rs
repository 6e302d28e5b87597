//! Wire protocol, snapshot compression and connection logic of the
//! ColorSky UDP game server.

pub mod config;
pub mod protocol;
pub mod utils;
pub mod server;
