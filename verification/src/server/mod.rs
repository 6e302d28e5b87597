//! Connection state and message routing of the game server.
//!
//! The handlers decide; they return the messages to send as
//! [`Outgoing`](state::Outgoing) values, which the ENet event loop outside
//! this library transmits.

pub mod game_msg;
pub mod laws;
pub mod model;
pub mod packet;
pub mod peer;
pub mod receive;
pub mod state;
pub mod tick;
