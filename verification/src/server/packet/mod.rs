//! Handling of the top-level packets.

pub mod join;
pub mod level_update;
pub mod ping;
pub mod utils;

use vstd::prelude::*;
use crate::protocol::game_msg::GameMsg;
use crate::protocol::packet::{Packet, PacketId};
use crate::server::model::{packet_safe, packet_step};
use crate::server::state::{outs, Outgoing, ServerState};

verus! {

impl ServerState {
    /// Handles a packet from `peer_key`, dispatched by its type.
    ///
    /// ClientConnect is empty and ignored; JoinGame, LevelUpdate and
    /// GameMsg (a known message type) are handled; every other type is
    /// ignored.
    pub fn handle_packet(&mut self, peer_key: usize, packet: Packet) -> (r: Vec<Outgoing>)
        requires
            packet_safe(old(self)@, peer_key, packet.packet_id, packet.payload@),
        ensures
            packet_step(old(self)@, peer_key, packet.packet_id, packet.payload@, final(self)@, outs(r@)),
    {
        let none: Vec<Outgoing> = Vec::new();
        proof {
            assert(outs(none@) =~= Seq::empty());
        }
        match packet.packet_id {
            // JoinGame carries the player's UUID, session and level.
            PacketId::JoinGame => self.handle_join_game(peer_key, packet.payload.as_slice()),
            PacketId::LevelUpdate => self.handle_level_update(peer_key, packet.payload.as_slice()),
            // GameMsg is handled by the game message module.
            PacketId::GameMsg => match GameMsg::from(packet.payload.as_slice()) {
                Some(game_msg) => self.handle_game_msg(peer_key, game_msg),
                None => none,
            },
            _ => none,
        }
    }
}

} // verus!
