//! Handling of game messages.

pub mod level;
pub mod net_rpc;
pub mod player_state;
pub mod snapshot_ack;
pub mod utils;

use vstd::prelude::*;
use crate::protocol::game_msg::{GameMsg, GameMsgId};
use crate::server::model::{msg_safe, msg_step};
use crate::server::state::{outs, Outgoing, ServerState};

verus! {

impl ServerState {
    /// Handles a game message from `peer_key`, dispatched by its type.
    ///
    /// NetRpc is relayed to the level, PlayerState decoded, level data,
    /// revokes and acks handled; Critters, MusicSync, NetLevelDataElect and
    /// NetLevelElectionNominee are relayed to the other players of the
    /// level; every other type is ignored.
    pub fn handle_game_msg(&mut self, peer_key: usize, game_msg: GameMsg) -> (r: Vec<Outgoing>)
        requires
            msg_safe(old(self)@, peer_key, game_msg.msg_id, game_msg.payload@),
        ensures
            msg_step(old(self)@, peer_key, game_msg.msg_id, game_msg.payload@, final(self)@, outs(r@)),
    {
        let none: Vec<Outgoing> = Vec::new();
        proof {
            assert(outs(none@) =~= Seq::empty());
        }
        match game_msg.msg_id {
            // NetRpc: forwarded to the players of the level
            GameMsgId::NetRpc => self.handle_net_rpc(peer_key, game_msg),
            // PlayerState uses the snapshot codec
            GameMsgId::PlayerState => {
                self.handle_player_state(peer_key, game_msg);
                none
            },
            GameMsgId::NetLevelDataRevoke => {
                self.handle_level_revoke(peer_key, game_msg);
                none
            },
            GameMsgId::NetLevelData => {
                self.handle_level_data(peer_key, game_msg);
                none
            },
            GameMsgId::SnapshotAck => {
                self.handle_snapshot_ack(peer_key, game_msg);
                none
            },
            // these are forwarded to the same level
            GameMsgId::Critters
            | GameMsgId::MusicSync
            | GameMsgId::NetLevelDataElect
            | GameMsgId::NetLevelElectionNominee => {
                self.relay_game_msg(game_msg.msg_id, game_msg.payload.as_slice(), peer_key)
            },
            _ => none,
        }
    }
}

} // verus!
