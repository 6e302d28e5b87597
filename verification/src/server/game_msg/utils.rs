//! Sending game messages.

use vstd::prelude::*;
use crate::protocol::game_msg::{GameMsg, GameMsgId};
use crate::protocol::packet::{Packet, PacketId};
use crate::server::model::{game_packet, relay_msg, relay_step, relay_to};
use crate::server::state::{
    fan_out, key_order, lemma_fan_out_step, lemma_outs_push, msg_to, outs, Outgoing, ServerState,
};

verus! {

impl ServerState {
    /// Send a game message to the other peers in the level of `peer_key`,
    /// each with its own level sequence number and the sender's player ID.
    pub fn relay_game_msg(&self, msg_id: GameMsgId, payload: &[u8], peer_key: usize) -> (r: Vec<Outgoing>)
        ensures
            relay_step(self@, msg_id, payload@, peer_key, outs(r@)),
    {
        let sender = match self.peer(peer_key) {
            Some(e) => e,
            None => {
                let r: Vec<Outgoing> = Vec::new();
                proof {
                    assert(outs(r@) =~= Seq::empty());
                }
                return r;
            },
        };
        let sender_level = sender.level_id;
        let sender_id = sender.player_id;
        let ks = self.peer_keys();
        let ghost to = relay_to(self@.peers, peer_key);
        let ghost msg = relay_msg(self@.peers, msg_id, sender_id, payload@);
        let mut r: Vec<Outgoing> = Vec::new();
        let mut i: usize = 0;
        while i < ks.len()
            invariant
                i <= ks@.len(),
                key_order(ks@, self@.peers.dom()),
                self@.peers.contains_key(peer_key),
                sender_level == self@.peers[peer_key].level_id,
                to == relay_to(self@.peers, peer_key),
                msg == relay_msg(self@.peers, msg_id, sender_id, payload@),
                outs(r@) == fan_out(ks@.take(i as int), to, msg),
            decreases ks@.len() - i,
        {
            let k = ks[i];
            proof {
                lemma_fan_out_step(ks@, i as int, to, msg);
                assert(ks@.contains(k));
            }
            match self.peer(k) {
                Some(e) => {
                    if k != peer_key && e.level_id == sender_level {
                        let game_msg = GameMsg::new(msg_id, e.lv_seq, sender_id, payload);
                        let data = Packet::build_packet(PacketId::GameMsg, game_msg.build_game_msg().as_slice());
                        let o = Outgoing { peer: k, channel: 0, data, reliable: true };
                        proof {
                            lemma_outs_push(r@, o);
                        }
                        r.push(o);
                    }
                },
                None => {},
            }
            i = i + 1;
        }
        proof {
            assert(ks@.take(ks@.len() as int) =~= ks@);
        }
        r
    }

    /// Send a game message to the peer `to`, if it is connected.
    pub fn send_msg_to(&self, msg: GameMsg, to: usize) -> (r: Vec<Outgoing>)
        ensures
            outs(r@) == if self@.peers.contains_key(to) {
                seq![msg_to(to, game_packet(msg.msg_id, msg.level_seq, msg.source_player, msg.payload@))]
            } else {
                Seq::empty()
            },
    {
        let data = Packet::build_packet(PacketId::GameMsg, msg.build_game_msg().as_slice());
        let mut r: Vec<Outgoing> = Vec::new();
        if self.peer(to).is_some() {
            r.push(Outgoing { peer: to, channel: 0, data, reliable: true });
        }
        proof {
            assert(outs(r@) =~= if self@.peers.contains_key(to) {
                seq![msg_to(to, game_packet(msg.msg_id, msg.level_seq, msg.source_player, msg.payload@))]
            } else {
                Seq::empty()
            });
        }
        r
    }
}

} // verus!
