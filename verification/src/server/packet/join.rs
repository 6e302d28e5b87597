//! JoinGame: a player announces its UUID and level.

use vstd::prelude::*;
use crate::protocol::packet::{Packet, PacketId};
use crate::protocol::types::TgcUuid;
use crate::server::model::{join_step, roster, roster_entry, enter_game_payload};
use crate::server::state::{key_order, lemma_reinsert, outs, Outgoing, ServerState};
use crate::utils::bytes::{append_bytes, copy_range, push_le32, read_le32};
use crate::utils::fnv1a_player_id;

verus! {

impl ServerState {
    /// Handles a JoinGame packet from `peer_key`.
    ///
    /// The peer takes the UUID of the payload's first 16 bytes, the player
    /// ID hashed from it and the level of the last 4 bytes; then everyone
    /// else in the game (every peer with another player ID) is sent
    /// `EnterGame` with the roster of all peers.
    pub fn handle_join_game(&mut self, peer_key: usize, payload: &[u8]) -> (r: Vec<Outgoing>)
        ensures
            join_step(old(self)@, peer_key, payload@, final(self)@, outs(r@)),
    {
        if payload.len() < 16 {
            return Vec::new();
        }
        let mut peer = match self.take_peer(peer_key) {
            Some(e) => e,
            None => return Vec::new(),
        };
        let ghost p0 = peer@;
        let uuid_bytes = copy_range(payload, 0, 16);
        let tgc_uuid = match TgcUuid::from(uuid_bytes.as_slice()) {
            Some(u) => u,
            None => {
                self.put_peer(peer_key, peer);
                proof {
                    lemma_reinsert(old(self)@, peer_key, p0);
                    assert(old(self)@.peers.insert(peer_key, p0) =~= old(self)@.peers);
                }
                return Vec::new();
            },
        };
        let level_id = read_le32(payload, payload.len() - 4);
        let player_id = fnv1a_player_id(&tgc_uuid.raw());
        peer.player_id = player_id;
        peer.uuid = tgc_uuid;
        peer.level_id = level_id;
        self.put_peer(peer_key, peer);
        proof {
            lemma_reinsert(old(self)@, peer_key, peer@);
        }
        let count = self.peer_count();
        let ks = self.peer_keys();
        let mut body: Vec<u8> = Vec::new();
        body.push((count % 256) as u8);
        let mut i: usize = 0;
        while i < ks.len()
            invariant
                i <= ks@.len(),
                key_order(ks@, self@.peers.dom()),
                count == self@.peers.dom().len(),
                body@ == seq![(count % 256) as u8] + roster(ks@.take(i as int), self@.peers),
            decreases ks@.len() - i,
        {
            let k = ks[i];
            proof {
                assert(ks@.contains(k));
                assert(ks@.take(i + 1).drop_last() =~= ks@.take(i as int));
            }
            match self.peer(k) {
                Some(e) => {
                    let ghost before = body@;
                    body.push(e.player_id);
                    let raw = e.uuid.raw();
                    append_bytes(&mut body, &raw);
                    let zeros = [0u8; 16];
                    append_bytes(&mut body, &zeros);
                    push_le32(&mut body, e.level_id);
                    proof {
                        assert(zeros@ =~= Seq::new(16, |_j: int| 0u8));
                        assert(body@ =~= before + roster_entry(e@));
                    }
                },
                None => {},
            }
            i = i + 1;
        }
        proof {
            assert(ks@.take(ks@.len() as int) =~= ks@);
            assert(body@ == enter_game_payload(ks@, self@.peers));
        }
        let packet = Packet::build_packet(PacketId::EnterGame, body.as_slice());
        self.broadcast_all_without(player_id, 0, packet.as_slice(), true)
    }
}

} // verus!
