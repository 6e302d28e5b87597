//! LevelUpdate: a player moves between levels.

use vstd::prelude::*;
use crate::protocol::packet::{Packet, PacketId};
use crate::protocol::packet::framed;
use crate::server::model::{elect_next, hosted_by, in_level, level_update_step, same_msg};
use crate::server::peer::PeerModel;
use crate::server::state::{sent_once_per_uuid, with_peer, ServerModel};
use crate::server::state::{lemma_outs_add, lemma_reinsert, outs, Outgoing, ServerState};
use crate::utils::bytes::{append_bytes, read_le32};

verus! {

broadcast use vstd::std_specs::hash::group_hash_axioms;

impl ServerState {
    /// Handles a LevelUpdate packet from `peer_key`.
    ///
    /// Every LevelUpdate steps the peer's level sequence number (wrapping
    /// at 256). The level is read from payload bytes 14..18; when it
    /// changed, the players of the old and the new level (but the mover)
    /// are told `PlayerChangedLevel`, once per UUID, and the old level
    /// loses its host if the mover was it. Then the peer is sent the level
    /// election.
    pub fn handle_level_update(&mut self, peer_key: usize, payload: &[u8]) -> (r: Vec<Outgoing>)
        ensures
            level_update_step(old(self)@, peer_key, payload@, final(self)@, outs(r@)),
    {
        let ghost s = old(self)@;
        let mut peer = match self.take_peer(peer_key) {
            Some(e) => e,
            None => return Vec::new(),
        };
        let ghost p0 = peer@;
        // each level update packet increases it
        peer.lv_seq = if peer.lv_seq == 255 { 0 } else { peer.lv_seq + 1 };
        let ghost p1 = PeerModel { lv_seq: ((p0.lv_seq + 1) % 256) as u8, ..p0 };
        proof {
            assert(peer@ == p1);
        }
        if payload.len() < 18 {
            self.put_peer(peer_key, peer);
            proof {
                lemma_reinsert(old(self)@, peer_key, peer@);
            }
            return Vec::new();
        }
        let new_level = read_le32(payload, 14);
        let old_level = peer.level_id;
        if old_level != new_level {
            let player_id = peer.player_id;
            peer.level_id = new_level;
            self.put_peer(peer_key, peer);
            proof {
                lemma_reinsert(old(self)@, peer_key, peer@);
            }
            let mut body: Vec<u8> = Vec::new();
            body.push(player_id);
            append_bytes(&mut body, &payload[14..18]);
            let changed = Packet::build_packet(PacketId::PlayerChangedLevel, body.as_slice());
            let ghost s2 = with_peer(s, peer_key, PeerModel { level_id: new_level, ..p1 });
            proof {
                assert(self@ == s2);
                assert(body@ =~= seq![p0.player_id] + payload@.subrange(14, 18));
            }
            // Notify players in both the old and new levels.
            let mut r = self.broadcast_same_level_without(0, changed.as_slice(), true, old_level, player_id);
            let mut r2 = self.broadcast_same_level_without(0, changed.as_slice(), true, new_level, player_id);
            let ghost a = outs(r@);
            let ghost b = outs(r2@);
            // the host of the old level leaves it
            let was_host = match self.level_hosts.get(&old_level) {
                Some(h) => *h == player_id,
                None => false,
            };
            if was_host {
                self.level_hosts.remove(&old_level);
            }
            let ghost s3 = ServerModel {
                level_hosts: if hosted_by(s, p0.level_id, p0.player_id) {
                    s.level_hosts.remove(p0.level_id)
                } else {
                    s.level_hosts
                },
                ..s2
            };
            proof {
                assert(self@ == s3);
            }
            let mut r3 = self.send_elect_to(peer_key);
            let ghost ra = r@;
            let ghost rb = r2@;
            r.append(&mut r2);
            let ghost rab = r@;
            let ghost rc = r3@;
            r.append(&mut r3);
            proof {
                lemma_outs_add(ra, rb);
                lemma_outs_add(rab, rc);
                let data = framed(PacketId::PlayerChangedLevel, seq![p0.player_id] + payload@.subrange(14, 18));
                assert(sent_once_per_uuid(a, s2.peers.dom(), s2.peers, in_level(s2.peers, p0.level_id, Some(p0.player_id)), same_msg(data)));
                assert(sent_once_per_uuid(b, s2.peers.dom(), s2.peers, in_level(s2.peers, new_level, Some(p0.player_id)), same_msg(data)));
                assert(outs(r@) == a + b + elect_next(s3, peer_key).1);
            }
            r
        } else {
            self.put_peer(peer_key, peer);
            proof {
                lemma_reinsert(old(self)@, peer_key, peer@);
                assert(self@ == with_peer(s, peer_key, p1));
            }
            self.send_elect_to(peer_key)
        }
    }
}

} // verus!
