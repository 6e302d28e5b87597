//! Level hosts and level data.

use vstd::prelude::*;
use crate::protocol::game_msg::level_data::LevelData;
use crate::protocol::game_msg::{GameMsg, GameMsgId};
use crate::protocol::packet::{Packet, PacketId};
use crate::server::model::{
    elect_next, fresh_level_data, has_host, heartbeat_next, level_data_next, level_sync_msg,
    level_sync_peers, level_sync_to, hosted_by, revoke_step, successor, sync_level_step,
};
use crate::server::model::{level_msg, level_synced};
use crate::server::state::{with_peer, 
    fan_out, key_order, lemma_fan_out_step, lemma_outs_push, lemma_reinsert, outs, Outgoing,
    ServerModel, ServerState,
};

verus! {

broadcast use vstd::std_specs::hash::group_hash_axioms;

impl ServerState {
    /// Send the level election to the peer `to`.
    ///
    /// Its level writer restarts; its level gets a host (the present one,
    /// else its player) and level data (a fresh one if none) naming that
    /// host as elected player; the level data goes to the peer in a
    /// `NetLevelDataElect` message.
    pub fn send_elect_to(&mut self, to: usize) -> (r: Vec<Outgoing>)
        ensures
            (final(self)@, outs(r@)) == elect_next(old(self)@, to),
    {
        proof {
            reveal(elect_next);
        }
        let mut peer = match self.take_peer(to) {
            Some(e) => e,
            None => {
                let r: Vec<Outgoing> = Vec::new();
                proof {
                    assert(outs(r@) =~= Seq::empty());
                }
                return r;
            },
        };
        let ghost s = old(self)@;
        let ghost p = peer@;
        peer.level_delta.snap_writer.force_keyframe();
        let level_id = peer.level_id;
        let host: u8 = match self.level_hosts.get(&level_id) {
            Some(h) => *h,
            None => {
                self.level_hosts.insert(level_id, peer.player_id);
                peer.player_id
            },
        };
        proof {
            assert(self.level_hosts@ =~= s.level_hosts.insert(level_id, host));
        }
        let mut level_data = match self.take_level(level_id) {
            Some(d) => d,
            None => {
                let empty: Vec<u8> = Vec::new();
                let d = LevelData::new(host, level_id, 0, empty.as_slice());
                proof {
                    assert(d@ == fresh_level_data(host, level_id));
                }
                d
            },
        };
        level_data.header.set_elected_player(host);
        let bytes = level_data.to_bytes();
        let snap = peer.level_delta.snap_writer.generate_delta(bytes.as_slice());
        let msg = GameMsg::new(GameMsgId::NetLevelDataElect, peer.lv_seq, 0, snap.as_slice());
        self.put_level(level_id, level_data);
        self.put_peer(to, peer);
        proof {
            lemma_reinsert(ServerModel { levels_data: self@.levels_data, level_hosts: self@.level_hosts, ..s }, to, peer@);
            assert(self@.levels_data =~= s.levels_data.remove(level_id).insert(level_id, level_data@));
            assert(s.levels_data.remove(level_id).insert(level_id, level_data@) =~= s.levels_data.insert(level_id, level_data@));
        }
        self.send_msg_to(msg, to)
    }

    /// Handles a NetLevelData message from `peer_key`.
    ///
    /// Only the host of the sender's level is heard: its level reader
    /// decodes the frame; on success a non-zero save sequence is recorded
    /// for acknowledgment, and decoded bytes that parse as level data
    /// update the stored level data of that level, if it has any.
    pub fn handle_level_data(&mut self, peer_key: usize, msg: GameMsg)
        requires
            old(self)@.peers.contains_key(peer_key) && hosted_by(
                old(self)@,
                old(self)@.peers[peer_key].level_id,
                old(self)@.peers[peer_key].player_id,
            ) ==> msg.payload@.len() >= 3,
        ensures
            final(self)@ == level_data_next(old(self)@, peer_key, msg.payload@),
    {
        let mut peer = match self.take_peer(peer_key) {
            Some(e) => e,
            None => return,
        };
        let ghost p = peer@;
        let is_host = match self.level_hosts.get(&peer.level_id) {
            Some(h) => *h == peer.player_id,
            None => false,
        };
        if !is_host {
            // only the level host can send level data
            self.put_peer(peer_key, peer);
            proof {
                lemma_reinsert(old(self)@, peer_key, p);
                assert(old(self)@.peers.insert(peer_key, p) =~= old(self)@.peers);
            }
            return;
        }
        let save_seq = msg.payload[0];
        let raw_level_data = match peer.level_delta.snap_reader.apply_delta(msg.payload.as_slice()) {
            Some(raw) => raw,
            None => {
                self.put_peer(peer_key, peer);
                proof {
                    lemma_reinsert(old(self)@, peer_key, peer@);
                }
                return;
            },
        };
        // ack will reply by tick
        if save_seq != 0 {
            peer.level_delta.snapshot_ack = Some(save_seq);
        }
        let level_id = peer.level_id;
        self.put_peer(peer_key, peer);
        proof {
            lemma_reinsert(old(self)@, peer_key, peer@);
        }
        let level_data = match LevelData::from_bytes(raw_level_data.as_slice()) {
            Some(d) => d,
            None => return,
        };
        let ghost s1 = self@;
        let mut last_level_data = match self.take_level(level_id) {
            Some(d) => d,
            None => return,
        };
        last_level_data.update(&level_data);
        self.put_level(level_id, last_level_data);
        proof {
            assert(self@.levels_data =~= s1.levels_data.insert(level_id, last_level_data@));
        }
    }

    /// Handles a NetLevelDataRevoke message from `peer_key`.
    ///
    /// Nothing happens unless the sender's level has a host. The host
    /// leaves if it is the sender; the first other player of that level
    /// (in the table's order), if any, becomes the host.
    pub fn handle_level_revoke(&mut self, peer_key: usize, _msg: GameMsg)
        ensures
            revoke_step(old(self)@, peer_key, final(self)@),
    {
        let ghost s = self@;
        let (level_id, player_id) = match self.peer(peer_key) {
            Some(e) => (e.level_id, e.player_id),
            None => return,
        };
        let host = match self.level_hosts.get(&level_id) {
            Some(h) => *h,
            None => return,
        };
        if host == player_id {
            self.level_hosts.remove(&level_id);
        }
        let ks = self.peer_keys();
        let mut next: Option<u8> = None;
        let ghost mut chosen: usize = 0;
        let mut i: usize = 0;
        while i < ks.len()
            invariant
                i <= ks@.len(),
                key_order(ks@, s.peers.dom()),
                self@.peers == s.peers,
                s.peers.contains_key(peer_key),
                level_id == s.peers[peer_key].level_id,
                player_id == s.peers[peer_key].player_id,
                next is None ==> forall|j: int| 0 <= j < i ==> !successor(s, s.peers[peer_key], #[trigger] ks@[j]),
                next matches Some(x) ==> successor(s, s.peers[peer_key], chosen) && x == s.peers[chosen].player_id,
            ensures
                next is None ==> i >= ks@.len(),
            decreases ks@.len() - i,
        {
            let k = ks[i];
            proof {
                assert(ks@.contains(k));
            }
            match self.peer(k) {
                Some(e) => {
                    if e.level_id == level_id && e.player_id != player_id {
                        next = Some(e.player_id);
                        proof {
                            chosen = k;
                        }
                        break;
                    }
                },
                None => {},
            }
            i = i + 1;
        }
        match next {
            Some(x) => {
                self.level_hosts.insert(level_id, x);
                proof {
                    assert(self.level_hosts@ =~= s.level_hosts.insert(level_id, x));
                    assert(self@ == (ServerModel { level_hosts: s.level_hosts.insert(level_id, s.peers[chosen].player_id), ..s }));
                }
            },
            None => {
                proof {
                    assert forall|c: usize| !successor(s, s.peers[peer_key], c) by {
                        if successor(s, s.peers[peer_key], c) {
                            assert(ks@.contains(c));
                            let j = choose|j: int| 0 <= j < ks@.len() && ks@[j] == c;
                            assert(!successor(s, s.peers[peer_key], ks@[j]));
                        }
                    }
                }
            },
        }
    }

    /// Handles a NetLevelDataHeartbeat from `peer_key`: the sender becomes
    /// the host of its level if the level has none.
    pub fn handle_level_heart_beat(&mut self, peer_key: usize, _msg: GameMsg)
        ensures
            final(self)@ == heartbeat_next(old(self)@, peer_key),
    {
        let (level_id, player_id) = match self.peer(peer_key) {
            Some(e) => (e.level_id, e.player_id),
            None => return,
        };
        if self.level_hosts.get(&level_id).is_none() {
            self.level_hosts.insert(level_id, player_id);
        }
    }

    /// One peer of the level data tick: `None`, and no change, when its
    /// level has no host; otherwise, unless it is the host or its level
    /// has no data, its level writer encodes the level's data for it.
    fn level_sync_peer(&mut self, k: usize) -> (r: Option<Option<Outgoing>>)
        requires
            old(self)@.peers.contains_key(k),
        ensures
            ({
                let s = old(self)@;
                let p = s.peers[k];
                match r {
                    None => !has_host(s, p) && final(self)@ == s,
                    Some(o) => {
                        &&& has_host(s, p)
                        &&& final(self)@ == with_peer(
                            s,
                            k,
                            if level_sync_to(s)(k) {
                                level_synced(p, s.levels_data[p.level_id])
                            } else {
                                p
                            },
                        )
                        &&& match o {
                            Some(m) => level_sync_to(s)(k) && m@ == level_msg(k, p, s.levels_data[p.level_id]),
                            None => !level_sync_to(s)(k),
                        }
                    },
                }
            }),
    {
        proof {
            reveal(level_synced);
            reveal(level_msg);
        }
        let mut peer = match self.take_peer(k) {
            Some(e) => e,
            None => return None,
        };
        let ghost p = peer@;
        let host = match self.level_hosts.get(&peer.level_id) {
            Some(h) => *h,
            None => {
                self.put_peer(k, peer);
                proof {
                    lemma_reinsert(old(self)@, k, p);
                    assert(old(self)@.peers.insert(k, p) =~= old(self)@.peers);
                }
                return None;
            },
        };
        let mut sent: Option<Outgoing> = None;
        if peer.player_id != host {
            match self.level_data(peer.level_id) {
                Some(level_data) => {
                    let bytes = level_data.to_bytes();
                    let snap = peer.level_delta.snap_writer.generate_delta(bytes.as_slice());
                    let game_msg = GameMsg::new(GameMsgId::NetLevelData, peer.lv_seq, 0, snap.as_slice());
                    let data = Packet::build_packet(PacketId::GameMsg, game_msg.build_game_msg().as_slice());
                    sent = Some(Outgoing { peer: k, channel: 0, data, reliable: true });
                },
                None => {},
            }
        }
        self.put_peer(k, peer);
        proof {
            lemma_reinsert(old(self)@, k, peer@);
            if !level_sync_to(old(self)@)(k) {
                assert(old(self)@.peers.insert(k, p) =~= old(self)@.peers);
            }
        }
        Some(sent)
    }

    /// Sync level data, called by the server tick.
    ///
    /// The peers are walked in the table's order, stopping at the first
    /// whose level has no host; each walked peer that is not its level's
    /// host is sent its level's data (when the level has data), encoded
    /// by its level writer.
    pub fn sync_level(&mut self) -> (r: Vec<Outgoing>)
        ensures
            sync_level_step(old(self)@, final(self)@, outs(r@)),
    {
        let ghost s = self@;
        let ks = self.peer_keys();
        let ghost to = level_sync_to(s);
        let ghost msg = level_sync_msg(s);
        let mut r: Vec<Outgoing> = Vec::new();
        let mut i: usize = 0;
        while i < ks.len()
            invariant
                i <= ks@.len(),
                old(self)@ == s,
                key_order(ks@, s.peers.dom()),
                to == level_sync_to(s),
                msg == level_sync_msg(s),
                forall|j: int| 0 <= j < i ==> has_host(s, #[trigger] s.peers[ks@[j]]),
                self@ == (ServerModel { peers: level_sync_peers(s, ks@, i as int), ..s }),
                outs(r@) == fan_out(ks@.take(i as int), to, msg),
            decreases ks@.len() - i,
        {
            let k = ks[i];
            proof {
                lemma_fan_out_step(ks@, i as int, to, msg);
                assert(ks@.contains(k));
                assert(!ks@.take(i as int).contains(k));
                assert(ks@.take(i + 1) =~= ks@.take(i as int).push(k));
            }
            let ghost before = self@;
            match self.level_sync_peer(k) {
                None => {
                    proof {
                        assert(before.peers[k] == s.peers[k]);
                    }
                    return r;
                },
                Some(sent) => {
                    match sent {
                        Some(o) => {
                            proof {
                                lemma_outs_push(r@, o);
                            }
                            r.push(o);
                        },
                        None => {},
                    }
                },
            }
            proof {
                assert(self@.peers =~= level_sync_peers(s, ks@, i + 1));
            }
            i = i + 1;
        }
        proof {
            assert(ks@.take(ks@.len() as int) =~= ks@);
        }
        r
    }
}

} // verus!
