//! Connection lifecycle and the inbound path.
//!
//! - `on_connect`: a new connection gets a fresh entry.
//! - `on_disconnect`: the entry leaves, the others are told, and the
//!   level host record is cleared if it was the leaving player.
//! - `on_receive`: connect if needed, strip the connection magic, parse
//!   and dispatch the packet.

use vstd::prelude::*;
use crate::protocol::game_msg::GameMsgId;
use crate::protocol::packet::{Packet, PacketId};
use crate::server::model::{
    connect_next, disconnect_step, receive_packet, receive_prepared, receive_safe, receive_step, rpc_tag,
    rpc_tagged,
};
use crate::server::state::lemma_reinsert;
use crate::utils::strip_connection_magic;
use crate::server::peer::PeerEntry;
use crate::server::state::{outs, Outgoing, ServerState};

verus! {

broadcast use vstd::std_specs::hash::group_hash_axioms;

impl ServerState {
    /// Handle a new connection under `key` (0 is the null peer, ignored).
    ///
    /// Creates a [`PeerEntry`] with default values (`player_id = 0`) and
    /// inserts it into the peers table.
    pub fn on_connect(&mut self, key: usize)
        ensures
            final(self)@ == connect_next(old(self)@, key),
    {
        if key == 0 {
            return;
        }
        self.put_peer(key, PeerEntry::new());
    }

    /// Handle a disconnection.
    ///
    /// Removes the peer from the table, broadcasts `PlayerLeft` to the
    /// remaining peers in the game, and clears the level host record if
    /// the leaving player was the host.
    pub fn on_disconnect(&mut self, key: usize) -> (r: Vec<Outgoing>)
        ensures
            disconnect_step(old(self)@, key, final(self)@, outs(r@)),
    {
        let entry = match self.take_peer(key) {
            Some(e) => e,
            None => return Vec::new(),
        };
        let mut body: Vec<u8> = Vec::new();
        body.push(entry.player_id);
        body.push(0);
        let left = Packet::build_packet(PacketId::PlayerLeft, body.as_slice());
        proof {
            assert(body@ =~= seq![entry.player_id, 0u8]);
        }
        let r = self.broadcast_all(0, left.as_slice(), true);
        let was_host = match self.level_hosts.get(&entry.level_id) {
            Some(h) => *h == entry.player_id,
            None => false,
        };
        if was_host {
            self.level_hosts.remove(&entry.level_id);
        }
        r
    }

    /// Unified inbound path for data received from `key` (0 is the null
    /// peer, ignored).
    ///
    /// 1. Ignore empty data.
    /// 2. Connect the peer if it is not in the table (CONNECT and RECEIVE
    ///    events may come out of order).
    /// 3. Strip the connection magic prefix and parse the packet.
    /// 4. Dispatch it to [`handle_packet`](Self::handle_packet).
    pub fn on_receive(&mut self, key: usize, data: &[u8]) -> (r: Vec<Outgoing>)
        requires
            receive_safe(old(self)@, key, data@),
        ensures
            receive_step(old(self)@, key, data@, final(self)@, outs(r@)),
    {
        let none: Vec<Outgoing> = Vec::new();
        proof {
            assert(outs(none@) =~= Seq::empty());
        }
        if key == 0 || data.len() == 0 {
            return none;
        }
        if self.peer(key).is_none() {
            self.on_connect(key);
        }
        let ghost s1 = self@;
        let mut entry = match self.take_peer(key) {
            Some(e) => e,
            None => return none,
        };
        let payload = strip_connection_magic(data, Some(&mut entry));
        self.put_peer(key, entry);
        proof {
            lemma_reinsert(s1, key, entry@);
            assert(self@ == receive_prepared(old(self)@, key, data@));
            assert(payload@ == receive_packet(data@));
        }
        let packet = match Packet::from(payload) {
            Some(p) => p,
            None => return none,
        };
        self.handle_packet(key, packet)
    }

    /// Whether [`on_receive`](Self::on_receive) handles `data` from `key`
    /// without a fault: a known packet type needs its 2-byte header, a
    /// GameMsg packet a message type byte and, for a known type, its 3-byte
    /// header; a NetRpc call its first byte and, when tagged, 10 body bytes
    /// (34 when body byte 9 is 1); a PlayerState message, and a NetLevelData
    /// message from its level's host, 3 payload bytes.
    pub fn receive_is_safe(&self, key: usize, data: &[u8]) -> (r: bool)
        ensures
            r == receive_safe(self@, key, data@),
    {
        if key == 0 || data.len() == 0 {
            return true;
        }
        let pk = strip_connection_magic(data, None);
        let ghost s1 = receive_prepared(self@, key, data@);
        let (player_id, level_id): (u8, u32) = match self.peer(key) {
            Some(e) => (e.player_id, e.level_id),
            None => (0, 0),
        };
        proof {
            assert(pk@ == receive_packet(data@));
            assert(s1.peers.contains_key(key));
            assert(s1.peers[key].player_id == player_id && s1.peers[key].level_id == level_id);
            assert(s1.level_hosts == self@.level_hosts);
        }
        let id = match PacketId::from_u8(pk[0]) {
            Some(id) => id,
            None => return true,
        };
        if pk.len() < 2 {
            return false;
        }
        match id {
            PacketId::GameMsg => {},
            _ => return true,
        }
        let payload = &pk[2..pk.len()];
        if payload.len() < 1 {
            return false;
        }
        let gid = match GameMsgId::from_u8(payload[0]) {
            Some(g) => g,
            None => return true,
        };
        if payload.len() < 3 {
            return false;
        }
        let m = &payload[3..payload.len()];
        proof {
            assert(pk@.skip(2) == payload@);
            assert(payload@.skip(3) == m@);
        }
        match gid {
            GameMsgId::NetRpc => {
                if m.len() < 1 {
                    return false;
                }
                let tagged = m.len() >= 8 && m[1] == 0xb3 && m[2] == 0xb9 && m[3] == 0xd9 && m[4] == 0x20
                    && m[5] == 0x00 && m[6] == 0x24 && m[7] == 0x00;
                proof {
                    let t = m@.subrange(1, 8);
                    if tagged {
                        assert(t =~= rpc_tag());
                    } else if m@.len() >= 8 && t == rpc_tag() {
                        assert(t[0] == m@[1] && t[1] == m@[2] && t[2] == m@[3] && t[3] == m@[4]);
                        assert(t[4] == m@[5] && t[5] == m@[6] && t[6] == m@[7]);
                    }
                    assert(tagged == rpc_tagged(m@));
                }
                if !tagged {
                    return true;
                }
                if m.len() < 11 {
                    return false;
                }
                m[10] != 1 || m.len() >= 35
            },
            GameMsgId::PlayerState => m.len() >= 3,
            GameMsgId::NetLevelData => {
                let hosted = match self.level_hosts.get(&level_id) {
                    Some(h) => *h == player_id,
                    None => false,
                };
                !hosted || m.len() >= 3
            },
            _ => true,
        }
    }
}

} // verus!
