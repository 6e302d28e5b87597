//! Player state: decoding the players' frames and the periodic fan-out of
//! every player's state to the others in its level.

use vstd::prelude::*;
use crate::protocol::game_msg::{GameMsg, GameMsgId};
use crate::protocol::packet::{Packet, PacketId};
use crate::server::model::{
    frame_msg, frame_of, frame_peers, frame_to, game_packet, player_state_next, sync_frame_step,
    with_writer,
};
use crate::server::peer::PeerModel;
use crate::server::state::{
    fan_out, key_order, lemma_fan_out_step, lemma_outs_push, lemma_reinsert, msg_to, outs, with_peer,
    Outgoing, ServerModel, ServerState,
};
use crate::utils::bytes::{append_bytes, copy_range, le32, push_le32};
use crate::utils::snapshot::writer_generate;

verus! {

/// The states of the peers of `ks` that have one, in that order:
/// `(player_id, level_id, state)`.
spec fn state_list(ks: Seq<usize>, peers: Map<usize, PeerModel>) -> Seq<(u8, u32, Seq<u8>)>
    decreases ks.len(),
{
    if ks.len() == 0 {
        Seq::empty()
    } else {
        let rest = state_list(ks.drop_last(), peers);
        let q = peers[ks.last()];
        if q.player.raw_state.len() > 0 {
            rest.push((q.player_id, q.level_id, q.player.raw_state))
        } else {
            rest
        }
    }
}

/// The frame for player `pid` in `level` built from a list of states.
spec fn frame_from(list: Seq<(u8, u32, Seq<u8>)>, pid: u8, level: u32) -> Seq<u8>
    decreases list.len(),
{
    if list.len() == 0 {
        Seq::empty()
    } else {
        let rest = frame_from(list.drop_last(), pid, level);
        let e = list.last();
        if e.0 != pid && e.1 == level {
            rest + (seq![e.0] + le32(e.2.len() as u32) + e.2)
        } else {
            rest
        }
    }
}

/// The views of a list of collected states.
spec fn states_view(v: Seq<(u8, u32, Vec<u8>)>) -> Seq<(u8, u32, Seq<u8>)> {
    v.map_values(|t: (u8, u32, Vec<u8>)| (t.0, t.1, t.2@))
}

/// A frame is the frame built from the list of states.
proof fn lemma_frame_from_list(ks: Seq<usize>, peers: Map<usize, PeerModel>, p: PeerModel)
    ensures
        frame_of(ks, peers, p) == frame_from(state_list(ks, peers), p.player_id, p.level_id),
    decreases ks.len(),
{
    if ks.len() > 0 {
        lemma_frame_from_list(ks.drop_last(), peers, p);
        let rest = state_list(ks.drop_last(), peers);
        let q = peers[ks.last()];
        if q.player.raw_state.len() > 0 {
            assert(rest.push((q.player_id, q.level_id, q.player.raw_state)).drop_last() =~= rest);
        }
    }
}

/// The peers of `m0` with those of `done` taken from `m1`.
spec fn partly(m1: Map<usize, PeerModel>, m0: Map<usize, PeerModel>, done: Seq<usize>) -> Map<usize, PeerModel> {
    Map::new(|k: usize| m0.contains_key(k), |k: usize| if done.contains(k) { m1[k] } else { m0[k] })
}

impl ServerState {
    /// Handles a PlayerState message from `peer_key`: its player reader
    /// decodes the frame; on success the state replaces the peer's raw
    /// state and a non-zero save sequence is recorded for acknowledgment.
    pub fn handle_player_state(&mut self, peer_key: usize, msg: GameMsg)
        requires
            old(self)@.peers.contains_key(peer_key) ==> msg.payload@.len() >= 3,
        ensures
            final(self)@ == player_state_next(old(self)@, peer_key, msg.payload@),
    {
        let mut peer = match self.take_peer(peer_key) {
            Some(e) => e,
            None => return,
        };
        let ghost p = peer@;
        let save_seq = msg.payload[0];
        match peer.player_delta.snap_reader.apply_delta(msg.payload.as_slice()) {
            Some(raw_state) => {
                // ack will reply by tick
                if save_seq != 0 {
                    peer.player_delta.snapshot_ack = Some(save_seq);
                }
                peer.player_delta.raw_state = raw_state;
            },
            None => {},
        }
        self.put_peer(peer_key, peer);
        proof {
            lemma_reinsert(old(self)@, peer_key, peer@);
        }
    }

    /// The states of the peers of `ks` that have one, in that order.
    fn collect_states(&self, ks: &Vec<usize>) -> (r: Vec<(u8, u32, Vec<u8>)>)
        requires
            forall|i: int| 0 <= i < ks@.len() ==> self@.peers.contains_key(#[trigger] ks@[i]),
        ensures
            states_view(r@) == state_list(ks@, self@.peers),
    {
        let mut r: Vec<(u8, u32, Vec<u8>)> = Vec::new();
        let mut i: usize = 0;
        while i < ks.len()
            invariant
                i <= ks@.len(),
                forall|j: int| 0 <= j < ks@.len() ==> self@.peers.contains_key(#[trigger] ks@[j]),
                states_view(r@) == state_list(ks@.take(i as int), self@.peers),
            decreases ks@.len() - i,
        {
            let k = ks[i];
            proof {
                assert(ks@.take(i + 1).drop_last() =~= ks@.take(i as int));
            }
            match self.peer(k) {
                Some(e) => {
                    if e.player_delta.raw_state.len() > 0 {
                        let st = copy_range(e.player_delta.raw_state.as_slice(), 0, e.player_delta.raw_state.len());
                        let ghost before = r@;
                        r.push((e.player_id, e.level_id, st));
                        proof {
                            assert(e.player_delta.raw_state@.subrange(0, e.player_delta.raw_state@.len() as int)
                                =~= e.player_delta.raw_state@);
                            assert(states_view(r@) =~= states_view(before).push(
                                (e.player_id, e.level_id, e.player_delta.raw_state@),
                            ));
                        }
                    }
                },
                None => {},
            }
            i = i + 1;
        }
        proof {
            assert(ks@.take(ks@.len() as int) =~= ks@);
        }
        r
    }

    /// The frame for player `pid` in `level`: the entries
    /// `[player_id] [len:u32 LE] [state]` of the other players' states in
    /// that level.
    fn build_frame(states: &Vec<(u8, u32, Vec<u8>)>, pid: u8, level: u32) -> (r: Vec<u8>)
        ensures
            r@ == frame_from(states_view(states@), pid, level),
    {
        let mut r: Vec<u8> = Vec::new();
        let mut i: usize = 0;
        while i < states.len()
            invariant
                i <= states@.len(),
                r@ == frame_from(states_view(states@).take(i as int), pid, level),
            decreases states@.len() - i,
        {
            proof {
                assert(states_view(states@).take(i + 1).drop_last() =~= states_view(states@).take(i as int));
            }
            let (id, lv, st) = (&states[i].0, &states[i].1, &states[i].2);
            if *id != pid && *lv == level {
                let ghost before = r@;
                r.push(*id);
                push_le32(&mut r, st.len() as u32);
                append_bytes(&mut r, st.as_slice());
                proof {
                    assert(r@ =~= before + (seq![*id] + le32(st@.len() as u32) + st@));
                }
            }
            i = i + 1;
        }
        proof {
            assert(states_view(states@).take(states@.len() as int) =~= states_view(states@));
        }
        r
    }

    /// Encodes and sends the frame of the peer `k` built from `states`,
    /// when it is not empty.
    fn frame_peer(&mut self, k: usize, states: &Vec<(u8, u32, Vec<u8>)>) -> (r: Option<Outgoing>)
        requires
            old(self)@.peers.contains_key(k),
        ensures
            ({
                let p = old(self)@.peers[k];
                let f = frame_from(states_view(states@), p.player_id, p.level_id);
                &&& final(self)@ == with_peer(
                    old(self)@,
                    k,
                    if f.len() > 0 {
                        PeerModel { player: with_writer(p.player, writer_generate(p.player.writer, f).0), ..p }
                    } else {
                        p
                    },
                )
                &&& match r {
                    Some(o) => f.len() > 0 && o@ == msg_to(
                        k,
                        game_packet(GameMsgId::PlayerState, p.lv_seq, 0, writer_generate(p.player.writer, f).1),
                    ),
                    None => f.len() == 0,
                }
            }),
    {
        let mut peer = match self.take_peer(k) {
            Some(e) => e,
            None => return None,
        };
        let ghost p = peer@;
        let entry = Self::build_frame(states, peer.player_id, peer.level_id);
        if entry.len() == 0 {
            self.put_peer(k, peer);
            proof {
                lemma_reinsert(old(self)@, k, p);
                assert(old(self)@.peers.insert(k, p) =~= old(self)@.peers);
            }
            return None;
        }
        let snap = peer.player_delta.snap_writer.generate_delta(entry.as_slice());
        let msg = GameMsg::new(GameMsgId::PlayerState, peer.lv_seq, 0, snap.as_slice());
        let data = Packet::build_packet(PacketId::GameMsg, msg.build_game_msg().as_slice());
        self.put_peer(k, peer);
        proof {
            lemma_reinsert(old(self)@, k, peer@);
        }
        Some(Outgoing { peer: k, channel: 0, data, reliable: true })
    }

    /// Sync Player State frame, called by the server tick: each peer is
    /// sent the states of the other players in its level, encoded by its
    /// player writer.
    pub fn sync_frame(&mut self) -> (r: Vec<Outgoing>)
        ensures
            sync_frame_step(old(self)@, final(self)@, outs(r@)),
    {
        let ghost s = self@;
        let ka = self.peer_keys();
        let states = self.collect_states(&ka);
        let kb = self.peer_keys();
        let ghost to = frame_to(ka@, s.peers);
        let ghost msg = frame_msg(ka@, s.peers);
        let ghost target = frame_peers(ka@, s.peers);
        let mut r: Vec<Outgoing> = Vec::new();
        let mut i: usize = 0;
        while i < kb.len()
            invariant
                i <= kb@.len(),
                key_order(kb@, s.peers.dom()),
                key_order(ka@, s.peers.dom()),
                states_view(states@) == state_list(ka@, s.peers),
                to == frame_to(ka@, s.peers),
                msg == frame_msg(ka@, s.peers),
                target == frame_peers(ka@, s.peers),
                self@ == (ServerModel { peers: partly(target, s.peers, kb@.take(i as int)), ..s }),
                outs(r@) == fan_out(kb@.take(i as int), to, msg),
            decreases kb@.len() - i,
        {
            let k = kb[i];
            proof {
                lemma_fan_out_step(kb@, i as int, to, msg);
                assert(kb@.contains(k));
                assert(!kb@.take(i as int).contains(k));
                lemma_frame_from_list(ka@, s.peers, s.peers[k]);
            }
            let ghost before = self@;
            let sent = self.frame_peer(k, &states);
            proof {
                assert(kb@.take(i + 1) =~= kb@.take(i as int).push(k));
                assert(self@.peers =~= partly(target, s.peers, kb@.take(i + 1)));
            }
            match sent {
                Some(o) => {
                    proof {
                        lemma_outs_push(r@, o);
                    }
                    r.push(o);
                },
                None => {},
            }
            i = i + 1;
        }
        proof {
            assert(kb@.take(kb@.len() as int) =~= kb@);
            assert(partly(target, s.peers, kb@) =~= target);
        }
        r
    }
}

} // verus!
