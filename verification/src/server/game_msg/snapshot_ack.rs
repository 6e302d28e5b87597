//! Snapshot acknowledgments in both directions.

use vstd::prelude::*;
use crate::protocol::game_msg::{GameMsg, GameMsgId};
use crate::server::model::{ack_byte, ack_msg, every_key, snapshot_ack_next};
use crate::server::state::{
    fan_out, key_order, lemma_fan_out_step, lemma_outs_add, lemma_reinsert, outs, sent_to_each, Outgoing,
    ServerState,
};

verus! {

impl ServerState {
    /// Handles a SnapshotAck message from `peer_key`: payload byte 0
    /// acknowledges the peer's player writer and byte 1 its level writer,
    /// each only when that writer awaits an ack; a payload too short for
    /// an awaited ack ends the handling there.
    pub fn handle_snapshot_ack(&mut self, peer_key: usize, msg: GameMsg)
        ensures
            final(self)@ == snapshot_ack_next(old(self)@, peer_key, msg.payload@),
    {
        let mut peer = match self.take_peer(peer_key) {
            Some(e) => e,
            None => return,
        };
        let ghost p = peer@;
        if peer.player_delta.snap_writer.pending_ack_seq().is_some() {
            if msg.payload.len() == 0 {
                self.put_peer(peer_key, peer);
                proof {
                    lemma_reinsert(old(self)@, peer_key, p);
                    assert(old(self)@.peers.insert(peer_key, p) =~= old(self)@.peers);
                }
                return;
            }
            peer.player_delta.snap_writer.ack(msg.payload[0]);
        }
        if peer.level_delta.snap_writer.pending_ack_seq().is_some() {
            if msg.payload.len() < 2 {
                self.put_peer(peer_key, peer);
                proof {
                    lemma_reinsert(old(self)@, peer_key, peer@);
                }
                return;
            }
            peer.level_delta.snap_writer.ack(msg.payload[1]);
        }
        self.put_peer(peer_key, peer);
        proof {
            lemma_reinsert(old(self)@, peer_key, peer@);
        }
    }

    /// Sends every peer its snapshot acknowledgments, called by the server
    /// tick: a `SnapshotAck` message with the recorded player and level
    /// save sequences (1 where none is recorded).
    pub fn snapshot_ack(&self) -> (r: Vec<Outgoing>)
        ensures
            sent_to_each(outs(r@), self@.peers.dom(), every_key(), ack_msg(self@.peers)),
    {
        let ks = self.peer_keys();
        let ghost to = every_key();
        let ghost msg = ack_msg(self@.peers);
        let mut r: Vec<Outgoing> = Vec::new();
        let mut i: usize = 0;
        while i < ks.len()
            invariant
                i <= ks@.len(),
                key_order(ks@, self@.peers.dom()),
                to == every_key(),
                msg == ack_msg(self@.peers),
                outs(r@) == fan_out(ks@.take(i as int), to, msg),
            decreases ks@.len() - i,
        {
            let k = ks[i];
            proof {
                lemma_fan_out_step(ks@, i as int, to, msg);
                assert(ks@.contains(k));
            }
            match self.peer(k) {
                Some(e) => {
                    let mut ack: Vec<u8> = Vec::new();
                    ack.push(
                        match e.player_delta.snapshot_ack {
                            Some(a) => a,
                            None => 1,
                        },
                    );
                    ack.push(
                        match e.level_delta.snapshot_ack {
                            Some(a) => a,
                            None => 1,
                        },
                    );
                    let game_msg = GameMsg::new(GameMsgId::SnapshotAck, e.lv_seq, 0, ack.as_slice());
                    let mut one = self.send_msg_to(game_msg, k);
                    let ghost before = r@;
                    let ghost added = one@;
                    r.append(&mut one);
                    proof {
                        lemma_outs_add(before, added);
                        assert(ack@ =~= seq![
                            ack_byte(e@.player.snapshot_ack),
                            ack_byte(e@.level.snapshot_ack),
                        ]);
                    }
                },
                None => {},
            }
            i = i + 1;
        }
        proof {
            assert(ks@.take(ks@.len() as int) =~= ks@);
        }
        r
    }
}

} // verus!
