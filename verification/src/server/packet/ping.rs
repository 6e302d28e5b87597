//! NetTimePing: the time sync reply.

use vstd::prelude::*;
use crate::protocol::packet::{Packet, PacketId};
use crate::server::model::ping_sent;
use crate::server::state::{outs, Outgoing, ServerState};
use crate::utils::bytes::{copy_range, push_le64};

verus! {

impl ServerState {
    /// Answers a NetTimePing from `peer_key` with a `NetTimePong` carrying
    /// the ping's payload, then the time the ping was received and the time
    /// the pong is sent: each the bit pattern of the `f64` Unix time in
    /// seconds.
    pub fn handle_ping(&self, peer_key: usize, payload: &[u8], recv_time: u64, send_time: u64) -> (r: Vec<
        Outgoing,
    >)
        ensures
            outs(r@) == ping_sent(self@, peer_key, payload@, recv_time, send_time),
    {
        let mut r: Vec<Outgoing> = Vec::new();
        if self.peer(peer_key).is_none() {
            proof {
                assert(outs(r@) =~= Seq::empty());
            }
            return r;
        }
        let mut body = copy_range(payload, 0, payload.len());
        push_le64(&mut body, recv_time);
        push_le64(&mut body, send_time);
        proof {
            assert(payload@.subrange(0, payload@.len() as int) =~= payload@);
        }
        let pong = Packet::build_packet(PacketId::NetTimePong, body.as_slice());
        r.push(Outgoing { peer: peer_key, channel: 0, data: pong, reliable: true });
        proof {
            assert(outs(r@) =~= ping_sent(self@, peer_key, payload@, recv_time, send_time));
        }
        r
    }
}

} // verus!
