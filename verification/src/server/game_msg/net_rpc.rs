//! NetRpc: remote calls relayed to the sender's level.

use vstd::prelude::*;
use crate::protocol::game_msg::{GameMsg, GameMsgId};
use crate::server::model::{rpc_payload, rpc_safe, rpc_step, rpc_tag, rpc_tagged};
use crate::server::state::{outs, Outgoing, ServerState};

verus! {

/// Whether the RPC body of `payload` (after its first byte) starts with
/// the tag of calls that carry the caller's UUID.
fn is_rpc_tagged(payload: &[u8]) -> (r: bool)
    ensures
        r == rpc_tagged(payload@),
{
    if payload.len() < 8 {
        return false;
    }
    let r = payload[1] == 0xb3 && payload[2] == 0xb9 && payload[3] == 0xd9 && payload[4] == 0x20
        && payload[5] == 0x00 && payload[6] == 0x24 && payload[7] == 0x00;
    proof {
        let t = payload@.subrange(1, 8);
        if r {
            assert(t =~= rpc_tag());
        } else if t == rpc_tag() {
            assert(t[0] == payload@[1] && t[1] == payload@[2] && t[2] == payload@[3] && t[3] == payload@[4]);
            assert(t[4] == payload@[5] && t[5] == payload@[6] && t[6] == payload@[7]);
        }
    }
    r
}

impl ServerState {
    /// Handles a NetRpc message from `peer_key`, relayed to the other
    /// players of its level. A tagged call is dropped when the sender is
    /// unknown, and when its body byte 9 is 1 the body bytes 18..34 are
    /// replaced by the sender's UUID.
    pub fn handle_net_rpc(&self, peer_key: usize, msg: GameMsg) -> (r: Vec<Outgoing>)
        requires
            rpc_safe(self@, peer_key, msg.payload@),
        ensures
            rpc_step(self@, peer_key, msg.payload@, outs(r@)),
    {
        let mut payload = msg.payload;
        let ghost orig = payload@;
        if is_rpc_tagged(payload.as_slice()) {
            let sender = match self.peer(peer_key) {
                Some(e) => e,
                None => {
                    let r: Vec<Outgoing> = Vec::new();
                    proof {
                        assert(outs(r@) =~= Seq::empty());
                    }
                    return r;
                },
            };
            if payload[10] == 1 {
                let raw = sender.uuid.raw();
                let mut j: usize = 0;
                while j < 16
                    invariant
                        j <= 16,
                        orig.len() >= 35,
                        raw@.len() == 16,
                        payload@ == Seq::new(
                            orig.len(),
                            |x: int| if 19 <= x < 19 + j { raw@[x - 19] } else { orig[x] },
                        ),
                    decreases 16 - j,
                {
                    payload.set(19 + j, raw[j]);
                    j = j + 1;
                    proof {
                        assert(payload@ =~= Seq::new(
                            orig.len(),
                            |x: int| if 19 <= x < 19 + j { raw@[x - 19] } else { orig[x] },
                        ));
                    }
                }
                proof {
                    assert(payload@ =~= rpc_payload(orig, sender@.uuid));
                }
            }
        }
        self.relay_game_msg(GameMsgId::NetRpc, payload.as_slice(), peer_key)
    }
}

} // verus!
