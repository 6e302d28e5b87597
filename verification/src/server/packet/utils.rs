//! Broadcasts to the connected peers.
//!
//! Broadcasts reach the peers that have entered the game; those to a level
//! send once per UUID, so a player on several connections does not get
//! the same packet twice.

use vstd::prelude::*;
use crate::protocol::types::TgcUuid;
use crate::server::peer::PeerModel;
use crate::server::model::{each_msg, in_game, in_level};
use crate::server::state::{
    fan_out, fan_out_unique, first_of_uuid, key_order, lemma_fan_out_step, lemma_fan_out_unique_step,
    lemma_outs_push, outs, sent_once_per_uuid, sent_to_each, Outgoing, ServerState,
};
use crate::utils::bytes::copy_range;

verus! {

/// The UUIDs of a list, as byte sequences.
spec fn uuids(v: Seq<TgcUuid>) -> Seq<Seq<u8>> {
    v.map_values(|t: TgcUuid| t@)
}

/// Whether `seen` holds a UUID equal to `u`.
fn contains_uuid(seen: &Vec<TgcUuid>, u: &TgcUuid) -> (r: bool)
    ensures
        r == uuids(seen@).contains(u@),
{
    let mut m: usize = 0;
    while m < seen.len()
        invariant
            m <= seen@.len(),
            forall|x: int| 0 <= x < m ==> (#[trigger] seen@[x])@ != u@,
        decreases seen@.len() - m,
    {
        if seen[m].same(u) {
            assert(uuids(seen@)[m as int] == u@);
            return true;
        }
        m = m + 1;
    }
    proof {
        if uuids(seen@).contains(u@) {
            let x = choose|x: int| 0 <= x < uuids(seen@).len() && uuids(seen@)[x] == u@;
            assert(seen@[x]@ != u@);
        }
    }
    false
}

/// `seen` holds exactly the UUIDs of the keys of `ks` before `i` that `to`
/// selects; `from[m]` is the position of a key whose UUID is `seen[m]`.
spec fn seen_matches(
    seen: Seq<Seq<u8>>,
    from: Seq<int>,
    ks: Seq<usize>,
    peers: Map<usize, PeerModel>,
    to: spec_fn(usize) -> bool,
    i: int,
) -> bool {
    &&& seen.len() == from.len()
    &&& forall|m: int|
        #![trigger seen[m]]
        #![trigger from[m]]
        0 <= m < seen.len() ==> 0 <= from[m] < i && to(ks[from[m]]) && peers[ks[from[m]]].uuid == seen[m]
    &&& forall|j: int| #![trigger ks[j]] 0 <= j < i && to(ks[j]) ==> seen.contains(peers[ks[j]].uuid)
}

/// With the UUIDs seen so far, a selected key is the first of its UUID
/// exactly when its UUID was not seen; and the list seen stays right
/// when the key's UUID is added if it was the first.
proof fn lemma_seen_step(
    seen: Seq<Seq<u8>>,
    from: Seq<int>,
    ks: Seq<usize>,
    peers: Map<usize, PeerModel>,
    to: spec_fn(usize) -> bool,
    i: int,
)
    requires
        0 <= i < ks.len(),
        seen_matches(seen, from, ks, peers, to, i),
    ensures
        to(ks[i]) ==> (seen.contains(peers[ks[i]].uuid) <==> !first_of_uuid(ks, peers, to, i)),
        to(ks[i]) && first_of_uuid(ks, peers, to, i) ==> seen_matches(
            seen.push(peers[ks[i]].uuid),
            from.push(i),
            ks,
            peers,
            to,
            i + 1,
        ),
        !(to(ks[i]) && first_of_uuid(ks, peers, to, i)) ==> seen_matches(seen, from, ks, peers, to, i + 1),
{
    let u = peers[ks[i]].uuid;
    if to(ks[i]) {
        if seen.contains(u) {
            let m = choose|m: int| 0 <= m < seen.len() && seen[m] == u;
            let j = from[m];
            assert(to(ks[j]) && peers[ks[j]].uuid == u);
            assert(!first_of_uuid(ks, peers, to, i));
        } else {
            assert forall|j: int| #![trigger ks[j]] 0 <= j < i && to(ks[j]) implies peers[ks[j]].uuid != u by {
                assert(seen.contains(peers[ks[j]].uuid));
            }
        }
    }
    if to(ks[i]) && first_of_uuid(ks, peers, to, i) {
        let s2 = seen.push(u);
        let f2 = from.push(i);
        assert forall|m: int| #![trigger s2[m]] 0 <= m < s2.len() implies 0 <= f2[m] < i + 1 && to(ks[f2[m]])
            && peers[ks[f2[m]]].uuid == s2[m] by {
            if m < seen.len() {
                assert(s2[m] == seen[m]);
                assert(f2[m] == from[m]);
            }
        }
        assert forall|j: int| #![trigger ks[j]] 0 <= j < i + 1 && to(ks[j]) implies s2.contains(peers[ks[j]].uuid) by {
            if j < i {
                let m = choose|m: int| 0 <= m < seen.len() && seen[m] == peers[ks[j]].uuid;
                assert(s2[m] == seen[m]);
            } else {
                assert(s2[seen.len() as int] == u);
            }
        }
    } else {
        assert forall|j: int| #![trigger ks[j]] 0 <= j < i + 1 && to(ks[j]) implies seen.contains(peers[ks[j]].uuid) by {
            if j == i {
                assert(!first_of_uuid(ks, peers, to, i));
                let j2 = choose|j2: int|
                    #![trigger ks[j2]]
                    0 <= j2 < i && to(ks[j2]) && peers[ks[j2]].uuid == peers[ks[i]].uuid;
                assert(seen.contains(peers[ks[j2]].uuid));
            }
        }
    }
}

impl ServerState {
    /// Sends `data` to every peer in the game whose player ID is not
    /// `except` (when given).
    fn broadcast_where(&self, channel: u8, data: &[u8], reliable: bool, except: Option<u8>) -> (r: Vec<
        Outgoing,
    >)
        ensures
            sent_to_each(
                outs(r@),
                self@.peers.dom(),
                in_game(self@.peers, except),
                each_msg(channel, data@, reliable),
            ),
    {
        let ks = self.peer_keys();
        let ghost to = in_game(self@.peers, except);
        let ghost msg = each_msg(channel, data@, reliable);
        let mut r: Vec<Outgoing> = Vec::new();
        let mut i: usize = 0;
        while i < ks.len()
            invariant
                i <= ks@.len(),
                key_order(ks@, self@.peers.dom()),
                to == in_game(self@.peers, except),
                msg == each_msg(channel, data@, reliable),
                outs(r@) == fan_out(ks@.take(i as int), to, msg),
            decreases ks@.len() - i,
        {
            let k = ks[i];
            proof {
                lemma_fan_out_step(ks@, i as int, to, msg);
                assert(ks@.contains(k));
            }
            match self.peer(k) {
                Some(e) => {
                    let kept = match except {
                        Some(x) => e.player_id != x,
                        None => true,
                    };
                    if e.player_id != 0 && kept {
                        let o = Outgoing { peer: k, channel, data: copy_range(data, 0, data.len()), reliable };
                        proof {
                            assert(data@.subrange(0, data@.len() as int) =~= data@);
                            lemma_outs_push(r@, o);
                        }
                        r.push(o);
                    }
                },
                None => {},
            }
            i = i + 1;
        }
        proof {
            assert(ks@.take(ks@.len() as int) =~= ks@);
        }
        r
    }

    /// Sends `data` to the peers in the game in `level` whose player ID is
    /// not `except` (when given), once per UUID.
    fn broadcast_level_where(
        &self,
        channel: u8,
        data: &[u8],
        reliable: bool,
        level: u32,
        except: Option<u8>,
    ) -> (r: Vec<Outgoing>)
        ensures
            sent_once_per_uuid(
                outs(r@),
                self@.peers.dom(),
                self@.peers,
                in_level(self@.peers, level, except),
                each_msg(channel, data@, reliable),
            ),
    {
        let ks = self.peer_keys();
        let ghost peers = self@.peers;
        let ghost to = in_level(peers, level, except);
        let ghost msg = each_msg(channel, data@, reliable);
        let mut seen: Vec<TgcUuid> = Vec::new();
        let ghost mut from: Seq<int> = Seq::empty();
        let mut r: Vec<Outgoing> = Vec::new();
        let mut i: usize = 0;
        while i < ks.len()
            invariant
                i <= ks@.len(),
                key_order(ks@, peers.dom()),
                peers == self@.peers,
                to == in_level(peers, level, except),
                msg == each_msg(channel, data@, reliable),
                outs(r@) == fan_out_unique(ks@.take(i as int), peers, to, msg),
                seen_matches(uuids(seen@), from, ks@, peers, to, i as int),
            decreases ks@.len() - i,
        {
            let k = ks[i];
            proof {
                lemma_fan_out_unique_step(ks@, i as int, peers, to, msg);
                lemma_seen_step(uuids(seen@), from, ks@, peers, to, i as int);
                assert(ks@.contains(k));
            }
            match self.peer(k) {
                Some(e) => {
                    let kept = match except {
                        Some(x) => e.player_id != x,
                        None => true,
                    };
                    if e.player_id != 0 && e.level_id == level && kept {
                        if !contains_uuid(&seen, &e.uuid) {
                            let ghost before = seen@;
                            seen.push(e.uuid);
                            let o = Outgoing { peer: k, channel, data: copy_range(data, 0, data.len()), reliable };
                            proof {
                                from = from.push(i as int);
                                assert(uuids(seen@) =~= uuids(before).push(e.uuid@));
                                assert(data@.subrange(0, data@.len() as int) =~= data@);
                                lemma_outs_push(r@, o);
                            }
                            r.push(o);
                        }
                    }
                },
                None => {},
            }
            i = i + 1;
        }
        proof {
            assert(ks@.take(ks@.len() as int) =~= ks@);
        }
        r
    }

    /// Broadcast data to all in-game peers in the same level, once per
    /// UUID, so a player on several connections gets it once.
    pub fn broadcast_same_level(&self, level_id: u32, channel: u8, data: &[u8], reliable: bool) -> (r: Vec<
        Outgoing,
    >)
        ensures
            sent_once_per_uuid(
                outs(r@),
                self@.peers.dom(),
                self@.peers,
                in_level(self@.peers, level_id, None),
                each_msg(channel, data@, reliable),
            ),
    {
        self.broadcast_level_where(channel, data, reliable, level_id, None)
    }

    /// Same as [`broadcast_same_level`](Self::broadcast_same_level), but
    /// also excludes the peers with the given `player_id`.
    pub fn broadcast_same_level_without(
        &self,
        channel: u8,
        data: &[u8],
        reliable: bool,
        level_id: u32,
        except_player_id: u8,
    ) -> (r: Vec<Outgoing>)
        ensures
            sent_once_per_uuid(
                outs(r@),
                self@.peers.dom(),
                self@.peers,
                in_level(self@.peers, level_id, Some(except_player_id)),
                each_msg(channel, data@, reliable),
            ),
    {
        self.broadcast_level_where(channel, data, reliable, level_id, Some(except_player_id))
    }

    /// Broadcast data to every peer in the game, regardless of level.
    pub fn broadcast_all(&self, channel: u8, data: &[u8], reliable: bool) -> (r: Vec<Outgoing>)
        ensures
            sent_to_each(outs(r@), self@.peers.dom(), in_game(self@.peers, None), each_msg(channel, data@, reliable)),
    {
        self.broadcast_where(channel, data, reliable, None)
    }

    /// Same as [`broadcast_all`](Self::broadcast_all), but also excludes
    /// the peers with the given `player_id`.
    pub fn broadcast_all_without(&self, except_player_id: u8, channel: u8, data: &[u8], reliable: bool) -> (r:
        Vec<Outgoing>)
        ensures
            sent_to_each(
                outs(r@),
                self@.peers.dom(),
                in_game(self@.peers, Some(except_player_id)),
                each_msg(channel, data@, reliable),
            ),
    {
        self.broadcast_where(channel, data, reliable, Some(except_player_id))
    }
}

} // verus!
