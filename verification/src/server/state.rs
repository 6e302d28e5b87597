//! Server-wide state: the peer table, the elected host of each level and
//! the latest level data of each level, and the messages the handlers send.

use std::collections::HashMap;
use vstd::prelude::*;
use vstd::std_specs::iter::IteratorSpec;
use crate::protocol::game_msg::level_data::{HeaderModel, LevelData};
use crate::server::peer::{PeerEntry, PeerModel};

verus! {

broadcast use vstd::std_specs::hash::group_hash_axioms;

/// A message to send: the peer key, the ENet channel, the bytes and
/// whether the packet is reliable.
pub struct Outgoing {
    pub peer: usize,
    pub channel: u8,
    pub data: Vec<u8>,
    pub reliable: bool,
}

/// The abstract value of an [`Outgoing`] message.
pub type OutView = (usize, u8, Seq<u8>, bool);

impl View for Outgoing {
    type V = OutView;

    open spec fn view(&self) -> OutView {
        (self.peer, self.channel, self.data@, self.reliable)
    }
}

/// The abstract values of a list of messages.
pub open spec fn outs(v: Seq<Outgoing>) -> Seq<OutView> {
    v.map_values(|o: Outgoing| o@)
}

/// A reliable message on channel 0, as every handler sends.
pub open spec fn msg_to(k: usize, data: Seq<u8>) -> OutView {
    (k, 0u8, data, true)
}

/// The abstract server state.
#[verifier::ext_equal]
pub struct ServerModel {
    pub peers: Map<usize, PeerModel>,
    pub level_hosts: Map<u32, u8>,
    pub levels_data: Map<u32, (HeaderModel, Seq<u8>)>,
}

/// `s` with the entry of `k` set to `p`.
pub open spec fn with_peer(s: ServerModel, k: usize, p: PeerModel) -> ServerModel {
    ServerModel { peers: s.peers.insert(k, p), ..s }
}

/// Server-wide state shared across all connections.
///
/// Peers are keyed by their peer key (the connection's identity).
pub struct ServerState {
    /// All connected peers, keyed by peer key.
    pub peers: HashMap<usize, PeerEntry>,
    /// Elected host player ID per level.
    pub level_hosts: HashMap<u32, u8>,
    /// Latest level data per level.
    pub levels_data: HashMap<u32, LevelData>,
}

/// The abstract value of a peer table.
pub open spec fn peers_view(m: Map<usize, PeerEntry>) -> Map<usize, PeerModel> {
    Map::new(|k: usize| m.contains_key(k), |k: usize| m[k]@)
}

/// The abstract value of a level data table.
pub open spec fn levels_view(m: Map<u32, LevelData>) -> Map<u32, (HeaderModel, Seq<u8>)> {
    Map::new(|k: u32| m.contains_key(k), |k: u32| m[k]@)
}

impl View for ServerState {
    type V = ServerModel;

    open spec fn view(&self) -> ServerModel {
        ServerModel {
            peers: peers_view(self.peers@),
            level_hosts: self.level_hosts@,
            levels_data: levels_view(self.levels_data@),
        }
    }
}

/// `ks` lists every key of `dom` exactly once.
pub open spec fn key_order(ks: Seq<usize>, dom: Set<usize>) -> bool {
    &&& ks.no_duplicates()
    &&& forall|k: usize| #[trigger] dom.contains(k) <==> ks.contains(k)
}

/// The messages `msg(k)` for the keys `k` of `ks` that satisfy `to`, in
/// the order of `ks`.
pub open spec fn fan_out(
    ks: Seq<usize>,
    to: spec_fn(usize) -> bool,
    msg: spec_fn(usize) -> OutView,
) -> Seq<OutView>
    decreases ks.len(),
{
    if ks.len() == 0 {
        Seq::empty()
    } else {
        let rest = fan_out(ks.drop_last(), to, msg);
        if to(ks.last()) {
            rest.push(msg(ks.last()))
        } else {
            rest
        }
    }
}

/// `sent` is the message `msg(k)` for each key `k` of `dom` that
/// satisfies `to`, and nothing else, in some order of the keys.
pub open spec fn sent_to_each(
    sent: Seq<OutView>,
    dom: Set<usize>,
    to: spec_fn(usize) -> bool,
    msg: spec_fn(usize) -> OutView,
) -> bool {
    exists|ks: Seq<usize>| key_order(ks, dom) && sent == fan_out(ks, to, msg)
}

/// Whether no key of `ks` before `i` that `to` selects has the UUID of
/// the peer of `ks[i]`.
pub open spec fn first_of_uuid(
    ks: Seq<usize>,
    peers: Map<usize, PeerModel>,
    to: spec_fn(usize) -> bool,
    i: int,
) -> bool {
    forall|j: int| #![trigger ks[j]] 0 <= j < i && to(ks[j]) ==> peers[ks[j]].uuid != peers[ks[i]].uuid
}

/// The messages `msg(k)` for the keys `k` of `ks` that `to` selects, one
/// per UUID: a key is skipped when an earlier selected key's peer has
/// its UUID.
pub open spec fn fan_out_unique(
    ks: Seq<usize>,
    peers: Map<usize, PeerModel>,
    to: spec_fn(usize) -> bool,
    msg: spec_fn(usize) -> OutView,
) -> Seq<OutView>
    decreases ks.len(),
{
    if ks.len() == 0 {
        Seq::empty()
    } else {
        let rest = fan_out_unique(ks.drop_last(), peers, to, msg);
        if to(ks.last()) && first_of_uuid(ks, peers, to, ks.len() - 1) {
            rest.push(msg(ks.last()))
        } else {
            rest
        }
    }
}

/// `sent` is, in some order of the keys of `dom`, the message `msg(k)`
/// for each key `k` that satisfies `to`, one per UUID of their peers.
pub open spec fn sent_once_per_uuid(
    sent: Seq<OutView>,
    dom: Set<usize>,
    peers: Map<usize, PeerModel>,
    to: spec_fn(usize) -> bool,
    msg: spec_fn(usize) -> OutView,
) -> bool {
    exists|ks: Seq<usize>| key_order(ks, dom) && sent == fan_out_unique(ks, peers, to, msg)
}

/// One more key of `ks` taken into a fan-out by UUID.
pub proof fn lemma_fan_out_unique_step(
    ks: Seq<usize>,
    i: int,
    peers: Map<usize, PeerModel>,
    to: spec_fn(usize) -> bool,
    msg: spec_fn(usize) -> OutView,
)
    requires
        0 <= i < ks.len(),
    ensures
        fan_out_unique(ks.take(i + 1), peers, to, msg) == if to(ks[i]) && first_of_uuid(ks, peers, to, i) {
            fan_out_unique(ks.take(i), peers, to, msg).push(msg(ks[i]))
        } else {
            fan_out_unique(ks.take(i), peers, to, msg)
        },
{
    let t = ks.take(i + 1);
    assert(t.drop_last() =~= ks.take(i));
    assert(first_of_uuid(t, peers, to, i) == first_of_uuid(ks, peers, to, i)) by {
        assert forall|j: int| 0 <= j <= i implies t[j] == ks[j] by {}
    }
}

/// One more key of `ks` taken into a fan-out.
pub proof fn lemma_fan_out_step(
    ks: Seq<usize>,
    i: int,
    to: spec_fn(usize) -> bool,
    msg: spec_fn(usize) -> OutView,
)
    requires
        0 <= i < ks.len(),
    ensures
        fan_out(ks.take(i + 1), to, msg) == if to(ks[i]) {
            fan_out(ks.take(i), to, msg).push(msg(ks[i]))
        } else {
            fan_out(ks.take(i), to, msg)
        },
{
    assert(ks.take(i + 1).drop_last() =~= ks.take(i));
}

/// Taking an entry out and putting one back under the same key is the
/// same as setting it.
pub proof fn lemma_reinsert(s: ServerModel, k: usize, p: PeerModel)
    ensures
        with_peer(ServerModel { peers: s.peers.remove(k), ..s }, k, p) == with_peer(s, k, p),
{
    assert(s.peers.remove(k).insert(k, p) =~= s.peers.insert(k, p));
}

/// The peer table's view has the table's keys.
pub proof fn lemma_peers_dom(m: Map<usize, PeerEntry>)
    ensures
        peers_view(m).dom() == m.dom(),
{
    assert(peers_view(m).dom() =~= m.dom());
}

/// Adding a message to a list adds its view to the list's views.
pub proof fn lemma_outs_push(v: Seq<Outgoing>, o: Outgoing)
    ensures
        outs(v.push(o)) == outs(v).push(o@),
{
    assert(outs(v.push(o)) =~= outs(v).push(o@));
}

/// Appending message lists appends their views.
pub proof fn lemma_outs_add(a: Seq<Outgoing>, b: Seq<Outgoing>)
    ensures
        outs(a + b) == outs(a) + outs(b),
{
    assert(outs(a + b) =~= outs(a) + outs(b));
}

impl ServerState {
    /// An empty server state.
    pub fn new() -> (r: Self)
        ensures
            r@ == (ServerModel { peers: Map::empty(), level_hosts: Map::empty(), levels_data: Map::empty() }),
    {
        let r = ServerState { peers: HashMap::new(), level_hosts: HashMap::new(), levels_data: HashMap::new() };
        assert(peers_view(r.peers@) =~= Map::empty());
        assert(levels_view(r.levels_data@) =~= Map::empty());
        r
    }

    /// Every peer key, each once, in the table's iteration order.
    pub fn peer_keys(&self) -> (r: Vec<usize>)
        ensures
            key_order(r@, self@.peers.dom()),
    {
        let mut r: Vec<usize> = Vec::new();
        let ghost all = vstd::std_specs::hash::spec_keys_iter(&self.peers).remaining().unref();
        for k in it: self.peers.keys()
            invariant
                it.seq().unref() == all,
                r@ == all.take(it.index()),
        {
            r.push(*k);
            proof {
                assert(r@ =~= all.take(it.index() + 1));
            }
        }
        proof {
            lemma_peers_dom(self.peers@);
            assert(r@ =~= all);
            assert forall|k: usize| self.peers@.contains_key(k) <==> r@.contains(k) by {
                if self.peers@.contains_key(k) {
                    assert(all.to_set().contains(k));
                }
                if r@.contains(k) {
                    assert(all.to_set().contains(k));
                }
            }
        }
        r
    }

    /// The number of connected peers.
    pub fn peer_count(&self) -> (r: usize)
        ensures
            r == self@.peers.dom().len(),
    {
        proof {
            lemma_peers_dom(self.peers@);
        }
        self.peers.len()
    }

    /// The entry of `key`, if it is connected.
    pub fn peer(&self, key: usize) -> (r: Option<&PeerEntry>)
        ensures
            match r {
                Some(e) => self@.peers.contains_key(key) && e@ == self@.peers[key],
                None => !self@.peers.contains_key(key),
            },
    {
        self.peers.get(&key)
    }

    /// Removes and returns the entry of `key`, if it is connected.
    pub(crate) fn take_peer(&mut self, key: usize) -> (r: Option<PeerEntry>)
        ensures
            match r {
                Some(e) => {
                    &&& old(self)@.peers.contains_key(key)
                    &&& e@ == old(self)@.peers[key]
                    &&& final(self)@ == (ServerModel { peers: old(self)@.peers.remove(key), ..old(self)@ })
                },
                None => !old(self)@.peers.contains_key(key) && final(self)@ == old(self)@,
            },
    {
        let r = self.peers.remove(&key);
        proof {
            assert(peers_view(self.peers@) =~= peers_view(old(self).peers@).remove(key));
            if r is None {
                assert(self.peers@ =~= old(self).peers@);
            }
        }
        r
    }

    /// The stored level data of `level`, if any.
    pub fn level_data(&self, level: u32) -> (r: Option<&LevelData>)
        ensures
            match r {
                Some(d) => self@.levels_data.contains_key(level) && d@ == self@.levels_data[level],
                None => !self@.levels_data.contains_key(level),
            },
    {
        self.levels_data.get(&level)
    }

    /// Removes and returns the stored level data of `level`, if any.
    pub(crate) fn take_level(&mut self, level: u32) -> (r: Option<LevelData>)
        ensures
            match r {
                Some(d) => {
                    &&& old(self)@.levels_data.contains_key(level)
                    &&& d@ == old(self)@.levels_data[level]
                    &&& final(self)@ == (ServerModel { levels_data: old(self)@.levels_data.remove(level), ..old(self)@ })
                },
                None => !old(self)@.levels_data.contains_key(level) && final(self)@ == old(self)@,
            },
    {
        let r = self.levels_data.remove(&level);
        proof {
            assert(levels_view(self.levels_data@) =~= levels_view(old(self).levels_data@).remove(level));
            if r is None {
                assert(self.levels_data@ =~= old(self).levels_data@);
            }
        }
        r
    }

    /// Stores `d` as the level data of `level`.
    pub(crate) fn put_level(&mut self, level: u32, d: LevelData)
        ensures
            final(self)@ == (ServerModel { levels_data: old(self)@.levels_data.insert(level, d@), ..old(self)@ }),
    {
        let ghost v = d@;
        self.levels_data.insert(level, d);
        proof {
            assert(levels_view(self.levels_data@) =~= levels_view(old(self).levels_data@).insert(level, v));
        }
    }

    /// Stores `e` as the entry of `key`.
    pub(crate) fn put_peer(&mut self, key: usize, e: PeerEntry)
        ensures
            final(self)@ == with_peer(old(self)@, key, e@),
    {
        let ghost v = e@;
        self.peers.insert(key, e);
        proof {
            assert(peers_view(self.peers@) =~= peers_view(old(self).peers@).insert(key, v));
        }
    }
}

} // verus!
