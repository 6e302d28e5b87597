//! Properties of the server's handlers that hold on every input.

use vstd::prelude::*;
use crate::protocol::game_msg::{game_msg_id_of, GameMsgId};
use crate::protocol::packet::{packet_id_of, PacketId};
use crate::protocol::packet::framed;
use crate::server::model::{
    ack_msg, disconnect_step, enter_game_payload, frame_msg, frame_peers, frame_to, has_host, level_msg,
    level_sync_msg, level_sync_peers, level_sync_to, relay_msg, relay_to, rpc_payload, same_msg, every_key, in_game, in_level,
    sync_frame_step, sync_level_step,
    elect_next, hosted_by, join_step, level_data_next, level_update_step, msg_step, packet_step,
    player_state_next, receive_packet, receive_prepared, receive_step, revoke_step, snapshot_ack_next,
};
use crate::server::peer::PeerModel;
use crate::server::state::{
    fan_out, fan_out_unique, first_of_uuid, key_order, sent_once_per_uuid, sent_to_each, with_peer, OutView, ServerModel,
};
use crate::utils::bytes::from_le32;
use crate::protocol::game_msg::level_data::HeaderModel;
use crate::server::model::{game_packet, level_bytes};
use crate::server::state::msg_to;
use crate::utils::snapshot::{reader_apply, writer_generate, writer_reset};
use crate::utils::snapshot_laws::truncated;

verus! {

/// A game message keeps the set of connected peers.
proof fn lemma_msg_keeps_peers(
    s: ServerModel,
    key: usize,
    id: GameMsgId,
    payload: Seq<u8>,
    n: ServerModel,
    sent: Seq<OutView>,
)
    requires
        msg_step(s, key, id, payload, n, sent),
    ensures
        n.peers.dom() == s.peers.dom(),
{
    match id {
        GameMsgId::PlayerState => {
            assert(player_state_next(s, key, payload).peers.dom() =~= s.peers.dom());
        },
        GameMsgId::NetLevelData => {
            assert(level_data_next(s, key, payload).peers.dom() =~= s.peers.dom());
        },
        GameMsgId::SnapshotAck => {
            assert(snapshot_ack_next(s, key, payload).peers.dom() =~= s.peers.dom());
        },
        GameMsgId::NetLevelDataRevoke => {
            assert(revoke_step(s, key, n));
        },
        _ => {},
    }
}

/// The level election keeps the set of connected peers.
proof fn lemma_elect_keeps_peers(s: ServerModel, to: usize)
    ensures
        elect_next(s, to).0.peers.dom() == s.peers.dom(),
{
    reveal(elect_next);
    assert(elect_next(s, to).0.peers.dom() =~= s.peers.dom());
}

/// A packet keeps the set of connected peers.
proof fn lemma_packet_keeps_peers(
    s: ServerModel,
    key: usize,
    id: PacketId,
    payload: Seq<u8>,
    n: ServerModel,
    sent: Seq<OutView>,
)
    requires
        packet_step(s, key, id, payload, n, sent),
    ensures
        n.peers.dom() == s.peers.dom(),
{
    match id {
        PacketId::JoinGame => {
            if s.peers.contains_key(key) && payload.len() >= 16 {
                assert(n.peers.dom() =~= s.peers.dom());
            }
        },
        PacketId::LevelUpdate => {
            if s.peers.contains_key(key) {
                let p0 = s.peers[key];
                let p1 = PeerModel { lv_seq: ((p0.lv_seq + 1) % 256) as u8, ..p0 };
                if payload.len() < 18 {
                    assert(n.peers.dom() =~= s.peers.dom());
                } else {
                    let level = from_le32(payload[14], payload[15], payload[16], payload[17]);
                    if level == p0.level_id {
                        let s1 = with_peer(s, key, p1);
                        lemma_elect_keeps_peers(s1, key);
                        assert(s1.peers.dom() =~= s.peers.dom());
                    } else {
                        let s2 = with_peer(
                            s,
                            key,
                            PeerModel { level_id: level, ..p1 },
                        );
                        let s3 = ServerModel {
                            level_hosts: if hosted_by(s, p0.level_id, p0.player_id) {
                                s.level_hosts.remove(p0.level_id)
                            } else {
                                s.level_hosts
                            },
                            ..s2
                        };
                        lemma_elect_keeps_peers(s3, key);
                        assert(s2.peers.dom() =~= s.peers.dom());
                    }
                }
            }
        },
        PacketId::GameMsg => {
            if let Some(g) = game_msg_id_of(payload[0]) {
                lemma_msg_keeps_peers(s, key, g, payload.skip(3), n, sent);
            }
        },
        _ => {},
    }
}

/// Receiving data never drops a connection: after data from a peer (not
/// the null peer, and not empty) the connected peers are those before and
/// the sender.
pub proof fn lemma_receive_keeps_peers(s: ServerModel, key: usize, data: Seq<u8>, n: ServerModel, sent: Seq<OutView>)
    requires
        receive_step(s, key, data, n, sent),
        key != 0,
        data.len() > 0,
    ensures
        n.peers.dom() == s.peers.dom().insert(key),
{
    let s1 = receive_prepared(s, key, data);
    assert(s1.peers.dom() =~= s.peers.dom().insert(key));
    let pk = receive_packet(data);
    if let Some(id) = packet_id_of(pk[0]) {
        lemma_packet_keeps_peers(s1, key, id, pk.skip(2), n, sent);
    }
}

/// After the level election is sent to a connected peer, the peer's
/// level has a host, and the stored level data of that level names that
/// host as its elected player.
pub proof fn lemma_elect_installs_host(s: ServerModel, to: usize)
    requires
        s.peers.contains_key(to),
    ensures
        ({
            let n = elect_next(s, to).0;
            let l = s.peers[to].level_id;
            &&& n.level_hosts.contains_key(l)
            &&& n.levels_data.contains_key(l)
            &&& n.levels_data[l].0.elected_player == n.level_hosts[l]
            &&& s.level_hosts.contains_key(l) ==> n.level_hosts[l] == s.level_hosts[l]
        }),
{
    reveal(elect_next);
}

/// Only the host of its level changes anything by sending level data: a
/// NetLevelData message from any other peer leaves the state as it was.
pub proof fn lemma_level_data_only_from_host(s: ServerModel, key: usize, payload: Seq<u8>)
    requires
        !(s.peers.contains_key(key) && hosted_by(s, s.peers[key].level_id, s.peers[key].player_id)),
    ensures
        level_data_next(s, key, payload) == s,
{
}

/// A player who joined has a player ID in `1..=255`; 0 stays reserved for
/// peers that have not joined.
pub proof fn lemma_join_player_id(s: ServerModel, key: usize, payload: Seq<u8>, n: ServerModel, sent: Seq<OutView>)
    requires
        join_step(s, key, payload, n, sent),
        s.peers.contains_key(key),
        payload.len() >= 16,
    ensures
        n.peers.contains_key(key),
        n.peers[key].player_id >= 1,
        n.peers[key].uuid == payload.take(16),
{
}

/// A LevelUpdate from a connected peer steps its level sequence number by
/// one, wrapping at 256.
pub proof fn lemma_level_update_steps_sequence(
    s: ServerModel,
    key: usize,
    payload: Seq<u8>,
    n: ServerModel,
    sent: Seq<OutView>,
)
    requires
        level_update_step(s, key, payload, n, sent),
        s.peers.contains_key(key),
    ensures
        n.peers.contains_key(key),
        n.peers[key].lv_seq == (s.peers[key].lv_seq + 1) % 256,
{
    reveal(elect_next);
}

/// Every message of `sent` goes reliably on channel 0 to a key of `dom`.
pub open spec fn delivered_to(sent: Seq<OutView>, dom: Set<usize>) -> bool {
    forall|i: int| 0 <= i < sent.len() ==> dom.contains(#[trigger] sent[i].0) && sent[i].1 == 0 && sent[i].3
}

/// `msg` addresses each key with a reliable channel-0 message.
spec fn addresses(msg: spec_fn(usize) -> OutView) -> bool {
    forall|k: usize| #[trigger] msg(k).0 == k && msg(k).1 == 0 && msg(k).3
}

/// A fan-out over keys of `dom` with such messages is delivered to `dom`.
proof fn lemma_fan_out_delivered(
    ks: Seq<usize>,
    to: spec_fn(usize) -> bool,
    msg: spec_fn(usize) -> OutView,
    dom: Set<usize>,
)
    requires
        addresses(msg),
        forall|i: int| 0 <= i < ks.len() ==> dom.contains(#[trigger] ks[i]),
    ensures
        delivered_to(fan_out(ks, to, msg), dom),
    decreases ks.len(),
{
    if ks.len() > 0 {
        lemma_fan_out_delivered(ks.drop_last(), to, msg, dom);
        assert(dom.contains(ks[ks.len() - 1]));
        let k = ks.last();
        assert(msg(k).0 == k);
    }
}

/// Messages sent to each selected key of `dom` are delivered to `dom`.
proof fn lemma_sent_to_each_delivered(
    sent: Seq<OutView>,
    dom: Set<usize>,
    to: spec_fn(usize) -> bool,
    msg: spec_fn(usize) -> OutView,
)
    requires
        addresses(msg),
        sent_to_each(sent, dom, to, msg),
    ensures
        delivered_to(sent, dom),
{
    let ks = choose|ks: Seq<usize>| key_order(ks, dom) && sent == fan_out(ks, to, msg);
    assert forall|i: int| 0 <= i < ks.len() implies dom.contains(#[trigger] ks[i]) by {
        assert(ks.contains(ks[i]));
    }
    lemma_fan_out_delivered(ks, to, msg, dom);
}

/// A fan-out by UUID over keys of `dom` with such messages is delivered
/// to `dom`.
proof fn lemma_fan_out_unique_delivered(
    ks: Seq<usize>,
    peers: Map<usize, PeerModel>,
    to: spec_fn(usize) -> bool,
    msg: spec_fn(usize) -> OutView,
    dom: Set<usize>,
)
    requires
        addresses(msg),
        forall|i: int| 0 <= i < ks.len() ==> dom.contains(#[trigger] ks[i]),
    ensures
        delivered_to(fan_out_unique(ks, peers, to, msg), dom),
    decreases ks.len(),
{
    if ks.len() > 0 {
        lemma_fan_out_unique_delivered(ks.drop_last(), peers, to, msg, dom);
        let rest = fan_out_unique(ks.drop_last(), peers, to, msg);
        let k = ks.last();
        assert(dom.contains(ks[ks.len() - 1]));
        assert(msg(k).0 == k && msg(k).1 == 0 && msg(k).3);
        if to(k) && first_of_uuid(ks, peers, to, ks.len() - 1) {
            let all = rest.push(msg(k));
            assert forall|i: int| 0 <= i < all.len() implies dom.contains(#[trigger] all[i].0) && all[i].1 == 0
                && all[i].3 by {
                if i < rest.len() {
                    assert(all[i] == rest[i]);
                }
            }
        }
    }
}

/// Messages sent once per UUID to selected keys of `dom` are delivered
/// to `dom`.
proof fn lemma_sent_once_per_uuid_delivered(
    sent: Seq<OutView>,
    dom: Set<usize>,
    peers: Map<usize, PeerModel>,
    to: spec_fn(usize) -> bool,
    msg: spec_fn(usize) -> OutView,
)
    requires
        addresses(msg),
        sent_once_per_uuid(sent, dom, peers, to, msg),
    ensures
        delivered_to(sent, dom),
{
    let ks = choose|ks: Seq<usize>| key_order(ks, dom) && sent == fan_out_unique(ks, peers, to, msg);
    assert forall|i: int| 0 <= i < ks.len() implies dom.contains(#[trigger] ks[i]) by {
        assert(ks.contains(ks[i]));
    }
    lemma_fan_out_unique_delivered(ks, peers, to, msg, dom);
}

/// Concatenated deliveries are a delivery.
proof fn lemma_delivered_add(a: Seq<OutView>, b: Seq<OutView>, dom: Set<usize>)
    requires
        delivered_to(a, dom),
        delivered_to(b, dom),
    ensures
        delivered_to(a + b, dom),
{
    assert forall|i: int| 0 <= i < (a + b).len() implies dom.contains(#[trigger] (a + b)[i].0) && (a + b)[i].1
        == 0 && (a + b)[i].3 by {
        if i >= a.len() {
            assert((a + b)[i] == b[i - a.len()]);
            assert(dom.contains(b[i - a.len()].0));
        } else {
            assert((a + b)[i] == a[i]);
            assert(dom.contains(a[i].0));
        }
    }
}

/// The level election is delivered to the connected peers.
proof fn lemma_elect_delivered(s: ServerModel, to: usize)
    ensures
        delivered_to(elect_next(s, to).1, elect_next(s, to).0.peers.dom()),
{
    reveal(elect_next);
    if s.peers.contains_key(to) {
        assert(elect_next(s, to).0.peers.dom().contains(to));
    }
}

/// A game message's replies are delivered to the connected peers.
proof fn lemma_msg_delivered(
    s: ServerModel,
    key: usize,
    id: GameMsgId,
    payload: Seq<u8>,
    n: ServerModel,
    sent: Seq<OutView>,
)
    requires
        msg_step(s, key, id, payload, n, sent),
    ensures
        delivered_to(sent, n.peers.dom()),
{
    lemma_msg_keeps_peers(s, key, id, payload, n, sent);
    match id {
        GameMsgId::NetRpc
        | GameMsgId::Critters
        | GameMsgId::MusicSync
        | GameMsgId::NetLevelDataElect
        | GameMsgId::NetLevelElectionNominee => {
            if s.peers.contains_key(key) {
                let stamped = if id == GameMsgId::NetRpc {
                    rpc_payload(payload, s.peers[key].uuid)
                } else {
                    payload
                };
                let m = relay_msg(s.peers, id, s.peers[key].player_id, stamped);
                assert(addresses(m));
                lemma_sent_to_each_delivered(sent, s.peers.dom(), relay_to(s.peers, key), m);
            }
        },
        _ => {},
    }
}

/// A JoinGame's `EnterGame` messages are delivered to the connected peers.
proof fn lemma_join_delivered(s: ServerModel, key: usize, payload: Seq<u8>, n: ServerModel, sent: Seq<OutView>)
    requires
        join_step(s, key, payload, n, sent),
    ensures
        delivered_to(sent, n.peers.dom()),
{
    if s.peers.contains_key(key) && payload.len() >= 16 {
        let to = in_game(n.peers, Some(n.peers[key].player_id));
        let ks = choose|ks: Seq<usize>|
            key_order(ks, n.peers.dom()) && sent_to_each(
                sent,
                n.peers.dom(),
                to,
                same_msg(framed(PacketId::EnterGame, enter_game_payload(ks, n.peers))),
            );
        lemma_sent_to_each_delivered(
            sent,
            n.peers.dom(),
            to,
            same_msg(framed(PacketId::EnterGame, enter_game_payload(ks, n.peers))),
        );
    }
}

/// Every message sent in answer to received data goes reliably on
/// channel 0 to a peer that is connected afterwards.
pub proof fn lemma_receive_delivers(s: ServerModel, key: usize, data: Seq<u8>, n: ServerModel, sent: Seq<OutView>)
    requires
        receive_step(s, key, data, n, sent),
    ensures
        delivered_to(sent, n.peers.dom()),
{
    if key != 0 && data.len() > 0 {
        let s1 = receive_prepared(s, key, data);
        let pk = receive_packet(data);
        if let Some(id) = packet_id_of(pk[0]) {
            let payload = pk.skip(2);
            match id {
                PacketId::JoinGame => {
                    lemma_join_delivered(s1, key, payload, n, sent);
                },
                PacketId::LevelUpdate => {
                    lemma_level_update_delivered(s1, key, payload, n, sent);
                },
                PacketId::GameMsg => {
                    if let Some(g) = game_msg_id_of(payload[0]) {
                        lemma_msg_delivered(s1, key, g, payload.skip(3), n, sent);
                    }
                },
                _ => {},
            }
        }
    }
}

/// A LevelUpdate's messages are delivered to the connected peers.
proof fn lemma_level_update_delivered(s: ServerModel, key: usize, payload: Seq<u8>, n: ServerModel, sent: Seq<OutView>)
    requires
        level_update_step(s, key, payload, n, sent),
    ensures
        delivered_to(sent, n.peers.dom()),
{
    if s.peers.contains_key(key) && payload.len() >= 18 {
        let p0 = s.peers[key];
        let p1 = PeerModel { lv_seq: ((p0.lv_seq + 1) % 256) as u8, ..p0 };
        let level = from_le32(payload[14], payload[15], payload[16], payload[17]);
        if level == p0.level_id {
            lemma_elect_delivered(with_peer(s, key, p1), key);
        } else {
            let s2 = with_peer(s, key, PeerModel { level_id: level, ..p1 });
            let s3 = ServerModel {
                level_hosts: if hosted_by(s, p0.level_id, p0.player_id) {
                    s.level_hosts.remove(p0.level_id)
                } else {
                    s.level_hosts
                },
                ..s2
            };
            let data = framed(PacketId::PlayerChangedLevel, seq![p0.player_id] + payload.subrange(14, 18));
            let (a, b) = choose|a: Seq<OutView>, b: Seq<OutView>|
                {
                    &&& #[trigger] sent_once_per_uuid(
                        a,
                        s2.peers.dom(),
                        s2.peers,
                        in_level(s2.peers, p0.level_id, Some(p0.player_id)),
                        same_msg(data),
                    )
                    &&& #[trigger] sent_once_per_uuid(
                        b,
                        s2.peers.dom(),
                        s2.peers,
                        in_level(s2.peers, level, Some(p0.player_id)),
                        same_msg(data),
                    )
                    &&& sent == a + b + elect_next(s3, key).1
                };
            lemma_sent_once_per_uuid_delivered(
                a,
                s2.peers.dom(),
                s2.peers,
                in_level(s2.peers, p0.level_id, Some(p0.player_id)),
                same_msg(data),
            );
            lemma_sent_once_per_uuid_delivered(
                b,
                s2.peers.dom(),
                s2.peers,
                in_level(s2.peers, level, Some(p0.player_id)),
                same_msg(data),
            );
            lemma_elect_delivered(s3, key);
            lemma_elect_keeps_peers(s3, key);
            lemma_delivered_add(a, b, s2.peers.dom());
            lemma_delivered_add(a + b, elect_next(s3, key).1, s2.peers.dom());
        }
    }
}

/// A disconnection tells only peers that remain, reliably on channel 0.
pub proof fn lemma_disconnect_delivers(s: ServerModel, key: usize, n: ServerModel, sent: Seq<OutView>)
    requires
        disconnect_step(s, key, n, sent),
    ensures
        delivered_to(sent, n.peers.dom()),
        !n.peers.contains_key(key),
{
    if s.peers.contains_key(key) {
        let e = s.peers[key];
        lemma_sent_to_each_delivered(
            sent,
            n.peers.dom(),
            in_game(n.peers, None),
            same_msg(framed(PacketId::PlayerLeft, seq![e.player_id, 0u8])),
        );
    }
}

/// The player state tick sends reliably on channel 0 to connected peers
/// only, and keeps the connected peers.
pub proof fn lemma_sync_frame_delivers(s: ServerModel, n: ServerModel, sent: Seq<OutView>)
    requires
        sync_frame_step(s, n, sent),
    ensures
        delivered_to(sent, s.peers.dom()),
        n.peers.dom() == s.peers.dom(),
{
    let ka = choose|ka: Seq<usize>|
        {
            &&& key_order(ka, s.peers.dom())
            &&& n == ServerModel { peers: frame_peers(ka, s.peers), ..s }
            &&& sent_to_each(sent, s.peers.dom(), frame_to(ka, s.peers), frame_msg(ka, s.peers))
        };
    assert(addresses(frame_msg(ka, s.peers)));
    lemma_sent_to_each_delivered(sent, s.peers.dom(), frame_to(ka, s.peers), frame_msg(ka, s.peers));
    assert(n.peers.dom() =~= s.peers.dom());
}

/// The level data tick sends reliably on channel 0 to connected peers
/// only, and keeps the connected peers.
pub proof fn lemma_sync_level_delivers(s: ServerModel, n: ServerModel, sent: Seq<OutView>)
    requires
        sync_level_step(s, n, sent),
    ensures
        delivered_to(sent, s.peers.dom()),
        n.peers.dom() == s.peers.dom(),
{
    let (ks, j) = choose|ks: Seq<usize>, j: int|
        #![trigger level_sync_peers(s, ks, j)]
        {
            &&& key_order(ks, s.peers.dom())
            &&& 0 <= j <= ks.len()
            &&& forall|i: int| 0 <= i < j ==> has_host(s, #[trigger] s.peers[ks[i]])
            &&& j < ks.len() ==> !has_host(s, s.peers[ks[j]])
            &&& n == ServerModel { peers: level_sync_peers(s, ks, j), ..s }
            &&& sent == fan_out(ks.take(j), level_sync_to(s), level_sync_msg(s))
        };
    reveal(level_msg);
    assert(addresses(level_sync_msg(s)));
    assert forall|i: int| 0 <= i < ks.take(j).len() implies s.peers.dom().contains(#[trigger] ks.take(j)[i]) by {
        assert(ks.contains(ks[i]));
    }
    lemma_fan_out_delivered(ks.take(j), level_sync_to(s), level_sync_msg(s), s.peers.dom());
    assert(n.peers.dom() =~= s.peers.dom());
}

/// The acknowledgment tick sends reliably on channel 0 to connected
/// peers only.
pub proof fn lemma_snapshot_ack_delivers(s: ServerModel, sent: Seq<OutView>)
    requires
        sent_to_each(sent, s.peers.dom(), every_key(), ack_msg(s.peers)),
    ensures
        delivered_to(sent, s.peers.dom()),
{
    assert(addresses(ack_msg(s.peers)));
    lemma_sent_to_each_delivered(sent, s.peers.dom(), every_key(), ack_msg(s.peers));
}

/// The keys a fan-out by UUID sends to are selected keys of `ks`, with
/// pairwise different UUIDs.
proof fn lemma_fan_out_unique_distinct(
    ks: Seq<usize>,
    peers: Map<usize, PeerModel>,
    to: spec_fn(usize) -> bool,
    msg: spec_fn(usize) -> OutView,
)
    requires
        forall|k: usize| #[trigger] msg(k).0 == k,
    ensures
        ({
            let f = fan_out_unique(ks, peers, to, msg);
            &&& forall|i: int|
                0 <= i < f.len() ==> exists|t: int| 0 <= t < ks.len() && #[trigger] f[i].0 == ks[t] && to(ks[t])
            &&& forall|i: int, j: int|
                0 <= i < j < f.len() ==> peers[(#[trigger] f[i]).0].uuid != peers[(#[trigger] f[j]).0].uuid
        }),
    decreases ks.len(),
{
    if ks.len() > 0 {
        let init = ks.drop_last();
        lemma_fan_out_unique_distinct(init, peers, to, msg);
        let rest = fan_out_unique(init, peers, to, msg);
        let last = ks.len() - 1;
        let k = ks.last();
        let f = fan_out_unique(ks, peers, to, msg);
        assert forall|i: int| 0 <= i < rest.len() implies exists|t: int|
            0 <= t < ks.len() && #[trigger] rest[i].0 == ks[t] && to(ks[t]) by {
            let t = choose|t: int| 0 <= t < init.len() && #[trigger] rest[i].0 == init[t] && to(init[t]);
            assert(init[t] == ks[t]);
        }
        if to(k) && first_of_uuid(ks, peers, to, last) {
            assert(msg(k).0 == k);
            assert forall|i: int| 0 <= i < f.len() implies exists|t: int|
                0 <= t < ks.len() && #[trigger] f[i].0 == ks[t] && to(ks[t]) by {
                if i < rest.len() {
                    assert(f[i] == rest[i]);
                } else {
                    assert(f[i].0 == ks[last]);
                }
            }
            assert forall|i: int, j: int| 0 <= i < j < f.len() implies peers[(#[trigger] f[i]).0].uuid
                != peers[(#[trigger] f[j]).0].uuid by {
                assert(f[i] == rest[i]);
                if j < rest.len() {
                    assert(f[j] == rest[j]);
                } else {
                    let t = choose|t: int| 0 <= t < init.len() && #[trigger] rest[i].0 == init[t] && to(init[t]);
                    assert(init[t] == ks[t]);
                    assert(f[j].0 == ks[last]);
                }
            }
        }
    }
}

/// A broadcast to a level reaches each player once: no two of its
/// messages go to peers with the same UUID.
pub proof fn lemma_level_broadcast_once_per_uuid(
    sent: Seq<OutView>,
    dom: Set<usize>,
    peers: Map<usize, PeerModel>,
    to: spec_fn(usize) -> bool,
    msg: spec_fn(usize) -> OutView,
)
    requires
        forall|k: usize| #[trigger] msg(k).0 == k,
        sent_once_per_uuid(sent, dom, peers, to, msg),
    ensures
        forall|i: int, j: int|
            0 <= i < j < sent.len() ==> peers[(#[trigger] sent[i]).0].uuid != peers[(#[trigger] sent[j]).0].uuid,
{
    let ks = choose|ks: Seq<usize>| key_order(ks, dom) && sent == fan_out_unique(ks, peers, to, msg);
    lemma_fan_out_unique_distinct(ks, peers, to, msg);
}

// ── level election ───────────────────────────────────────────────────

/// The level election keeps a level's stored data: when `to`'s level
/// already has level data, it stays, with only its elected player set to
/// the level's host (the present host, else `to`'s player); a level
/// without any gets a fresh header naming the host and the level, every
/// other field 0, and no data; and the
/// `NetLevelDataElect` message sent to `to` carries, in a raw frame, the
/// bytes of the level data now stored.
pub proof fn lemma_elect_keeps_level_data(s: ServerModel, to: usize)
    requires
        s.peers.contains_key(to),
    ensures
        ({
            let p = s.peers[to];
            let l = p.level_id;
            let (n, sent) = elect_next(s, to);
            let host = n.level_hosts[l];
            &&& n.level_hosts.contains_key(l)
            &&& s.level_hosts.contains_key(l) ==> host == s.level_hosts[l]
            &&& !s.level_hosts.contains_key(l) ==> host == p.player_id
            &&& n.levels_data.contains_key(l)
            &&& s.levels_data.contains_key(l) ==> n.levels_data[l] == (
                HeaderModel { elected_player: host, ..s.levels_data[l].0 },
                s.levels_data[l].1,
            )
            &&& n.levels_data[l].0.elected_player == host
            &&& !s.levels_data.contains_key(l) ==> n.levels_data[l] == (
                HeaderModel {
                    elected_player: host,
                    level_id: l,
                    unk1: 0,
                    has_initial_data: 0,
                    unk2: 0,
                    unk3: 0,
                    level_hash: 0,
                    merge_state: 0,
                    unk5: 0,
                    unk6: 0,
                    length: 0,
                },
                Seq::<u8>::empty(),
            )
            &&& exists|f: Seq<u8>|
                #![trigger game_packet(GameMsgId::NetLevelDataElect, p.lv_seq, 0, f)]
                {
                    &&& sent == seq![msg_to(to, game_packet(GameMsgId::NetLevelDataElect, p.lv_seq, 0, f))]
                    &&& f.len() >= 3
                    &&& f[1] == 0
                    &&& f.subrange(3, f.len() as int) == truncated(level_bytes(n.levels_data[l]))
                }
        }),
{
    reveal(elect_next);
    let p = s.peers[to];
    let l = p.level_id;
    let n = elect_next(s, to).0;
    let t = level_bytes(n.levels_data[l]);
    let f = writer_generate(writer_reset(p.level.writer), t).1;
    assert(f.subrange(3, f.len() as int) =~= truncated(t));
}

// ── snapshot acknowledgments ─────────────────────────────────────────

/// The acknowledgment a delta state sends: its recorded save sequence,
/// or 1 when none is recorded.
pub open spec fn recorded_ack(a: Option<u8>) -> u8 {
    match a {
        Some(x) => x,
        None => 1,
    }
}

/// The `SnapshotAck` message to each peer, byte by byte: a `GameMsg`
/// packet (wire byte 14) of 5 payload bytes holding the `SnapshotAck`
/// message (wire byte 14) with the peer's level sequence and source 0,
/// then the player-state acknowledgment, then the level-data
/// acknowledgment (each the recorded save sequence, else 1).
pub proof fn lemma_snapshot_ack_bytes(peers: Map<usize, PeerModel>, k: usize)
    ensures
        ({
            let m = ack_msg(peers)(k);
            let d = m.2;
            &&& m.0 == k && m.1 == 0 && m.3
            &&& d.len() == 8
            &&& d[0] == 14 && d[1] == 5 && d[2] == 0
            &&& d[3] == 14 && d[4] == peers[k].lv_seq && d[5] == 0
            &&& d[6] == recorded_ack(peers[k].player.snapshot_ack)
            &&& d[7] == recorded_ack(peers[k].level.snapshot_ack)
        }),
{
    let m = ack_msg(peers)(k);
    assert(m.2.len() == 8);
}

/// Once a peer's player-state frame with a non-zero save sequence is
/// decoded, the next `SnapshotAck` to that peer acknowledges that save
/// sequence in its player-state byte, and leaves the level-data byte as
/// it was.
pub proof fn lemma_player_frame_acked(s: ServerModel, key: usize, payload: Seq<u8>)
    requires
        s.peers.contains_key(key),
        reader_apply(s.peers[key].player.reader, payload).1 is Some,
        payload[0] != 0,
    ensures
        ack_msg(player_state_next(s, key, payload).peers)(key).2[6] == payload[0],
        ack_msg(player_state_next(s, key, payload).peers)(key).2[7] == ack_msg(s.peers)(key).2[7],
{
    lemma_snapshot_ack_bytes(player_state_next(s, key, payload).peers, key);
    lemma_snapshot_ack_bytes(s.peers, key);
}

/// Once the host's level-data frame with a non-zero save sequence is
/// decoded, the next `SnapshotAck` to it acknowledges that save sequence
/// in its level-data byte, and leaves the player-state byte as it was.
pub proof fn lemma_level_frame_acked(s: ServerModel, key: usize, payload: Seq<u8>)
    requires
        s.peers.contains_key(key),
        hosted_by(s, s.peers[key].level_id, s.peers[key].player_id),
        reader_apply(s.peers[key].level.reader, payload).1 is Some,
        payload[0] != 0,
    ensures
        ack_msg(level_data_next(s, key, payload).peers)(key).2[7] == payload[0],
        ack_msg(level_data_next(s, key, payload).peers)(key).2[6] == ack_msg(s.peers)(key).2[6],
{
    lemma_snapshot_ack_bytes(level_data_next(s, key, payload).peers, key);
    lemma_snapshot_ack_bytes(s.peers, key);
}

} // verus!
