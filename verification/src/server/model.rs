//! What each handler of the server does, stated over [`ServerModel`]: the
//! state it leaves and the messages it sends.
//!
//! Handlers whose effect is fixed by their inputs are spec functions
//! returning the next state (and messages); those that walk the peer
//! table, whose order the table does not fix, are relations between the
//! state before, the state after and the messages sent.

use vstd::prelude::*;
use crate::protocol::game_msg::level_data::{header_bytes, parse_level_data, HeaderModel};
use crate::protocol::game_msg::{game_msg_bytes, game_msg_id_of, GameMsgId};
use crate::protocol::packet::{framed, packet_id_of, PacketId};
use crate::server::peer::{peer_initial, DeltaModel, PeerModel};
use crate::server::state::{
    fan_out, key_order, msg_to, sent_once_per_uuid, sent_to_each, with_peer, OutView, ServerModel,
};
use crate::utils::bytes::{from_le32, le32, le64};
use crate::utils::snapshot::{reader_apply, writer_ack, writer_generate, writer_reset, WriterModel};
use crate::utils::{magic_split, player_id_of};

verus! {

// ── message selection ────────────────────────────────────────────────

/// The same message `(k, channel, data, reliable)` for every key `k`.
pub open spec fn each_msg(channel: u8, data: Seq<u8>, reliable: bool) -> spec_fn(usize) -> OutView {
    |k: usize| (k, channel, data, reliable)
}

/// The same reliable channel-0 message for every key.
pub open spec fn same_msg(data: Seq<u8>) -> spec_fn(usize) -> OutView {
    each_msg(0u8, data, true)
}

/// Every key.
pub open spec fn every_key() -> spec_fn(usize) -> bool {
    |k: usize| true
}

/// The peers a broadcast to the game addresses: those that have entered
/// the game (joining gives a peer its player ID, and never 0), but the
/// player `except` (when given).
pub open spec fn in_game(peers: Map<usize, PeerModel>, except: Option<u8>) -> spec_fn(usize) -> bool {
    |k: usize| peers[k].player_id != 0 && (except matches Some(x) ==> peers[k].player_id != x)
}

/// The peers a broadcast to `level` addresses: those in the game and in
/// `level`, but the player `except` (when given).
pub open spec fn in_level(peers: Map<usize, PeerModel>, level: u32, except: Option<u8>) -> spec_fn(usize) -> bool {
    |k: usize|
        peers[k].player_id != 0 && peers[k].level_id == level && (except matches Some(x) ==> peers[k].player_id
            != x)
}

/// The game message `[id] [level_seq] [source] [payload]` framed as a
/// `PacketId::GameMsg` packet.
pub open spec fn game_packet(id: GameMsgId, level_seq: u8, source: u8, payload: Seq<u8>) -> Seq<u8> {
    framed(PacketId::GameMsg, game_msg_bytes(id, level_seq, source, payload))
}

// ── small state helpers ──────────────────────────────────────────────

/// Whether `player` is the elected host of `level`.
pub open spec fn hosted_by(s: ServerModel, level: u32, player: u8) -> bool {
    s.level_hosts.contains_key(level) && s.level_hosts[level] == player
}

/// `d` with its snapshot writer replaced.
pub open spec fn with_writer(d: DeltaModel, w: WriterModel) -> DeltaModel {
    DeltaModel { writer: w, ..d }
}

/// The level data a level gets when a player first enters it: the
/// elected player and level set, every other field 0 and no data.
pub open spec fn fresh_level_data(elected: u8, level: u32) -> (HeaderModel, Seq<u8>) {
    (
        HeaderModel {
            elected_player: elected,
            level_id: level,
            unk1: 0,
            has_initial_data: 0,
            unk2: 0,
            unk3: 0,
            level_hash: 0,
            merge_state: 0,
            unk5: 0,
            unk6: 0,
            length: 0,
        },
        Seq::empty(),
    )
}

/// The wire bytes of level data.
pub open spec fn level_bytes(ld: (HeaderModel, Seq<u8>)) -> Seq<u8> {
    header_bytes(ld.0) + ld.1
}

// ── connection lifecycle ─────────────────────────────────────────────

/// A new connection: a fresh entry under `key` (key 0 is the null peer
/// and is ignored).
pub open spec fn connect_next(s: ServerModel, key: usize) -> ServerModel {
    if key == 0 {
        s
    } else {
        with_peer(s, key, peer_initial())
    }
}

/// A disconnection: the entry leaves, every remaining peer in the game is
/// told `PlayerLeft [player_id, 0]`, and the level loses its host if the
/// leaving player was it.
pub open spec fn disconnect_step(s: ServerModel, key: usize, n: ServerModel, sent: Seq<OutView>) -> bool {
    if !s.peers.contains_key(key) {
        n == s && sent.len() == 0
    } else {
        let e = s.peers[key];
        &&& n == ServerModel {
            peers: s.peers.remove(key),
            level_hosts: if hosted_by(s, e.level_id, e.player_id) {
                s.level_hosts.remove(e.level_id)
            } else {
                s.level_hosts
            },
            levels_data: s.levels_data,
        }
        &&& sent_to_each(
            sent,
            n.peers.dom(),
            in_game(n.peers, None),
            same_msg(framed(PacketId::PlayerLeft, seq![e.player_id, 0u8])),
        )
    }
}

// ── JoinGame ─────────────────────────────────────────────────────────

/// One player's entry of the `EnterGame` roster:
/// `[player_id] [uuid] [16 zero bytes] [level_id:u32 LE]`.
pub open spec fn roster_entry(p: PeerModel) -> Seq<u8> {
    seq![p.player_id] + p.uuid + Seq::new(16, |_i: int| 0u8) + le32(p.level_id)
}

/// The roster entries of the peers of `ks`, in that order.
pub open spec fn roster(ks: Seq<usize>, peers: Map<usize, PeerModel>) -> Seq<u8>
    decreases ks.len(),
{
    if ks.len() == 0 {
        Seq::empty()
    } else {
        roster(ks.drop_last(), peers) + roster_entry(peers[ks.last()])
    }
}

/// The `EnterGame` payload: the peer count (modulo 256), then the roster
/// in the order `ks`.
pub open spec fn enter_game_payload(ks: Seq<usize>, peers: Map<usize, PeerModel>) -> Seq<u8> {
    seq![(peers.dom().len() % 256) as u8] + roster(ks, peers)
}

/// The entry of a player who joined with `payload`: UUID from its first
/// 16 bytes, level from its last 4, player ID from the UUID.
pub open spec fn joined(p: PeerModel, payload: Seq<u8>) -> PeerModel {
    let uuid = payload.take(16);
    let l = payload.len() - 4;
    PeerModel {
        player_id: player_id_of(uuid),
        uuid,
        level_id: from_le32(payload[l], payload[l + 1], payload[l + 2], payload[l + 3]),
        ..p
    }
}

/// JoinGame: nothing happens for an unknown peer or a payload under 16
/// bytes; otherwise the peer takes its UUID, player ID and level, and
/// every other player in the game (every peer in the game whose player
/// ID is not the joiner's) is sent `EnterGame` with the roster of all
/// peers.
pub open spec fn join_step(s: ServerModel, key: usize, payload: Seq<u8>, n: ServerModel, sent: Seq<OutView>) -> bool {
    if !s.peers.contains_key(key) || payload.len() < 16 {
        n == s && sent.len() == 0
    } else {
        &&& n == with_peer(s, key, joined(s.peers[key], payload))
        &&& exists|ks: Seq<usize>|
            key_order(ks, n.peers.dom()) && sent_to_each(
                sent,
                n.peers.dom(),
                in_game(n.peers, Some(n.peers[key].player_id)),
                same_msg(framed(PacketId::EnterGame, enter_game_payload(ks, n.peers))),
            )
    }
}

// ── level election ───────────────────────────────────────────────────

/// Sending the level election to `to`: its level gets a host (the
/// present one, or `to`'s player if none) and level data (a fresh one if
/// none) whose elected player is that host; `to`'s level writer restarts
/// and encodes that level data into a `NetLevelDataElect` message to `to`.
#[verifier::opaque]
pub open spec fn elect_next(s: ServerModel, to: usize) -> (ServerModel, Seq<OutView>) {
    if !s.peers.contains_key(to) {
        (s, Seq::empty())
    } else {
        let p = s.peers[to];
        let l = p.level_id;
        let host = if s.level_hosts.contains_key(l) { s.level_hosts[l] } else { p.player_id };
        let base = if s.levels_data.contains_key(l) { s.levels_data[l] } else { fresh_level_data(host, l) };
        let ld = (HeaderModel { elected_player: host, ..base.0 }, base.1);
        let g = writer_generate(writer_reset(p.level.writer), level_bytes(ld));
        (
            ServerModel {
                peers: s.peers.insert(to, PeerModel { level: with_writer(p.level, g.0), ..p }),
                level_hosts: s.level_hosts.insert(l, host),
                levels_data: s.levels_data.insert(l, ld),
            },
            seq![msg_to(to, game_packet(GameMsgId::NetLevelDataElect, p.lv_seq, 0, g.1))],
        )
    }
}

// ── LevelUpdate ──────────────────────────────────────────────────────

/// LevelUpdate: the peer's level sequence number steps (wrapping); with a
/// payload of at least 18 bytes, the level at bytes 14..18 becomes the
/// peer's level; if it changed, the players of the old and of the new
/// level (but the mover) are told `PlayerChangedLevel`, once per UUID,
/// and the old level
/// loses its host if it was the mover; then the level election is sent
/// to the peer.
pub open spec fn level_update_step(
    s: ServerModel,
    key: usize,
    payload: Seq<u8>,
    n: ServerModel,
    sent: Seq<OutView>,
) -> bool {
    if !s.peers.contains_key(key) {
        n == s && sent.len() == 0
    } else {
        let p0 = s.peers[key];
        let p1 = PeerModel { lv_seq: ((p0.lv_seq + 1) % 256) as u8, ..p0 };
        if payload.len() < 18 {
            n == with_peer(s, key, p1) && sent.len() == 0
        } else {
            let level = from_le32(payload[14], payload[15], payload[16], payload[17]);
            if level == p0.level_id {
                n == elect_next(with_peer(s, key, p1), key).0 && sent == elect_next(with_peer(s, key, p1), key).1
            } else {
                let s2 = with_peer(s, key, PeerModel { level_id: level, ..p1 });
                let s3 = ServerModel {
                    level_hosts: if hosted_by(s, p0.level_id, p0.player_id) {
                        s.level_hosts.remove(p0.level_id)
                    } else {
                        s.level_hosts
                    },
                    ..s2
                };
                let data = framed(PacketId::PlayerChangedLevel, seq![p0.player_id] + payload.subrange(14, 18));
                &&& n == elect_next(s3, key).0
                &&& exists|a: Seq<OutView>, b: Seq<OutView>|
                    {
                        &&& #[trigger] sent_once_per_uuid(
                            a,
                            s2.peers.dom(),
                            s2.peers,
                            in_level(s2.peers, p0.level_id, Some(p0.player_id)),
                            same_msg(data),
                        )
                        &&& #[trigger] sent_once_per_uuid(
                            b,
                            s2.peers.dom(),
                            s2.peers,
                            in_level(s2.peers, level, Some(p0.player_id)),
                            same_msg(data),
                        )
                        &&& sent == a + b + elect_next(s3, key).1
                    }
            }
        }
    }
}

// ── NetTimePing ──────────────────────────────────────────────────────

/// NetTimePing: a connected peer is sent `NetTimePong` with its payload
/// followed by the receive and the send time (the bit patterns of the
/// `f64` seconds, little-endian).
pub open spec fn ping_sent(s: ServerModel, key: usize, payload: Seq<u8>, recv_time: u64, send_time: u64) -> Seq<OutView> {
    if !s.peers.contains_key(key) {
        Seq::empty()
    } else {
        seq![msg_to(key, framed(PacketId::NetTimePong, payload + le64(recv_time) + le64(send_time)))]
    }
}

// ── game messages ────────────────────────────────────────────────────

/// The peers a relayed message reaches: the others in the sender's level.
pub open spec fn relay_to(peers: Map<usize, PeerModel>, from: usize) -> spec_fn(usize) -> bool {
    |k: usize| k != from && peers[k].level_id == peers[from].level_id
}

/// The relayed message to `k`: the game message with `k`'s level sequence
/// number and the sender's player ID.
pub open spec fn relay_msg(
    peers: Map<usize, PeerModel>,
    id: GameMsgId,
    source: u8,
    payload: Seq<u8>,
) -> spec_fn(usize) -> OutView {
    |k: usize| msg_to(k, game_packet(id, peers[k].lv_seq, source, payload))
}

/// Relaying a game message from `from` to the other peers of its level;
/// nothing is sent for an unknown sender.
pub open spec fn relay_step(s: ServerModel, id: GameMsgId, payload: Seq<u8>, from: usize, sent: Seq<OutView>) -> bool {
    if !s.peers.contains_key(from) {
        sent.len() == 0
    } else {
        sent_to_each(
            sent,
            s.peers.dom(),
            relay_to(s.peers, from),
            relay_msg(s.peers, id, s.peers[from].player_id, payload),
        )
    }
}

/// The tag of a NetRpc call whose bytes 18..34 carry the caller's UUID.
pub open spec fn rpc_tag() -> Seq<u8> {
    seq![0xb3u8, 0xb9u8, 0xd9u8, 0x20u8, 0x00u8, 0x24u8, 0x00u8]
}

/// Whether the RPC body (the payload after its first byte) starts with
/// the tag.
pub open spec fn rpc_tagged(payload: Seq<u8>) -> bool {
    payload.len() >= 8 && payload.subrange(1, 8) == rpc_tag()
}

/// The inputs on which a NetRpc payload is handled without a fault: a
/// first byte, and for a tagged call from a known sender a body of at
/// least 10 bytes, and of 34 when its byte 9 is 1.
pub open spec fn rpc_safe(s: ServerModel, key: usize, payload: Seq<u8>) -> bool {
    &&& payload.len() >= 1
    &&& rpc_tagged(payload) && s.peers.contains_key(key) ==> payload.len() >= 11 && (payload[10] == 1
        ==> payload.len() >= 35)
}

/// The NetRpc payload as relayed: for a tagged call with body byte 9 set
/// to 1, payload bytes 19..35 are replaced by the sender's UUID.
pub open spec fn rpc_payload(payload: Seq<u8>, uuid: Seq<u8>) -> Seq<u8> {
    if rpc_tagged(payload) && payload[10] == 1 {
        Seq::new(payload.len(), |j: int| if 19 <= j < 35 { uuid[j - 19] } else { payload[j] })
    } else {
        payload
    }
}

/// NetRpc: a tagged call from an unknown sender is dropped; otherwise the
/// (possibly stamped) payload is relayed.
pub open spec fn rpc_step(s: ServerModel, key: usize, payload: Seq<u8>, sent: Seq<OutView>) -> bool {
    if rpc_tagged(payload) && !s.peers.contains_key(key) {
        sent.len() == 0
    } else {
        let stamped = if s.peers.contains_key(key) { rpc_payload(payload, s.peers[key].uuid) } else { payload };
        relay_step(s, GameMsgId::NetRpc, stamped, key, sent)
    }
}

/// The acknowledgment a decoded frame asks for: its save sequence when
/// not 0, else the one held before.
pub open spec fn ack_after(payload: Seq<u8>, before: Option<u8>) -> Option<u8> {
    if payload[0] != 0 {
        Some(payload[0])
    } else {
        before
    }
}

/// PlayerState: the peer's player reader decodes the frame; on success
/// the decoded state becomes the peer's raw state and the frame's save
/// sequence (when not 0) the acknowledgment to send.
pub open spec fn player_state_next(s: ServerModel, key: usize, payload: Seq<u8>) -> ServerModel {
    if !s.peers.contains_key(key) {
        s
    } else {
        let p = s.peers[key];
        let ra = reader_apply(p.player.reader, payload);
        let r = ra.0;
        let d = match ra.1 {
            Some(raw) => DeltaModel {
                raw_state: raw,
                reader: r,
                snapshot_ack: ack_after(payload, p.player.snapshot_ack),
                ..p.player
            },
            None => DeltaModel { reader: r, ..p.player },
        };
        with_peer(s, key, PeerModel { player: d, ..p })
    }
}

/// NetLevelData: only the host of the sender's level is heard. Its level
/// reader decodes the frame; on success the save sequence (when not 0)
/// becomes the acknowledgment to send, and decoded bytes that parse as
/// level data replace the stored level data of that level (keeping its
/// elected player), if the level has any.
pub open spec fn level_data_next(s: ServerModel, key: usize, payload: Seq<u8>) -> ServerModel {
    if !s.peers.contains_key(key) || !hosted_by(s, s.peers[key].level_id, s.peers[key].player_id) {
        s
    } else {
        let p = s.peers[key];
        let l = p.level_id;
        let ra = reader_apply(p.level.reader, payload);
        let r = ra.0;
        match ra.1 {
            None => with_peer(s, key, PeerModel { level: DeltaModel { reader: r, ..p.level }, ..p }),
            Some(raw) => {
                let s1 = with_peer(
                    s,
                    key,
                    PeerModel {
                        level: DeltaModel {
                            reader: r,
                            snapshot_ack: ack_after(payload, p.level.snapshot_ack),
                            ..p.level
                        },
                        ..p
                    },
                );
                match parse_level_data(raw) {
                    Some(ld) => if s.levels_data.contains_key(l) {
                        ServerModel {
                            levels_data: s.levels_data.insert(
                                l,
                                (HeaderModel { elected_player: s.levels_data[l].0.elected_player, ..ld.0 }, ld.1),
                            ),
                            ..s1
                        }
                    } else {
                        s1
                    },
                    None => s1,
                }
            },
        }
    }
}

/// A peer that may take over as host of `p`'s level: another player in
/// that level.
pub open spec fn successor(s: ServerModel, p: PeerModel, c: usize) -> bool {
    s.peers.contains_key(c) && s.peers[c].level_id == p.level_id && s.peers[c].player_id != p.player_id
}

/// NetLevelDataRevoke: nothing happens unless the sender's level has a
/// host; the host leaves it if it is the sender, and another player of
/// that level, when there is one, becomes the host. Nothing is sent.
pub open spec fn revoke_step(s: ServerModel, key: usize, n: ServerModel) -> bool {
    if !s.peers.contains_key(key) || !s.level_hosts.contains_key(s.peers[key].level_id) {
        n == s
    } else {
        let p = s.peers[key];
        let l = p.level_id;
        let hosts = if s.level_hosts[l] == p.player_id { s.level_hosts.remove(l) } else { s.level_hosts };
        if exists|c: usize| successor(s, p, c) {
            exists|c: usize|
                successor(s, p, c) && n == ServerModel {
                    level_hosts: s.level_hosts.insert(l, s.peers[c].player_id),
                    ..s
                }
        } else {
            n == ServerModel { level_hosts: hosts, ..s }
        }
    }
}

/// NetLevelDataHeartbeat: the sender becomes the host of its level if it
/// has none.
pub open spec fn heartbeat_next(s: ServerModel, key: usize) -> ServerModel {
    if s.peers.contains_key(key) && !s.level_hosts.contains_key(s.peers[key].level_id) {
        ServerModel { level_hosts: s.level_hosts.insert(s.peers[key].level_id, s.peers[key].player_id), ..s }
    } else {
        s
    }
}

/// SnapshotAck: the player writer, if it awaits an ack, takes payload
/// byte 0 as one (an empty payload stops here); then the level writer, if
/// it awaits one, takes byte 1 (a shorter payload stops here).
pub open spec fn snapshot_ack_next(s: ServerModel, key: usize, payload: Seq<u8>) -> ServerModel {
    if !s.peers.contains_key(key) {
        s
    } else {
        let p = s.peers[key];
        let pw = p.player.writer;
        let lw = p.level.writer;
        if pw.pending_ack_seq is Some && payload.len() == 0 {
            s
        } else {
            let pw1 = if pw.pending_ack_seq is Some { writer_ack(pw, payload[0]).0 } else { pw };
            let p1 = PeerModel { player: with_writer(p.player, pw1), ..p };
            if lw.pending_ack_seq is Some && payload.len() < 2 {
                with_peer(s, key, p1)
            } else {
                let lw1 = if lw.pending_ack_seq is Some { writer_ack(lw, payload[1]).0 } else { lw };
                with_peer(s, key, PeerModel { level: with_writer(p.level, lw1), ..p1 })
            }
        }
    }
}

/// The inputs on which a game message is handled without a fault.
pub open spec fn msg_safe(s: ServerModel, key: usize, id: GameMsgId, payload: Seq<u8>) -> bool {
    match id {
        GameMsgId::NetRpc => rpc_safe(s, key, payload),
        GameMsgId::PlayerState => s.peers.contains_key(key) ==> payload.len() >= 3,
        GameMsgId::NetLevelData => s.peers.contains_key(key) && hosted_by(
            s,
            s.peers[key].level_id,
            s.peers[key].player_id,
        ) ==> payload.len() >= 3,
        _ => true,
    }
}

/// A game message from `key`, dispatched by its type.
pub open spec fn msg_step(
    s: ServerModel,
    key: usize,
    id: GameMsgId,
    payload: Seq<u8>,
    n: ServerModel,
    sent: Seq<OutView>,
) -> bool {
    match id {
        GameMsgId::NetRpc => n == s && rpc_step(s, key, payload, sent),
        GameMsgId::PlayerState => n == player_state_next(s, key, payload) && sent.len() == 0,
        GameMsgId::NetLevelDataRevoke => revoke_step(s, key, n) && sent.len() == 0,
        GameMsgId::NetLevelData => n == level_data_next(s, key, payload) && sent.len() == 0,
        GameMsgId::SnapshotAck => n == snapshot_ack_next(s, key, payload) && sent.len() == 0,
        GameMsgId::Critters
        | GameMsgId::MusicSync
        | GameMsgId::NetLevelDataElect
        | GameMsgId::NetLevelElectionNominee => n == s && relay_step(
            s,
            id,
            payload,
            key,
            sent,
        ),
        _ => n == s && sent.len() == 0,
    }
}

// ── packets ──────────────────────────────────────────────────────────

/// The inputs on which a packet's payload is handled without a fault: a
/// GameMsg packet needs a message type byte, and a known message type its
/// 3-byte header and a payload that message handles.
pub open spec fn packet_safe(s: ServerModel, key: usize, id: PacketId, payload: Seq<u8>) -> bool {
    id == PacketId::GameMsg ==> {
        &&& payload.len() >= 1
        &&& game_msg_id_of(payload[0]) matches Some(g) ==> payload.len() >= 3 && msg_safe(
            s,
            key,
            g,
            payload.skip(3),
        )
    }
}

/// A packet from `key`, dispatched by its type; only JoinGame,
/// LevelUpdate and GameMsg are acted on.
pub open spec fn packet_step(
    s: ServerModel,
    key: usize,
    id: PacketId,
    payload: Seq<u8>,
    n: ServerModel,
    sent: Seq<OutView>,
) -> bool {
    match id {
        PacketId::JoinGame => join_step(s, key, payload, n, sent),
        PacketId::LevelUpdate => level_update_step(s, key, payload, n, sent),
        PacketId::GameMsg => match game_msg_id_of(payload[0]) {
            Some(g) => msg_step(s, key, g, payload.skip(3), n, sent),
            None => n == s && sent.len() == 0,
        },
        _ => n == s && sent.len() == 0,
    }
}

/// The state once `key` is connected (a fresh entry if it was not) and
/// its connection magic is taken from `data`.
pub open spec fn receive_prepared(s: ServerModel, key: usize, data: Seq<u8>) -> ServerModel {
    let s1 = if s.peers.contains_key(key) { s } else { connect_next(s, key) };
    let p = s1.peers[key];
    with_peer(
        s1,
        key,
        PeerModel { conn_magic: if magic_split(data).1 { data.take(4) } else { p.conn_magic }, ..p },
    )
}

/// The packet bytes of `data`: what follows the connection magic.
pub open spec fn receive_packet(data: Seq<u8>) -> Seq<u8> {
    data.skip(magic_split(data).0)
}

/// The inputs on which received data is handled without a fault: a
/// packet of a known type has its 2-byte header and a payload its
/// handler takes.
pub open spec fn receive_safe(s: ServerModel, key: usize, data: Seq<u8>) -> bool {
    key != 0 && data.len() > 0 ==> {
        let pk = receive_packet(data);
        packet_id_of(pk[0]) matches Some(id) ==> pk.len() >= 2 && packet_safe(
            receive_prepared(s, key, data),
            key,
            id,
            pk.skip(2),
        )
    }
}

/// Received data from `key` (0 is the null peer): empty data is ignored;
/// otherwise the peer is connected if it was not, its connection magic
/// recorded, and a packet of a known type dispatched.
pub open spec fn receive_step(s: ServerModel, key: usize, data: Seq<u8>, n: ServerModel, sent: Seq<OutView>) -> bool {
    if key == 0 || data.len() == 0 {
        n == s && sent.len() == 0
    } else {
        let s1 = receive_prepared(s, key, data);
        let pk = receive_packet(data);
        match packet_id_of(pk[0]) {
            Some(id) => packet_step(s1, key, id, pk.skip(2), n, sent),
            None => n == s1 && sent.len() == 0,
        }
    }
}

// ── ticks ────────────────────────────────────────────────────────────

/// The acknowledgment byte sent for a frame: the recorded one, else 1.
pub open spec fn ack_byte(a: Option<u8>) -> u8 {
    match a {
        Some(x) => x,
        None => 1,
    }
}

/// The `SnapshotAck` message to `k`: its player and level
/// acknowledgments.
pub open spec fn ack_msg(peers: Map<usize, PeerModel>) -> spec_fn(usize) -> OutView {
    |k: usize|
        msg_to(
            k,
            game_packet(
                GameMsgId::SnapshotAck,
                peers[k].lv_seq,
                0,
                seq![ack_byte(peers[k].player.snapshot_ack), ack_byte(peers[k].level.snapshot_ack)],
            ),
        )
}

/// One entry of a player state frame: `[player_id] [len:u32 LE] [state]`.
pub open spec fn frame_entry(p: PeerModel) -> Seq<u8> {
    seq![p.player_id] + le32(p.player.raw_state.len() as u32) + p.player.raw_state
}

/// Whether the state of `q` goes into the frame of `p`: `q` has a state,
/// another player ID, and the same level.
pub open spec fn shares_state(q: PeerModel, p: PeerModel) -> bool {
    q.player.raw_state.len() > 0 && q.player_id != p.player_id && q.level_id == p.level_id
}

/// The player state frame of `p`: the entries of the peers of `ks` whose
/// state goes to `p`, in that order.
pub open spec fn frame_of(ks: Seq<usize>, peers: Map<usize, PeerModel>, p: PeerModel) -> Seq<u8>
    decreases ks.len(),
{
    if ks.len() == 0 {
        Seq::empty()
    } else {
        let rest = frame_of(ks.drop_last(), peers, p);
        let q = peers[ks.last()];
        if shares_state(q, p) {
            rest + frame_entry(q)
        } else {
            rest
        }
    }
}

/// The peers that get a player state frame: those whose frame is not
/// empty.
pub open spec fn frame_to(ks: Seq<usize>, peers: Map<usize, PeerModel>) -> spec_fn(usize) -> bool {
    |k: usize| frame_of(ks, peers, peers[k]).len() > 0
}

/// The `PlayerState` message to `k`: its frame encoded by its player
/// writer.
pub open spec fn frame_msg(ks: Seq<usize>, peers: Map<usize, PeerModel>) -> spec_fn(usize) -> OutView {
    |k: usize|
        msg_to(
            k,
            game_packet(
                GameMsgId::PlayerState,
                peers[k].lv_seq,
                0,
                writer_generate(peers[k].player.writer, frame_of(ks, peers, peers[k])).1,
            ),
        )
}

/// The peers after a player state tick: the player writer of each peer
/// that got a frame has encoded it.
pub open spec fn frame_peers(ks: Seq<usize>, peers: Map<usize, PeerModel>) -> Map<usize, PeerModel> {
    Map::new(
        |k: usize| peers.contains_key(k),
        |k: usize|
            if frame_to(ks, peers)(k) {
                let p = peers[k];
                PeerModel {
                    player: with_writer(p.player, writer_generate(p.player.writer, frame_of(ks, peers, p)).0),
                    ..p
                }
            } else {
                peers[k]
            },
    )
}

/// The player state tick: every peer is sent, when not empty, the frame
/// of the states of the other players in its level, with the states
/// taken in one order of the peers.
pub open spec fn sync_frame_step(s: ServerModel, n: ServerModel, sent: Seq<OutView>) -> bool {
    exists|ka: Seq<usize>|
        {
            &&& key_order(ka, s.peers.dom())
            &&& n == ServerModel { peers: frame_peers(ka, s.peers), ..s }
            &&& sent_to_each(sent, s.peers.dom(), frame_to(ka, s.peers), frame_msg(ka, s.peers))
        }
}

/// Whether the level of `p` has a host.
pub open spec fn has_host(s: ServerModel, p: PeerModel) -> bool {
    s.level_hosts.contains_key(p.level_id)
}

/// The peers a level data tick sends to: those that are not their
/// level's host and whose level has data.
pub open spec fn level_sync_to(s: ServerModel) -> spec_fn(usize) -> bool {
    |k: usize|
        s.peers[k].player_id != s.level_hosts[s.peers[k].level_id] && s.levels_data.contains_key(
            s.peers[k].level_id,
        )
}

/// The `NetLevelData` message to `k`, whose entry is `p`: the level data
/// `ld` encoded by `p`'s level writer.
#[verifier::opaque]
pub open spec fn level_msg(k: usize, p: PeerModel, ld: (HeaderModel, Seq<u8>)) -> OutView {
    msg_to(k, game_packet(GameMsgId::NetLevelData, p.lv_seq, 0, writer_generate(p.level.writer, level_bytes(ld)).1))
}

/// The `NetLevelData` message to `k`: its level's data encoded by its
/// level writer.
pub open spec fn level_sync_msg(s: ServerModel) -> spec_fn(usize) -> OutView {
    |k: usize| level_msg(k, s.peers[k], s.levels_data[s.peers[k].level_id])
}

/// A peer whose level writer has encoded the level data `ld`.
#[verifier::opaque]
pub open spec fn level_synced(p: PeerModel, ld: (HeaderModel, Seq<u8>)) -> PeerModel {
    PeerModel { level: with_writer(p.level, writer_generate(p.level.writer, level_bytes(ld)).0), ..p }
}

/// The peers after a level data tick over the first `j` keys of `ks`.
pub open spec fn level_sync_peers(s: ServerModel, ks: Seq<usize>, j: int) -> Map<usize, PeerModel> {
    Map::new(
        |k: usize| s.peers.contains_key(k),
        |k: usize|
            if ks.take(j).contains(k) && level_sync_to(s)(k) {
                level_synced(s.peers[k], s.levels_data[s.peers[k].level_id])
            } else {
                s.peers[k]
            },
    )
}

/// The level data tick: the peers are walked in one order until the
/// first whose level has no host; each walked peer that is not its
/// level's host is sent its level's data, when the level has data.
pub open spec fn sync_level_step(s: ServerModel, n: ServerModel, sent: Seq<OutView>) -> bool {
    exists|ks: Seq<usize>, j: int|
        #![trigger level_sync_peers(s, ks, j)]
        {
            &&& key_order(ks, s.peers.dom())
            &&& 0 <= j <= ks.len()
            &&& forall|i: int| 0 <= i < j ==> has_host(s, #[trigger] s.peers[ks[i]])
            &&& j < ks.len() ==> !has_host(s, s.peers[ks[j]])
            &&& n == ServerModel { peers: level_sync_peers(s, ks, j), ..s }
            &&& sent == fan_out(ks.take(j), level_sync_to(s), level_sync_msg(s))
        }
}

} // verus!
