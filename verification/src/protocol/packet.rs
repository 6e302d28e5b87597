//! Top-level packet identifiers and framing.
//!
//! Client -> Server: `[packet_id:u8] [seq:u8] [payload]`
//!
//! Server -> Client: `[packet_id:u8] [payload_len:u16 LE] [payload]`

use vstd::prelude::*;
use crate::utils::bytes::{append_bytes, copy_range, le16, push_le16};

verus! {

/// Represents a parsed packet from the client.
pub struct Packet {
    pub packet_id: PacketId,
    pub seq: u8,
    pub payload: Vec<u8>,
}

/// Top-level packet type.
#[derive(Debug, Clone, Copy, PartialEq, Eq, Structural)]
pub enum PacketId {
    /// C->S. Sent automatically by the client on connect (wire value 0).
    ClientConnect,
    /// S->C. Disconnects a client (wire value 1).
    Disconnect,
    /// S->C. Kicks a client (wire value 2).
    Kick,
    /// C->S. `[player_uuid:16] [session:16] [unknown] [level_id:u32]` (wire value 3).
    JoinGame,
    /// C->S. `[unknown:14] [level_id:u32]` (wire value 4).
    LevelUpdate,
    /// S->C, deprecated (wire value 5).
    EnterGameDeprecated,
    /// S->C. `[net_player_id:u8] [unk:u8]` (wire value 6).
    PlayerJoined,
    /// S->C. `[net_player_id:u8] [unk:u8]` (wire value 7).
    PlayerLeft,
    /// S->C. `[net_player_id:u8] [level_id:u32]` (wire value 8).
    PlayerChangedLevel,
    /// S->C (wire value 9).
    MoveGame,
    /// C->S (wire value 10).
    MoveResult,
    /// S->C (wire value 11).
    CancelMove,
    /// C->S. `[request_id:u16]` (wire value 12).
    NetTimePing,
    /// S->C. `[request_id:u16] [recv_time:f64] [send_time:f64]` (wire value 13).
    NetTimePong,
    /// Bidirectional; wraps a game message (wire value 14).
    GameMsg,
    /// S->C. Full player list of the room (wire value 17).
    EnterGame,
}

/// The packet type that a wire byte denotes, if any.
pub open spec fn packet_id_of(v: u8) -> Option<PacketId> {
    if v == 0 { Some(PacketId::ClientConnect) }
    else if v == 1 { Some(PacketId::Disconnect) }
    else if v == 2 { Some(PacketId::Kick) }
    else if v == 3 { Some(PacketId::JoinGame) }
    else if v == 4 { Some(PacketId::LevelUpdate) }
    else if v == 5 { Some(PacketId::EnterGameDeprecated) }
    else if v == 6 { Some(PacketId::PlayerJoined) }
    else if v == 7 { Some(PacketId::PlayerLeft) }
    else if v == 8 { Some(PacketId::PlayerChangedLevel) }
    else if v == 9 { Some(PacketId::MoveGame) }
    else if v == 10 { Some(PacketId::MoveResult) }
    else if v == 11 { Some(PacketId::CancelMove) }
    else if v == 12 { Some(PacketId::NetTimePing) }
    else if v == 13 { Some(PacketId::NetTimePong) }
    else if v == 14 { Some(PacketId::GameMsg) }
    else if v == 17 { Some(PacketId::EnterGame) }
    else { None }
}

impl PacketId {
    /// The wire byte of this packet type.
    pub open spec fn wire(self) -> u8 {
        match self {
            PacketId::ClientConnect => 0,
            PacketId::Disconnect => 1,
            PacketId::Kick => 2,
            PacketId::JoinGame => 3,
            PacketId::LevelUpdate => 4,
            PacketId::EnterGameDeprecated => 5,
            PacketId::PlayerJoined => 6,
            PacketId::PlayerLeft => 7,
            PacketId::PlayerChangedLevel => 8,
            PacketId::MoveGame => 9,
            PacketId::MoveResult => 10,
            PacketId::CancelMove => 11,
            PacketId::NetTimePing => 12,
            PacketId::NetTimePong => 13,
            PacketId::GameMsg => 14,
            PacketId::EnterGame => 17,
        }
    }

    /// Convert from the wire-format `u8` byte.
    pub fn from_u8(v: u8) -> (r: Option<Self>)
        ensures
            r == packet_id_of(v),
    {
        match v {
            0 => Some(PacketId::ClientConnect),
            1 => Some(PacketId::Disconnect),
            2 => Some(PacketId::Kick),
            3 => Some(PacketId::JoinGame),
            4 => Some(PacketId::LevelUpdate),
            5 => Some(PacketId::EnterGameDeprecated),
            6 => Some(PacketId::PlayerJoined),
            7 => Some(PacketId::PlayerLeft),
            8 => Some(PacketId::PlayerChangedLevel),
            9 => Some(PacketId::MoveGame),
            10 => Some(PacketId::MoveResult),
            11 => Some(PacketId::CancelMove),
            12 => Some(PacketId::NetTimePing),
            13 => Some(PacketId::NetTimePong),
            14 => Some(PacketId::GameMsg),
            17 => Some(PacketId::EnterGame),
            _ => None,
        }
    }

    /// Serialize this packet type to a `u8` byte.
    pub fn to_u8(self) -> (r: u8)
        ensures
            r == self.wire(),
    {
        match self {
            PacketId::ClientConnect => 0,
            PacketId::Disconnect => 1,
            PacketId::Kick => 2,
            PacketId::JoinGame => 3,
            PacketId::LevelUpdate => 4,
            PacketId::EnterGameDeprecated => 5,
            PacketId::PlayerJoined => 6,
            PacketId::PlayerLeft => 7,
            PacketId::PlayerChangedLevel => 8,
            PacketId::MoveGame => 9,
            PacketId::MoveResult => 10,
            PacketId::CancelMove => 11,
            PacketId::NetTimePing => 12,
            PacketId::NetTimePong => 13,
            PacketId::GameMsg => 14,
            PacketId::EnterGame => 17,
        }
    }
}

/// Decoding a packet type's wire byte gives that packet type back, and
/// a byte that decodes to a packet type is that type's wire byte.
pub proof fn lemma_packet_id_roundtrip(id: PacketId, v: u8)
    ensures
        packet_id_of(id.wire()) == Some(id),
        packet_id_of(v) == Some(id) ==> id.wire() == v,
{
}

/// The documented wire byte of every packet type, both ways: each type is
/// sent as its byte and each byte is read as its type; every other byte
/// denotes no packet type.
pub proof fn lemma_packet_wire_table()
    ensures
        PacketId::ClientConnect.wire() == 0,
        PacketId::Disconnect.wire() == 1,
        PacketId::Kick.wire() == 2,
        PacketId::JoinGame.wire() == 3,
        PacketId::LevelUpdate.wire() == 4,
        PacketId::EnterGameDeprecated.wire() == 5,
        PacketId::PlayerJoined.wire() == 6,
        PacketId::PlayerLeft.wire() == 7,
        PacketId::PlayerChangedLevel.wire() == 8,
        PacketId::MoveGame.wire() == 9,
        PacketId::MoveResult.wire() == 10,
        PacketId::CancelMove.wire() == 11,
        PacketId::NetTimePing.wire() == 12,
        PacketId::NetTimePong.wire() == 13,
        PacketId::GameMsg.wire() == 14,
        PacketId::EnterGame.wire() == 17,
        packet_id_of(0) == Some(PacketId::ClientConnect),
        packet_id_of(1) == Some(PacketId::Disconnect),
        packet_id_of(2) == Some(PacketId::Kick),
        packet_id_of(3) == Some(PacketId::JoinGame),
        packet_id_of(4) == Some(PacketId::LevelUpdate),
        packet_id_of(5) == Some(PacketId::EnterGameDeprecated),
        packet_id_of(6) == Some(PacketId::PlayerJoined),
        packet_id_of(7) == Some(PacketId::PlayerLeft),
        packet_id_of(8) == Some(PacketId::PlayerChangedLevel),
        packet_id_of(9) == Some(PacketId::MoveGame),
        packet_id_of(10) == Some(PacketId::MoveResult),
        packet_id_of(11) == Some(PacketId::CancelMove),
        packet_id_of(12) == Some(PacketId::NetTimePing),
        packet_id_of(13) == Some(PacketId::NetTimePong),
        packet_id_of(14) == Some(PacketId::GameMsg),
        packet_id_of(17) == Some(PacketId::EnterGame),
        forall|v: u8| v != 0 && v != 1 && v != 2 && v != 3 && v != 4 && v != 5 && v != 6 && v != 7 && v != 8 && v != 9 && v != 10 && v != 11 && v != 12 && v != 13 && v != 14 && v != 17 ==> #[trigger] packet_id_of(v) is None,
{
}

/// The S->C framing: `[packet_id] [len:u16 LE] [data]`; the length field
/// holds the payload length modulo 2^16.
pub open spec fn framed(id: PacketId, data: Seq<u8>) -> Seq<u8> {
    seq![id.wire()] + le16((data.len() % 65536) as u16) + data
}

/// A framed packet starts with its type's wire byte, then the payload
/// length (little-endian, modulo 2^16), then the payload itself.
pub proof fn lemma_framed_layout(id: PacketId, data: Seq<u8>)
    ensures
        framed(id, data).len() == data.len() + 3,
        framed(id, data)[0] == id.wire(),
        framed(id, data)[1] as int + 256 * framed(id, data)[2] as int == data.len() % 65536,
        framed(id, data).subrange(3, data.len() as int + 3) == data,
{
    let f = framed(id, data);
    let n = (data.len() % 65536) as u16;
    assert(f.subrange(3, data.len() as int + 3) =~= data);
    assert(f[1] == le16(n)[0] && f[2] == le16(n)[1]);
    assert(n as int == (n % 256) as int + 256 * (n / 256) as int);
}

impl Packet {
    /// Parse a raw C->S packet: `[packet_id] [seq] [payload]`.
    ///
    /// Returns `None` exactly when the first byte is not a known packet type.
    pub fn from(v: &[u8]) -> (r: Option<Self>)
        requires
            v@.len() >= 1,
            packet_id_of(v@[0]) is Some ==> v@.len() >= 2,
        ensures
            r is None <==> packet_id_of(v@[0]) is None,
            r matches Some(p) ==> {
                &&& packet_id_of(v@[0]) == Some(p.packet_id)
                &&& p.seq == v@[1]
                &&& p.payload@ == v@.subrange(2, v@.len() as int)
            },
    {
        let packet_id = match PacketId::from_u8(v[0]) {
            Some(id) => id,
            None => return None,
        };
        let seq = v[1];
        let payload = copy_range(v, 2, v.len());
        Some(Packet { packet_id, seq, payload })
    }

    /// Build a complete S->C packet (packet_id + length prefix + payload).
    pub fn build_packet(packet_id: PacketId, data: &[u8]) -> (r: Vec<u8>)
        ensures
            r@ == framed(packet_id, data@),
    {
        let mut buf: Vec<u8> = Vec::new();
        buf.push(packet_id.to_u8());
        push_le16(&mut buf, (data.len() % 65536) as u16);
        append_bytes(&mut buf, data);
        assert(buf@ =~= framed(packet_id, data@));
        buf
    }
}

} // verus!
