//! GameMsg: a sub-message carried inside `PacketId::GameMsg` packets.
//!
//! Wire format: `[game_msg_type:u8] [level_seq:u8] [source_player:u8] [payload]`
//!
//! - `level_seq`: level change sequence number, updated by `LevelUpdate`;
//!   the client ignores messages whose sequence number does not match.
//! - `source_player`: player id of the player who sent it (meaningful for
//!   `NetRpc`).

pub mod level_data;

use vstd::prelude::*;
use crate::utils::bytes::{append_bytes, copy_range};

verus! {

/// A game message: id, level sequence, source player and payload.
pub struct GameMsg {
    pub msg_id: GameMsgId,
    pub level_seq: u8,
    pub source_player: u8,
    pub payload: Vec<u8>,
}

/// Sub-message type carried within a `PacketId::GameMsg` packet.
#[derive(Debug, Clone, Copy, PartialEq, Eq, Structural)]
pub enum GameMsgId {
    /// `[net_player_id:u8] [net_rpcs]`; relayed to the sender's level; wire value 2.
    NetRpc,
    /// snapshot-compressed player state; wire value 3.
    PlayerState,
    /// forwarded to the same level; wire value 4.
    Critters,
    /// wire value 7.
    Affinity,
    /// snapshot-compressed level data election; wire value 8.
    NetLevelDataElect,
    /// `[player_id:u8] [level_id:u32]`; wire value 9.
    NetLevelDataRevoke,
    /// wire value 10.
    NetLevelDataRevokeAck,
    /// wire value 11.
    NetLevelData,
    /// wire value 12.
    NetLevelDataHeartbeat,
    /// `[player_state_ack:u8] [level_data_ack:u8]`; wire value 14.
    SnapshotAck,
    /// wire value 15.
    MusicSync,
    /// wire value 16.
    Metrics,
    /// forwarded to the same level; wire value 17.
    NetLevelElectionNominee,
    /// wire value 19.
    AudienceHint,
    /// wire value 20.
    AudienceSocialBroadcast,
    /// wire value 21.
    AudienceConsensusVote,
    /// wire value 22.
    AudienceChat,
    /// wire value 23.
    Unknown,
    /// wire value 24.
    AudienceSpotlightReq,
}

/// The message type that a wire byte denotes, if any.
pub open spec fn game_msg_id_of(v: u8) -> Option<GameMsgId> {
    if v == 2 { Some(GameMsgId::NetRpc) }
    else if v == 3 { Some(GameMsgId::PlayerState) }
    else if v == 4 { Some(GameMsgId::Critters) }
    else if v == 7 { Some(GameMsgId::Affinity) }
    else if v == 8 { Some(GameMsgId::NetLevelDataElect) }
    else if v == 9 { Some(GameMsgId::NetLevelDataRevoke) }
    else if v == 10 { Some(GameMsgId::NetLevelDataRevokeAck) }
    else if v == 11 { Some(GameMsgId::NetLevelData) }
    else if v == 12 { Some(GameMsgId::NetLevelDataHeartbeat) }
    else if v == 14 { Some(GameMsgId::SnapshotAck) }
    else if v == 15 { Some(GameMsgId::MusicSync) }
    else if v == 16 { Some(GameMsgId::Metrics) }
    else if v == 17 { Some(GameMsgId::NetLevelElectionNominee) }
    else if v == 19 { Some(GameMsgId::AudienceHint) }
    else if v == 20 { Some(GameMsgId::AudienceSocialBroadcast) }
    else if v == 21 { Some(GameMsgId::AudienceConsensusVote) }
    else if v == 22 { Some(GameMsgId::AudienceChat) }
    else if v == 23 { Some(GameMsgId::Unknown) }
    else if v == 24 { Some(GameMsgId::AudienceSpotlightReq) }
    else { None }
}

impl GameMsgId {
    /// The wire byte of this message type.
    pub open spec fn wire(self) -> u8 {
        match self {
            GameMsgId::NetRpc => 2,
            GameMsgId::PlayerState => 3,
            GameMsgId::Critters => 4,
            GameMsgId::Affinity => 7,
            GameMsgId::NetLevelDataElect => 8,
            GameMsgId::NetLevelDataRevoke => 9,
            GameMsgId::NetLevelDataRevokeAck => 10,
            GameMsgId::NetLevelData => 11,
            GameMsgId::NetLevelDataHeartbeat => 12,
            GameMsgId::SnapshotAck => 14,
            GameMsgId::MusicSync => 15,
            GameMsgId::Metrics => 16,
            GameMsgId::NetLevelElectionNominee => 17,
            GameMsgId::AudienceHint => 19,
            GameMsgId::AudienceSocialBroadcast => 20,
            GameMsgId::AudienceConsensusVote => 21,
            GameMsgId::AudienceChat => 22,
            GameMsgId::Unknown => 23,
            GameMsgId::AudienceSpotlightReq => 24,
        }
    }

    /// Convert from the wire-format `u8` byte.
    pub fn from_u8(v: u8) -> (r: Option<Self>)
        ensures
            r == game_msg_id_of(v),
    {
        match v {
            2 => Some(GameMsgId::NetRpc),
            3 => Some(GameMsgId::PlayerState),
            4 => Some(GameMsgId::Critters),
            7 => Some(GameMsgId::Affinity),
            8 => Some(GameMsgId::NetLevelDataElect),
            9 => Some(GameMsgId::NetLevelDataRevoke),
            10 => Some(GameMsgId::NetLevelDataRevokeAck),
            11 => Some(GameMsgId::NetLevelData),
            12 => Some(GameMsgId::NetLevelDataHeartbeat),
            14 => Some(GameMsgId::SnapshotAck),
            15 => Some(GameMsgId::MusicSync),
            16 => Some(GameMsgId::Metrics),
            17 => Some(GameMsgId::NetLevelElectionNominee),
            19 => Some(GameMsgId::AudienceHint),
            20 => Some(GameMsgId::AudienceSocialBroadcast),
            21 => Some(GameMsgId::AudienceConsensusVote),
            22 => Some(GameMsgId::AudienceChat),
            23 => Some(GameMsgId::Unknown),
            24 => Some(GameMsgId::AudienceSpotlightReq),
            _ => None,
        }
    }

    /// Serialize this message type to a `u8` byte.
    pub fn to_u8(self) -> (r: u8)
        ensures
            r == self.wire(),
    {
        match self {
            GameMsgId::NetRpc => 2,
            GameMsgId::PlayerState => 3,
            GameMsgId::Critters => 4,
            GameMsgId::Affinity => 7,
            GameMsgId::NetLevelDataElect => 8,
            GameMsgId::NetLevelDataRevoke => 9,
            GameMsgId::NetLevelDataRevokeAck => 10,
            GameMsgId::NetLevelData => 11,
            GameMsgId::NetLevelDataHeartbeat => 12,
            GameMsgId::SnapshotAck => 14,
            GameMsgId::MusicSync => 15,
            GameMsgId::Metrics => 16,
            GameMsgId::NetLevelElectionNominee => 17,
            GameMsgId::AudienceHint => 19,
            GameMsgId::AudienceSocialBroadcast => 20,
            GameMsgId::AudienceConsensusVote => 21,
            GameMsgId::AudienceChat => 22,
            GameMsgId::Unknown => 23,
            GameMsgId::AudienceSpotlightReq => 24,
        }
    }
}

/// The documented wire byte of every game message type, both ways: each
/// type is sent as its byte and each byte is read as its type; every
/// other byte denotes no message type.
pub proof fn lemma_game_msg_wire_table()
    ensures
        GameMsgId::NetRpc.wire() == 2,
        GameMsgId::PlayerState.wire() == 3,
        GameMsgId::Critters.wire() == 4,
        GameMsgId::Affinity.wire() == 7,
        GameMsgId::NetLevelDataElect.wire() == 8,
        GameMsgId::NetLevelDataRevoke.wire() == 9,
        GameMsgId::NetLevelDataRevokeAck.wire() == 10,
        GameMsgId::NetLevelData.wire() == 11,
        GameMsgId::NetLevelDataHeartbeat.wire() == 12,
        GameMsgId::SnapshotAck.wire() == 14,
        GameMsgId::MusicSync.wire() == 15,
        GameMsgId::Metrics.wire() == 16,
        GameMsgId::NetLevelElectionNominee.wire() == 17,
        GameMsgId::AudienceHint.wire() == 19,
        GameMsgId::AudienceSocialBroadcast.wire() == 20,
        GameMsgId::AudienceConsensusVote.wire() == 21,
        GameMsgId::AudienceChat.wire() == 22,
        GameMsgId::Unknown.wire() == 23,
        GameMsgId::AudienceSpotlightReq.wire() == 24,
        game_msg_id_of(2) == Some(GameMsgId::NetRpc),
        game_msg_id_of(3) == Some(GameMsgId::PlayerState),
        game_msg_id_of(4) == Some(GameMsgId::Critters),
        game_msg_id_of(7) == Some(GameMsgId::Affinity),
        game_msg_id_of(8) == Some(GameMsgId::NetLevelDataElect),
        game_msg_id_of(9) == Some(GameMsgId::NetLevelDataRevoke),
        game_msg_id_of(10) == Some(GameMsgId::NetLevelDataRevokeAck),
        game_msg_id_of(11) == Some(GameMsgId::NetLevelData),
        game_msg_id_of(12) == Some(GameMsgId::NetLevelDataHeartbeat),
        game_msg_id_of(14) == Some(GameMsgId::SnapshotAck),
        game_msg_id_of(15) == Some(GameMsgId::MusicSync),
        game_msg_id_of(16) == Some(GameMsgId::Metrics),
        game_msg_id_of(17) == Some(GameMsgId::NetLevelElectionNominee),
        game_msg_id_of(19) == Some(GameMsgId::AudienceHint),
        game_msg_id_of(20) == Some(GameMsgId::AudienceSocialBroadcast),
        game_msg_id_of(21) == Some(GameMsgId::AudienceConsensusVote),
        game_msg_id_of(22) == Some(GameMsgId::AudienceChat),
        game_msg_id_of(23) == Some(GameMsgId::Unknown),
        game_msg_id_of(24) == Some(GameMsgId::AudienceSpotlightReq),
        forall|v: u8| v != 2 && v != 3 && v != 4 && v != 7 && v != 8 && v != 9 && v != 10 && v != 11 && v != 12 && v != 14 && v != 15 && v != 16 && v != 17 && v != 19 && v != 20 && v != 21 && v != 22 && v != 23 && v != 24 ==> #[trigger] game_msg_id_of(v) is None,
{
}

/// Decoding a message type's wire byte gives that type back, and a byte
/// that decodes to a message type is that type's wire byte.
pub proof fn lemma_game_msg_id_roundtrip(id: GameMsgId, v: u8)
    ensures
        game_msg_id_of(id.wire()) == Some(id),
        game_msg_id_of(v) == Some(id) ==> id.wire() == v,
{
}

/// The wire bytes of a game message with the given fields.
pub open spec fn game_msg_bytes(id: GameMsgId, level_seq: u8, source_player: u8, payload: Seq<u8>) -> Seq<u8> {
    seq![id.wire(), level_seq, source_player] + payload
}

impl GameMsg {
    /// Construct a new GameMsg with the given fields.
    pub fn new(msg_id: GameMsgId, level_seq: u8, source_player: u8, payload: &[u8]) -> (r: Self)
        ensures
            r.msg_id == msg_id,
            r.level_seq == level_seq,
            r.source_player == source_player,
            r.payload@ == payload@,
    {
        GameMsg { msg_id, level_seq, source_player, payload: copy_range(payload, 0, payload.len()) }
    }

    /// Parse a GameMsg from raw bytes.
    ///
    /// Returns `None` exactly when the first byte is not a known
    /// [`GameMsgId`]; a known id needs the three header bytes.
    pub fn from(v: &[u8]) -> (r: Option<GameMsg>)
        requires
            v@.len() >= 1,
            game_msg_id_of(v@[0]) is Some ==> v@.len() >= 3,
        ensures
            r is None <==> game_msg_id_of(v@[0]) is None,
            r matches Some(m) ==> {
                &&& game_msg_id_of(v@[0]) == Some(m.msg_id)
                &&& m.level_seq == v@[1]
                &&& m.source_player == v@[2]
                &&& m.payload@ == v@.subrange(3, v@.len() as int)
            },
    {
        match GameMsgId::from_u8(v[0]) {
            Some(msg_id) => Some(GameMsg {
                msg_id,
                level_seq: v[1],
                source_player: v[2],
                payload: copy_range(v, 3, v.len()),
            }),
            None => None,
        }
    }

    /// Build the wire-format bytes of this message.
    pub fn build_game_msg(&self) -> (r: Vec<u8>)
        ensures
            r@ == game_msg_bytes(self.msg_id, self.level_seq, self.source_player, self.payload@),
    {
        let mut buf: Vec<u8> = Vec::new();
        buf.push(self.msg_id.to_u8());
        buf.push(self.level_seq);
        buf.push(self.source_player);
        append_bytes(&mut buf, self.payload.as_slice());
        assert(buf@ =~= game_msg_bytes(self.msg_id, self.level_seq, self.source_player, self.payload@));
        buf
    }
}

/// Parsing the bytes that `build_game_msg` produces gives back the same
/// message: same id, level sequence, source player and payload.
pub proof fn lemma_game_msg_roundtrip(id: GameMsgId, level_seq: u8, source_player: u8, payload: Seq<u8>)
    ensures
        ({
            let b = game_msg_bytes(id, level_seq, source_player, payload);
            &&& b.len() >= 3
            &&& game_msg_id_of(b[0]) == Some(id)
            &&& b[1] == level_seq
            &&& b[2] == source_player
            &&& b.subrange(3, b.len() as int) == payload
        }),
{
    let b = game_msg_bytes(id, level_seq, source_player, payload);
    assert(b.subrange(3, b.len() as int) =~= payload);
}

} // verus!
