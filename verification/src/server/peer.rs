//! Per-connection data.
//!
//! [`PeerEntry`] holds what the server knows about one connection. The
//! connection itself is identified by its peer key, under which the
//! server state stores the entry.

use vstd::prelude::*;
use crate::protocol::types::TgcUuid;
use crate::utils::snapshot::{reader_initial, writer_initial, ReaderModel, SnapshotReader, SnapshotWriter, WriterModel};

verus! {

/// The abstract value of a [`PlayerState`] or [`LevelDelta`].
#[verifier::ext_equal]
pub struct DeltaModel {
    pub raw_state: Seq<u8>,
    pub reader: ReaderModel,
    pub writer: WriterModel,
    pub snapshot_ack: Option<u8>,
}

/// The value of a fresh [`PlayerState`] or [`LevelDelta`].
pub open spec fn delta_initial() -> DeltaModel {
    DeltaModel {
        raw_state: Seq::empty(),
        reader: reader_initial(),
        writer: writer_initial(true),
        snapshot_ack: None,
    }
}

/// The abstract value of a [`PeerEntry`].
#[verifier::ext_equal]
pub struct PeerModel {
    pub player_id: u8,
    pub uuid: Seq<u8>,
    pub level_id: u32,
    pub lv_seq: u8,
    pub conn_magic: Seq<u8>,
    pub player: DeltaModel,
    pub level: DeltaModel,
}

/// The value of a fresh [`PeerEntry`].
pub open spec fn peer_initial() -> PeerModel {
    PeerModel {
        player_id: 0,
        uuid: Seq::new(16, |_i: int| 0u8),
        level_id: 0,
        lv_seq: 0,
        conn_magic: seq![0u8, 0u8, 0u8, 0u8],
        player: delta_initial(),
        level: delta_initial(),
    }
}

/// Player state of one connection: the last reconstructed raw state and
/// the snapshot codecs in both directions.
pub struct PlayerState {
    pub raw_state: Vec<u8>,
    pub snap_reader: SnapshotReader,
    pub snap_writer: SnapshotWriter,
    pub snapshot_ack: Option<u8>,
}

impl View for PlayerState {
    type V = DeltaModel;

    open spec fn view(&self) -> DeltaModel {
        DeltaModel {
            raw_state: self.raw_state@,
            reader: self.snap_reader@,
            writer: self.snap_writer@,
            snapshot_ack: self.snapshot_ack,
        }
    }
}

impl PlayerState {
    /// An empty player state with fresh codecs and no ack to send.
    pub fn new() -> (r: Self)
        ensures
            r@ == delta_initial(),
    {
        PlayerState {
            raw_state: Vec::new(),
            snap_reader: SnapshotReader::new(),
            snap_writer: SnapshotWriter::new(),
            snapshot_ack: None,
        }
    }
}

/// Level data of one connection: the snapshot codecs for the level data
/// stream in both directions.
pub struct LevelDelta {
    pub raw_state: Vec<u8>,
    pub snap_reader: SnapshotReader,
    pub snap_writer: SnapshotWriter,
    pub snapshot_ack: Option<u8>,
}

impl View for LevelDelta {
    type V = DeltaModel;

    open spec fn view(&self) -> DeltaModel {
        DeltaModel {
            raw_state: self.raw_state@,
            reader: self.snap_reader@,
            writer: self.snap_writer@,
            snapshot_ack: self.snapshot_ack,
        }
    }
}

impl LevelDelta {
    /// An empty level delta with fresh codecs and no ack to send.
    pub fn new() -> (r: Self)
        ensures
            r@ == delta_initial(),
    {
        LevelDelta {
            raw_state: Vec::new(),
            snap_reader: SnapshotReader::new(),
            snap_writer: SnapshotWriter::new(),
            snapshot_ack: None,
        }
    }
}

/// Full state the server maintains for each connection.
pub struct PeerEntry {
    /// Player ID (1..=255 once joined; 0 is unassigned).
    pub player_id: u8,
    /// Player UUID, provided by the client at login.
    pub uuid: TgcUuid,
    /// Current level the player is in.
    pub level_id: u32,
    /// Level sequence number, updated by LevelUpdate.
    pub lv_seq: u8,
    /// Connection magic prefix (4 bytes) identifying the client session.
    pub conn_magic: [u8; 4],
    /// Player state.
    pub player_delta: PlayerState,
    /// Level data.
    pub level_delta: LevelDelta,
}

impl View for PeerEntry {
    type V = PeerModel;

    open spec fn view(&self) -> PeerModel {
        PeerModel {
            player_id: self.player_id,
            uuid: self.uuid@,
            level_id: self.level_id,
            lv_seq: self.lv_seq,
            conn_magic: self.conn_magic@,
            player: self.player_delta@,
            level: self.level_delta@,
        }
    }
}

impl PeerEntry {
    /// Create a blank entry with safe defaults.
    pub fn new() -> (r: Self)
        ensures
            r@ == peer_initial(),
    {
        let r = PeerEntry {
            player_id: 0,
            uuid: TgcUuid::default(),
            level_id: 0,
            lv_seq: 0,
            conn_magic: [0u8; 4],
            player_delta: PlayerState::new(),
            level_delta: LevelDelta::new(),
        };
        assert(r.conn_magic@ =~= seq![0u8, 0u8, 0u8, 0u8]);
        r
    }
}

} // verus!
