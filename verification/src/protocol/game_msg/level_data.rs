//! Net level data: a 22-byte little-endian header followed by the level
//! data bytes.

use vstd::prelude::*;
use crate::utils::bytes::{
    copy_range, append_bytes, from_le16, from_le32, le16, le32, push_le16, push_le32, read_le16,
    read_le32, lemma_le16_decode, lemma_le32_decode, lemma_le16_encode, lemma_le32_encode,
};

verus! {

/// Size of the encoded header in bytes.
pub const LEVEL_DATA_HEADER_SIZE: usize = 22;

/// The abstract value of a [`LevelDataHeader`]: all its fields.
pub struct HeaderModel {
    pub elected_player: u8,
    pub level_id: u32,
    pub unk1: u16,
    pub has_initial_data: u8,
    pub unk2: u16,
    pub unk3: u8,
    pub level_hash: u32,
    pub merge_state: u8,
    pub unk5: u16,
    pub unk6: u16,
    pub length: u16,
}

/// The 22 wire bytes of a header, fields in order, little-endian.
pub open spec fn header_bytes(h: HeaderModel) -> Seq<u8> {
    seq![h.elected_player] + le32(h.level_id) + le16(h.unk1) + seq![h.has_initial_data] + le16(h.unk2)
        + seq![h.unk3] + le32(h.level_hash) + seq![h.merge_state] + le16(h.unk5) + le16(h.unk6)
        + le16(h.length)
}

/// The header that the first 22 bytes of `b` encode.
pub open spec fn header_of(b: Seq<u8>) -> HeaderModel {
    HeaderModel {
        elected_player: b[0],
        level_id: from_le32(b[1], b[2], b[3], b[4]),
        unk1: from_le16(b[5], b[6]),
        has_initial_data: b[7],
        unk2: from_le16(b[8], b[9]),
        unk3: b[10],
        level_hash: from_le32(b[11], b[12], b[13], b[14]),
        merge_state: b[15],
        unk5: from_le16(b[16], b[17]),
        unk6: from_le16(b[18], b[19]),
        length: from_le16(b[20], b[21]),
    }
}

/// What parsing `b` as level data gives: `None` when it is shorter than
/// the header or the header's length field differs from the number of
/// data bytes after it.
pub open spec fn parse_level_data(b: Seq<u8>) -> Option<(HeaderModel, Seq<u8>)> {
    if b.len() < LEVEL_DATA_HEADER_SIZE {
        None
    } else {
        let h = header_of(b);
        let d = b.subrange(LEVEL_DATA_HEADER_SIZE as int, b.len() as int);
        if h.length != d.len() {
            None
        } else {
            Some((h, d))
        }
    }
}

/// Header of a net level data message (22 bytes on the wire).
#[derive(Clone, Copy, Debug)]
pub struct LevelDataHeader {
    pub elected_player: u8,
    pub level_id: u32,
    unk1: u16,
    pub has_initial_data: u8,
    unk2: u16,
    unk3: u8,
    pub level_hash: u32,
    pub merge_state: u8,
    unk5: u16,
    unk6: u16,
    pub length: u16,
}

impl View for LevelDataHeader {
    type V = HeaderModel;

    closed spec fn view(&self) -> HeaderModel {
        HeaderModel {
            elected_player: self.elected_player,
            level_id: self.level_id,
            unk1: self.unk1,
            has_initial_data: self.has_initial_data,
            unk2: self.unk2,
            unk3: self.unk3,
            level_hash: self.level_hash,
            merge_state: self.merge_state,
            unk5: self.unk5,
            unk6: self.unk6,
            length: self.length,
        }
    }
}

impl LevelDataHeader {
    /// The elected player of this header.
    pub fn elected_player(&self) -> (r: u8)
        ensures
            r == self@.elected_player,
    {
        self.elected_player
    }

    /// The level of this header.
    pub fn level_id(&self) -> (r: u32)
        ensures
            r == self@.level_id,
    {
        self.level_id
    }

    /// Whether the level data carries its initial data.
    pub fn has_initial_data(&self) -> (r: u8)
        ensures
            r == self@.has_initial_data,
    {
        self.has_initial_data
    }

    /// The level hash of this header.
    pub fn level_hash(&self) -> (r: u32)
        ensures
            r == self@.level_hash,
    {
        self.level_hash
    }

    /// The merge state of this header.
    pub fn merge_state(&self) -> (r: u8)
        ensures
            r == self@.merge_state,
    {
        self.merge_state
    }

    /// The length field of this header.
    pub fn length(&self) -> (r: u16)
        ensures
            r == self@.length,
    {
        self.length
    }

    /// Sets the elected player, keeping every other field.
    pub fn set_elected_player(&mut self, p: u8)
        ensures
            final(self)@ == (HeaderModel { elected_player: p, ..old(self)@ }),
    {
        self.elected_player = p;
    }

    /// The 22 wire bytes of this header.
    pub fn encode(&self) -> (r: Vec<u8>)
        ensures
            r@ == header_bytes(self@),
    {
        let mut b: Vec<u8> = Vec::with_capacity(LEVEL_DATA_HEADER_SIZE);
        b.push(self.elected_player);
        push_le32(&mut b, self.level_id);
        push_le16(&mut b, self.unk1);
        b.push(self.has_initial_data);
        push_le16(&mut b, self.unk2);
        b.push(self.unk3);
        push_le32(&mut b, self.level_hash);
        b.push(self.merge_state);
        push_le16(&mut b, self.unk5);
        push_le16(&mut b, self.unk6);
        push_le16(&mut b, self.length);
        assert(b@ =~= header_bytes(self@));
        b
    }

    /// The header encoded by the first 22 bytes of `b`.
    pub fn decode(b: &[u8]) -> (r: Self)
        requires
            b@.len() >= LEVEL_DATA_HEADER_SIZE,
        ensures
            r@ == header_of(b@),
    {
        LevelDataHeader {
            elected_player: b[0],
            level_id: read_le32(b, 1),
            unk1: read_le16(b, 5),
            has_initial_data: b[7],
            unk2: read_le16(b, 8),
            unk3: b[10],
            level_hash: read_le32(b, 11),
            merge_state: b[15],
            unk5: read_le16(b, 16),
            unk6: read_le16(b, 18),
            length: read_le16(b, 20),
        }
    }
}

/// Net level data: header and data bytes.
#[derive(Clone, Debug)]
pub struct LevelData {
    pub header: LevelDataHeader,
    pub data: Vec<u8>,
}

impl View for LevelData {
    type V = (HeaderModel, Seq<u8>);

    open spec fn view(&self) -> (HeaderModel, Seq<u8>) {
        (self.header@, self.data@)
    }
}

impl LevelData {
    /// Create a level data with the given elected player, level, flag and
    /// data; every other header field is 0 and the length field holds the
    /// data length (modulo 2^16).
    pub fn new(elected_player: u8, level_id: u32, has_initial_data: u8, data: &[u8]) -> (r: Self)
        ensures
            r@ == (HeaderModel {
                elected_player,
                level_id,
                unk1: 0,
                has_initial_data,
                unk2: 0,
                unk3: 0,
                level_hash: 0,
                merge_state: 0,
                unk5: 0,
                unk6: 0,
                length: (data@.len() % 65536) as u16,
            }, data@),
    {
        LevelData {
            header: LevelDataHeader {
                elected_player,
                level_id,
                unk1: 0,
                has_initial_data,
                unk2: 0,
                unk3: 0,
                level_hash: 0,
                merge_state: 0,
                unk5: 0,
                unk6: 0,
                length: (data.len() % 65536) as u16,
            },
            data: copy_range(data, 0, data.len()),
        }
    }

    /// Parse level data from bytes; `None` when the buffer is shorter than
    /// the header or the header's length field disagrees with the data.
    pub fn from_bytes(buf: &[u8]) -> (r: Option<Self>)
        ensures
            match r {
                Some(ld) => parse_level_data(buf@) == Some(ld@),
                None => parse_level_data(buf@) is None,
            },
    {
        if buf.len() < LEVEL_DATA_HEADER_SIZE {
            return None;
        }
        let header = LevelDataHeader::decode(buf);
        let data = copy_range(buf, LEVEL_DATA_HEADER_SIZE, buf.len());
        if header.length as usize != data.len() {
            return None;
        }
        Some(LevelData { header, data })
    }

    /// The wire bytes: encoded header followed by the data.
    pub fn to_bytes(&self) -> (r: Vec<u8>)
        ensures
            r@ == header_bytes(self.header@) + self.data@,
    {
        let mut buf = self.header.encode();
        append_bytes(&mut buf, self.data.as_slice());
        buf
    }

    /// Replace the header and data with those of `data`, keeping this
    /// level's elected player; `None`, and no change, when `data`'s length
    /// field disagrees with its data.
    pub fn update(&mut self, data: &Self) -> (r: Option<()>)
        ensures
            data.header@.length != data.data@.len() ==> r is None && final(self)@ == old(self)@,
            data.header@.length == data.data@.len() ==> r is Some && final(self)@ == (
                HeaderModel { elected_player: old(self).header@.elected_player, ..data.header@ },
                data.data@,
            ),
    {
        if data.header.length() as usize != data.data.len() {
            return None;
        }
        let elected_player = self.header.elected_player();
        self.header = data.header;
        self.header.set_elected_player(elected_player);
        self.data = copy_range(data.data.as_slice(), 0, data.data.len());
        Some(())
    }
}

/// Parsing the wire bytes of a header and data whose length field matches
/// gives them back.
pub proof fn lemma_level_data_roundtrip(h: HeaderModel, d: Seq<u8>)
    requires
        h.length == d.len(),
    ensures
        parse_level_data(header_bytes(h) + d) == Some((h, d)),
{
    let b = header_bytes(h) + d;
    lemma_le32_decode(h.level_id);
    lemma_le32_decode(h.level_hash);
    lemma_le16_decode(h.unk1);
    lemma_le16_decode(h.unk2);
    lemma_le16_decode(h.unk5);
    lemma_le16_decode(h.unk6);
    lemma_le16_decode(h.length);
    assert(b.subrange(22, b.len() as int) =~= d);
    assert(header_of(b) == h);
}

/// Bytes that parse as level data are exactly the wire bytes of what they
/// parse to.
pub proof fn lemma_level_data_reencode(b: Seq<u8>)
    ensures
        parse_level_data(b) matches Some((h, d)) ==> header_bytes(h) + d == b,
{
    if b.len() >= LEVEL_DATA_HEADER_SIZE {
        lemma_le32_encode(b[1], b[2], b[3], b[4]);
        lemma_le32_encode(b[11], b[12], b[13], b[14]);
        lemma_le16_encode(b[5], b[6]);
        lemma_le16_encode(b[8], b[9]);
        lemma_le16_encode(b[16], b[17]);
        lemma_le16_encode(b[18], b[19]);
        lemma_le16_encode(b[20], b[21]);
        let h = header_of(b);
        let d = b.subrange(22, b.len() as int);
        assert(header_bytes(h) + d =~= b);
    }
}

} // verus!
