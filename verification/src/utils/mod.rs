//! Shared utilities.
//!
//! - [`fnv1a_player_id`]: FNV-1a hash mapping a 16-byte UUID to a
//!   1..=255 player ID.
//! - [`strip_connection_magic`]: removes the 4-byte connection magic
//!   prefix of incoming data.
//! - [`hex_preview`]: hex rendering of a byte prefix.

pub mod bytes;
pub mod snapshot;
pub mod snapshot_laws;

use vstd::prelude::*;
use vstd::string::StringExecFns;
use crate::protocol::packet::{packet_id_of, PacketId};
use crate::utils::snapshot::{checksum, checksum_step};
use crate::server::peer::{PeerEntry, PeerModel};

verus! {

// ── player id ────────────────────────────────────────────────────────

/// One step of 32-bit FNV-1a.
pub open spec fn fnv_step(h: u32, b: u8) -> u32 {
    (h ^ (b as u32)).wrapping_mul(0x0100_0193)
}

/// 32-bit FNV-1a of `s`.
pub open spec fn fnv1a(s: Seq<u8>) -> u32
    decreases s.len(),
{
    if s.len() == 0 {
        0x811c_9dc5
    } else {
        fnv_step(fnv1a(s.drop_last()), s.last())
    }
}

/// The player ID of a UUID: the low 8 bits of its FNV-1a hash, with 0
/// (reserved for "unassigned") mapped to 1.
pub open spec fn player_id_of(uuid: Seq<u8>) -> u8 {
    let low = fnv1a(uuid) as u8;
    if low == 0 {
        1
    } else {
        low
    }
}

/// FNV-1a hash mapping a 16-byte UUID to a `1..=255` player ID.
///
/// Uses the 32-bit FNV-1a algorithm. The result is the low 8 bits,
/// clamped to a minimum of 1 (0 is reserved for "unassigned").
pub fn fnv1a_player_id(uuid: &[u8; 16]) -> (r: u8)
    ensures
        r == player_id_of(uuid@),
        1 <= r,
{
    let mut h: u32 = 0x811c_9dc5;
    let mut i: usize = 0;
    while i < 16
        invariant
            i <= 16,
            uuid@.len() == 16,
            h == fnv1a(uuid@.subrange(0, i as int)),
        decreases 16 - i,
    {
        h = (h ^ uuid[i] as u32).wrapping_mul(0x0100_0193);
        assert(uuid@.subrange(0, i + 1).drop_last() =~= uuid@.subrange(0, i as int));
        i = i + 1;
    }
    assert(uuid@.subrange(0, 16) =~= uuid@);
    let low = h as u8;
    if low == 0 {
        1
    } else {
        low
    }
}

/// The low byte of one FNV-1a step is one step of the snapshot checksum
/// on the low byte: the multiplier's low byte is 0x93.
proof fn lemma_fnv_step_low(h: u32, b: u8)
    ensures
        fnv_step(h, b) as u8 == checksum_step(h as u8, b),
{
    let x: u32 = h ^ (b as u32);
    assert((x as u8) == ((h as u8) ^ b)) by (bit_vector)
        requires
            x == h ^ (b as u32),
    ;
    assert((((x as nat * 0x0100_0193nat) % 0x1_0000_0000nat) as u32) as u8 == ((((x as u8) as nat) * 0x93nat) % 256nat) as u8)
        by (bit_vector);
}

/// The low byte of FNV-1a is the snapshot frame checksum of the same
/// bytes: both start at 0xC5 and multiply by 0x93 after each XOR.
pub proof fn lemma_fnv_low_byte_is_checksum(s: Seq<u8>)
    ensures
        fnv1a(s) as u8 == checksum(s),
    decreases s.len(),
{
    if s.len() > 0 {
        lemma_fnv_low_byte_is_checksum(s.drop_last());
        lemma_fnv_step_low(fnv1a(s.drop_last()), s.last());
    } else {
        assert((0x811c_9dc5u32 as u8) == 0xC5u8) by (bit_vector);
    }
}

/// A player ID is the snapshot frame checksum of the UUID's bytes, with 0
/// mapped to 1.
pub proof fn lemma_player_id_is_checksum(uuid: Seq<u8>)
    ensures
        player_id_of(uuid) == if checksum(uuid) == 0 { 1u8 } else { checksum(uuid) },
{
    lemma_fnv_low_byte_is_checksum(uuid);
}

// ── connection magic ─────────────────────────────────────────────────

/// Where the packet starts in `data` after the connection magic, and
/// whether the first four bytes are recorded as the connection magic.
pub open spec fn magic_split(data: Seq<u8>) -> (int, bool) {
    if data.len() > 0 && packet_id_of(data[0]) is Some {
        let id = packet_id_of(data[0]).unwrap();
        (0, (id == PacketId::ClientConnect || id == PacketId::JoinGame) && data.len() >= 4)
    } else if data.len() >= 5 && packet_id_of(data[4]) is Some {
        (4, true)
    } else {
        (0, false)
    }
}

/// Strip the 4-byte connection magic prefix from incoming data.
///
/// - If the data starts with a known [`PacketId`], returns the data as-is;
///   for `ClientConnect` or `JoinGame` with at least 4 bytes, records the
///   first 4 bytes as the entry's connection magic.
/// - Otherwise, if a known [`PacketId`] appears at offset 4, records the
///   first 4 bytes and skips them.
/// - Otherwise returns the data as-is.
pub fn strip_connection_magic<'a>(data: &'a [u8], entry: Option<&mut PeerEntry>) -> (r: &'a [u8])
    ensures
        r@ == data@.subrange(magic_split(data@).0, data@.len() as int),
        entry matches Some(e) ==> final(e)@ == (PeerModel {
            conn_magic: if magic_split(data@).1 { data@.subrange(0, 4) } else { e.conn_magic@ },
            ..e@
        }),
{
    assert(data@.subrange(0, data@.len() as int) =~= data@);
    if data.len() > 0 {
        if let Some(packet_id) = PacketId::from_u8(data[0]) {
            let is_connect = match packet_id {
                PacketId::ClientConnect => true,
                PacketId::JoinGame => true,
                _ => false,
            };
            if is_connect && data.len() >= 4 {
                if let Some(e) = entry {
                    e.conn_magic = [data[0], data[1], data[2], data[3]];
                    assert(e.conn_magic@ =~= data@.subrange(0, 4));
                }
            }
            return data;
        }
    }
    if data.len() >= 5 && PacketId::from_u8(data[4]).is_some() {
        if let Some(e) = entry {
            e.conn_magic = [data[0], data[1], data[2], data[3]];
            assert(e.conn_magic@ =~= data@.subrange(0, 4));
        }
        &data[4..data.len()]
    } else {
        data
    }
}

// ── hex ──────────────────────────────────────────────────────────────

/// The lowercase hex digit of a value below 16.
pub open spec fn hex_digit(n: u8) -> char {
    if n < 10 {
        (48 + n) as char
    } else {
        (87 + n) as char
    }
}

/// Lowercase hex of the bytes of `s`, two digits per byte, high nibble
/// first.
pub open spec fn hex_lower(s: Seq<u8>) -> Seq<char>
    decreases s.len(),
{
    if s.len() == 0 {
        Seq::empty()
    } else {
        hex_lower(s.drop_last()) + seq![hex_digit(s.last() / 16), hex_digit(s.last() % 16)]
    }
}

/// `hex::encode`: the lowercase hex string of `data`. The hex crate
/// (0.4.3) maps each byte to the table `0123456789abcdef` at its high and
/// then its low nibble; the contract claims exactly that.
#[verifier::external_body]
fn hex_encode(data: &[u8]) -> (r: String)
    ensures
        r@ == hex_lower(data@),
{
    hex::encode(data)
}

/// The bytes shown by [`hex_preview`] and whether they were cut.
pub open spec fn preview_text(data: Seq<u8>, max_len: usize) -> Seq<char> {
    if data.len() > max_len {
        hex_lower(data.subrange(0, max_len as int)) + seq!['.', '.', '.']
    } else {
        hex_lower(data)
    }
}

/// Convert bytes to hex preview, display "..." beyond `max_len`.
pub fn hex_preview(data: &[u8], max_len: usize) -> (r: String)
    ensures
        r@ == preview_text(data@, max_len),
{
    let shown = if data.len() < max_len { data.len() } else { max_len };
    let mut out = hex_encode(&data[0..shown]);
    if data.len() > shown {
        proof {
            reveal_strlit("...");
        }
        out.append("...");
    }
    assert(data@.subrange(0, data@.len() as int) =~= data@);
    out
}

} // verus!
