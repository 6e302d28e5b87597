use colorsky_udp::protocol::game_msg::level_data::LevelData;
use colorsky_udp::protocol::game_msg::{GameMsg, GameMsgId};
use colorsky_udp::protocol::packet::{Packet, PacketId};
use colorsky_udp::protocol::types::TgcUuid;
use colorsky_udp::utils::{fnv1a_player_id, hex_preview};

#[test]
fn from_bytes() {
    let bytes = [];

    let level_data = LevelData::from_bytes(&bytes);

    println!(
        "{}",
        hex_preview(&LevelData::new(0xe8, 0x30b82314, 0, &[]).to_bytes(), 64)
    );
    println!("{:?}", level_data);
    assert!(level_data.is_none());
}

#[test]
fn level_data_bytes_roundtrip() {
    let ld = LevelData::new(0xe8, 0x30b82314, 1, &[9, 8, 7]);
    let b = ld.to_bytes();
    assert_eq!(b.len(), 22 + 3);
    assert_eq!(&b[0..5], &[0xe8, 0x14, 0x23, 0xb8, 0x30]);
    assert_eq!(b[7], 1);
    assert_eq!(&b[20..22], &[3, 0]);
    let back = LevelData::from_bytes(&b).unwrap();
    assert_eq!(back.header.elected_player, 0xe8);
    assert_eq!(back.header.level_id, 0x30b82314);
    assert_eq!(back.header.length, 3);
    assert_eq!(back.data, vec![9, 8, 7]);
    assert_eq!(back.to_bytes(), b);
}

#[test]
fn level_data_rejects_length_mismatch() {
    let mut b = LevelData::new(1, 2, 0, &[1, 2]).to_bytes();
    b.push(3);
    assert!(LevelData::from_bytes(&b).is_none());
    assert!(LevelData::from_bytes(&[0u8; 21]).is_none());
}

#[test]
fn level_data_update_keeps_elected_player() {
    let mut a = LevelData::new(5, 1, 0, &[1]);
    let b = LevelData::new(9, 2, 1, &[4, 5]);
    assert_eq!(a.update(&b), Some(()));
    assert_eq!(a.header.elected_player, 5);
    assert_eq!(a.header.level_id, 2);
    assert_eq!(a.data, vec![4, 5]);
    let mut bad = LevelData::from_bytes(&LevelData::new(1, 1, 0, &[]).to_bytes()).unwrap();
    bad.data.push(1);
    assert_eq!(a.update(&bad), None);
    assert_eq!(a.data, vec![4, 5]);
}

#[test]
fn packet_id_bytes() {
    for b in 0u8..=255 {
        if let Some(id) = PacketId::from_u8(b) {
            assert_eq!(id.to_u8(), b);
        }
    }
    assert_eq!(PacketId::from_u8(17), Some(PacketId::EnterGame));
    assert_eq!(PacketId::from_u8(15), None);
    assert_eq!(PacketId::from_u8(16), None);
}

#[test]
fn packet_parse_and_build() {
    let p = Packet::from(&[3, 7, 1, 2]).unwrap();
    assert_eq!(p.packet_id, PacketId::JoinGame);
    assert_eq!(p.seq, 7);
    assert_eq!(p.payload, vec![1, 2]);
    assert!(Packet::from(&[200, 0]).is_none());
    assert_eq!(Packet::build_packet(PacketId::PlayerLeft, &[5, 0]), vec![7, 2, 0, 5, 0]);
    let big = vec![1u8; 300];
    let b = Packet::build_packet(PacketId::GameMsg, &big);
    assert_eq!(&b[0..3], &[14, 0x2c, 0x01]);
    assert_eq!(b.len(), 303);
}

#[test]
fn game_msg_roundtrip() {
    let m = GameMsg::new(GameMsgId::SnapshotAck, 4, 9, &[1, 1]);
    let b = m.build_game_msg();
    assert_eq!(b, vec![14, 4, 9, 1, 1]);
    let back = GameMsg::from(&b).unwrap();
    assert_eq!(back.msg_id, GameMsgId::SnapshotAck);
    assert_eq!(back.level_seq, 4);
    assert_eq!(back.source_player, 9);
    assert_eq!(back.payload, vec![1, 1]);
    assert!(GameMsg::from(&[1]).is_none());
    for b in 0u8..=255 {
        if let Some(id) = GameMsgId::from_u8(b) {
            assert_eq!(id.to_u8(), b);
        }
    }
    // every declared message type decodes, 17 included
    assert_eq!(GameMsgId::from_u8(17), Some(GameMsgId::NetLevelElectionNominee));
    assert_eq!(GameMsgId::from_u8(18), None);
    assert_eq!(GameMsgId::from_u8(13), None);
}

#[test]
fn uuid_and_player_id() {
    assert!(TgcUuid::from(&[1, 2, 3]).is_none());
    let raw: [u8; 16] = [0x12, 0x34, 0x56, 0x78, 0x9a, 0xbc, 0xde, 0xf0, 0, 1, 2, 3, 4, 5, 6, 7];
    let u = TgcUuid::from(&raw).unwrap();
    assert_eq!(u.raw(), raw);
    assert_eq!(u.to_uuid_string(), "12345678-9abc-def0-0001-020304050607");
    // FNV-1a 32 of 16 zero bytes, low byte
    let mut h: u32 = 0x811c_9dc5;
    for _ in 0..16 {
        h = h.wrapping_mul(0x0100_0193);
    }
    let expected = (h as u8).max(1);
    assert_eq!(fnv1a_player_id(&[0u8; 16]), expected);
    assert!(fnv1a_player_id(&raw) >= 1);
}

#[test]
fn uuid_default_and_equality() {
    assert_eq!(TgcUuid::default().raw(), [0u8; 16]);
    let a = TgcUuid::from(&[7u8; 16]).unwrap();
    let b = TgcUuid::from(&[7u8; 16]).unwrap();
    let mut other = [7u8; 16];
    other[15] = 8;
    let c = TgcUuid::from(&other).unwrap();
    assert!(a == b);
    assert!(a != c);
    assert!(a.same(&b));
    assert!(!a.same(&c));
}

#[test]
fn hex_preview_cuts_long_input() {
    assert_eq!(hex_preview(&[0xab, 0x01, 0xff], 2), "ab01...");
    assert_eq!(hex_preview(&[0xab, 0x01], 2), "ab01");
    assert_eq!(hex_preview(&[], 4), "");
}
