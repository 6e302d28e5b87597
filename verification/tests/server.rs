use colorsky_udp::server::tick::{tick_due, TICK_INTERVAL_MS, TICK_RATE};
use colorsky_udp::config::{default_host, default_port, resolve_host, resolve_port, Config, ServerConfig};
use colorsky_udp::protocol::game_msg::{GameMsg, GameMsgId};
use colorsky_udp::protocol::packet::{Packet, PacketId};
use colorsky_udp::server::state::{Outgoing, ServerState};
use colorsky_udp::utils::fnv1a_player_id;
use colorsky_udp::utils::snapshot::{snapshot_checksum, SnapshotReader, SnapshotWriter};

const LEVEL_A: u32 = 0x30b8_2314;
const LEVEL_B: u32 = 0x0102_0304;

fn uuid(seed: u8) -> [u8; 16] {
    let mut u = [0u8; 16];
    for (i, b) in u.iter_mut().enumerate() {
        *b = seed.wrapping_add(i as u8);
    }
    u
}

/// Client -> server packet `[id] [seq] [payload]`.
fn client_packet(id: u8, payload: &[u8]) -> Vec<u8> {
    let mut v = vec![id, 0];
    v.extend_from_slice(payload);
    v
}

fn join_payload(seed: u8, level: u32) -> Vec<u8> {
    let mut p = uuid(seed).to_vec();
    p.extend_from_slice(&[0xEE; 16]);
    p.push(0x42);
    p.extend_from_slice(&level.to_le_bytes());
    p
}

fn level_update_payload(level: u32) -> Vec<u8> {
    let mut p = vec![0x11; 14];
    p.extend_from_slice(&level.to_le_bytes());
    p
}

/// Game message packet from a client: `[14] [seq] [msg_id] [lv_seq] [src] [payload]`.
fn client_game_msg(msg_id: u8, payload: &[u8]) -> Vec<u8> {
    let mut body = vec![msg_id, 0, 0];
    body.extend_from_slice(payload);
    client_packet(14, &body)
}

fn receive(state: &mut ServerState, key: usize, data: &[u8]) -> Vec<Outgoing> {
    assert!(state.receive_is_safe(key, data));
    state.on_receive(key, data)
}

fn join(state: &mut ServerState, key: usize, seed: u8, level: u32) -> Vec<Outgoing> {
    receive(state, key, &client_packet(3, &join_payload(seed, level)))
}

fn recipients(out: &[Outgoing]) -> Vec<usize> {
    let mut v: Vec<usize> = out.iter().map(|o| o.peer).collect();
    v.sort();
    v
}

#[test]
fn connect_and_disconnect() {
    let mut s = ServerState::new();
    s.on_connect(0);
    assert!(s.peer(0).is_none());
    s.on_connect(7);
    let e = s.peer(7).unwrap();
    assert_eq!(e.player_id, 0);
    assert_eq!(e.level_id, 0);
    assert_eq!(e.conn_magic, [0, 0, 0, 0]);
    assert!(s.on_disconnect(8).is_empty());
    assert!(s.on_disconnect(7).is_empty());
    assert!(s.peer(7).is_none());
}

#[test]
fn join_sets_identity_and_broadcasts_roster() {
    let mut s = ServerState::new();
    // the first player has nobody else to tell
    let out = join(&mut s, 1, 1, LEVEL_A);
    assert!(out.is_empty());
    let e = s.peer(1).unwrap();
    let pid = fnv1a_player_id(&uuid(1));
    assert!(pid >= 1);
    assert_eq!(e.player_id, pid);
    assert_eq!(e.uuid.raw(), uuid(1));
    assert_eq!(e.level_id, LEVEL_A);
    assert_eq!(e.conn_magic, [3, 0, 1, 2]);
    // re-joining sends the roster to nobody but other players either
    s.on_connect(4);
    let out = join(&mut s, 1, 1, LEVEL_A);
    assert!(out.is_empty());
}

#[test]
fn join_sends_roster_to_everyone_else() {
    let mut s = ServerState::new();
    join(&mut s, 1, 1, LEVEL_A);
    let out = join(&mut s, 2, 50, LEVEL_B);
    let p1 = fnv1a_player_id(&uuid(1));
    let p2 = fnv1a_player_id(&uuid(50));
    assert_eq!(out.len(), 1);
    assert_eq!(out[0].peer, 1);
    assert_eq!(out[0].channel, 0);
    assert!(out[0].reliable);
    let d = &out[0].data;
    let body = &d[3..];
    assert_eq!(body[0], 2);
    let mut e1 = vec![p1];
    e1.extend_from_slice(&uuid(1));
    e1.extend_from_slice(&[0u8; 16]);
    e1.extend_from_slice(&LEVEL_A.to_le_bytes());
    let mut e2 = vec![p2];
    e2.extend_from_slice(&uuid(50));
    e2.extend_from_slice(&[0u8; 16]);
    e2.extend_from_slice(&LEVEL_B.to_le_bytes());
    let (a, b) = (&body[1..38], &body[38..75]);
    assert!((a == &e1[..] && b == &e2[..]) || (a == &e2[..] && b == &e1[..]));
    let mut expect = vec![2u8];
    expect.extend_from_slice(a);
    expect.extend_from_slice(b);
    assert_eq!(*d, Packet::build_packet(PacketId::EnterGame, &expect));
}

#[test]
fn second_join_announces_both_players_to_the_first() {
    let mut s = ServerState::new();
    join(&mut s, 1, 1, LEVEL_A);
    let out = join(&mut s, 2, 50, LEVEL_B);
    assert_eq!(recipients(&out), vec![1]);
    let d = &out[0].data;
    assert_eq!(d[0], 17);
    assert_eq!(u16::from_le_bytes([d[1], d[2]]) as usize, 1 + 2 * 37);
    assert_eq!(d[3], 2);
}

#[test]
fn short_join_is_ignored() {
    let mut s = ServerState::new();
    s.on_connect(1);
    let out = receive(&mut s, 1, &client_packet(3, &[1, 2, 3]));
    assert!(out.is_empty());
    assert_eq!(s.peer(1).unwrap().player_id, 0);
}

#[test]
fn receive_auto_connects_and_ignores_unknown_packets() {
    let mut s = ServerState::new();
    assert!(receive(&mut s, 5, &[200, 1, 2]).is_empty());
    assert!(s.peer(5).is_some());
    assert!(receive(&mut s, 6, &[]).is_empty());
    assert!(s.peer(6).is_none());
    assert!(receive(&mut s, 0, &[3, 0]).is_empty());
    assert!(s.peer(0).is_none());
}

#[test]
fn connection_magic_prefix_is_stripped() {
    let mut s = ServerState::new();
    let mut data = vec![0xde, 0xad, 0xbe, 0xef];
    data.extend_from_slice(&client_packet(3, &join_payload(9, LEVEL_A)));
    let out = receive(&mut s, 3, &data);
    // the join went through: the only player has nobody else to tell
    assert!(out.is_empty());
    let e = s.peer(3).unwrap();
    assert_eq!(e.player_id, fnv1a_player_id(&uuid(9)));
    assert_eq!(e.conn_magic, [0xde, 0xad, 0xbe, 0xef]);
    assert_eq!(e.level_id, LEVEL_A);
}

#[test]
fn receive_safety_check() {
    let s = ServerState::new();
    assert!(!s.receive_is_safe(1, &[14]));
    assert!(!s.receive_is_safe(1, &[14, 0]));
    assert!(s.receive_is_safe(1, &[14, 0, 200]));
    assert!(!s.receive_is_safe(1, &[14, 0, 3, 0]));
    assert!(!s.receive_is_safe(1, &client_game_msg(3, &[1, 0])));
    assert!(s.receive_is_safe(1, &client_game_msg(3, &[1, 0, 0])));
    assert!(!s.receive_is_safe(1, &client_game_msg(2, &[])));
    assert!(s.receive_is_safe(1, &[200]));
    assert!(s.receive_is_safe(0, &[14]));
    let mut tagged = vec![0u8, 0xb3, 0xb9, 0xd9, 0x20, 0x00, 0x24, 0x00];
    assert!(!s.receive_is_safe(1, &client_game_msg(2, &tagged)));
    tagged.extend_from_slice(&[0, 0, 1]);
    assert!(!s.receive_is_safe(1, &client_game_msg(2, &tagged)));
    tagged.extend_from_slice(&[0u8; 24]);
    assert!(s.receive_is_safe(1, &client_game_msg(2, &tagged)));
}

#[test]
fn level_update_changes_level_and_elects() {
    let mut s = ServerState::new();
    join(&mut s, 1, 1, LEVEL_A);
    join(&mut s, 2, 50, LEVEL_A);
    join(&mut s, 3, 90, LEVEL_B);
    let pid1 = s.peer(1).unwrap().player_id;
    let out = receive(&mut s, 1, &client_packet(4, &level_update_payload(LEVEL_B)));
    let e = s.peer(1).unwrap();
    assert_eq!(e.level_id, LEVEL_B);
    assert_eq!(e.lv_seq, 1);
    let mut changed_body = vec![pid1];
    changed_body.extend_from_slice(&LEVEL_B.to_le_bytes());
    let changed = Packet::build_packet(PacketId::PlayerChangedLevel, &changed_body);
    // peer 2 (old level) and peer 3 (new level) are told, then peer 1 gets the election
    assert_eq!(out.len(), 3);
    assert_eq!(recipients(&out[0..2]), vec![2, 3]);
    assert_eq!(out[0].data, changed);
    assert_eq!(out[1].data, changed);
    assert_eq!(out[2].peer, 1);
    // peer 3 is no host of LEVEL_B yet, so peer 1 becomes it
    assert_eq!(s.level_hosts.get(&LEVEL_B), Some(&pid1));
    let ld = s.levels_data.get(&LEVEL_B).unwrap();
    assert_eq!(ld.header.elected_player, pid1);
    assert_eq!(ld.header.level_id, LEVEL_B);
    let elect = &out[2].data;
    assert_eq!(elect[0], 14);
    assert_eq!(&elect[3..6], &[GameMsgId::NetLevelDataElect.to_u8(), 1, 0]);
    let frame = &elect[6..];
    // a raw frame of the 22-byte level data header
    assert_eq!(frame[0], 1);
    assert_eq!(frame[1], 0);
    assert_eq!(frame[2], snapshot_checksum(&frame[3..]));
    assert_eq!(&frame[3..], &ld.to_bytes()[..]);
    let mut r = SnapshotReader::new();
    assert_eq!(r.apply_delta(frame).unwrap(), ld.to_bytes());
}

#[test]
fn level_update_to_same_level_only_elects() {
    let mut s = ServerState::new();
    join(&mut s, 1, 1, LEVEL_A);
    let out = receive(&mut s, 1, &client_packet(4, &level_update_payload(LEVEL_A)));
    assert_eq!(out.len(), 1);
    assert_eq!(out[0].peer, 1);
    assert_eq!(s.peer(1).unwrap().lv_seq, 1);
}

#[test]
fn short_level_update_only_steps_sequence() {
    let mut s = ServerState::new();
    join(&mut s, 1, 1, LEVEL_A);
    for _ in 0..256 {
        assert!(receive(&mut s, 1, &client_packet(4, &[0u8; 10])).is_empty());
    }
    // 256 steps wrap around
    assert_eq!(s.peer(1).unwrap().lv_seq, 0);
    assert_eq!(s.peer(1).unwrap().level_id, LEVEL_A);
}

#[test]
fn disconnect_tells_others_and_clears_host() {
    let mut s = ServerState::new();
    join(&mut s, 1, 1, LEVEL_A);
    join(&mut s, 2, 50, LEVEL_A);
    receive(&mut s, 1, &client_packet(4, &level_update_payload(LEVEL_A)));
    let pid1 = s.peer(1).unwrap().player_id;
    assert_eq!(s.level_hosts.get(&LEVEL_A), Some(&pid1));
    let out = s.on_disconnect(1);
    assert_eq!(recipients(&out), vec![2]);
    assert_eq!(out[0].data, Packet::build_packet(PacketId::PlayerLeft, &[pid1, 0]));
    assert!(s.level_hosts.get(&LEVEL_A).is_none());
}

#[test]
fn relayed_messages_reach_the_other_players_of_the_level() {
    let mut s = ServerState::new();
    join(&mut s, 1, 1, LEVEL_A);
    join(&mut s, 2, 50, LEVEL_A);
    join(&mut s, 3, 90, LEVEL_B);
    let pid1 = s.peer(1).unwrap().player_id;
    let out = receive(&mut s, 1, &client_game_msg(GameMsgId::MusicSync.to_u8(), &[7, 8]));
    assert_eq!(recipients(&out), vec![2]);
    let msg = GameMsg::new(GameMsgId::MusicSync, 0, pid1, &[7, 8]);
    assert_eq!(out[0].data, Packet::build_packet(PacketId::GameMsg, &msg.build_game_msg()));
    // election nominees are forwarded to the level too
    let out = receive(&mut s, 1, &client_game_msg(17, &[4]));
    assert_eq!(recipients(&out), vec![2]);
    let msg = GameMsg::new(GameMsgId::NetLevelElectionNominee, 0, pid1, &[4]);
    assert_eq!(out[0].data, Packet::build_packet(PacketId::GameMsg, &msg.build_game_msg()));
    // an unhandled message type is ignored
    assert!(receive(&mut s, 1, &client_game_msg(GameMsgId::Metrics.to_u8(), &[1])).is_empty());
}

#[test]
fn net_rpc_tagged_call_carries_sender_uuid() {
    let mut s = ServerState::new();
    join(&mut s, 1, 1, LEVEL_A);
    join(&mut s, 2, 50, LEVEL_A);
    let mut payload = vec![0x05u8, 0xb3, 0xb9, 0xd9, 0x20, 0x00, 0x24, 0x00, 0, 0, 1];
    payload.extend_from_slice(&[0xAA; 30]);
    let out = receive(&mut s, 1, &client_game_msg(GameMsgId::NetRpc.to_u8(), &payload));
    assert_eq!(recipients(&out), vec![2]);
    let data = &out[0].data;
    // [14, len, len] [2, lv_seq, src] then the payload
    let relayed = &data[6..];
    assert_eq!(relayed.len(), payload.len());
    assert_eq!(&relayed[..19], &payload[..19]);
    assert_eq!(&relayed[19..35], &uuid(1));
    assert_eq!(&relayed[35..], &payload[35..]);
    // untagged calls are relayed unchanged
    let plain = vec![1u8, 2, 3];
    let out = receive(&mut s, 1, &client_game_msg(GameMsgId::NetRpc.to_u8(), &plain));
    assert_eq!(&out[0].data[6..], &plain[..]);
}

#[test]
fn player_states_are_fanned_out_per_level() {
    let mut s = ServerState::new();
    join(&mut s, 1, 1, LEVEL_A);
    join(&mut s, 2, 50, LEVEL_A);
    join(&mut s, 3, 90, LEVEL_B);
    let pid1 = s.peer(1).unwrap().player_id;
    let state = vec![9u8, 8, 7, 6];
    let mut w = SnapshotWriter::new();
    let frame = w.generate_delta(&state);
    assert!(receive(&mut s, 1, &client_game_msg(GameMsgId::PlayerState.to_u8(), &frame)).is_empty());
    assert_eq!(s.peer(1).unwrap().player_delta.raw_state, state);
    assert_eq!(s.peer(1).unwrap().player_delta.snapshot_ack, Some(1));
    let out = s.sync_frame();
    assert_eq!(recipients(&out), vec![2]);
    let pkt = &out[0].data;
    assert_eq!(&pkt[3..6], &[GameMsgId::PlayerState.to_u8(), 0, 0]);
    let mut expected = vec![pid1];
    expected.extend_from_slice(&(state.len() as u32).to_le_bytes());
    expected.extend_from_slice(&state);
    let mut r = SnapshotReader::new();
    assert_eq!(r.apply_delta(&pkt[6..]).unwrap(), expected);
}

#[test]
fn bad_player_state_frame_is_dropped() {
    let mut s = ServerState::new();
    join(&mut s, 1, 1, LEVEL_A);
    assert!(receive(&mut s, 1, &client_game_msg(GameMsgId::PlayerState.to_u8(), &[1, 0, 99, 5])).is_empty());
    assert!(s.peer(1).unwrap().player_delta.raw_state.is_empty());
    assert_eq!(s.peer(1).unwrap().player_delta.snapshot_ack, None);
}

#[test]
fn snapshot_acks_are_sent_and_received() {
    let mut s = ServerState::new();
    join(&mut s, 1, 1, LEVEL_A);
    let out = s.snapshot_ack();
    assert_eq!(out.len(), 1);
    let msg = GameMsg::new(GameMsgId::SnapshotAck, 0, 0, &[1, 1]);
    assert_eq!(out[0].data, Packet::build_packet(PacketId::GameMsg, &msg.build_game_msg()));
    // the election leaves the level writer awaiting ack 1
    receive(&mut s, 1, &client_packet(4, &level_update_payload(LEVEL_A)));
    assert_eq!(s.peer(1).unwrap().level_delta.snap_writer.pending_ack_seq(), Some(1));
    receive(&mut s, 1, &client_game_msg(GameMsgId::SnapshotAck.to_u8(), &[0, 1]));
    assert_eq!(s.peer(1).unwrap().level_delta.snap_writer.pending_ack_seq(), None);
}

#[test]
fn level_data_only_from_the_host() {
    let mut s = ServerState::new();
    join(&mut s, 1, 1, LEVEL_A);
    join(&mut s, 2, 50, LEVEL_A);
    receive(&mut s, 1, &client_packet(4, &level_update_payload(LEVEL_A)));
    let pid1 = s.peer(1).unwrap().player_id;
    let new_data = colorsky_udp::protocol::game_msg::level_data::LevelData::new(0x77, LEVEL_A, 1, &[4, 5, 6]);
    let mut w = SnapshotWriter::new();
    let frame = w.generate_delta(&new_data.to_bytes());
    // from a non-host: ignored
    receive(&mut s, 2, &client_game_msg(GameMsgId::NetLevelData.to_u8(), &frame));
    assert!(s.levels_data.get(&LEVEL_A).unwrap().data.is_empty());
    // from the host: stored, keeping the elected player
    receive(&mut s, 1, &client_game_msg(GameMsgId::NetLevelData.to_u8(), &frame));
    let ld = s.levels_data.get(&LEVEL_A).unwrap();
    assert_eq!(ld.data, vec![4, 5, 6]);
    assert_eq!(ld.header.has_initial_data, 1);
    assert_eq!(ld.header.elected_player, pid1);
    let stored = ld.to_bytes();
    assert_eq!(s.peer(1).unwrap().level_delta.snapshot_ack, Some(1));
    // the other player receives it at the level tick
    let out = s.sync_level();
    assert_eq!(recipients(&out), vec![2]);
    let mut r = SnapshotReader::new();
    assert_eq!(r.apply_delta(&out[0].data[6..]).unwrap(), stored);
}

#[test]
fn revoke_hands_the_level_to_another_player() {
    let mut s = ServerState::new();
    join(&mut s, 1, 1, LEVEL_A);
    join(&mut s, 2, 50, LEVEL_A);
    receive(&mut s, 1, &client_packet(4, &level_update_payload(LEVEL_A)));
    let pid2 = s.peer(2).unwrap().player_id;
    receive(&mut s, 1, &client_game_msg(GameMsgId::NetLevelDataRevoke.to_u8(), &[]));
    assert_eq!(s.level_hosts.get(&LEVEL_A), Some(&pid2));
    s.on_disconnect(1);
    receive(&mut s, 2, &client_game_msg(GameMsgId::NetLevelDataRevoke.to_u8(), &[]));
    assert!(s.level_hosts.get(&LEVEL_A).is_none());
}

#[test]
fn heartbeat_claims_a_free_level() {
    let mut s = ServerState::new();
    join(&mut s, 1, 1, LEVEL_A);
    let pid1 = s.peer(1).unwrap().player_id;
    s.handle_level_heart_beat(1, GameMsg::new(GameMsgId::NetLevelDataHeartbeat, 0, 0, &[]));
    assert_eq!(s.level_hosts.get(&LEVEL_A), Some(&pid1));
    join(&mut s, 2, 50, LEVEL_A);
    s.handle_level_heart_beat(2, GameMsg::new(GameMsgId::NetLevelDataHeartbeat, 0, 0, &[]));
    assert_eq!(s.level_hosts.get(&LEVEL_A), Some(&pid1));
}

#[test]
fn ping_is_answered_with_times() {
    let mut s = ServerState::new();
    assert!(s.handle_ping(1, &[5, 0], 1, 2).is_empty());
    s.on_connect(1);
    let recv = 1_700_000_000.25f64.to_bits();
    let send = 1_700_000_000.5f64.to_bits();
    let out = s.handle_ping(1, &[5, 0], recv, send);
    let mut body = vec![5u8, 0];
    body.extend_from_slice(&1_700_000_000.25f64.to_le_bytes());
    body.extend_from_slice(&1_700_000_000.5f64.to_le_bytes());
    assert_eq!(out.len(), 1);
    assert_eq!(out[0].data, Packet::build_packet(PacketId::NetTimePong, &body));
}

#[test]
fn broadcasts_select_by_level_and_player() {
    let mut s = ServerState::new();
    join(&mut s, 1, 1, LEVEL_A);
    join(&mut s, 2, 50, LEVEL_A);
    join(&mut s, 3, 90, LEVEL_B);
    let pid2 = s.peer(2).unwrap().player_id;
    assert_eq!(recipients(&s.broadcast_all(1, &[1], false)), vec![1, 2, 3]);
    assert_eq!(recipients(&s.broadcast_all_without(pid2, 1, &[1], false)), vec![1, 3]);
    assert_eq!(recipients(&s.broadcast_same_level(LEVEL_A, 1, &[1], false)), vec![1, 2]);
    assert_eq!(recipients(&s.broadcast_same_level_without(1, &[1], false, LEVEL_A, pid2)), vec![1]);
    let o = &s.broadcast_all(1, &[9, 9], false)[0];
    assert_eq!(o.channel, 1);
    assert!(!o.reliable);
    assert_eq!(o.data, vec![9, 9]);
}

#[test]
fn settings_priority() {
    assert_eq!(default_host(), "0.0.0.0");
    assert_eq!(default_port(), 5413);
    let d = ServerConfig::default();
    assert_eq!(d.host, "0.0.0.0");
    assert_eq!(d.port, 5413);
    let cfg = Config { server: ServerConfig { host: "::".to_string(), port: 9999 } };
    assert_eq!(resolve_host(Some("127.0.0.1".to_string()), Some(&cfg)), "127.0.0.1");
    assert_eq!(resolve_host(None, Some(&cfg)), "::");
    assert_eq!(resolve_host(None, None), "0.0.0.0");
    assert_eq!(resolve_port(Some(7777), Some(&cfg)), 7777);
    assert_eq!(resolve_port(None, Some(&cfg)), 9999);
    assert_eq!(resolve_port(None, None), 5413);
}

#[test]
fn receiving_keeps_every_connection() {
    let mut s = ServerState::new();
    join(&mut s, 1, 1, LEVEL_A);
    join(&mut s, 2, 50, LEVEL_A);
    receive(&mut s, 1, &client_packet(4, &level_update_payload(LEVEL_B)));
    receive(&mut s, 2, &client_game_msg(GameMsgId::NetLevelDataRevoke.to_u8(), &[]));
    receive(&mut s, 9, &client_game_msg(GameMsgId::Critters.to_u8(), &[1, 2]));
    let mut keys = s.peer_keys();
    keys.sort();
    assert_eq!(keys, vec![1, 2, 9]);
    assert_eq!(s.peer_count(), 3);
}

#[test]
fn every_reply_is_reliable_to_a_connected_peer() {
    let mut s = ServerState::new();
    let mut all: Vec<Outgoing> = Vec::new();
    all.extend(join(&mut s, 1, 1, LEVEL_A));
    all.extend(join(&mut s, 2, 50, LEVEL_A));
    all.extend(join(&mut s, 3, 90, LEVEL_B));
    all.extend(receive(&mut s, 1, &client_packet(4, &level_update_payload(LEVEL_B))));
    all.extend(receive(&mut s, 2, &client_game_msg(GameMsgId::MusicSync.to_u8(), &[3])));
    all.extend(s.snapshot_ack());
    all.extend(s.sync_level());
    assert!(!all.is_empty());
    for o in &all {
        assert_eq!(o.channel, 0);
        assert!(o.reliable);
        assert!(s.peer(o.peer).is_some());
    }
    let left = s.on_disconnect(3);
    assert_eq!(recipients(&left), vec![1, 2]);
    for o in &left {
        assert!(o.reliable && o.channel == 0);
    }
}

#[test]
fn broadcasts_reach_players_in_the_game_only() {
    let mut s = ServerState::new();
    join(&mut s, 1, 1, LEVEL_A);
    join(&mut s, 2, 50, LEVEL_A);
    s.on_connect(4);
    assert_eq!(recipients(&s.broadcast_all(0, &[1], true)), vec![1, 2]);
    assert_eq!(recipients(&s.broadcast_same_level(0, 0, &[1], true)), Vec::<usize>::new());
    let out = join(&mut s, 3, 90, LEVEL_B);
    assert_eq!(recipients(&out), vec![1, 2]);
    let left = s.on_disconnect(1);
    assert_eq!(recipients(&left), vec![2, 3]);
}

#[test]
fn level_broadcast_sends_once_per_uuid() {
    let mut s = ServerState::new();
    join(&mut s, 1, 1, LEVEL_A);
    join(&mut s, 5, 1, LEVEL_A);
    join(&mut s, 2, 50, LEVEL_A);
    let out = s.broadcast_same_level(LEVEL_A, 0, &[7], true);
    let r = recipients(&out);
    assert_eq!(r.len(), 2);
    assert!(r.contains(&2));
    assert!(r.contains(&1) != r.contains(&5));
    // the same player on two connections is told of a level change once
    let out = receive(&mut s, 2, &client_packet(4, &level_update_payload(LEVEL_B)));
    let told: Vec<usize> = out.iter().filter(|o| o.peer != 2).map(|o| o.peer).collect();
    assert_eq!(told.len(), 1);
    assert!(told[0] == 1 || told[0] == 5);
}

#[test]
fn tick_is_due_after_the_interval() {
    assert!(!tick_due(0));
    assert!(!tick_due(99));
    assert!(tick_due(100));
    assert!(tick_due(u64::MAX));
    assert_eq!(TICK_INTERVAL_MS, 1000 / TICK_RATE as u64);
}
