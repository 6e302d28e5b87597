use colorsky_udp::utils::snapshot::{
    rle_decode, rle_encode, snapshot_checksum, xor_diff, SnapshotReader, SnapshotWriter,
    KEYFRAME_INTERVAL, MAX_STATE_SIZE,
};

#[test]
fn checksums() {
    for (hex, exp) in &[
        (
            "00a750008507001d05001d0b00ff00ff00ff00ff00ff00ff00ff00ff00ff00ff00ff00ff00ff00ff00ff00ff003f",
            0x50u8,
        ),
        (
            "00a7b3008506001d06001d0a00ff00ff00ff00ff00ff00ff00ff00ff00ff00ff00ff00ff00ff00ff00ff00ff003f",
            0xb3,
        ),
    ] {
        let d = hex::decode(hex).unwrap();
        assert_eq!(snapshot_checksum(&d[3..]), d[2]);
        assert_eq!(snapshot_checksum(&d[3..]), *exp);
    }
}

#[test]
fn roundtrip() {
    let mut w = SnapshotWriter::new();
    let mut r = SnapshotReader::new();
    let s1 = vec![0xAAu8; 100];
    let f1 = w.generate_delta(&s1);
    assert_eq!(f1[0], 1);
    assert_eq!(f1[1], 0); // Raw: save=1, base=0
    assert_eq!(r.apply_delta(&f1).unwrap(), s1);

    for i in 0..KEYFRAME_INTERVAL {
        let s = vec![0xAAu8.wrapping_add(i as u8 + 1); 100];
        let f = w.generate_delta(&s);
        assert_eq!(f[0], 0, "delta {} saveSeq", i); // Delta: save=0
        assert_eq!(f[1], 1); // base=1
        assert_eq!(r.apply_delta(&f).unwrap(), s);
    }

    let sk = vec![0xBBu8; 100];
    let fk = w.generate_delta(&sk);
    assert_eq!(fk[0], 2); // Key: save=2
    assert_eq!(fk[1], 1); // base=1
    assert_eq!(r.apply_delta(&fk).unwrap(), sk);

    w.ack(1);
    assert_eq!(w.generate_delta(&sk)[0], 0); // delta after ack
}

#[test]
fn rle_roundtrip() {
    let d = vec![0u8; 40];
    assert_eq!(rle_encode(&d), vec![0x00, 40]);
    assert_eq!(rle_decode(&rle_encode(&d)).unwrap(), d);
}

#[test]
fn rle_long_zero_run_is_split_at_255() {
    let mut d = vec![0u8; 300];
    d.push(7);
    assert_eq!(rle_encode(&d), vec![0x00, 255, 0x00, 45, 7]);
    assert_eq!(rle_decode(&rle_encode(&d)).unwrap(), d);
}

#[test]
fn rle_decode_rejects_truncated_marker() {
    assert_eq!(rle_decode(&[5, 0x00]), None);
    assert_eq!(rle_decode(&[]), Some(vec![]));
    assert_eq!(rle_decode(&[0x00, 3, 9]), Some(vec![0, 0, 0, 9]));
}

#[test]
fn checksum_of_empty_is_seed() {
    assert_eq!(snapshot_checksum(&[]), 0xC5);
    // one step: 0x93 * (0xC5 ^ 0x01) mod 256
    assert_eq!(snapshot_checksum(&[0x01]), ((0x93u32 * (0xC5u32 ^ 1)) % 256) as u8);
}

#[test]
fn xor_diff_copies_bytes_beyond_base() {
    assert_eq!(xor_diff(&[1, 2, 3, 4], &[1, 0], 3), vec![0, 2, 3]);
    assert_eq!(xor_diff(&[5, 6], &[1, 2, 3], 2), vec![4, 4]);
}

#[test]
fn reader_rejects_bad_checksum_and_short_frames() {
    let mut r = SnapshotReader::new();
    assert_eq!(r.apply_delta(&[1, 0]), None);
    assert_eq!(r.apply_delta(&[1, 0, 0x00, 5, 6]), None);
    let good = [1, 0, snapshot_checksum(&[5, 6]), 5, 6];
    assert_eq!(r.apply_delta(&good), Some(vec![5, 6]));
    assert_eq!(r.current_sequence, 1);
    assert_eq!(r.latest_full_state, vec![5, 6]);
}

#[test]
fn reader_ignores_delta_while_waiting_for_keyframe() {
    let mut w = SnapshotWriter::new();
    let mut r = SnapshotReader::new();
    let f1 = w.generate_delta(&[1, 2, 3]);
    assert_eq!(r.apply_delta(&f1), Some(vec![1, 2, 3]));
    let f2 = w.generate_delta(&[1, 2, 4]);
    assert_eq!(f2[0], 0);
    r.force_wait_for_keyframe();
    assert_eq!(r.apply_delta(&f2), None);
    assert!(r.window.is_empty());
}

#[test]
fn writer_truncates_large_states() {
    let mut w = SnapshotWriter::new();
    let mut r = SnapshotReader::new();
    let big = vec![3u8; MAX_STATE_SIZE + 10];
    let f = w.generate_delta(&big);
    assert_eq!(f.len(), 3 + MAX_STATE_SIZE);
    assert_eq!(r.apply_delta(&f).unwrap(), vec![3u8; MAX_STATE_SIZE]);
}

#[test]
fn writer_ack_matches_only_pending() {
    let mut w = SnapshotWriter::new();
    assert_eq!(w.pending_ack_seq(), None);
    let _ = w.generate_delta(&[1, 2]);
    assert_eq!(w.pending_ack_seq(), Some(1));
    assert!(!w.ack(2));
    assert!(w.ack(1));
    assert_eq!(w.pending_ack_seq(), None);
    assert!(!w.ack(1));
}

#[test]
fn writer_resyncs_after_missed_acks() {
    let mut w = SnapshotWriter::new();
    let s = vec![9u8; 20];
    // raw frame 1 pending; keyframes add further pending frames
    let _ = w.generate_delta(&s);
    for _ in 0..KEYFRAME_INTERVAL {
        let _ = w.generate_delta(&s);
    }
    let k1 = w.generate_delta(&s); // keyframe: 1 missed
    assert_eq!(k1[0], 2);
    for _ in 0..KEYFRAME_INTERVAL {
        let _ = w.generate_delta(&s);
    }
    let k2 = w.generate_delta(&s); // keyframe: 2 missed
    assert_eq!(k2[0], 3);
    for _ in 0..KEYFRAME_INTERVAL {
        let _ = w.generate_delta(&s);
    }
    let k3 = w.generate_delta(&s); // keyframe: 3 missed, enters resync
    assert_eq!(k3[0], 4);
    let raw = w.generate_delta(&s); // resync: raw frame
    assert_eq!(raw[0], 5);
    assert_eq!(raw[1], 0);
}

#[test]
fn unacked_writer_never_pends() {
    let mut w = SnapshotWriter::new_unacked();
    let _ = w.generate_delta(&[1]);
    assert_eq!(w.pending_ack_seq(), None);
}

#[test]
fn force_keyframe_restarts_with_raw_frame() {
    let mut w = SnapshotWriter::new();
    let _ = w.generate_delta(&[1, 2, 3]);
    w.force_keyframe();
    let f = w.generate_delta(&[1, 2, 3]);
    assert_eq!(f[0], 2);
    assert_eq!(f[1], 0);
    assert_eq!(w.pending_ack_seq(), Some(2));
}

#[test]
fn defaults_are_fresh_codecs() {
    let mut w = SnapshotWriter::default();
    let mut r = SnapshotReader::default();
    assert_eq!(w.next_save_seq, 1);
    assert_eq!(w.pending_ack_seq(), None);
    let f = w.generate_delta(&[3, 4]);
    assert_eq!(&f[..2], &[1, 0]);
    assert_eq!(r.apply_delta(&f).unwrap(), vec![3, 4]);
    assert_eq!(r.current_sequence, 1);
}

#[test]
fn reader_and_writer_getters_follow_the_frames() {
    let mut w = SnapshotWriter::new();
    let mut r = SnapshotReader::new();
    assert_eq!(w.next_save_seq(), 1);
    assert_eq!(r.current_sequence(), 0);
    assert!(r.latest_full_state().is_empty());
    assert!(r.window().is_empty());
    let f = w.generate_delta(&[7, 8]);
    assert_eq!(w.next_save_seq(), 2);
    assert_eq!(r.apply_delta(&f), Some(vec![7, 8]));
    assert_eq!(r.current_sequence(), 1);
    assert_eq!(r.latest_full_state(), &[7, 8]);
    assert_eq!(r.window().len(), 1);
    assert_eq!(r.window()[0].sequence, 1);
    assert_eq!(r.window()[0].data, vec![7, 8]);
}

#[test]
fn codec_roundtrip_through_acks_and_forced_keyframes() {
    let mut w = SnapshotWriter::new();
    let mut r = SnapshotReader::new();
    for i in 0..60u32 {
        let s: Vec<u8> = (0..50u32).map(|j| ((i * 7 + j * (i % 3)) % 251) as u8).collect();
        let f = w.generate_delta(&s);
        assert_eq!(r.apply_delta(&f), Some(s.clone()), "frame {}", i);
        assert_eq!(r.latest_full_state(), &s[..]);
        if i % 5 == 0 {
            if let Some(p) = w.pending_ack_seq() {
                assert!(w.ack(p));
            }
        }
        if i % 17 == 16 {
            w.force_keyframe();
        }
    }
}

#[test]
fn unacked_writer_refuses_every_ack() {
    let mut w = SnapshotWriter::new_unacked();
    for i in 0..40u8 {
        let f = w.generate_delta(&[i, i, 1]);
        assert_eq!(w.pending_ack_seq(), None);
        assert!(!w.ack(f[0]));
        assert!(!w.ack(i));
        if i == 20 {
            w.force_keyframe();
        }
    }
}

#[test]
fn keyframe_comes_at_least_every_interval() {
    for with_acks in [true, false] {
        let mut w = if with_acks { SnapshotWriter::new() } else { SnapshotWriter::new_unacked() };
        let mut run = 0usize;
        for i in 0..100u32 {
            let s = vec![(i % 5) as u8; 30];
            let f = w.generate_delta(&s);
            if f[0] == 0 {
                run += 1;
                assert!(run <= KEYFRAME_INTERVAL as usize);
            } else {
                run = 0;
            }
            if with_acks {
                if let Some(p) = w.pending_ack_seq() {
                    w.ack(p);
                }
            }
        }
    }
}

#[test]
fn resync_sends_raw_frames_until_ack() {
    let mut w = SnapshotWriter::new();
    let s = vec![4u8; 16];
    // four frames other than deltas without an ack: raw 1, keyframes 2, 3, 4
    let mut keyed = 0;
    while keyed < 4 {
        let f = w.generate_delta(&s);
        if f[0] != 0 {
            keyed += 1;
        }
    }
    for i in 0..5u8 {
        let t = vec![i; 16];
        let f = w.generate_delta(&t);
        assert_ne!(f[0], 0);
        assert_eq!(f[1], 0);
        assert_eq!(&f[3..], &t[..]);
        assert!(!w.ack(0));
    }
    let p = w.pending_ack_seq().unwrap();
    assert!(w.ack(p));
    // out of resync; the ack pruned the window, so a raw frame restarts it
    let f = w.generate_delta(&s);
    assert_eq!(f[0], p + 1);
    assert_eq!(f[1], 0);
    // leaving resync forced a keyframe, which comes on the raw frame
    let k = w.generate_delta(&s);
    assert_eq!(k[0], f[0] + 1);
    assert_eq!(k[1], f[0]);
    let d = w.generate_delta(&s);
    assert_eq!(d[0], 0);
    assert_eq!(d[1], k[0]);
}

#[test]
fn accepted_ack_prunes_the_acked_frame() {
    let mut w = SnapshotWriter::new();
    let mut r = SnapshotReader::new();
    let f1 = w.generate_delta(&[5, 5, 5]);
    assert_eq!(r.apply_delta(&f1), Some(vec![5, 5, 5]));
    let d = w.generate_delta(&[5, 5, 6]);
    assert_eq!(d[..2], [0, 1]);
    assert_eq!(r.apply_delta(&d), Some(vec![5, 5, 6]));
    assert!(w.ack(1));
    // frame 1 is gone from the writer's window: no base, so a raw frame
    let f2 = w.generate_delta(&[5, 5, 7]);
    assert_eq!(f2[..2], [2, 0]);
    assert_eq!(r.apply_delta(&f2), Some(vec![5, 5, 7]));
    assert!(!w.ack(1));
}

#[test]
fn force_keyframe_ends_resync() {
    let mut w = SnapshotWriter::new();
    let s = vec![2u8; 16];
    let mut keyed = 0;
    while keyed < 4 {
        if w.generate_delta(&s)[0] != 0 {
            keyed += 1;
        }
    }
    assert_eq!(w.generate_delta(&s)[1], 0);
    w.force_keyframe();
    let raw = w.generate_delta(&s);
    assert_eq!(raw[1], 0);
    let d = w.generate_delta(&s);
    assert_eq!(d[0], 0);
    assert_eq!(d[1], raw[0]);
}

#[test]
fn player_id_is_the_frame_checksum_of_the_uuid() {
    for seed in 0..=255u8 {
        let mut u = [0u8; 16];
        for (i, b) in u.iter_mut().enumerate() {
            *b = seed.wrapping_mul(31).wrapping_add(i as u8 * 7);
        }
        let c = snapshot_checksum(&u);
        let expect = if c == 0 { 1 } else { c };
        assert_eq!(colorsky_udp::utils::fnv1a_player_id(&u), expect);
    }
}
