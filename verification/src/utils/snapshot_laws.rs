//! Properties of the snapshot codec that span the writer and the reader.

use vstd::prelude::*;
use crate::utils::snapshot::{
    base_data, checksum, find_entry, lemma_rle_roundtrip, next_seq, patch_base, reader_apply,
    reader_window_add, rle_enc, without_seq, writer_base, writer_generate, writer_raw, writer_store,
    writer_mark_ack, writer_initial, writer_ack, writer_reset, reader_initial, keep_from, MAX_MISSED_ACKS, rle_dec, xor_patch, ReaderModel, WriterModel, KEYFRAME_INTERVAL,
    MAX_STATE_SIZE, MAX_WINDOW,
};

verus! {

/// How many steps, in wrapping `u8` order, sequence number `b` lies
/// behind `a`.
pub open spec fn seq_age(a: u8, b: u8) -> int {
    if a >= b {
        a - b
    } else {
        a - b + 256
    }
}

/// The window is spread only a little behind the last saved frame: when
/// it is non-empty, the last saved frame is set, the next sequence number
/// follows it, and the entry at position `i` lies at most `2 * i` steps
/// behind it (0 is skipped, so one save can advance two steps).
pub open spec fn window_spread(w: WriterModel) -> bool {
    w.window.len() > 0 ==> match w.last_saved_seq {
        Some(q) => {
            &&& w.next_save_seq == next_seq(q)
            &&& forall|i: int| 0 <= i < w.window.len() ==> #[trigger] seq_age(q, w.window[i].0) <= 2 * i
        },
        None => false,
    }
}

/// A writer state that the writer itself keeps: the next sequence number
/// is never 0, every window entry has a non-zero sequence number, the
/// window holds at most `MAX_WINDOW` entries, a non-empty window holds the
/// last saved frame and is spread only a little behind it, the frame
/// awaiting an ack is the last saved one, and a writer that does not track
/// acks awaits none.
pub open spec fn writer_wf(w: WriterModel) -> bool {
    &&& w.next_save_seq != 0
    &&& window_spread(w)
    &&& w.window.len() <= MAX_WINDOW
    &&& forall|i: int| 0 <= i < w.window.len() ==> #[trigger] w.window[i].0 != 0
    &&& w.window.len() > 0 ==> (w.last_saved_seq matches Some(q) && find_entry(w.window, q) is Some)
    &&& w.pending_ack_seq matches Some(p) ==> w.last_saved_seq == Some(p)
    &&& !w.track_acks ==> w.pending_ack_seq is None
}

/// The reader holds, with the same data, the frame the writer will diff
/// its next frame against.
pub open spec fn base_synced(w: WriterModel, r: ReaderModel) -> bool {
    writer_base(w) matches Some(b) ==> find_entry(r.window, b.0) == Some(b)
}

/// The first `min(len, MAX_STATE_SIZE)` bytes of a state: what a frame carries.
pub open spec fn truncated(s: Seq<u8>) -> Seq<u8> {
    if s.len() > MAX_STATE_SIZE {
        s.subrange(0, MAX_STATE_SIZE as int)
    } else {
        s
    }
}

proof fn lemma_xor_cancel(a: u8, c: u8)
    ensures
        a ^ (c ^ a) == c,
{
    assert(a ^ (c ^ a) == c) by (bit_vector);
}

/// An entry found by sequence number carries that sequence number.
proof fn lemma_find_entry_seq(w: Seq<(u8, Seq<u8>)>, sq: u8)
    ensures
        find_entry(w, sq) matches Some(e) ==> e.0 == sq,
    decreases w.len(),
{
    if w.len() > 0 && w[0].0 != sq {
        lemma_find_entry_seq(w.drop_first(), sq);
    }
}

/// No entry with sequence number `sq` means nothing is found.
proof fn lemma_find_entry_none(w: Seq<(u8, Seq<u8>)>, sq: u8)
    requires
        forall|i: int| 0 <= i < w.len() ==> #[trigger] w[i].0 != sq,
    ensures
        find_entry(w, sq) is None,
    decreases w.len(),
{
    if w.len() > 0 {
        assert(w[0].0 != sq);
        assert forall|i: int| 0 <= i < w.drop_first().len() implies #[trigger] w.drop_first()[i].0 != sq by {
            assert(w.drop_first()[i] == w[i + 1]);
        }
        lemma_find_entry_none(w.drop_first(), sq);
    }
}

/// When only the last entry has sequence number `sq`, it is what is found.
proof fn lemma_find_entry_last(w: Seq<(u8, Seq<u8>)>, sq: u8)
    requires
        w.len() > 0,
        w.last().0 == sq,
        forall|i: int| 0 <= i < w.len() - 1 ==> #[trigger] w[i].0 != sq,
    ensures
        find_entry(w, sq) == Some(w.last()),
    decreases w.len(),
{
    if w.len() > 1 {
        assert(w[0].0 != sq);
        let t = w.drop_first();
        assert forall|i: int| 0 <= i < t.len() - 1 implies #[trigger] t[i].0 != sq by {
            assert(t[i] == w[i + 1]);
        }
        lemma_find_entry_last(t, sq);
    }
}

/// A found entry is an entry of the window.
proof fn lemma_find_entry_member(w: Seq<(u8, Seq<u8>)>, sq: u8)
    ensures
        find_entry(w, sq) matches Some(e) ==> exists|i: int| 0 <= i < w.len() && w[i] == e,
    decreases w.len(),
{
    if w.len() > 0 && w[0].0 != sq {
        lemma_find_entry_member(w.drop_first(), sq);
        if let Some(e) = find_entry(w, sq) {
            let i = choose|i: int| 0 <= i < w.drop_first().len() && w.drop_first()[i] == e;
            assert(w[i + 1] == e);
        }
    } else if w.len() > 0 {
        assert(find_entry(w, sq) == Some(w[0]));
    }
}

/// Removing sequence number `sq` leaves no entry with it, and keeps only
/// entries of the given window.
proof fn lemma_without_seq(w: Seq<(u8, Seq<u8>)>, sq: u8)
    ensures
        forall|i: int| 0 <= i < without_seq(w, sq).len() ==> #[trigger] without_seq(w, sq)[i].0 != sq,
        without_seq(w, sq).len() <= w.len(),
        forall|i: int| 0 <= i < without_seq(w, sq).len() ==> exists|j: int| 0 <= j < w.len() && w[j] == #[trigger] without_seq(w, sq)[i],
    decreases w.len(),
{
    if w.len() > 0 {
        lemma_without_seq(w.drop_last(), sq);
        let r = without_seq(w.drop_last(), sq);
        assert forall|i: int| 0 <= i < without_seq(w, sq).len() implies exists|j: int| 0 <= j < w.len() && w[j] == #[trigger] without_seq(w, sq)[i] by {
            if i < r.len() {
                let j = choose|j: int| 0 <= j < w.drop_last().len() && w.drop_last()[j] == r[i];
                assert(w[j] == r[i]);
            } else {
                assert(w[w.len() - 1] == w.last());
            }
        }
    }
}

/// Removing a sequence number no entry carries changes nothing.
proof fn lemma_without_seq_absent(w: Seq<(u8, Seq<u8>)>, sq: u8)
    requires
        forall|i: int| 0 <= i < w.len() ==> #[trigger] w[i].0 != sq,
    ensures
        without_seq(w, sq) == w,
    decreases w.len(),
{
    if w.len() > 0 {
        let init = w.drop_last();
        assert forall|i: int| 0 <= i < init.len() implies #[trigger] init[i].0 != sq by {
            assert(init[i] == w[i]);
        }
        lemma_without_seq_absent(init, sq);
        assert(w.last().0 != sq);
        assert(init.push(w.last()) =~= w);
    }
}

/// One save moves the last saved sequence number one or two steps ahead
/// (two when it passes 0), and every entry shortly behind it that much
/// further behind.
proof fn lemma_age_step(q: u8, e: u8)
    requires
        seq_age(q, e) <= 2 * MAX_WINDOW,
    ensures
        1 <= seq_age(next_seq(q), q) <= 2,
        seq_age(next_seq(q), e) == seq_age(q, e) + seq_age(next_seq(q), q),
        e != next_seq(q),
{
}

/// Storing the frame numbered by the next sequence number keeps the
/// window spread only a little behind the last saved frame.
proof fn lemma_store_spread(w1: WriterModel, sv: u8, d: Seq<u8>)
    requires
        window_spread(WriterModel { next_save_seq: sv, ..w1 }),
        w1.next_save_seq == next_seq(sv),
        w1.window.len() <= MAX_WINDOW,
    ensures
        window_spread(writer_store(w1, sv, d)),
{
    let w0 = WriterModel { next_save_seq: sv, ..w1 };
    let ws = w1.window;
    if ws.len() > 0 {
        let q = w1.last_saved_seq.unwrap();
        assert(w0.window == ws);
        assert forall|i: int| 0 <= i < ws.len() implies #[trigger] ws[i].0 != sv by {
            assert(seq_age(q, w0.window[i].0) <= 2 * i);
            lemma_age_step(q, ws[i].0);
        }
        lemma_without_seq_absent(ws, sv);
    } else {
        assert(without_seq(ws, sv) =~= ws);
    }
    let p = seq![(sv, d)] + ws;
    let nw = writer_store(w1, sv, d).window;
    assert(without_seq(ws, sv) == ws);
    assert(nw[0] == (sv, d));
    assert forall|i: int| 0 <= i < nw.len() implies #[trigger] seq_age(sv, nw[i].0) <= 2 * i by {
        assert(nw[i] == p[i]);
        if i > 0 {
            let q = w1.last_saved_seq.unwrap();
            assert(p[i] == ws[i - 1]);
            assert(seq_age(q, w0.window[i - 1].0) <= 2 * (i - 1));
            lemma_age_step(q, ws[i - 1].0);
        }
    }
}

/// Pruning a window for an ack of `q` empties it when every entry lies
/// shortly behind `q` (at most `2 * MAX_WINDOW` steps): all are at or
/// before the acked frame.
proof fn lemma_keep_from_empty(w: Seq<(u8, Seq<u8>)>, q: u8)
    requires
        forall|i: int| 0 <= i < w.len() ==> #[trigger] seq_age(q, w[i].0) <= 2 * MAX_WINDOW,
    ensures
        keep_from(w, q).len() == 0,
    decreases w.len(),
{
    if w.len() > 0 {
        let init = w.drop_last();
        assert forall|i: int| 0 <= i < init.len() implies #[trigger] seq_age(q, init[i].0) <= 2 * MAX_WINDOW by {
            assert(init[i] == w[i]);
        }
        lemma_keep_from_empty(init, q);
        assert(seq_age(q, w[w.len() - 1].0) <= 2 * MAX_WINDOW);
        assert(w.last() == w[w.len() - 1]);
    }
}

/// After a writer stores `(sq, d)`, its window starts with that entry.
proof fn lemma_writer_store_base(w: WriterModel, sq: u8, d: Seq<u8>)
    ensures
        writer_base(writer_store(w, sq, d)) == Some((sq, d)),
        writer_store(w, sq, d).window[0] == (sq, d),
{
    let w2 = writer_store(w, sq, d);
    let p = seq![(sq, d)] + without_seq(w.window, sq);
    assert(p[0] == (sq, d));
    assert(w2.window[0] == (sq, d));
    assert(find_entry(w2.window, sq) == Some((sq, d)));
}

/// Storing a frame with a non-zero sequence number keeps the window
/// well-formed.
proof fn lemma_writer_store_wf(w: WriterModel, sq: u8, d: Seq<u8>)
    requires
        forall|i: int| 0 <= i < w.window.len() ==> #[trigger] w.window[i].0 != 0,
        sq != 0,
    ensures
        writer_store(w, sq, d).window.len() <= MAX_WINDOW,
        forall|i: int| 0 <= i < writer_store(w, sq, d).window.len() ==> #[trigger] writer_store(w, sq, d).window[i].0 != 0,
{
    lemma_without_seq(w.window, sq);
    let ws = without_seq(w.window, sq);
    let p = seq![(sq, d)] + ws;
    assert forall|i: int| 0 <= i < p.len() implies #[trigger] p[i].0 != 0 by {
        if i > 0 {
            assert(p[i] == ws[i - 1]);
            let j = choose|j: int| 0 <= j < w.window.len() && w.window[j] == ws[i - 1];
            assert(w.window[j].0 != 0);
        }
    }
    let nw = writer_store(w, sq, d).window;
    assert forall|i: int| 0 <= i < nw.len() implies #[trigger] nw[i].0 != 0 by {
        assert(nw[i] == p[i]);
    }
}

/// After a reader stores `(sq, d)`, looking `sq` up finds that entry.
proof fn lemma_reader_store_find(w: Seq<(u8, Seq<u8>)>, sq: u8, d: Seq<u8>)
    ensures
        find_entry(reader_window_add(w, sq, d), sq) == Some((sq, d)),
        reader_window_add(w, sq, d).len() <= MAX_WINDOW,
{
    lemma_without_seq(w, sq);
    let ws = without_seq(w, sq);
    let p = ws.push((sq, d));
    let q = reader_window_add(w, sq, d);
    assert(q.last() == (sq, d));
    assert forall|i: int| 0 <= i < q.len() - 1 implies #[trigger] q[i].0 != sq by {
        if p.len() > MAX_WINDOW {
            assert(q[i] == p[i + p.len() - MAX_WINDOW]);
            assert(p[i + p.len() - MAX_WINDOW] == ws[i + p.len() - MAX_WINDOW]);
        } else {
            assert(q[i] == ws[i]);
        }
    }
    lemma_find_entry_last(q, sq);
}

/// The raw frame of a well-formed writer is decoded by any reader into
/// the carried state, leaving the reader holding that frame as base.
proof fn lemma_raw_delivery(w: WriterModel, r: ReaderModel, s: Seq<u8>, n: nat)
    requires
        w.next_save_seq != 0,
        forall|i: int| 0 <= i < w.window.len() ==> #[trigger] w.window[i].0 != 0,
        w.window.len() <= MAX_WINDOW,
        window_spread(w),
        !w.track_acks ==> w.pending_ack_seq is None,
        n <= s.len(),
    ensures
        ({
            let (w2, f) = writer_raw(w, s, n);
            let (r2, out) = reader_apply(r, f);
            &&& out == Some(s.subrange(0, n as int))
            &&& !r2.waiting_for_keyframe
            &&& base_synced(w2, r2)
            &&& writer_wf(w2)
            &&& f.len() >= 3 && f[2] == checksum(f.subrange(3, f.len() as int))
        }),
{
    let sv = w.next_save_seq;
    let t = s.subrange(0, n as int);
    let w1 = WriterModel { next_save_seq: next_seq(sv), delta_count: 0, ..w };
    let (w2, f) = writer_raw(w, s, n);
    assert(f.subrange(3, f.len() as int) =~= t);
    lemma_writer_store_base(w1, sv, t);
    lemma_writer_store_wf(w1, sv, t);
    lemma_store_spread(w1, sv, t);
    let (r2, out) = reader_apply(r, f);
    assert(r2.window == seq![(sv, t)]);
    assert(find_entry(r2.window, sv) == Some((sv, t)));
}

/// A frame that the writer emits for state `s` always carries a checksum
/// that matches its payload.
pub proof fn lemma_frame_checksum(w: WriterModel, s: Seq<u8>)
    requires
        writer_wf(w),
    ensures
        ({
            let f = writer_generate(w, s).1;
            f.len() >= 3 && f[2] == checksum(f.subrange(3, f.len() as int))
        }),
{
    let r = ReaderModel {
        current_sequence: 0,
        window: Seq::empty(),
        latest_full_state: Seq::empty(),
        waiting_for_keyframe: false,
    };
    lemma_delivery_and_checksum(w, r, s);
}

/// Delivery of a keyed (delta or keyframe) frame against base `b`.
proof fn lemma_keyed_delivery(r: ReaderModel, b: (u8, Seq<u8>), s: Seq<u8>, n: nat, save: u8)
    requires
        b.0 != 0,
        find_entry(r.window, b.0) == Some(b),
        n <= s.len(),
        n <= MAX_STATE_SIZE,
        r.waiting_for_keyframe ==> save != 0,
    ensures
        ({
            let x = xor_patch(s, b.1, n);
            let rle = rle_enc(x);
            let f = seq![save, b.0, checksum(rle)] + rle;
            let (r2, out) = reader_apply(r, f);
            &&& out == Some(s.subrange(0, n as int))
            &&& r2.latest_full_state == s.subrange(0, n as int)
            &&& save != 0 ==> r2.window == reader_window_add(r.window, save, s.subrange(0, n as int))
            &&& save != 0 ==> !r2.waiting_for_keyframe
            &&& save == 0 ==> r2.window == r.window && r2.waiting_for_keyframe == r.waiting_for_keyframe
            &&& f[2] == checksum(f.subrange(3, f.len() as int))
        }),
{
    let x = xor_patch(s, b.1, n);
    let rle = rle_enc(x);
    let f = seq![save, b.0, checksum(rle)] + rle;
    assert(f.subrange(3, f.len() as int) =~= rle);
    lemma_rle_roundtrip(x);
    assert(base_data(r.window, b.0) == b.1);
    let ns = patch_base(b.1, x);
    assert forall|j: int| 0 <= j < n implies #[trigger] ns[j] == s[j] by {
        if j < b.1.len() {
            lemma_xor_cancel(b.1[j], s[j]);
        }
    }
    assert(ns =~= s.subrange(0, n as int));
}

/// The base a well-formed writer picks has a non-zero sequence number and
/// is found under that number.
proof fn lemma_writer_base(w: WriterModel)
    requires
        writer_wf(w),
    ensures
        writer_base(w) matches Some(b) ==> b.0 != 0 && find_entry(w.window, b.0) == Some(b),
{
    if let Some(sq) = w.last_saved_seq {
        lemma_find_entry_seq(w.window, sq);
        lemma_find_entry_member(w.window, sq);
    }
    if let Some(b) = writer_base(w) {
        if let Some(sq) = w.last_saved_seq {
            if let Some(e) = find_entry(w.window, sq) {
                let i = choose|i: int| 0 <= i < w.window.len() && w.window[i] == e;
                assert(w.window[i].0 != 0);
            }
        }
    }
}

/// Marking an ack never touches the window or the sequence numbers.
proof fn lemma_mark_ack(w: WriterModel, seq: u8)
    ensures
        writer_mark_ack(w, seq).window == w.window,
        writer_mark_ack(w, seq).next_save_seq == w.next_save_seq,
        writer_mark_ack(w, seq).last_saved_seq == w.last_saved_seq,
{
}

/// Both delivery and the checksum property, case by case.
proof fn lemma_delivery_and_checksum(w: WriterModel, r: ReaderModel, s: Seq<u8>)
    requires
        writer_wf(w),
    ensures
        ({
            let f = writer_generate(w, s).1;
            f.len() >= 3 && f[2] == checksum(f.subrange(3, f.len() as int))
        }),
        base_synced(w, r) && (r.waiting_for_keyframe ==> writer_generate(w, s).1[0] != 0) ==> ({
            let (w2, f) = writer_generate(w, s);
            let (r2, out) = reader_apply(r, f);
            &&& out == Some(truncated(s))
            &&& !r2.waiting_for_keyframe
            &&& base_synced(w2, r2)
            &&& writer_wf(w2)
        }),
{
    let n: nat = if s.len() > MAX_STATE_SIZE { MAX_STATE_SIZE as nat } else { s.len() };
    assert(truncated(s) =~= s.subrange(0, n as int));
    lemma_writer_base(w);
    lemma_raw_delivery(w, r, s, n);
    if w.resync || w.window.len() == 0 {
    } else {
        let wk = if w.force_next_keyframe { WriterModel { force_next_keyframe: false, ..w } } else { w };
        let keyed = w.force_next_keyframe || w.delta_count >= KEYFRAME_INTERVAL;
        assert(writer_base(wk) == writer_base(w));
        match writer_base(w) {
            None => {
                lemma_raw_delivery(wk, r, s, n);
            },
            Some(b) => {
                let x = xor_patch(s, b.1, n);
                let rle = rle_enc(x);
                if keyed {
                    let sv = wk.next_save_seq;
                    let w1 = WriterModel { next_save_seq: next_seq(sv), delta_count: 0, ..wk };
                    if rle.len() > x.len() {
                        let w3 = WriterModel { resync: true, window: Seq::empty(), ..w1 };
                        lemma_raw_delivery(w3, r, s, n);
                    } else {
                        let f = seq![sv, b.0, checksum(rle)] + rle;
                        assert(f.subrange(3, f.len() as int) =~= rle);
                        if base_synced(w, r) {
                            lemma_keyed_delivery(r, b, s, n, sv);
                            let t = s.subrange(0, n as int);
                            lemma_writer_store_base(w1, sv, t);
                            lemma_writer_store_wf(w1, sv, t);
                            lemma_store_spread(w1, sv, t);
                            lemma_mark_ack(writer_store(w1, sv, t), sv);
                            lemma_reader_store_find(r.window, sv, t);
                        }
                    }
                } else {
                    if rle.len() > x.len() {
                        let w3 = WriterModel { resync: true, window: Seq::empty(), ..w };
                        lemma_raw_delivery(w3, r, s, n);
                    } else {
                        let f = seq![0u8, b.0, checksum(rle)] + rle;
                        assert(f.subrange(3, f.len() as int) =~= rle);
                        if base_synced(w, r) && !r.waiting_for_keyframe {
                            lemma_keyed_delivery(r, b, s, n, 0);
                        }
                    }
                }
            },
        }
    }
}

/// What a frame carries: a raw frame (base sequence 0) carries the state
/// itself, cut to `MAX_STATE_SIZE`; any other frame is diffed against the
/// writer's base `b`, whose sequence number it names, and its payload
/// RLE-decodes to the byte-wise XOR of the cut state with `b`'s data
/// (bytes beyond the base copied as they are).
pub proof fn lemma_frame_payload(w: WriterModel, s: Seq<u8>)
    requires
        writer_wf(w),
    ensures
        ({
            let f = writer_generate(w, s).1;
            let t = truncated(s);
            let p = f.subrange(3, f.len() as int);
            &&& f.len() >= 3
            &&& f[1] == 0 ==> p == t
            &&& f[1] != 0 ==> {
                let b = writer_base(w).unwrap();
                &&& writer_base(w) is Some
                &&& b.0 == f[1]
                &&& rle_dec(p) is Some
                &&& rle_dec(p).unwrap().len() == t.len()
                &&& forall|j: int| 0 <= j < t.len() && j < b.1.len() ==> #[trigger] rle_dec(p).unwrap()[j] == t[j] ^ b.1[j]
                &&& forall|j: int| b.1.len() <= j < t.len() ==> #[trigger] rle_dec(p).unwrap()[j] == t[j]
            }
        }),
{
    let n: nat = if s.len() > MAX_STATE_SIZE { MAX_STATE_SIZE as nat } else { s.len() };
    let t = truncated(s);
    assert(t =~= s.subrange(0, n as int));
    lemma_writer_base(w);
    lemma_frame_checksum(w, s);
    let f = writer_generate(w, s).1;
    if w.resync || w.window.len() == 0 {
        assert(f.subrange(3, f.len() as int) =~= t);
    } else {
        let wk = if w.force_next_keyframe { WriterModel { force_next_keyframe: false, ..w } } else { w };
        assert(writer_base(wk) == writer_base(w));
        match writer_base(w) {
            None => {
                assert(f.subrange(3, f.len() as int) =~= t);
            },
            Some(b) => {
                let x = xor_patch(s, b.1, n);
                let rle = rle_enc(x);
                if rle.len() > x.len() {
                    assert(f.subrange(3, f.len() as int) =~= t);
                } else {
                    assert(f[1] == b.0);
                    assert(f.subrange(3, f.len() as int) =~= rle);
                    lemma_rle_roundtrip(x);
                    assert forall|j: int| 0 <= j < t.len() && j < b.1.len() implies #[trigger] x[j] == t[j] ^ b.1[j] by {
                        assert(t[j] == s[j]);
                    }
                    assert forall|j: int| b.1.len() <= j < t.len() implies #[trigger] x[j] == t[j] by {
                        assert(t[j] == s[j]);
                    }
                }
            },
        }
    }
}

/// Delivery: a reader that holds the writer's current base (and is not
/// waiting for a keyframe unless the frame is a keyframe or raw frame)
/// reconstructs exactly the state the writer encoded, truncated to
/// `MAX_STATE_SIZE`; afterwards the reader again holds the writer's base
/// and the writer stays well-formed, so every following frame is
/// delivered too.
pub proof fn lemma_snapshot_delivery(w: WriterModel, r: ReaderModel, s: Seq<u8>)
    requires
        writer_wf(w),
        base_synced(w, r),
        r.waiting_for_keyframe ==> writer_generate(w, s).1[0] != 0,
    ensures
        ({
            let (w2, f) = writer_generate(w, s);
            let (r2, out) = reader_apply(r, f);
            &&& out == Some(truncated(s))
            &&& r2.latest_full_state == truncated(s)
            &&& !r2.waiting_for_keyframe
            &&& base_synced(w2, r2)
            &&& writer_wf(w2)
        }),
{
    lemma_delivery_and_checksum(w, r, s);
    let (w2, f) = writer_generate(w, s);
    let (r2, out) = reader_apply(r, f);
    assert(out == Some(truncated(s)));
    assert(r2.latest_full_state == out.unwrap());
}

/// After `force_wait_for_keyframe`, delta frames (save sequence 0, base
/// sequence non-zero) are ignored: nothing is returned and the reader's
/// state does not change.
pub proof fn lemma_wait_ignores_deltas(delta: Seq<u8>)
    requires
        delta.len() >= 3,
        delta[0] == 0,
        delta[1] != 0,
    ensures
        ({
            let r0 = ReaderModel {
                current_sequence: 0,
                window: Seq::empty(),
                latest_full_state: Seq::empty(),
                waiting_for_keyframe: true,
            };
            reader_apply(r0, delta) == (r0, None::<Seq<u8>>)
        }),
{
}

/// The reader's window never holds more than `MAX_WINDOW` frames.
pub proof fn lemma_reader_window_bound(r: ReaderModel, delta: Seq<u8>)
    requires
        r.window.len() <= MAX_WINDOW,
    ensures
        reader_apply(r, delta).0.window.len() <= MAX_WINDOW,
{
    if delta.len() >= 3 {
        let save_seq = delta[0];
        let data = delta.subrange(3, delta.len() as int);
        if let Some(x) = rle_dec(data) {
            let ns = patch_base(base_data(r.window, delta[1]), x);
            lemma_reader_store_find(r.window, save_seq, ns);
        }
    }
}

/// A fresh writer is well-formed, and acknowledging a frame keeps a
/// writer well-formed.
pub proof fn lemma_writer_wf_initial_and_ack(w: WriterModel, seq: u8)
    ensures
        writer_wf(writer_initial(true)),
        writer_wf(writer_initial(false)),
        writer_wf(w) ==> writer_wf(writer_ack(w, seq).0),
{
    if writer_wf(w) && w.pending_ack_seq == Some(seq) {
        assert forall|i: int| 0 <= i < w.window.len() implies #[trigger] seq_age(seq, w.window[i].0) <= 2 * MAX_WINDOW by {
            assert(seq_age(seq, w.window[i].0) <= 2 * i);
        }
        lemma_keep_from_empty(w.window, seq);
    }
}

// ── laws over sequences of calls ────────────────────────────────────

/// One call on a writer: encoding a state (the frame goes to the reader),
/// an acknowledgment, or a forced keyframe.
pub enum CodecStep {
    Frame(Seq<u8>),
    Ack(u8),
    ForceKeyframe,
}

/// The writer after one call.
pub open spec fn writer_step(w: WriterModel, st: CodecStep) -> WriterModel {
    match st {
        CodecStep::Frame(s) => writer_generate(w, s).0,
        CodecStep::Ack(q) => writer_ack(w, q).0,
        CodecStep::ForceKeyframe => writer_reset(w),
    }
}

/// The writer after the calls of `steps`, in order.
pub open spec fn writer_run(w: WriterModel, steps: Seq<CodecStep>) -> WriterModel
    decreases steps.len(),
{
    if steps.len() == 0 {
        w
    } else {
        writer_run(writer_step(w, steps[0]), steps.drop_first())
    }
}

/// The frames the calls of `steps` produce, in order.
pub open spec fn run_frames(w: WriterModel, steps: Seq<CodecStep>) -> Seq<Seq<u8>>
    decreases steps.len(),
{
    if steps.len() == 0 {
        Seq::empty()
    } else {
        let rest = run_frames(writer_step(w, steps[0]), steps.drop_first());
        match steps[0] {
            CodecStep::Frame(s) => seq![writer_generate(w, s).1] + rest,
            _ => rest,
        }
    }
}

/// Whether every acknowledgment among `steps` is refused.
pub open spec fn acks_refused(w: WriterModel, steps: Seq<CodecStep>) -> bool
    decreases steps.len(),
{
    if steps.len() == 0 {
        true
    } else {
        &&& (steps[0] matches CodecStep::Ack(q) ==> !writer_ack(w, q).1)
        &&& acks_refused(writer_step(w, steps[0]), steps.drop_first())
    }
}

/// Whether `steps` holds no forced keyframe.
pub open spec fn no_forced_keyframe(steps: Seq<CodecStep>) -> bool {
    forall|i: int| 0 <= i < steps.len() ==> !(#[trigger] steps[i] is ForceKeyframe)
}

/// Whether, from writer `w` and reader `r`, each frame of `steps` given to
/// the reader in order decodes into the state it was made from, cut to
/// `MAX_STATE_SIZE`, and becomes the reader's latest state.
pub open spec fn codec_delivers(w: WriterModel, r: ReaderModel, steps: Seq<CodecStep>) -> bool
    decreases steps.len(),
{
    if steps.len() == 0 {
        true
    } else {
        let rest = steps.drop_first();
        match steps[0] {
            CodecStep::Frame(s) => {
                let g = writer_generate(w, s);
                let a = reader_apply(r, g.1);
                &&& a.1 == Some(truncated(s))
                &&& a.0.latest_full_state == truncated(s)
                &&& codec_delivers(g.0, a.0, rest)
            },
            CodecStep::Ack(q) => codec_delivers(writer_ack(w, q).0, r, rest),
            CodecStep::ForceKeyframe => codec_delivers(writer_reset(w), r, rest),
        }
    }
}

/// A writer and a reader in step: the writer is well-formed, the reader
/// holds the writer's base, and it is not waiting for a keyframe.
pub open spec fn in_step(w: WriterModel, r: ReaderModel) -> bool {
    &&& writer_wf(w)
    &&& base_synced(w, r)
    &&& !r.waiting_for_keyframe
}

/// Encoding a state keeps a writer well-formed.
proof fn lemma_generate_wf(w: WriterModel, s: Seq<u8>)
    requires
        writer_wf(w),
    ensures
        writer_wf(writer_generate(w, s).0),
{
    let win = match writer_base(w) {
        Some(b) => seq![b],
        None => Seq::empty(),
    };
    let r = ReaderModel { current_sequence: 0, window: win, latest_full_state: Seq::empty(), waiting_for_keyframe: false };
    if let Some(b) = writer_base(w) {
        assert(find_entry(win, b.0) == Some(b));
    }
    lemma_delivery_and_checksum(w, r, s);
}

/// An acknowledgment keeps a writer and a reader in step: a refused ack
/// changes nothing, and a matching ack prunes every window entry, all of
/// them being at or before the acked frame, so the writer has no base and
/// its next frame is a raw frame.
pub proof fn lemma_ack_keeps_step(w: WriterModel, r: ReaderModel, seq: u8)
    requires
        in_step(w, r),
    ensures
        in_step(writer_ack(w, seq).0, r),
        !writer_ack(w, seq).1 ==> writer_ack(w, seq).0 == w,
        writer_ack(w, seq).1 ==> writer_ack(w, seq).0.window.len() == 0,
        writer_ack(w, seq).1 ==> writer_base(writer_ack(w, seq).0) is None,
{
    lemma_writer_wf_initial_and_ack(w, seq);
    if w.pending_ack_seq == Some(seq) {
        assert forall|i: int| 0 <= i < w.window.len() implies #[trigger] seq_age(seq, w.window[i].0) <= 2 * MAX_WINDOW by {
            assert(seq_age(seq, w.window[i].0) <= 2 * i);
        }
        lemma_keep_from_empty(w.window, seq);
    }
}

/// A forced keyframe keeps a writer and a reader in step: the writer has
/// no base left, so its next frame is a raw frame.
pub proof fn lemma_force_keyframe_keeps_step(w: WriterModel, r: ReaderModel)
    requires
        in_step(w, r),
    ensures
        in_step(writer_reset(w), r),
        writer_base(writer_reset(w)) is None,
{
}

/// From a pair in step, every frame of any sequence of calls is
/// delivered.
proof fn lemma_in_step_delivers(w: WriterModel, r: ReaderModel, steps: Seq<CodecStep>)
    requires
        in_step(w, r),
    ensures
        codec_delivers(w, r, steps),
    decreases steps.len(),
{
    if steps.len() > 0 {
        let rest = steps.drop_first();
        match steps[0] {
            CodecStep::Frame(s) => {
                lemma_snapshot_delivery(w, r, s);
                let g = writer_generate(w, s);
                let a = reader_apply(r, g.1);
                lemma_in_step_delivers(g.0, a.0, rest);
            },
            CodecStep::Ack(q) => {
                lemma_ack_keeps_step(w, r, q);
                lemma_in_step_delivers(writer_ack(w, q).0, r, rest);
            },
            CodecStep::ForceKeyframe => {
                lemma_force_keyframe_keeps_step(w, r);
                lemma_in_step_delivers(writer_reset(w), r, rest);
            },
        }
    }
}

/// What a writer emits a reader decodes: from a fresh writer (acks
/// tracked or not) and a fresh reader, whatever states are encoded and
/// whatever acknowledgments and forced keyframes come in between, each
/// frame given to the reader in order decodes into the state it was made
/// from, cut to `MAX_STATE_SIZE`.
pub proof fn lemma_codec_roundtrip(track_acks: bool, steps: Seq<CodecStep>)
    ensures
        codec_delivers(writer_initial(track_acks), reader_initial(), steps),
{
    lemma_writer_wf_initial_and_ack(writer_initial(track_acks), 0);
    lemma_in_step_delivers(writer_initial(track_acks), reader_initial(), steps);
}

/// The reader after being given, in order, every frame the calls of
/// `steps` produce from writer `w`, starting from reader `r`.
pub open spec fn reader_run(w: WriterModel, r: ReaderModel, steps: Seq<CodecStep>) -> ReaderModel
    decreases steps.len(),
{
    if steps.len() == 0 {
        r
    } else {
        let rest = steps.drop_first();
        match steps[0] {
            CodecStep::Frame(s) => {
                let g = writer_generate(w, s);
                reader_run(g.0, reader_apply(r, g.1).0, rest)
            },
            _ => reader_run(writer_step(w, steps[0]), r, rest),
        }
    }
}

/// Any calls keep a writer and a reader in step, the reader being given
/// every frame in order.
proof fn lemma_in_step_run(w: WriterModel, r: ReaderModel, steps: Seq<CodecStep>)
    requires
        in_step(w, r),
    ensures
        in_step(writer_run(w, steps), reader_run(w, r, steps)),
    decreases steps.len(),
{
    if steps.len() > 0 {
        let rest = steps.drop_first();
        match steps[0] {
            CodecStep::Frame(s) => {
                lemma_snapshot_delivery(w, r, s);
                let g = writer_generate(w, s);
                lemma_in_step_run(g.0, reader_apply(r, g.1).0, rest);
            },
            CodecStep::Ack(q) => {
                lemma_ack_keeps_step(w, r, q);
                lemma_in_step_run(writer_ack(w, q).0, r, rest);
            },
            CodecStep::ForceKeyframe => {
                lemma_force_keyframe_keeps_step(w, r);
                lemma_in_step_run(writer_reset(w), r, rest);
            },
        }
    }
}

/// The round trip after any history: take a writer from
/// `SnapshotWriter::new` (or `new_unacked`) and a reader from
/// `SnapshotReader::new`, make any calls on the writer (encodings,
/// acknowledgments, forced keyframes) and give the reader every frame in
/// order; then the next frame the writer emits for any state `s` is
/// decoded into `s` cut to `MAX_STATE_SIZE`, which becomes the reader's
/// latest state. (The constructors' contracts give `writer_initial` and
/// `reader_initial`, and each call's contract is the step used here.)
pub proof fn lemma_roundtrip_after_history(track_acks: bool, steps: Seq<CodecStep>, s: Seq<u8>)
    ensures
        ({
            let w = writer_run(writer_initial(track_acks), steps);
            let r = reader_run(writer_initial(track_acks), reader_initial(), steps);
            let a = reader_apply(r, writer_generate(w, s).1);
            &&& a.1 == Some(truncated(s))
            &&& a.0.latest_full_state == truncated(s)
        }),
{
    lemma_writer_wf_initial_and_ack(writer_initial(track_acks), 0);
    lemma_in_step_run(writer_initial(track_acks), reader_initial(), steps);
    let w = writer_run(writer_initial(track_acks), steps);
    let r = reader_run(writer_initial(track_acks), reader_initial(), steps);
    lemma_snapshot_delivery(w, r, s);
}

/// A writer that does not track acks: it awaits none and has missed none.
pub open spec fn unacked(w: WriterModel) -> bool {
    &&& !w.track_acks
    &&& w.pending_ack_seq is None
    &&& w.missed_acks == 0
}

/// An unacked writer stays so through every call, and refuses every
/// acknowledgment without changing.
pub proof fn lemma_unacked_step(w: WriterModel, st: CodecStep)
    requires
        unacked(w),
    ensures
        unacked(writer_step(w, st)),
        st matches CodecStep::Ack(q) ==> writer_ack(w, q) == (w, false),
{
}

/// A writer made by `new_unacked` never tracks acknowledgments: after any
/// calls it awaits no ack and has missed none, and every acknowledgment
/// it is given is refused.
pub proof fn lemma_unacked_writer(steps: Seq<CodecStep>)
    ensures
        unacked(writer_run(writer_initial(false), steps)),
        acks_refused(writer_initial(false), steps),
{
    lemma_unacked_run(writer_initial(false), steps);
}

/// An unacked writer stays so through any calls, refusing every ack.
proof fn lemma_unacked_run(w: WriterModel, steps: Seq<CodecStep>)
    requires
        unacked(w),
    ensures
        unacked(writer_run(w, steps)),
        acks_refused(w, steps),
    decreases steps.len(),
{
    if steps.len() > 0 {
        lemma_unacked_step(w, steps[0]);
        lemma_unacked_run(writer_step(w, steps[0]), steps.drop_first());
    }
}

/// Whether `steps` is still a sequence of calls after its first one.
proof fn lemma_no_forced_keyframe_rest(steps: Seq<CodecStep>)
    requires
        steps.len() > 0,
        no_forced_keyframe(steps),
    ensures
        !(steps[0] is ForceKeyframe),
        no_forced_keyframe(steps.drop_first()),
{
    assert(!(steps[0] is ForceKeyframe));
    assert forall|i: int| 0 <= i < steps.drop_first().len() implies !(#[trigger] steps.drop_first()[i] is ForceKeyframe) by {
        assert(steps.drop_first()[i] == steps[i + 1]);
        assert(!(steps[i + 1] is ForceKeyframe));
    }
}

/// With `c` delta frames (first byte 0) already sent in a row, every
/// delta frame of `fs` comes while fewer than `KEYFRAME_INTERVAL` are in a
/// row, and every other frame starts the count again.
pub open spec fn deltas_bounded(c: nat, fs: Seq<Seq<u8>>) -> bool
    decreases fs.len(),
{
    if fs.len() == 0 {
        true
    } else if fs[0][0] == 0 {
        c < KEYFRAME_INTERVAL && deltas_bounded(c + 1, fs.drop_first())
    } else {
        deltas_bounded(0, fs.drop_first())
    }
}

/// The writer's delta count is the number of delta frames in a row: a
/// delta frame comes only while it is below `KEYFRAME_INTERVAL` and raises
/// it by one; any other frame, and a forced keyframe, set it to 0; an
/// acknowledgment leaves it.
pub proof fn lemma_keyframe_interval_step(w: WriterModel, s: Seq<u8>, seq: u8)
    requires
        writer_wf(w),
    ensures
        ({
            let g = writer_generate(w, s);
            &&& g.1.len() >= 3
            &&& g.1[0] == 0 ==> w.delta_count < KEYFRAME_INTERVAL && g.0.delta_count == w.delta_count + 1
            &&& g.1[0] != 0 ==> g.0.delta_count == 0
        }),
        writer_ack(w, seq).0.delta_count == w.delta_count,
        writer_reset(w).delta_count == 0,
        writer_initial(true).delta_count == 0 && writer_initial(false).delta_count == 0,
{
    lemma_frame_checksum(w, s);
}

/// A keyframe comes at least every `KEYFRAME_INTERVAL` deltas: after any
/// encodings and acknowledgments with no forced keyframe, no more than
/// `KEYFRAME_INTERVAL` delta frames come in a row, counting those the
/// writer had already sent.
pub proof fn lemma_keyframe_interval(w: WriterModel, steps: Seq<CodecStep>)
    requires
        writer_wf(w),
        no_forced_keyframe(steps),
    ensures
        deltas_bounded(w.delta_count as nat, run_frames(w, steps)),
    decreases steps.len(),
{
    if steps.len() > 0 {
        lemma_no_forced_keyframe_rest(steps);
        let rest = steps.drop_first();
        match steps[0] {
            CodecStep::Frame(s) => {
                let g = writer_generate(w, s);
                lemma_keyframe_interval_step(w, s, 0);
                lemma_generate_wf(w, s);
                lemma_keyframe_interval(g.0, rest);
                let fs = seq![g.1] + run_frames(g.0, rest);
                assert(fs.drop_first() =~= run_frames(g.0, rest));
                assert(fs[0] == g.1);
            },
            CodecStep::Ack(q) => {
                lemma_keyframe_interval_step(w, Seq::empty(), q);
                lemma_writer_wf_initial_and_ack(w, q);
                lemma_keyframe_interval(writer_ack(w, q).0, rest);
            },
            CodecStep::ForceKeyframe => {},
        }
    }
}

/// In resync, every frame is a raw frame of the state (cut to
/// `MAX_STATE_SIZE`) and resync stays; a refused acknowledgment changes
/// nothing; an accepted one, or a forced keyframe, ends resync.
pub proof fn lemma_resync_step(w: WriterModel, s: Seq<u8>, seq: u8)
    requires
        writer_wf(w),
        w.resync,
    ensures
        ({
            let g = writer_generate(w, s);
            let t = truncated(s);
            &&& g.1 == seq![w.next_save_seq, 0u8, checksum(t)] + t
            &&& g.0.resync
        }),
        !writer_ack(w, seq).1 ==> writer_ack(w, seq).0 == w,
        writer_ack(w, seq).1 ==> !writer_ack(w, seq).0.resync,
        !writer_reset(w).resync,
{
    let n: nat = if s.len() > MAX_STATE_SIZE { MAX_STATE_SIZE as nat } else { s.len() };
    assert(truncated(s) =~= s.subrange(0, n as int));
}

/// Whether every frame the calls of `steps` produce from writer `w` is a
/// raw frame: base sequence 0, then the checksum, then the state cut to
/// `MAX_STATE_SIZE`.
pub open spec fn frames_raw(w: WriterModel, steps: Seq<CodecStep>) -> bool
    decreases steps.len(),
{
    if steps.len() == 0 {
        true
    } else {
        &&& (steps[0] matches CodecStep::Frame(s) ==> {
            let d = writer_generate(w, s).1;
            &&& d.len() >= 3
            &&& d[1] == 0
            &&& d.subrange(3, d.len() as int) == truncated(s)
        })
        &&& frames_raw(writer_step(w, steps[0]), steps.drop_first())
    }
}

/// A writer in resync sends only raw frames until an acknowledgment is
/// accepted or a keyframe forced.
pub proof fn lemma_resync_raw_frames(w: WriterModel, steps: Seq<CodecStep>)
    requires
        writer_wf(w),
        w.resync,
        no_forced_keyframe(steps),
        acks_refused(w, steps),
    ensures
        frames_raw(w, steps),
    decreases steps.len(),
{
    if steps.len() > 0 {
        lemma_no_forced_keyframe_rest(steps);
        match steps[0] {
            CodecStep::Frame(s) => {
                lemma_resync_step(w, s, 0);
                lemma_generate_wf(w, s);
                let d = writer_generate(w, s).1;
                let tr = truncated(s);
                assert(d.subrange(3, d.len() as int) =~= tr);
                lemma_resync_raw_frames(writer_generate(w, s).0, steps.drop_first());
            },
            CodecStep::Ack(q) => {
                lemma_resync_step(w, Seq::empty(), q);
                lemma_resync_raw_frames(w, steps.drop_first());
            },
            CodecStep::ForceKeyframe => {},
        }
    }
}

/// The number of frames other than deltas since the last accepted
/// acknowledgment: 0 when no frame awaits an ack, else one more than the
/// acks missed.
pub open spec fn unacked_frames(w: WriterModel) -> nat {
    match w.pending_ack_seq {
        None => 0,
        Some(_) => (w.missed_acks + 1) as nat,
    }
}

/// The number of frames in `fs` other than deltas (first byte not 0).
pub open spec fn keyed_count(fs: Seq<Seq<u8>>) -> nat
    decreases fs.len(),
{
    if fs.len() == 0 {
        0
    } else {
        (if fs[0][0] != 0 { 1nat } else { 0nat }) + keyed_count(fs.drop_first())
    }
}

/// What one encoding does to the ack bookkeeping of a writer that tracks
/// acks: a frame other than a delta awaits an ack and counts one more
/// missed ack if one was awaited (entering resync at `MAX_MISSED_ACKS`),
/// a delta frame changes none of it, and resync stays.
proof fn lemma_generate_acks(w: WriterModel, s: Seq<u8>)
    requires
        writer_wf(w),
        w.track_acks,
    ensures
        ({
            let g = writer_generate(w, s);
            &&& g.0.track_acks
            &&& w.resync ==> g.0.resync
            &&& g.1[0] != 0 ==> g.0.resync || (g.0.pending_ack_seq is Some && g.0.missed_acks == if w.pending_ack_seq is Some {
                w.missed_acks + 1
            } else {
                w.missed_acks as int
            })
            &&& g.1[0] == 0 ==> g.0.pending_ack_seq == w.pending_ack_seq && g.0.missed_acks == w.missed_acks && g.0.resync == w.resync
            &&& (w.resync || w.missed_acks < MAX_MISSED_ACKS) ==> (g.0.resync || g.0.missed_acks < MAX_MISSED_ACKS)
        }),
{
    lemma_frame_checksum(w, s);
}

/// The ack bookkeeping every writer keeps: outside resync fewer than
/// `MAX_MISSED_ACKS` acks have been missed, and none has been missed while
/// no frame awaits an ack.
pub open spec fn ack_books(w: WriterModel) -> bool {
    &&& w.resync || w.missed_acks < MAX_MISSED_ACKS
    &&& w.pending_ack_seq is None ==> w.missed_acks == 0
}

/// Every call keeps a writer well-formed and its ack bookkeeping.
proof fn lemma_writer_step_books(w: WriterModel, st: CodecStep)
    requires
        writer_wf(w),
        ack_books(w),
    ensures
        writer_wf(writer_step(w, st)),
        ack_books(writer_step(w, st)),
{
    match st {
        CodecStep::Frame(s) => {
            lemma_generate_wf(w, s);
            lemma_frame_checksum(w, s);
            if w.track_acks {
                lemma_generate_acks(w, s);
            }
        },
        CodecStep::Ack(q) => {
            lemma_writer_wf_initial_and_ack(w, q);
        },
        CodecStep::ForceKeyframe => {},
    }
}

/// Every writer that `new` or `new_unacked` makes, after any calls, is
/// well-formed and keeps its ack bookkeeping, so the laws above that ask
/// for these apply to it.
pub proof fn lemma_reachable_writer(track_acks: bool, steps: Seq<CodecStep>)
    ensures
        writer_wf(writer_run(writer_initial(track_acks), steps)),
        ack_books(writer_run(writer_initial(track_acks), steps)),
{
    lemma_writer_wf_initial_and_ack(writer_initial(track_acks), 0);
    lemma_writer_run_books(writer_initial(track_acks), steps);
}

/// Any calls keep a writer well-formed and its ack bookkeeping.
proof fn lemma_writer_run_books(w: WriterModel, steps: Seq<CodecStep>)
    requires
        writer_wf(w),
        ack_books(w),
    ensures
        writer_wf(writer_run(w, steps)),
        ack_books(writer_run(w, steps)),
    decreases steps.len(),
{
    if steps.len() > 0 {
        lemma_writer_step_books(w, steps[0]);
        lemma_writer_run_books(writer_step(w, steps[0]), steps.drop_first());
    }
}

/// One encoding keeps the count of frames that await or missed an ack,
/// taken together with those still to come, unless it enters resync.
proof fn lemma_missed_acks_frame(w: WriterModel, s: Seq<u8>, rest: Seq<CodecStep>)
    requires
        writer_wf(w),
        w.track_acks,
        !w.resync,
        ack_books(w),
    ensures
        ({
            let g = writer_generate(w, s);
            let fs = seq![g.1] + run_frames(g.0, rest);
            &&& writer_wf(g.0)
            &&& g.0.track_acks
            &&& ack_books(g.0)
            &&& g.0.resync || keyed_count(fs) + unacked_frames(w) == keyed_count(run_frames(g.0, rest)) + unacked_frames(g.0)
        }),
{
    let g = writer_generate(w, s);
    lemma_generate_acks(w, s);
    lemma_generate_wf(w, s);
    let fs = seq![g.1] + run_frames(g.0, rest);
    assert(fs.drop_first() =~= run_frames(g.0, rest));
    assert(fs[0] == g.1);
    assert(keyed_count(fs) == (if g.1[0] != 0 { 1nat } else { 0nat }) + keyed_count(run_frames(g.0, rest)));
}

/// Resync stays through encodings and refused acknowledgments.
proof fn lemma_resync_stays(w: WriterModel, steps: Seq<CodecStep>)
    requires
        writer_wf(w),
        w.resync,
        no_forced_keyframe(steps),
        acks_refused(w, steps),
    ensures
        writer_run(w, steps).resync,
    decreases steps.len(),
{
    if steps.len() > 0 {
        lemma_no_forced_keyframe_rest(steps);
        match steps[0] {
            CodecStep::Frame(s) => {
                lemma_resync_step(w, s, 0);
                lemma_generate_wf(w, s);
                lemma_resync_stays(writer_generate(w, s).0, steps.drop_first());
            },
            CodecStep::Ack(q) => {
                lemma_resync_stays(w, steps.drop_first());
            },
            CodecStep::ForceKeyframe => {},
        }
    }
}

/// Missed acknowledgments lead to resync: a writer that tracks acks, once
/// more than `MAX_MISSED_ACKS` frames other than deltas have gone out
/// since the last accepted acknowledgment (or since it was made or forced
/// to a keyframe), is in resync, as long as no acknowledgment is accepted
/// and no keyframe forced; from there on every frame is a raw frame
/// (`lemma_resync_step`).
pub proof fn lemma_missed_acks_resync(w: WriterModel, steps: Seq<CodecStep>)
    requires
        writer_wf(w),
        w.track_acks,
        ack_books(w),
        no_forced_keyframe(steps),
        acks_refused(w, steps),
        keyed_count(run_frames(w, steps)) + unacked_frames(w) > MAX_MISSED_ACKS,
    ensures
        writer_run(w, steps).resync,
    decreases steps.len(),
{
    if w.resync {
        lemma_resync_stays(w, steps);
    } else if steps.len() > 0 {
        lemma_no_forced_keyframe_rest(steps);
        let rest = steps.drop_first();
        match steps[0] {
            CodecStep::Frame(s) => {
                let g = writer_generate(w, s);
                lemma_missed_acks_frame(w, s, rest);
                assert(run_frames(w, steps) == seq![g.1] + run_frames(g.0, rest));
                assert(acks_refused(g.0, rest));
                if g.0.resync {
                    lemma_resync_stays(g.0, rest);
                } else {
                    lemma_missed_acks_resync(g.0, rest);
                }
            },
            CodecStep::Ack(q) => {
                assert(writer_ack(w, q).0 == w);
                lemma_missed_acks_resync(w, rest);
            },
            CodecStep::ForceKeyframe => {},
        }
    }
}

} // verus!
