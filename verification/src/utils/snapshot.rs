//! Snapshot compression of per-client state: raw frames, keyframes and
//! deltas, XOR-diffed against a sliding window of past frames and
//! run-length encoded.
//!
//! Frame header: `[save_seq:u8] [base_seq:u8] [checksum:u8]`.
//! - raw frame: `save_seq != 0`, `base_seq == 0`, payload is the state;
//! - keyframe: `save_seq != 0`, `base_seq != 0`, payload is RLE(XOR);
//! - delta: `save_seq == 0`, `base_seq != 0`, payload is RLE(XOR).

use vstd::prelude::*;

verus! {

/// Maximum state size in bytes. Larger states are truncated.
pub const MAX_STATE_SIZE: usize = 7500;
/// Maximum number of past frames kept in the sliding window.
pub const MAX_WINDOW: usize = 16;
/// Emit a keyframe every N deltas to keep the client in sync.
pub const KEYFRAME_INTERVAL: u8 = 10;
/// Enter resync mode after this many unacknowledged frames.
pub const MAX_MISSED_ACKS: u8 = 3;

// ── checksum ─────────────────────────────────────────────────────────

/// One step of the rolling checksum.
pub open spec fn checksum_step(h: u8, b: u8) -> u8 {
    ((0x93 * ((h ^ b) as int)) % 256) as u8
}

/// The 8-bit rolling checksum of `s`, folded from the left starting at 0xC5.
pub open spec fn checksum(s: Seq<u8>) -> u8
    decreases s.len(),
{
    if s.len() == 0 {
        0xC5
    } else {
        checksum_step(checksum(s.drop_last()), s.last())
    }
}

/// Compute an 8-bit rolling checksum for snapshot frame integrity.
pub fn snapshot_checksum(data: &[u8]) -> (r: u8)
    ensures
        r == checksum(data@),
{
    let mut h: u8 = 0xC5;
    let mut i: usize = 0;
    while i < data.len()
        invariant
            i <= data@.len(),
            h == checksum(data@.subrange(0, i as int)),
        decreases data@.len() - i,
    {
        let b = data[i];
        let x: u16 = (h ^ b) as u16;
        let p: u16 = 0x93u16.wrapping_mul(x);
        assert(p == 0x93 * x);
        let q: u16 = p & 0xFF;
        assert(q == p % 256) by (bit_vector)
            requires
                q == p & 0xFF,
        ;
        h = q as u8;
        assert(data@.subrange(0, i + 1).drop_last() =~= data@.subrange(0, i as int));
        i = i + 1;
    }
    assert(data@.subrange(0, data@.len() as int) =~= data@);
    h
}

// ── RLE ──────────────────────────────────────────────────────────────

/// Number of leading zero bytes of `s`.
pub open spec fn leading_zeros(s: Seq<u8>) -> nat
    decreases s.len(),
{
    if s.len() == 0 || s[0] != 0 {
        0
    } else {
        1 + leading_zeros(s.drop_first())
    }
}

/// Length of the zero run at the front of `s`, capped at 255.
pub open spec fn zero_run(s: Seq<u8>) -> nat {
    if leading_zeros(s) > 255 {
        255
    } else {
        leading_zeros(s)
    }
}

/// `n` zero bytes.
pub open spec fn zeros(n: nat) -> Seq<u8> {
    Seq::new(n, |_j: int| 0u8)
}

/// The leading-zero count is at most the length, and every counted byte is zero.
pub proof fn lemma_leading_zeros(s: Seq<u8>)
    ensures
        leading_zeros(s) <= s.len(),
        forall|k: int| 0 <= k < leading_zeros(s) ==> s[k] == 0,
        leading_zeros(s) < s.len() ==> s[leading_zeros(s) as int] != 0,
    decreases s.len(),
{
    if s.len() > 0 && s[0] == 0 {
        lemma_leading_zeros(s.drop_first());
        assert forall|k: int| 0 <= k < leading_zeros(s) implies s[k] == 0 by {
            if k > 0 {
                assert(s[k] == s.drop_first()[k - 1]);
            }
        }
    }
}

/// A prefix of `c` zeros followed by a non-zero byte (or the end, or 255
/// zeros) has a zero run of exactly `c`.
pub proof fn lemma_zero_run_exact(s: Seq<u8>, c: nat)
    requires
        c <= s.len(),
        c <= 255,
        forall|k: int| 0 <= k < c ==> s[k] == 0,
        c == s.len() || c == 255 || s[c as int] != 0,
    ensures
        zero_run(s) == c,
    decreases c,
{
    if c > 0 {
        let t = s.drop_first();
        assert forall|k: int| 0 <= k < c - 1 implies t[k] == 0 by {
            assert(t[k] == s[k + 1]);
        }
        if c == 255 {
            lemma_zero_run_at_least(t, (c - 1) as nat);
        } else {
            if c < s.len() {
                assert(t[c - 1] == s[c as int]);
            }
            lemma_zero_run_exact(t, (c - 1) as nat);
            lemma_leading_zeros(t);
        }
    } else {
        if s.len() > 0 {
            assert(s[0] != 0);
        }
    }
}

/// A prefix of `c` zeros gives at least `c` leading zeros.
pub proof fn lemma_zero_run_at_least(s: Seq<u8>, c: nat)
    requires
        c <= s.len(),
        forall|k: int| 0 <= k < c ==> s[k] == 0,
    ensures
        leading_zeros(s) >= c,
    decreases c,
{
    if c > 0 {
        let t = s.drop_first();
        assert forall|k: int| 0 <= k < c - 1 implies t[k] == 0 by {
            assert(t[k] == s[k + 1]);
        }
        lemma_zero_run_at_least(t, (c - 1) as nat);
    }
}

/// The run-length encoding of `s`: each run of up to 255 zero bytes
/// becomes `[0x00, n]`; non-zero bytes are copied as-is.
pub open spec fn rle_enc(s: Seq<u8>) -> Seq<u8>
    decreases s.len(),
{
    if s.len() == 0 {
        Seq::empty()
    } else if s[0] != 0 {
        seq![s[0]] + rle_enc(s.drop_first())
    } else {
        let n = zero_run(s);
        proof {
            lemma_leading_zeros(s);
        }
        if 1 <= n <= s.len() {
            seq![0u8, n as u8] + rle_enc(s.subrange(n as int, s.len() as int))
        } else {
            Seq::empty()
        }
    }
}

/// The decoding of run-length encoded bytes; `None` when a `0x00` marker
/// has no count byte after it.
pub open spec fn rle_dec(s: Seq<u8>) -> Option<Seq<u8>>
    decreases s.len(),
{
    if s.len() == 0 {
        Some(Seq::empty())
    } else if s[0] == 0 {
        if s.len() < 2 {
            None
        } else {
            match rle_dec(s.subrange(2, s.len() as int)) {
                Some(r) => Some(zeros(s[1] as nat) + r),
                None => None,
            }
        }
    } else {
        match rle_dec(s.drop_first()) {
            Some(r) => Some(seq![s[0]] + r),
            None => None,
        }
    }
}

/// Run-length encode a byte slice, compressing runs of zeroes.
///
/// Each zero run of length `n` is encoded as `[0x00, n]`. Non-zero bytes
/// are copied as-is. Maximum run length is 255.
pub fn rle_encode(data: &[u8]) -> (r: Vec<u8>)
    ensures
        r@ == rle_enc(data@),
{
    let mut out: Vec<u8> = Vec::with_capacity(data.len());
    let mut i: usize = 0;
    let len = data.len();
    assert(data@.subrange(0, len as int) =~= data@);
    while i < len
        invariant
            i <= len == data@.len(),
            out@ + rle_enc(data@.subrange(i as int, len as int)) == rle_enc(data@),
        decreases len - i,
    {
        let ghost suffix = data@.subrange(i as int, len as int);
        if data[i] == 0 {
            let ghost i0 = i;
            let mut c: u8 = 0;
            while i < len && c < 255 && data[i] == 0
                invariant
                    i0 <= i <= len == data@.len(),
                    i == i0 + c,
                    c <= 255,
                    forall|k: int| i0 <= k < i ==> data@[k] == 0,
                decreases len - i,
            {
                c = c + 1;
                i = i + 1;
            }
            proof {
                assert forall|k: int| 0 <= k < c implies suffix[k] == 0 by {
                    assert(suffix[k] == data@[i0 + k]);
                }
                if c < 255 && i < len {
                    assert(suffix[c as int] == data@[i as int]);
                }
                assert(suffix[0] == data@[i0 as int]);
                lemma_zero_run_exact(suffix, c as nat);
                assert(suffix.subrange(c as int, suffix.len() as int) =~= data@.subrange(i as int, len as int));
            }
            out.push(0x00);
            out.push(c);
            proof {
                assert(rle_enc(suffix) == seq![0u8, c] + rle_enc(data@.subrange(i as int, len as int)));
                assert(out@ + rle_enc(data@.subrange(i as int, len as int)) =~= (out@.drop_last().drop_last() + rle_enc(suffix)));
            }
        } else {
            out.push(data[i]);
            i = i + 1;
            proof {
                assert(suffix.drop_first() =~= data@.subrange(i as int, len as int));
                assert(rle_enc(suffix) == seq![suffix[0]] + rle_enc(data@.subrange(i as int, len as int)));
                assert(out@ + rle_enc(data@.subrange(i as int, len as int)) =~= (out@.drop_last() + rle_enc(suffix)));
            }
        }
    }
    assert(out@ + rle_enc(data@.subrange(len as int, len as int)) =~= out@);
    out
}

/// Decode an RLE-encoded byte slice.
///
/// Returns `None` if the data is truncated (0x00 without a count byte).
pub fn rle_decode(data: &[u8]) -> (r: Option<Vec<u8>>)
    ensures
        match r {
            Some(v) => rle_dec(data@) == Some(v@),
            None => rle_dec(data@) is None,
        },
{
    let mut out: Vec<u8> = Vec::with_capacity(data.len());
    let mut i: usize = 0;
    let len = data.len();
    assert(data@.subrange(0, len as int) =~= data@);
    while i < len
        invariant
            i <= len == data@.len(),
            match rle_dec(data@.subrange(i as int, len as int)) {
                Some(rest) => rle_dec(data@) == Some(out@ + rest),
                None => rle_dec(data@) is None,
            },
        decreases len - i,
    {
        let ghost suffix = data@.subrange(i as int, len as int);
        if data[i] == 0x00 {
            if i + 1 >= len {
                return None;
            }
            let n = data[i + 1];
            let ghost before = out@;
            let mut c: u8 = 0;
            while c < n
                invariant
                    c <= n,
                    out@ == before + zeros(c as nat),
                decreases n - c,
            {
                out.push(0);
                c = c + 1;
                assert(out@ =~= before + zeros(c as nat));
            }
            i = i + 2;
            proof {
                assert(suffix.subrange(2, suffix.len() as int) =~= data@.subrange(i as int, len as int));
                match rle_dec(data@.subrange(i as int, len as int)) {
                    Some(rest) => {
                        assert(before + (zeros(n as nat) + rest) =~= out@ + rest);
                    },
                    None => {},
                }
            }
        } else {
            let ghost before = out@;
            out.push(data[i]);
            i = i + 1;
            proof {
                assert(suffix.drop_first() =~= data@.subrange(i as int, len as int));
                match rle_dec(data@.subrange(i as int, len as int)) {
                    Some(rest) => {
                        assert(before + (seq![suffix[0]] + rest) =~= out@ + rest);
                    },
                    None => {},
                }
            }
        }
    }
    assert(data@.subrange(len as int, len as int) =~= Seq::<u8>::empty());
    assert(out@ + Seq::<u8>::empty() =~= out@);
    Some(out)
}

/// Decoding the run-length encoding of any byte sequence gives it back.
pub proof fn lemma_rle_roundtrip(s: Seq<u8>)
    ensures
        rle_dec(rle_enc(s)) == Some(s),
    decreases s.len(),
{
    if s.len() == 0 {
    } else if s[0] != 0 {
        let e = rle_enc(s.drop_first());
        lemma_rle_roundtrip(s.drop_first());
        assert((seq![s[0]] + e).drop_first() =~= e);
        assert(seq![s[0]] + s.drop_first() =~= s);
    } else {
        lemma_leading_zeros(s);
        let n = zero_run(s);
        let rest = s.subrange(n as int, s.len() as int);
        lemma_rle_roundtrip(rest);
        let e = rle_enc(rest);
        let enc = seq![0u8, n as u8] + e;
        assert(enc.subrange(2, enc.len() as int) =~= e);
        assert(zeros(n) + rest =~= s);
    }
}

// ── XOR ──────────────────────────────────────────────────────────────

/// The first `n` bytes of `a`, each XORed with the byte of `b` at the same
/// position where `b` has one, and copied as-is beyond the end of `b`.
pub open spec fn xor_patch(a: Seq<u8>, b: Seq<u8>, n: nat) -> Seq<u8> {
    Seq::new(n, |j: int| if j < b.len() { a[j] ^ b[j] } else { a[j] })
}

/// Compute the XOR difference between the first `new_len` bytes of `new`
/// and `base`.
///
/// Bytes beyond `base.len()` in `new` are copied as-is (they have no
/// base to XOR against).
pub fn xor_diff(new: &[u8], base: &[u8], new_len: usize) -> (r: Vec<u8>)
    requires
        new_len <= new@.len(),
    ensures
        r@ == xor_patch(new@, base@, new_len as nat),
        r@.len() == new_len,
        forall|j: int| 0 <= j < new_len && j < base@.len() ==> #[trigger] r@[j] == new@[j] ^ base@[j],
        forall|j: int| base@.len() <= j < new_len ==> #[trigger] r@[j] == new@[j],
{
    let mut buf: Vec<u8> = Vec::with_capacity(new_len);
    let mut i: usize = 0;
    while i < new_len
        invariant
            i <= new_len <= new@.len(),
            buf@ =~= xor_patch(new@, base@, new_len as nat).subrange(0, i as int),
        decreases new_len - i,
    {
        if i < base.len() {
            buf.push(new[i] ^ base[i]);
        } else {
            buf.push(new[i]);
        }
        i = i + 1;
    }
    assert(buf@ =~= xor_patch(new@, base@, new_len as nat));
    proof {
        lemma_xor_patch_bytes(new@, base@, new_len as nat);
    }
    buf
}

/// The diff of the first `n` bytes of `a` against `b` has `n` bytes: byte
/// `j` is `a[j] ^ b[j]` where `b` has a byte `j`, and `a[j]` beyond.
pub proof fn lemma_xor_patch_bytes(a: Seq<u8>, b: Seq<u8>, n: nat)
    ensures
        xor_patch(a, b, n).len() == n,
        forall|j: int| 0 <= j < n && j < b.len() ==> #[trigger] xor_patch(a, b, n)[j] == a[j] ^ b[j],
        forall|j: int| b.len() <= j < n ==> #[trigger] xor_patch(a, b, n)[j] == a[j],
{
}


// ── sliding window ───────────────────────────────────────────────────

/// A single entry in the snapshot sliding window.
pub struct WindowEntry {
    /// Sequence number of this frame.
    pub sequence: u8,
    /// Full state data at this sequence point.
    pub data: Vec<u8>,
}

impl View for WindowEntry {
    type V = (u8, Seq<u8>);

    open spec fn view(&self) -> (u8, Seq<u8>) {
        (self.sequence, self.data@)
    }
}

/// The abstract window: a sequence of `(sequence, data)` pairs.
pub open spec fn entries(w: Seq<WindowEntry>) -> Seq<(u8, Seq<u8>)> {
    w.map_values(|e: WindowEntry| e@)
}

/// `w` without the entries whose sequence number is `sq`, order kept.
pub open spec fn without_seq(w: Seq<(u8, Seq<u8>)>, sq: u8) -> Seq<(u8, Seq<u8>)>
    decreases w.len(),
{
    if w.len() == 0 {
        w
    } else {
        let r = without_seq(w.drop_last(), sq);
        if w.last().0 == sq {
            r
        } else {
            r.push(w.last())
        }
    }
}

/// `w` keeping only the entries after `ack` in wrapping order (wrapping
/// distance from `ack` between 1 and 127), order kept: the entries at or
/// before `ack` are pruned.
pub open spec fn keep_from(w: Seq<(u8, Seq<u8>)>, ack: u8) -> Seq<(u8, Seq<u8>)>
    decreases w.len(),
{
    if w.len() == 0 {
        w
    } else {
        let r = keep_from(w.drop_last(), ack);
        if 1 <= w.last().0.wrapping_sub(ack) <= 127 {
            r.push(w.last())
        } else {
            r
        }
    }
}

/// The first entry of `w` with sequence number `sq`, if any.
pub open spec fn find_entry(w: Seq<(u8, Seq<u8>)>, sq: u8) -> Option<(u8, Seq<u8>)>
    decreases w.len(),
{
    if w.len() == 0 {
        None
    } else if w[0].0 == sq {
        Some(w[0])
    } else {
        find_entry(w.drop_first(), sq)
    }
}

/// Removes, in place, every entry with sequence number `sq`.
fn remove_sequence(window: &mut Vec<WindowEntry>, sq: u8)
    ensures
        entries(final(window)@) == without_seq(entries(old(window)@), sq),
{
    let ghost old_w = entries(window@);
    let n = window.len();
    let mut i: usize = 0;
    let mut k: usize = 0;
    while i < window.len()
        invariant
            old_w.len() == n,
            k <= n,
            i <= window@.len(),
            entries(window@) == without_seq(old_w.subrange(0, k as int), sq) + old_w.subrange(k as int, n as int),
            i == without_seq(old_w.subrange(0, k as int), sq).len(),
            window@.len() - i == n - k,
        decreases window@.len() - i,
    {
        let ghost pre = entries(window@);
        let ghost done = without_seq(old_w.subrange(0, k as int), sq);
        proof {
            assert(old_w.subrange(0, k + 1).drop_last() =~= old_w.subrange(0, k as int));
            assert(pre[i as int] == old_w[k as int]);
            assert(old_w.subrange(0, k + 1).last() == old_w[k as int]);
        }
        if window[i].sequence == sq {
            window.remove(i);
            proof {
                assert(without_seq(old_w.subrange(0, k + 1), sq) == done);
                assert(entries(window@) =~= pre.remove(i as int));
                assert(pre.remove(i as int) =~= done + old_w.subrange(k + 1, n as int));
            }
        } else {
            i = i + 1;
            proof {
                assert(without_seq(old_w.subrange(0, k + 1), sq) == done.push(old_w[k as int]));
                assert(pre =~= done.push(old_w[k as int]) + old_w.subrange(k + 1, n as int));
            }
        }
        k = k + 1;
    }
    proof {
        assert(old_w.subrange(0, n as int) =~= old_w);
        assert(old_w.subrange(n as int, n as int) =~= Seq::<(u8, Seq<u8>)>::empty());
        assert(entries(window@) =~= without_seq(old_w, sq));
    }
}

/// Keeps, in place, only the entries after `ack` in wrapping order.
fn keep_recent(window: &mut Vec<WindowEntry>, ack: u8)
    ensures
        entries(final(window)@) == keep_from(entries(old(window)@), ack),
{
    let ghost old_w = entries(window@);
    let n = window.len();
    let mut i: usize = 0;
    let mut k: usize = 0;
    while i < window.len()
        invariant
            old_w.len() == n,
            k <= n,
            i <= window@.len(),
            entries(window@) == keep_from(old_w.subrange(0, k as int), ack) + old_w.subrange(k as int, n as int),
            i == keep_from(old_w.subrange(0, k as int), ack).len(),
            window@.len() - i == n - k,
        decreases window@.len() - i,
    {
        let ghost pre = entries(window@);
        let ghost done = keep_from(old_w.subrange(0, k as int), ack);
        proof {
            assert(old_w.subrange(0, k + 1).drop_last() =~= old_w.subrange(0, k as int));
            assert(pre[i as int] == old_w[k as int]);
            assert(old_w.subrange(0, k + 1).last() == old_w[k as int]);
        }
        let dist = window[i].sequence.wrapping_sub(ack);
        if 1 <= dist && dist <= 127 {
            i = i + 1;
            proof {
                assert(keep_from(old_w.subrange(0, k + 1), ack) == done.push(old_w[k as int]));
                assert(pre =~= done.push(old_w[k as int]) + old_w.subrange(k + 1, n as int));
            }
        } else {
            window.remove(i);
            proof {
                assert(keep_from(old_w.subrange(0, k + 1), ack) == done);
                assert(entries(window@) =~= pre.remove(i as int));
                assert(pre.remove(i as int) =~= done + old_w.subrange(k + 1, n as int));
            }
        }
        k = k + 1;
    }
    proof {
        assert(old_w.subrange(0, n as int) =~= old_w);
        assert(old_w.subrange(n as int, n as int) =~= Seq::<(u8, Seq<u8>)>::empty());
        assert(entries(window@) =~= keep_from(old_w, ack));
    }
}

/// The index of the first entry with sequence number `sq`, if any.
fn find_index(window: &Vec<WindowEntry>, sq: u8) -> (r: Option<usize>)
    ensures
        match r {
            Some(i) => i < window@.len() && find_entry(entries(window@), sq) == Some(entries(window@)[i as int]),
            None => find_entry(entries(window@), sq) is None,
        },
{
    let ghost w = entries(window@);
    assert(w.subrange(0, w.len() as int) =~= w);
    let mut i: usize = 0;
    while i < window.len()
        invariant
            i <= window@.len() == w.len(),
            w == entries(window@),
            find_entry(w, sq) == find_entry(w.subrange(i as int, w.len() as int), sq),
        decreases window@.len() - i,
    {
        let ghost rest = w.subrange(i as int, w.len() as int);
        assert(rest[0] == w[i as int]);
        if window[i].sequence == sq {
            return Some(i);
        }
        assert(rest.drop_first() =~= w.subrange(i + 1, w.len() as int));
        i = i + 1;
    }
    None
}

/// Copies the data of a window entry.
fn copy_entry_data(e: &WindowEntry) -> (r: Vec<u8>)
    ensures
        r@ == e.data@,
{
    crate::utils::bytes::copy_range(e.data.as_slice(), 0, e.data.len())
}


// ── SnapshotReader ───────────────────────────────────────────────────

/// The window after a reader stores `(sq, d)`: any entry with the same
/// sequence number is dropped, the new entry goes last, and the oldest
/// entries are evicted beyond `MAX_WINDOW`.
pub open spec fn reader_window_add(w: Seq<(u8, Seq<u8>)>, sq: u8, d: Seq<u8>) -> Seq<(u8, Seq<u8>)> {
    let p = without_seq(w, sq).push((sq, d));
    if p.len() > MAX_WINDOW {
        p.subrange(p.len() - MAX_WINDOW, p.len() as int)
    } else {
        p
    }
}

/// The abstract state of a [`SnapshotReader`].
#[verifier::ext_equal]
pub struct ReaderModel {
    pub current_sequence: u8,
    pub window: Seq<(u8, Seq<u8>)>,
    pub latest_full_state: Seq<u8>,
    pub waiting_for_keyframe: bool,
}

/// The data of the window entry `base`, or nothing when the window has no
/// such entry.
pub open spec fn base_data(w: Seq<(u8, Seq<u8>)>, base: u8) -> Seq<u8> {
    match find_entry(w, base) {
        Some(e) => e.1,
        None => Seq::empty(),
    }
}

/// The state of a fresh reader: nothing decoded, an empty window, not
/// waiting for a keyframe.
pub open spec fn reader_initial() -> ReaderModel {
    ReaderModel {
        current_sequence: 0,
        window: Seq::empty(),
        latest_full_state: Seq::empty(),
        waiting_for_keyframe: false,
    }
}

/// The state a reader reconstructs from a base and a decoded XOR buffer:
/// the base XOR the buffer where the base has bytes, the buffer beyond.
pub open spec fn patch_base(base: Seq<u8>, x: Seq<u8>) -> Seq<u8> {
    Seq::new(x.len(), |j: int| if j < base.len() { base[j] ^ x[j] } else { x[j] })
}

/// The state a reader rebuilds has one byte per byte of the XOR buffer:
/// byte `j` is `base[j] ^ x[j]` where the base has a byte `j`, and `x[j]`
/// beyond.
pub proof fn lemma_patch_base_bytes(base: Seq<u8>, x: Seq<u8>)
    ensures
        patch_base(base, x).len() == x.len(),
        forall|j: int| 0 <= j < x.len() && j < base.len() ==> #[trigger] patch_base(base, x)[j] == base[j] ^ x[j],
        forall|j: int| base.len() <= j < x.len() ==> #[trigger] patch_base(base, x)[j] == x[j],
{
}

/// What applying the frame `delta` does to a reader in state `r`, and what
/// it returns.
pub open spec fn reader_apply(r: ReaderModel, delta: Seq<u8>) -> (ReaderModel, Option<Seq<u8>>) {
    if delta.len() < 3 {
        (r, None)
    } else {
        let save_seq = delta[0];
        let base_seq = delta[1];
        let expected = delta[2];
        let data = delta.subrange(3, delta.len() as int);
        if base_seq == 0 && save_seq != 0 {
            if checksum(data) != expected {
                (r, None)
            } else {
                (ReaderModel {
                    current_sequence: save_seq,
                    window: seq![(save_seq, data)],
                    latest_full_state: data,
                    waiting_for_keyframe: false,
                }, Some(data))
            }
        } else if base_seq != 0 {
            if r.waiting_for_keyframe && save_seq == 0 {
                (r, None)
            } else if checksum(data) != expected {
                (r, None)
            } else {
                match rle_dec(data) {
                    None => (r, None),
                    Some(x) => if x.len() > MAX_STATE_SIZE {
                        (r, None)
                    } else {
                        let ns = patch_base(base_data(r.window, base_seq), x);
                        if save_seq != 0 {
                            (ReaderModel {
                                current_sequence: save_seq,
                                window: reader_window_add(r.window, save_seq, ns),
                                latest_full_state: ns,
                                waiting_for_keyframe: false,
                            }, Some(ns))
                        } else {
                            (ReaderModel { latest_full_state: ns, ..r }, Some(ns))
                        }
                    },
                }
            }
        } else {
            (r, None)
        }
    }
}

/// Client->Server snapshot decoder.
///
/// Maintains a sliding window of recent frames and reconstructs full
/// player state from incoming delta/key/raw frames.
pub struct SnapshotReader {
    /// Most recently decoded `save_seq`.
    pub current_sequence: u8,
    /// Sliding window of recent frames used as XOR bases.
    pub window: Vec<WindowEntry>,
    /// Latest fully reconstructed state.
    pub latest_full_state: Vec<u8>,
    /// When `true`, delta frames are ignored until a keyframe or raw
    /// frame arrives.
    waiting_for_keyframe: bool,
}

impl View for SnapshotReader {
    type V = ReaderModel;

    closed spec fn view(&self) -> ReaderModel {
        ReaderModel {
            current_sequence: self.current_sequence,
            window: entries(self.window@),
            latest_full_state: self.latest_full_state@,
            waiting_for_keyframe: self.waiting_for_keyframe,
        }
    }
}

impl SnapshotReader {
    /// Create a new reader with an empty window.
    pub fn new() -> (r: Self)
        ensures
            r@ == reader_initial(),
    {
        let r = SnapshotReader {
            current_sequence: 0,
            window: Vec::with_capacity(MAX_WINDOW),
            latest_full_state: Vec::new(),
            waiting_for_keyframe: false,
        };
        assert(entries(r.window@) =~= Seq::<(u8, Seq<u8>)>::empty());
        r
    }

    /// The most recently decoded save sequence.
    pub fn current_sequence(&self) -> (r: u8)
        ensures
            r == self@.current_sequence,
    {
        self.current_sequence
    }

    /// The latest fully reconstructed state.
    pub fn latest_full_state(&self) -> (r: &[u8])
        ensures
            r@ == self@.latest_full_state,
    {
        self.latest_full_state.as_slice()
    }

    /// The sliding window of recent frames.
    pub fn window(&self) -> (r: &[WindowEntry])
        ensures
            entries(r@) == self@.window,
    {
        self.window.as_slice()
    }

    /// Force the reader to ignore deltas until the next keyframe or raw
    /// frame. Used after a desync is detected.
    pub fn force_wait_for_keyframe(&mut self)
        ensures
            final(self)@ == (ReaderModel {
                current_sequence: 0,
                window: Seq::empty(),
                latest_full_state: Seq::empty(),
                waiting_for_keyframe: true,
            }),
    {
        self.window.clear();
        self.latest_full_state.clear();
        self.current_sequence = 0;
        self.waiting_for_keyframe = true;
        assert(entries(self.window@) =~= Seq::<(u8, Seq<u8>)>::empty());
    }

    /// Insert a frame into the sliding window, evicting the oldest entry
    /// if the window is full.
    fn add_to_window(&mut self, sequence: u8, data: Vec<u8>)
        ensures
            entries(final(self).window@) == reader_window_add(entries(old(self).window@), sequence, data@),
            final(self).current_sequence == old(self).current_sequence,
            final(self).latest_full_state == old(self).latest_full_state,
            final(self).waiting_for_keyframe == old(self).waiting_for_keyframe,
    {
        let ghost d = data@;
        remove_sequence(&mut self.window, sequence);
        self.window.push(WindowEntry { sequence, data });
        let ghost p = entries(self.window@);
        assert(p =~= without_seq(entries(old(self).window@), sequence).push((sequence, d)));
        let ghost mut dropped: int = 0;
        while self.window.len() > MAX_WINDOW
            invariant
                0 <= dropped <= p.len(),
                entries(self.window@) == p.subrange(dropped, p.len() as int),
                dropped > 0 ==> p.len() - dropped >= MAX_WINDOW,
                self.current_sequence == old(self).current_sequence,
                self.latest_full_state == old(self).latest_full_state,
                self.waiting_for_keyframe == old(self).waiting_for_keyframe,
            decreases self.window@.len(),
        {
            let ghost pre = entries(self.window@);
            self.window.remove(0);
            proof {
                assert(entries(self.window@) =~= pre.subrange(1, pre.len() as int));
                assert(pre.subrange(1, pre.len() as int) =~= p.subrange(dropped + 1, p.len() as int));
                dropped = dropped + 1;
            }
        }
        proof {
            if p.len() > MAX_WINDOW {
                assert(dropped == p.len() - MAX_WINDOW);
            } else {
                assert(dropped == 0);
                assert(p.subrange(0, p.len() as int) =~= p);
            }
        }
    }

    /// Apply an incoming delta/key/raw frame.
    ///
    /// Returns the reconstructed full state on success, or `None` if the
    /// frame is malformed, fails checksum verification, or is a delta
    /// while waiting for a keyframe.
    pub fn apply_delta(&mut self, delta: &[u8]) -> (r: Option<Vec<u8>>)
        ensures
            final(self)@ == reader_apply(old(self)@, delta@).0,
            match r {
                Some(v) => reader_apply(old(self)@, delta@).1 == Some(v@),
                None => reader_apply(old(self)@, delta@).1 is None,
            },
    {
        if delta.len() < 3 {
            return None;
        }
        let save_seq = delta[0];
        let base_seq = delta[1];
        let expected = delta[2];
        let data = crate::utils::bytes::copy_range(delta, 3, delta.len());

        // Raw frame: save_seq != 0, base_seq = 0.
        if base_seq == 0 && save_seq != 0 {
            if snapshot_checksum(data.as_slice()) != expected {
                return None;
            }
            let s = copy_range_all(&data);
            self.window.clear();
            assert(entries(self.window@) =~= Seq::<(u8, Seq<u8>)>::empty());
            self.add_to_window(save_seq, data);
            self.current_sequence = save_seq;
            self.latest_full_state = copy_range_all(&s);
            self.waiting_for_keyframe = false;
            proof {
                assert(reader_window_add(Seq::empty(), save_seq, s@) =~= seq![(save_seq, s@)]) by {
                    assert(without_seq(Seq::<(u8, Seq<u8>)>::empty(), save_seq) =~= Seq::<(u8, Seq<u8>)>::empty());
                }
            }
            return Some(s);
        }

        // Key or delta frame: base_seq != 0.
        if base_seq != 0 {
            if self.waiting_for_keyframe && save_seq == 0 {
                return None;
            }
            if snapshot_checksum(data.as_slice()) != expected {
                return None;
            }
            let xor_buf = match rle_decode(data.as_slice()) {
                Some(x) => x,
                None => return None,
            };
            if xor_buf.len() > MAX_STATE_SIZE {
                return None;
            }
            let new_state = match find_index(&self.window, base_seq) {
                Some(idx) => {
                    let ghost e = entries(self.window@)[idx as int];
                    assert(e.1 == self.window@[idx as int].data@);
                    patch(self.window[idx].data.as_slice(), xor_buf.as_slice())
                },
                None => {
                    let empty: Vec<u8> = Vec::new();
                    patch(empty.as_slice(), xor_buf.as_slice())
                },
            };

            // If save_seq != 0, it's a keyframe: store it in the window.
            if save_seq != 0 {
                self.add_to_window(save_seq, copy_range_all(&new_state));
                self.current_sequence = save_seq;
                self.waiting_for_keyframe = false;
            }
            self.latest_full_state = copy_range_all(&new_state);
            return Some(new_state);
        }
        None
    }
}

impl Default for SnapshotReader {
    /// Same as [`SnapshotReader::new`].
    fn default() -> (r: Self)
        ensures
            r@ == (ReaderModel {
                current_sequence: 0,
                window: Seq::empty(),
                latest_full_state: Seq::empty(),
                waiting_for_keyframe: false,
            }),
    {
        Self::new()
    }
}

/// Copies a whole byte vector.
fn copy_range_all(v: &Vec<u8>) -> (r: Vec<u8>)
    ensures
        r@ == v@,
{
    crate::utils::bytes::copy_range(v.as_slice(), 0, v.len())
}

/// Rebuilds a state from a base and an XOR buffer.
fn patch(base: &[u8], x: &[u8]) -> (r: Vec<u8>)
    ensures
        r@ == patch_base(base@, x@),
{
    let mut out: Vec<u8> = Vec::with_capacity(x.len());
    let mut i: usize = 0;
    while i < x.len()
        invariant
            i <= x@.len(),
            out@ =~= patch_base(base@, x@).subrange(0, i as int),
        decreases x@.len() - i,
    {
        if i < base.len() {
            out.push(base[i] ^ x[i]);
        } else {
            out.push(x[i]);
        }
        i = i + 1;
    }
    assert(out@ =~= patch_base(base@, x@));
    out
}


// ── SnapshotWriter ───────────────────────────────────────────────────

/// The abstract state of a [`SnapshotWriter`].
#[verifier::ext_equal]
pub struct WriterModel {
    pub next_save_seq: u8,
    pub window: Seq<(u8, Seq<u8>)>,
    pub delta_count: u8,
    pub resync: bool,
    pub pending_ack_seq: Option<u8>,
    pub missed_acks: u8,
    pub force_next_keyframe: bool,
    pub track_acks: bool,
    pub last_saved_seq: Option<u8>,
}

/// The sequence number that follows `sv`; 0 is skipped.
pub open spec fn next_seq(sv: u8) -> u8 {
    if sv == 255 {
        1
    } else {
        (sv + 1) as u8
    }
}

/// The window after a writer stores `(sq, d)`: any entry with the same
/// sequence number is dropped, the new entry goes first, and the window
/// is cut to `MAX_WINDOW` entries.
pub open spec fn writer_window_add(w: Seq<(u8, Seq<u8>)>, sq: u8, d: Seq<u8>) -> Seq<(u8, Seq<u8>)> {
    let p = seq![(sq, d)] + without_seq(w, sq);
    if p.len() > MAX_WINDOW {
        p.subrange(0, MAX_WINDOW as int)
    } else {
        p
    }
}

/// A writer after storing frame `(sq, d)` in its window.
pub open spec fn writer_store(w: WriterModel, sq: u8, d: Seq<u8>) -> WriterModel {
    WriterModel { window: writer_window_add(w.window, sq, d), last_saved_seq: Some(sq), ..w }
}

/// A writer after marking `seq` as awaiting acknowledgment: when acks are
/// tracked, a still-pending frame counts as missed (saturating), and
/// `MAX_MISSED_ACKS` misses enter resync mode.
pub open spec fn writer_mark_ack(w: WriterModel, seq: u8) -> WriterModel {
    if !w.track_acks {
        w
    } else {
        let w1 = if w.pending_ack_seq is Some {
            let m: u8 = if w.missed_acks == 255 { 255 } else { (w.missed_acks + 1) as u8 };
            WriterModel { missed_acks: m, resync: if m >= MAX_MISSED_ACKS { true } else { w.resync }, ..w }
        } else {
            w
        };
        WriterModel { pending_ack_seq: Some(seq), ..w1 }
    }
}

/// The base frame a writer diffs against: the most recently saved frame
/// if it is still in the window, else the oldest entry of the window (its
/// last, as new frames go to the front).
pub open spec fn writer_base(w: WriterModel) -> Option<(u8, Seq<u8>)> {
    let oldest = if w.window.len() > 0 { Some(w.window.last()) } else { None };
    match w.last_saved_seq {
        Some(sq) => match find_entry(w.window, sq) {
            Some(e) => Some(e),
            None => oldest,
        },
        None => oldest,
    }
}

/// A raw frame of the first `n` bytes of `s`: `[save_seq, 0, checksum, state]`.
pub open spec fn writer_raw(w: WriterModel, s: Seq<u8>, n: nat) -> (WriterModel, Seq<u8>) {
    let sv = w.next_save_seq;
    let t = s.subrange(0, n as int);
    let w1 = WriterModel { next_save_seq: next_seq(sv), delta_count: 0, ..w };
    (writer_mark_ack(writer_store(w1, sv, t), sv), seq![sv, 0u8, checksum(t)] + t)
}

/// A delta frame `[0, base_seq, checksum, rle_xor]`; falls back to a raw
/// frame (entering resync) when there is no base or RLE does not shrink.
pub open spec fn writer_delta(w: WriterModel, s: Seq<u8>, n: nat) -> (WriterModel, Seq<u8>) {
    match writer_base(w) {
        None => writer_raw(w, s, n),
        Some(b) => {
            let x = xor_patch(s, b.1, n);
            let rle = rle_enc(x);
            if rle.len() > x.len() {
                writer_raw(WriterModel { resync: true, window: Seq::empty(), ..w }, s, n)
            } else {
                (WriterModel { delta_count: (w.delta_count + 1) as u8, ..w }, seq![0u8, b.0, checksum(rle)] + rle)
            }
        },
    }
}

/// A keyframe `[save_seq, base_seq, checksum, rle_xor]`, stored in the
/// window; falls back to a raw frame as [`writer_delta`] does.
pub open spec fn writer_key(w: WriterModel, s: Seq<u8>, n: nat) -> (WriterModel, Seq<u8>) {
    match writer_base(w) {
        None => writer_raw(w, s, n),
        Some(b) => {
            let sv = w.next_save_seq;
            let w1 = WriterModel { next_save_seq: next_seq(sv), delta_count: 0, ..w };
            let x = xor_patch(s, b.1, n);
            let rle = rle_enc(x);
            if rle.len() > x.len() {
                writer_raw(WriterModel { resync: true, window: Seq::empty(), ..w1 }, s, n)
            } else {
                (writer_mark_ack(writer_store(w1, sv, s.subrange(0, n as int)), sv), seq![sv, b.0, checksum(rle)] + rle)
            }
        },
    }
}

/// The frame a writer emits for state `s`, and its state afterwards.
pub open spec fn writer_generate(w: WriterModel, s: Seq<u8>) -> (WriterModel, Seq<u8>) {
    let n: nat = if s.len() > MAX_STATE_SIZE { MAX_STATE_SIZE as nat } else { s.len() };
    if w.resync || w.window.len() == 0 {
        writer_raw(w, s, n)
    } else if w.force_next_keyframe {
        writer_key(WriterModel { force_next_keyframe: false, ..w }, s, n)
    } else if w.delta_count >= KEYFRAME_INTERVAL {
        writer_key(w, s, n)
    } else {
        writer_delta(w, s, n)
    }
}

/// What [`SnapshotWriter::force_keyframe`] leaves of a writer: an empty
/// window and every counter and flag cleared, with the next sequence
/// number and the ack tracking kept.
pub open spec fn writer_reset(w: WriterModel) -> WriterModel {
    WriterModel {
        window: Seq::empty(),
        delta_count: 0,
        resync: false,
        pending_ack_seq: None,
        missed_acks: 0,
        force_next_keyframe: false,
        last_saved_seq: None,
        ..w
    }
}

/// What acknowledging `seq` does to a writer, and whether it matched.
pub open spec fn writer_ack(w: WriterModel, seq: u8) -> (WriterModel, bool) {
    if w.pending_ack_seq == Some(seq) {
        let w1 = WriterModel {
            pending_ack_seq: None,
            missed_acks: 0,
            window: keep_from(w.window, seq),
            ..w
        };
        if w1.resync {
            (WriterModel { resync: false, force_next_keyframe: true, ..w1 }, true)
        } else {
            (w1, true)
        }
    } else {
        (w, false)
    }
}

/// The initial writer state; `track_acks` says whether acks are tracked.
pub open spec fn writer_initial(track_acks: bool) -> WriterModel {
    WriterModel {
        next_save_seq: 1,
        window: Seq::empty(),
        delta_count: 0,
        resync: false,
        pending_ack_seq: None,
        missed_acks: 0,
        force_next_keyframe: false,
        track_acks,
        last_saved_seq: None,
    }
}

/// Server->Client snapshot encoder.
///
/// Generates delta, key, or raw frames for a specific target client.
/// Maintains an independent sliding window so each client receives a
/// consistent delta sequence.
pub struct SnapshotWriter {
    /// Next `save_seq` to assign to a keyframe or raw frame.
    pub next_save_seq: u8,
    /// Sliding window of recent frames (keyframes and raw frames).
    window: Vec<WindowEntry>,
    /// Number of consecutive deltas emitted since the last keyframe.
    delta_count: u8,
    /// When `true`, the writer is in resync mode and will emit a raw
    /// frame on the next call.
    resync: bool,
    /// Sequence number of the frame currently awaiting acknowledgment.
    pending_ack_seq: Option<u8>,
    /// Number of consecutive unacknowledged frames.
    missed_acks: u8,
    /// Force the next frame to be a keyframe (set after recovering from
    /// resync via ack).
    force_next_keyframe: bool,
    /// Whether to track acknowledgments. Disabled for unacked writers.
    track_acks: bool,
    /// Sequence number of the most recent frame in the window, used to
    /// select a base for XOR diffing.
    last_saved_seq: Option<u8>,
}

impl View for SnapshotWriter {
    type V = WriterModel;

    closed spec fn view(&self) -> WriterModel {
        WriterModel {
            next_save_seq: self.next_save_seq,
            window: entries(self.window@),
            delta_count: self.delta_count,
            resync: self.resync,
            pending_ack_seq: self.pending_ack_seq,
            missed_acks: self.missed_acks,
            force_next_keyframe: self.force_next_keyframe,
            track_acks: self.track_acks,
            last_saved_seq: self.last_saved_seq,
        }
    }
}

impl SnapshotWriter {
    /// Create a new writer starting at sequence 1.
    pub fn new() -> (r: Self)
        ensures
            r@ == writer_initial(true),
    {
        let r = SnapshotWriter {
            next_save_seq: 1,
            window: Vec::with_capacity(MAX_WINDOW),
            delta_count: 0,
            resync: false,
            pending_ack_seq: None,
            missed_acks: 0,
            force_next_keyframe: false,
            track_acks: true,
            last_saved_seq: None,
        };
        assert(entries(r.window@) =~= Seq::<(u8, Seq<u8>)>::empty());
        r
    }

    /// Create a writer that does not track acknowledgments.
    ///
    /// Useful for broadcasts where individual acks are not expected.
    pub fn new_unacked() -> (r: Self)
        ensures
            r@ == writer_initial(false),
    {
        let mut writer = Self::new();
        writer.track_acks = false;
        writer
    }

    /// Generate the next frame for the given full state.
    ///
    /// Automatically chooses between raw, key, and delta based on window
    /// state, resync status, and the keyframe interval.
    pub fn generate_delta(&mut self, new_state: &[u8]) -> (r: Vec<u8>)
        ensures
            (final(self)@, r@) == writer_generate(old(self)@, new_state@),
    {
        let new_len = if new_state.len() > MAX_STATE_SIZE { MAX_STATE_SIZE } else { new_state.len() };
        if self.resync {
            return self.emit_raw(new_state, new_len);
        }
        if self.window.len() == 0 {
            return self.emit_raw(new_state, new_len);
        }
        if self.force_next_keyframe {
            self.force_next_keyframe = false;
            return self.emit_keyframe(new_state, new_len);
        }
        if self.delta_count >= KEYFRAME_INTERVAL {
            return self.emit_keyframe(new_state, new_len);
        }
        self.emit_delta(new_state, new_len)
    }

    /// The sequence number the next keyframe or raw frame gets.
    pub fn next_save_seq(&self) -> (r: u8)
        ensures
            r == self@.next_save_seq,
    {
        self.next_save_seq
    }

    /// The sequence number currently awaiting an ack, if any.
    pub fn pending_ack_seq(&self) -> (r: Option<u8>)
        ensures
            r == self@.pending_ack_seq,
    {
        self.pending_ack_seq
    }

    /// Acknowledge receipt of the frame with the given sequence number.
    ///
    /// Returns `true` if the ack matched the pending frame; then prunes
    /// the window of entries at or before the acked sequence (wrapping
    /// order, the window's spread being well within 127) and, in resync
    /// mode, leaves resync and forces the next keyframe.
    pub fn ack(&mut self, seq: u8) -> (r: bool)
        ensures
            (final(self)@, r) == writer_ack(old(self)@, seq),
    {
        let matched = match self.pending_ack_seq {
            Some(p) => p == seq,
            None => false,
        };
        if matched {
            self.pending_ack_seq = None;
            self.missed_acks = 0;
            keep_recent(&mut self.window, seq);
            if self.resync {
                self.resync = false;
                self.force_next_keyframe = true;
            }
        }
        matched
    }

    /// Reset the writer to a clean state, clearing the window and all
    /// internal counters.
    pub fn force_keyframe(&mut self)
        ensures
            final(self)@ == writer_reset(old(self)@),
    {
        self.window.clear();
        self.delta_count = 0;
        self.resync = false;
        self.pending_ack_seq = None;
        self.missed_acks = 0;
        self.force_next_keyframe = false;
        self.last_saved_seq = None;
        assert(entries(self.window@) =~= Seq::<(u8, Seq<u8>)>::empty());
    }

    /// Emit a delta frame: `[0, base_seq, checksum, rle_xor_data]`.
    fn emit_delta(&mut self, new_state: &[u8], new_len: usize) -> (r: Vec<u8>)
        requires
            new_len <= new_state@.len(),
            old(self).delta_count < 255,
        ensures
            (final(self)@, r@) == writer_delta(old(self)@, new_state@, new_len as nat),
    {
        let (base_sequence, base_data) = match self.base_snapshot() {
            Some(b) => b,
            None => return self.emit_raw(new_state, new_len),
        };
        let xor_buf = xor_diff(new_state, base_data.as_slice(), new_len);
        let rle_data = rle_encode(xor_buf.as_slice());
        if rle_data.len() > xor_buf.len() {
            self.resync = true;
            self.window.clear();
            assert(entries(self.window@) =~= Seq::<(u8, Seq<u8>)>::empty());
            return self.emit_raw(new_state, new_len);
        }
        self.delta_count = self.delta_count + 1;
        let chk = snapshot_checksum(rle_data.as_slice());
        let mut d: Vec<u8> = Vec::new();
        d.push(0);
        d.push(base_sequence);
        d.push(chk);
        crate::utils::bytes::append_bytes(&mut d, rle_data.as_slice());
        assert(d@ =~= seq![0u8, base_sequence, chk] + rle_data@);
        d
    }

    /// Emit a keyframe: `[save_seq, base_seq, checksum, rle_xor_data]`.
    fn emit_keyframe(&mut self, new_state: &[u8], new_len: usize) -> (r: Vec<u8>)
        requires
            new_len <= new_state@.len(),
        ensures
            (final(self)@, r@) == writer_key(old(self)@, new_state@, new_len as nat),
    {
        let (base_sequence, base_data) = match self.base_snapshot() {
            Some(b) => b,
            None => return self.emit_raw(new_state, new_len),
        };
        let sv = self.next_save_seq;
        self.next_save_seq = next_sequence(sv);
        self.delta_count = 0;
        let xor_buf = xor_diff(new_state, base_data.as_slice(), new_len);
        let rle_data = rle_encode(xor_buf.as_slice());
        if rle_data.len() > xor_buf.len() {
            self.resync = true;
            self.window.clear();
            assert(entries(self.window@) =~= Seq::<(u8, Seq<u8>)>::empty());
            return self.emit_raw(new_state, new_len);
        }
        let chk = snapshot_checksum(rle_data.as_slice());
        let mut d: Vec<u8> = Vec::new();
        d.push(sv);
        d.push(base_sequence);
        d.push(chk);
        crate::utils::bytes::append_bytes(&mut d, rle_data.as_slice());
        assert(d@ =~= seq![sv, base_sequence, chk] + rle_data@);
        self.add_to_window(sv, crate::utils::bytes::copy_range(new_state, 0, new_len));
        self.mark_ack_required(sv);
        d
    }

    /// Emit a raw frame: `[save_seq, 0, checksum, state_bytes]`.
    fn emit_raw(&mut self, new_state: &[u8], new_len: usize) -> (r: Vec<u8>)
        requires
            new_len <= new_state@.len(),
        ensures
            (final(self)@, r@) == writer_raw(old(self)@, new_state@, new_len as nat),
    {
        let sv = self.next_save_seq;
        self.next_save_seq = next_sequence(sv);
        self.delta_count = 0;
        let state = crate::utils::bytes::copy_range(new_state, 0, new_len);
        let chk = snapshot_checksum(state.as_slice());
        let mut d: Vec<u8> = Vec::new();
        d.push(sv);
        d.push(0);
        d.push(chk);
        crate::utils::bytes::append_bytes(&mut d, state.as_slice());
        assert(d@ =~= seq![sv, 0u8, chk] + state@);
        self.add_to_window(sv, state);
        self.mark_ack_required(sv);
        d
    }

    /// Mark the given sequence as requiring acknowledgment. Enters
    /// resync mode if too many consecutive acks are missed.
    fn mark_ack_required(&mut self, seq: u8)
        ensures
            final(self)@ == writer_mark_ack(old(self)@, seq),
    {
        if !self.track_acks {
            return;
        }
        if self.pending_ack_seq.is_some() {
            self.missed_acks = self.missed_acks.saturating_add(1);
            if self.missed_acks >= MAX_MISSED_ACKS {
                self.resync = true;
            }
        }
        self.pending_ack_seq = Some(seq);
    }

    /// Select the base frame for XOR diffing: the most recently saved
    /// frame, else the oldest entry in the window.
    fn base_snapshot(&self) -> (r: Option<(u8, Vec<u8>)>)
        ensures
            match r {
                Some(b) => writer_base(self@) == Some((b.0, b.1@)),
                None => writer_base(self@) is None,
            },
    {
        let found = match self.last_saved_seq {
            Some(sq) => find_index(&self.window, sq),
            None => None,
        };
        let idx = match found {
            Some(i) => i,
            None => {
                if self.window.len() == 0 {
                    return None;
                }
                self.window.len() - 1
            },
        };
        let e = &self.window[idx];
        assert(entries(self.window@)[idx as int] == e@);
        Some((e.sequence, copy_entry_data(e)))
    }

    /// Add a frame to the front of the sliding window.
    ///
    /// Deduplicates by sequence number and truncates to `MAX_WINDOW`.
    fn add_to_window(&mut self, sequence: u8, data: Vec<u8>)
        ensures
            final(self)@ == writer_store(old(self)@, sequence, data@),
    {
        let ghost d = data@;
        remove_sequence(&mut self.window, sequence);
        let ghost rest = entries(self.window@);
        self.window.insert(0, WindowEntry { sequence, data });
        assert(entries(self.window@) =~= seq![(sequence, d)] + rest);
        self.window.truncate(MAX_WINDOW);
        assert(entries(self.window@) =~= writer_window_add(entries(old(self).window@), sequence, d));
        self.last_saved_seq = Some(sequence);
    }
}

impl Default for SnapshotWriter {
    /// Same as [`SnapshotWriter::new`].
    fn default() -> (r: Self)
        ensures
            r@ == writer_initial(true),
    {
        Self::new()
    }
}

/// The sequence number that follows `sv`, skipping 0.
fn next_sequence(sv: u8) -> (r: u8)
    ensures
        r == next_seq(sv),
{
    let n = sv.wrapping_add(1);
    if n == 0 {
        1
    } else {
        n
    }
}

} // verus!
