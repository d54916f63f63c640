//! Streaming frame decoder: a byte-at-a-time state machine that locates
//! frame boundaries inside an arbitrary stream, validates candidate
//! windows, and resynchronizes past corruption by shifting one byte at a
//! time, so a real frame whose start lies inside an already-buffered
//! window is never skipped.

use vstd::prelude::*;

use crate::message::encoder::START;
use crate::message::{msg_matches, valid_frame, Message, FRAME_LEN};

verus! {

/// Drops bytes from the front of `s` until the first byte is the start
/// sentinel, or the sequence empties.
pub open spec fn drop_to_start(s: Seq<u8>) -> Seq<u8>
    decreases s.len(),
{
    if s.len() == 0 {
        s
    } else if s[0] == START {
        s
    } else {
        drop_to_start(s.skip(1))
    }
}

/// One transition of the streaming decoder on one input byte: the new
/// buffer contents, and the complete validated window emitted, if any.
///
/// With an empty buffer the decoder seeks: it discards anything but the
/// start sentinel. Otherwise it accumulates; a full window is either
/// emitted (when structurally valid) or resynchronized by dropping the
/// first byte and then everything up to the next start sentinel.
pub open spec fn step(buf: Seq<u8>, b: u8) -> (Seq<u8>, Option<Seq<u8>>) {
    if buf.len() == 0 {
        if b == START {
            (seq![b], None)
        } else {
            (buf, None)
        }
    } else {
        let nb = buf.push(b);
        if nb.len() < FRAME_LEN {
            (nb, None)
        } else if valid_frame(nb) {
            (Seq::<u8>::empty(), Some(nb))
        } else {
            (drop_to_start(nb.skip(1)), None)
        }
    }
}

/// The decoder's buffer after feeding the first `n` bytes of `stream` to a
/// fresh decoder.
pub open spec fn run_buf(stream: Seq<u8>, n: int) -> Seq<u8>
    decreases n,
{
    if n <= 0 {
        Seq::<u8>::empty()
    } else {
        step(run_buf(stream, n - 1), stream[n - 1]).0
    }
}

/// Every complete window emitted while feeding the first `n` bytes of
/// `stream` to a fresh decoder, in order.
pub open spec fn run_outs(stream: Seq<u8>, n: int) -> Seq<Seq<u8>>
    decreases n,
{
    if n <= 0 {
        Seq::<Seq<u8>>::empty()
    } else {
        match step(run_buf(stream, n - 1), stream[n - 1]).1 {
            Some(w) => run_outs(stream, n - 1).push(w),
            None => run_outs(stream, n - 1),
        }
    }
}

/// Streaming frame decoder. Holds at most one partial candidate frame;
/// its buffer is empty exactly while it is seeking a start sentinel.
pub struct Decoder {
    buffer: Vec<u8>,
}

impl Decoder {
    /// Well-formedness: the buffer never holds a complete window between
    /// calls, and a non-empty buffer always begins with the start sentinel.
    pub closed spec fn wf(&self) -> bool {
        &&& self.buffer@.len() < FRAME_LEN
        &&& self.buffer@.len() > 0 ==> self.buffer@[0] == START
    }

    /// The bytes of the candidate frame buffered so far.
    pub closed spec fn buf(&self) -> Seq<u8> {
        self.buffer@
    }

    /// A fresh decoder, seeking a start sentinel.
    pub fn new() -> (d: Decoder)
        ensures
            d.wf(),
            d.buf() == Seq::<u8>::empty(),
    {
        Decoder { buffer: Vec::new() }
    }

    /// Drops the buffer's first byte, then everything up to the next start
    /// sentinel.
    fn resync(&mut self)
        requires
            old(self).buffer@.len() >= 1,
        ensures
            final(self).buffer@ == drop_to_start(old(self).buffer@.skip(1)),
            final(self).buffer@.len() < old(self).buffer@.len(),
            final(self).buffer@.len() > 0 ==> final(self).buffer@[0] == START,
    {
        let ghost orig = self.buffer@;
        let len = self.buffer.len();
        let mut i: usize = 1;
        while i < len && self.buffer[i] != START
            invariant
                1 <= i <= len,
                len == self.buffer@.len(),
                self.buffer@ == orig,
                forall|k: int| 1 <= k < i ==> orig[k] != START,
            decreases len - i,
        {
            i = i + 1;
        }
        let mut nb: Vec<u8> = Vec::new();
        let mut jj: usize = i;
        while jj < len
            invariant
                i <= jj <= len,
                len == self.buffer@.len(),
                self.buffer@ == orig,
                nb@ == orig.subrange(i as int, jj as int),
            decreases len - jj,
        {
            nb.push(self.buffer[jj]);
            proof {
                assert(orig.subrange(i as int, jj + 1) =~= orig.subrange(i as int, jj as int).push(
                    orig[jj as int],
                ));
            }
            jj = jj + 1;
        }
        proof {
            let s = orig.skip(1);
            assert(forall|k: int| 0 <= k < s.len() ==> s[k] == orig[k + 1]);
            lemma_drop_to_start_at(s, i - 1);
            assert(s.skip(i - 1) =~= orig.subrange(i as int, len as int));
        }
        self.buffer = nb;
    }

    /// Feeds one byte from the stream into the decoder. Never blocks:
    /// returns immediately with the decoded message when this byte
    /// completed a structurally valid window, and `None` otherwise. The
    /// buffer evolves exactly as the `step` transition function says.
    pub fn parse(&mut self, byte: u8) -> (r: Option<Message>)
        requires
            old(self).wf(),
        ensures
            final(self).wf(),
            final(self).buf() == step(old(self).buf(), byte).0,
            match r {
                None => step(old(self).buf(), byte).1 is None,
                Some(m) => {
                    let w = old(self).buf().push(byte);
                    &&& step(old(self).buf(), byte).1 == Some(w)
                    &&& valid_frame(w)
                    &&& m.wf()
                    &&& msg_matches(m, w)
                },
            },
    {
        if self.buffer.len() == 0 {
            if byte == START {
                self.buffer.push(byte);
                proof {
                    assert(self.buffer@ =~= seq![byte]);
                }
            }
            return None;
        }
        self.buffer.push(byte);
        let ghost nb = old(self).buffer@.push(byte);
        if self.buffer.len() < FRAME_LEN {
            return None;
        }
        match crate::message::decode_frame(self.buffer.as_slice()) {
            Ok((frame, _consumed)) => {
                proof {
                    assert(nb.take(FRAME_LEN as int) =~= nb);
                }
                self.buffer = Vec::new();
                Some(frame.message)
            },
            Err(_) => {
                proof {
                    assert(nb.take(FRAME_LEN as int) =~= nb);
                    assert(!valid_frame(nb));
                }
                self.resync();
                None
            },
        }
    }
}

// ------------------------------ laws ---------------------------------- //

/// The least index in `[lo, hi)` holding the start sentinel, or `hi` if
/// there is none.
pub open spec fn first_start(stream: Seq<u8>, lo: int, hi: int) -> int
    decreases hi - lo,
{
    if lo >= hi {
        hi
    } else if stream[lo] == START {
        lo
    } else {
        first_start(stream, lo + 1, hi)
    }
}

proof fn lemma_first_start_props(stream: Seq<u8>, lo: int, hi: int)
    requires
        lo <= hi,
    ensures
        lo <= first_start(stream, lo, hi) <= hi,
        first_start(stream, lo, hi) < hi ==> stream[first_start(stream, lo, hi)] == START,
        forall|k: int| lo <= k < first_start(stream, lo, hi) ==> stream[k] != START,
    decreases hi - lo,
{
    if lo < hi && stream[lo] != START {
        lemma_first_start_props(stream, lo + 1, hi);
    }
}

proof fn lemma_first_start_is(stream: Seq<u8>, lo: int, hi: int, j: int)
    requires
        lo <= j <= hi,
        j < hi ==> stream[j] == START,
        forall|k: int| lo <= k < j ==> stream[k] != START,
    ensures
        first_start(stream, lo, hi) == j,
    decreases j - lo,
{
    if lo < j {
        assert(stream[lo] != START);
        lemma_first_start_is(stream, lo + 1, hi, j);
    }
}

/// `drop_to_start` drops exactly the bytes before the first start sentinel.
proof fn lemma_drop_to_start_at(s: Seq<u8>, i: int)
    requires
        0 <= i <= s.len(),
        forall|k: int| 0 <= k < i ==> s[k] != START,
        i < s.len() ==> s[i] == START,
    ensures
        drop_to_start(s) == s.skip(i),
    decreases i,
{
    if i == 0 {
        assert(s.skip(0) =~= s);
    } else {
        assert(s[0] != START);
        let t = s.skip(1);
        assert(forall|k: int| 0 <= k < t.len() ==> t[k] == s[k + 1]);
        lemma_drop_to_start_at(t, i - 1);
        assert(t.skip(i - 1) =~= s.skip(i));
    }
}

/// The scenario of a single frame embedded in junk: `stream` holds one
/// structurally valid window at position `fs`, and no valid window lies
/// anywhere outside that frame's 63 bytes.
pub open spec fn lone_frame_in(stream: Seq<u8>, fs: int) -> bool {
    &&& 0 <= fs
    &&& fs + FRAME_LEN as int <= stream.len()
    &&& valid_frame(stream.subrange(fs, fs + FRAME_LEN as int))
    &&& forall|i: int|
        0 <= i && i + FRAME_LEN as int <= stream.len() && (i < fs || i >= fs + FRAME_LEN as int)
            ==> !#[trigger] valid_frame(stream.subrange(i, i + FRAME_LEN as int))
}

/// The lower bound of buffer-start candidates after `n` consumed bytes: a
/// window starting at `k` has been tested and discarded once `k + 63` bytes
/// are in, and after the real frame is emitted everything before its end is
/// consumed.
spec fn live_lo(fs: int, n: int) -> int {
    let base = if n <= fs + (FRAME_LEN - 1) as int {
        0
    } else {
        fs + FRAME_LEN as int
    };
    if n - (FRAME_LEN - 1) as int >= base {
        n - (FRAME_LEN - 1) as int
    } else {
        base
    }
}

/// The decoder's exact state after feeding `n` bytes of a lone-frame
/// stream: the buffer is the stream's suffix from the first live start
/// sentinel, and the outputs are empty before the frame's last byte and
/// exactly the frame afterwards.
spec fn decoder_inv(stream: Seq<u8>, fs: int, n: int) -> bool {
    &&& run_buf(stream, n) == stream.subrange(first_start(stream, live_lo(fs, n), n), n)
    &&& run_outs(stream, n) == if n <= fs + (FRAME_LEN - 1) as int {
        Seq::<Seq<u8>>::empty()
    } else {
        seq![stream.subrange(fs, fs + FRAME_LEN as int)]
    }
}

proof fn lemma_decoder_run(stream: Seq<u8>, fs: int, n: int)
    requires
        lone_frame_in(stream, fs),
        0 <= n <= stream.len(),
    ensures
        decoder_inv(stream, fs, n),
    decreases n,
{
    let fl = FRAME_LEN as int;
    let frame = stream.subrange(fs, fs + fl);
    assert(stream[fs] == START) by {
        assert(frame[0] == stream[fs]);
    }
    if n == 0 {
        assert(live_lo(fs, 0) == 0);
        assert(first_start(stream, 0, 0) == 0);
        assert(run_buf(stream, 0) =~= stream.subrange(0, 0));
    } else {
        lemma_decoder_run(stream, fs, n - 1);
        let m = n - 1;
        let b = stream[m];
        let lom = live_lo(fs, m);
        let lon = live_lo(fs, n);
        let j = first_start(stream, lom, m);
        lemma_first_start_props(stream, lom, m);
        let buf = run_buf(stream, m);
        assert(buf == stream.subrange(j, m));
        assert(buf.len() == m - j);
        assert(0 <= lom && lom <= lon);
        if m == fs + fl - 1 {
            // at the frame's last byte the buffer must start exactly at the
            // frame: the lower bound has reached fs and fs holds a sentinel
            assert(lom == fs);
            lemma_first_start_is(stream, lom, m, fs);
            assert(j == fs);
        }
        if j == m {
            // seeking: the buffer is empty
            assert(m != fs + fl - 1);
            if b == START {
                assert(step(buf, b).0 =~= stream.subrange(m, n));
                lemma_first_start_is(stream, lon, n, m);
            } else {
                lemma_first_start_is(stream, lon, n, n);
                assert(step(buf, b).0 =~= stream.subrange(n, n));
            }
            assert(run_outs(stream, n) == run_outs(stream, m));
        } else {
            // accumulating: j < m and the buffer starts with a sentinel
            let nb = buf.push(b);
            assert(nb =~= stream.subrange(j, n));
            assert(nb.len() == n - j);
            assert(m - j <= fl - 1);
            if n - j < fl {
                assert(step(buf, b).0 == nb);
                assert(lon <= j);
                lemma_first_start_is(stream, lon, n, j);
                assert(run_outs(stream, n) == run_outs(stream, m));
                assert(n <= fs + fl - 1 <==> m <= fs + fl - 1);
            } else {
                assert(n - j == fl);
                if j == fs {
                    // the window is the real frame: emitted
                    assert(nb =~= frame);
                    assert(valid_frame(nb));
                    assert(n == fs + fl);
                    assert(m <= fs + fl - 1);
                    assert(run_outs(stream, n) == run_outs(stream, m).push(nb));
                    assert(run_outs(stream, n) =~= seq![frame]);
                    assert(lon == n);
                    assert(first_start(stream, n, n) == n);
                    assert(step(buf, b).0 =~= stream.subrange(n, n));
                } else {
                    // a spurious window: invalid by hypothesis, resynchronize
                    assert(j < fs || j >= fs + fl);
                    assert(!valid_frame(stream.subrange(j, j + fl)));
                    assert(!valid_frame(nb));
                    assert(step(buf, b).0 == drop_to_start(nb.skip(1)));
                    let j2 = first_start(stream, j + 1, n);
                    lemma_first_start_props(stream, j + 1, n);
                    let t = stream.subrange(j + 1, n);
                    assert(nb.skip(1) =~= t);
                    assert(forall|k: int| 0 <= k < t.len() ==> t[k] == stream[j + 1 + k]);
                    lemma_drop_to_start_at(t, j2 - (j + 1));
                    assert(t.skip(j2 - (j + 1)) =~= stream.subrange(j2, n));
                    assert(lon == j + 1);
                    assert(run_outs(stream, n) == run_outs(stream, m));
                    assert(n <= fs + fl - 1 <==> m <= fs + fl - 1);
                }
            }
        }
    }
}

/// A corrupted window is never emitted: the byte completing a 63-byte
/// window that is not structurally valid (for instance one with a flipped
/// bit, see `lemma_bit_flip_rejected`) yields nothing, and the decoder
/// resynchronizes from the window's second byte instead of going out of
/// sync.
pub proof fn lemma_invalid_window_not_emitted(buf: Seq<u8>, b: u8)
    requires
        buf.len() + 1 == FRAME_LEN,
        !valid_frame(buf.push(b)),
    ensures
        step(buf, b).1 is None,
        step(buf, b).0 == drop_to_start(buf.push(b).skip(1)),
{
}

/// Resynchronization: a stream made of junk, one valid frame, then more
/// junk, where no 63-byte window outside the frame itself is structurally
/// valid, makes a fresh decoder emit exactly that one frame, whatever the
/// junk's length or content.
pub proof fn lemma_resynchronization(junk1: Seq<u8>, frame: Seq<u8>, junk2: Seq<u8>)
    requires
        valid_frame(frame),
        ({
            let stream = junk1 + frame + junk2;
            let fs = junk1.len() as int;
            forall|i: int|
                0 <= i && i + FRAME_LEN as int <= stream.len() && (i < fs || i >= fs
                    + FRAME_LEN as int) ==> !#[trigger] valid_frame(
                    stream.subrange(i, i + FRAME_LEN as int),
                )
        }),
    ensures
        run_outs(junk1 + frame + junk2, (junk1 + frame + junk2).len() as int) == seq![frame],
{
    let stream = junk1 + frame + junk2;
    let fs = junk1.len() as int;
    assert(stream.subrange(fs, fs + FRAME_LEN as int) =~= frame);
    assert(lone_frame_in(stream, fs));
    lemma_decoder_run(stream, fs, stream.len() as int);
    assert(stream.len() as int >= fs + FRAME_LEN as int);
}

} // verus!
