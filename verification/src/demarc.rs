//! The frame demarcator: turns an arbitrarily chunked byte stream into
//! complete KISS frames delimited by FEND.
//!
//! The demarcator knows nothing of escape sequences; it only splits on
//! FEND. Bytes outside frames are discarded, and back-to-back FENDs (a
//! common idle filler) never produce empty frames.

use vstd::prelude::*;
use crate::kiss::KISS_FEND;

verus! {

/// The most bytes a frame in progress may accumulate. A stream that
/// never closes its frame must not grow the buffer without bound: past
/// this size the frame is dropped and the demarcator waits for the next
/// FEND.
pub const MAX_FRAME_BYTES: usize = 8192;

/// The demarcator's state between reads: the bytes accumulated for the
/// frame in progress (including its opening FEND), and whether a frame is
/// currently open.
pub ghost struct DemarcState {
    pub acc: Seq<u8>,
    pub in_frame: bool,
}

impl DemarcState {
    /// The state before any byte has been fed.
    pub open spec fn initial() -> DemarcState {
        DemarcState { acc: Seq::empty(), in_frame: false }
    }

    /// Reachable states: the accumulator is empty while idle, and while a
    /// frame is open it starts with its opening FEND, holds no other, and
    /// stays within the frame size bound.
    pub open spec fn inv(self) -> bool {
        &&& !self.in_frame ==> self.acc.len() == 0
        &&& self.in_frame ==> {
            &&& self.acc.len() >= 1
            &&& self.acc.len() <= MAX_FRAME_BYTES
            &&& self.acc[0] == KISS_FEND
            &&& forall|k: int| 1 <= k < self.acc.len() ==> self.acc[k] != KISS_FEND
        }
    }
}

/// A complete frame as the demarcator emits it: both delimiting FENDs
/// present, at least one byte between them, and no interior FEND.
pub open spec fn is_well_formed_frame(f: Seq<u8>) -> bool {
    &&& f.len() >= 3
    &&& f[0] == KISS_FEND
    &&& f[f.len() - 1] == KISS_FEND
    &&& forall|k: int| 1 <= k < f.len() - 1 ==> f[k] != KISS_FEND
}

/// One step of the demarcator: the state after a byte, and the frames (at
/// most one) the byte completes. A FEND closes the open frame when the
/// accumulator holds content beyond the opening FEND; otherwise it opens a
/// fresh frame, absorbing idle FEND fillers. A frame that would outgrow
/// the size bound is dropped, and the demarcator resynchronises on the
/// next FEND.
pub open spec fn spec_feed_byte(s: DemarcState, b: u8) -> (DemarcState, Seq<Seq<u8>>) {
    if b == KISS_FEND {
        if s.in_frame && s.acc.len() > 1 {
            (DemarcState::initial(), seq![s.acc.push(KISS_FEND)])
        } else {
            (DemarcState { acc: seq![KISS_FEND], in_frame: true }, Seq::empty())
        }
    } else if s.in_frame {
        if s.acc.len() >= MAX_FRAME_BYTES {
            (DemarcState::initial(), Seq::empty())
        } else {
            (DemarcState { acc: s.acc.push(b), in_frame: true }, Seq::empty())
        }
    } else {
        (s, Seq::empty())
    }
}

/// The demarcator over a whole read: the final state and every frame
/// completed along the way, in input order.
pub open spec fn spec_feed(s: DemarcState, input: Seq<u8>) -> (DemarcState, Seq<Seq<u8>>)
    decreases input.len(),
{
    if input.len() == 0 {
        (s, Seq::empty())
    } else {
        let step = spec_feed_byte(s, input[0]);
        let rest = spec_feed(step.0, input.skip(1));
        (rest.0, step.1 + rest.1)
    }
}

/// Feeding a single byte is one step of the demarcator.
proof fn lemma_feed_one(s: DemarcState, b: u8)
    ensures
        spec_feed(s, seq![b]).0 == spec_feed_byte(s, b).0,
        spec_feed(s, seq![b]).1 == spec_feed_byte(s, b).1,
{
    let one = seq![b];
    assert(one[0] == b);
    assert(one.skip(1) =~= Seq::<u8>::empty());
    assert(spec_feed(spec_feed_byte(s, b).0, Seq::<u8>::empty()).1 =~= Seq::<Seq<u8>>::empty());
    assert(spec_feed_byte(s, b).1 + Seq::<Seq<u8>>::empty() =~= spec_feed_byte(s, b).1);
}

/// Splitting the stream across reads does not change what is demarcated:
/// feeding two chunks one after the other ends in the same state and emits
/// the same frames, in the same order, as feeding their concatenation.
pub proof fn lemma_feed_concat(s: DemarcState, a: Seq<u8>, b: Seq<u8>)
    ensures
        spec_feed(s, a + b).0 == spec_feed(spec_feed(s, a).0, b).0,
        spec_feed(s, a + b).1 == spec_feed(s, a).1 + spec_feed(spec_feed(s, a).0, b).1,
    decreases a.len(),
{
    if a.len() == 0 {
        assert(a + b =~= b);
        assert(spec_feed(s, a).1 + spec_feed(spec_feed(s, a).0, b).1
            =~= spec_feed(s, b).1);
    } else {
        let step = spec_feed_byte(s, a[0]);
        assert((a + b)[0] == a[0]);
        assert((a + b).skip(1) =~= a.skip(1) + b);
        lemma_feed_concat(step.0, a.skip(1), b);
        let mid = spec_feed(step.0, a.skip(1));
        assert(step.1 + (mid.1 + spec_feed(mid.0, b).1)
            =~= (step.1 + mid.1) + spec_feed(mid.0, b).1);
    }
}

/// From a reachable state, every state the demarcator reaches is reachable
/// and every frame it emits is well formed.
pub proof fn lemma_feed_well_formed(s: DemarcState, input: Seq<u8>)
    requires
        s.inv(),
    ensures
        spec_feed(s, input).0.inv(),
        forall|k: int| 0 <= k < spec_feed(s, input).1.len()
            ==> is_well_formed_frame(#[trigger] spec_feed(s, input).1[k]),
    decreases input.len(),
{
    if input.len() == 0 {
    } else {
        let step = spec_feed_byte(s, input[0]);
        assert(step.0.inv());
        assert(forall|k: int| 0 <= k < step.1.len() ==> is_well_formed_frame(#[trigger] step.1[k]))
            by {
            if input[0] == KISS_FEND && s.in_frame && s.acc.len() > 1 {
                let f = s.acc.push(KISS_FEND);
                assert(f[0] == KISS_FEND);
                assert(f[f.len() - 1] == KISS_FEND);
                assert(forall|k: int| 1 <= k < f.len() - 1 ==> f[k] != KISS_FEND);
                assert(is_well_formed_frame(f));
            }
        };
        lemma_feed_well_formed(step.0, input.skip(1));
        let rest = spec_feed(step.0, input.skip(1));
        assert(forall|k: int| 0 <= k < (step.1 + rest.1).len()
            ==> is_well_formed_frame(#[trigger] (step.1 + rest.1)[k]));
    }
}

/// Feeding bytes that contain no FEND while a frame is open, within the
/// size bound, only grows the accumulator; nothing is emitted.
proof fn lemma_feed_no_fend(s: DemarcState, m: Seq<u8>)
    requires
        s.in_frame,
        s.acc.len() + m.len() <= MAX_FRAME_BYTES,
        forall|k: int| 0 <= k < m.len() ==> m[k] != KISS_FEND,
    ensures
        spec_feed(s, m).1 == Seq::<Seq<u8>>::empty(),
        spec_feed(s, m).0 == (DemarcState { acc: s.acc + m, in_frame: true }),
    decreases m.len(),
{
    if m.len() == 0 {
        assert(s.acc + m =~= s.acc);
    } else {
        let step = spec_feed_byte(s, m[0]);
        lemma_feed_no_fend(step.0, m.skip(1));
        assert(s.acc.push(m[0]) + m.skip(1) =~= s.acc + m);
        assert(Seq::<Seq<u8>>::empty() + Seq::<Seq<u8>>::empty() =~= Seq::<Seq<u8>>::empty());
    }
}

/// A single well-formed frame within the size bound, fed from the idle
/// state, is emitted exactly as it came, and the demarcator is idle again
/// afterwards.
pub proof fn lemma_feed_single_frame(f: Seq<u8>)
    requires
        is_well_formed_frame(f),
        f.len() <= MAX_FRAME_BYTES + 1,
    ensures
        spec_feed(DemarcState::initial(), f).1 == seq![f],
        spec_feed(DemarcState::initial(), f).0 == DemarcState::initial(),
{
    let s0 = DemarcState::initial();
    let interior = f.subrange(1, f.len() - 1);
    let open = spec_feed_byte(s0, f[0]).0;
    assert(open == (DemarcState { acc: seq![KISS_FEND], in_frame: true }));
    assert(f =~= (seq![f[0]] + interior) + seq![f[f.len() - 1]]);
    lemma_feed_concat(s0, seq![f[0]] + interior, seq![f[f.len() - 1]]);
    lemma_feed_concat(s0, seq![f[0]], interior);
    lemma_feed_one(s0, f[0]);
    lemma_feed_one(spec_feed(s0, seq![f[0]] + interior).0, f[f.len() - 1]);
    lemma_feed_no_fend(open, interior);
    let filled = spec_feed(open, interior).0;
    assert(filled.acc =~= seq![KISS_FEND] + interior);
    assert(filled.acc.len() == f.len() - 1);
    let last = spec_feed_byte(filled, f[f.len() - 1]);
    assert(last.1 == seq![filled.acc.push(KISS_FEND)]);
    assert(filled.acc.push(KISS_FEND) =~= f);
    assert(spec_feed(s0, f).1 =~= seq![f]);
}

/// Demarcation is exact on a stream of well-formed frames: feeding their
/// concatenation emits precisely those frames, in order. Together with
/// `lemma_feed_concat` this says that the concatenation of the
/// demarcator's outputs, however the stream was chunked into reads, is the
/// sub-sequence of the stream that lies between matched FENDs.
pub proof fn lemma_demarcation_exact(frames: Seq<Seq<u8>>)
    requires
        forall|k: int| 0 <= k < frames.len() ==> is_well_formed_frame(#[trigger] frames[k]),
        forall|k: int| 0 <= k < frames.len()
            ==> (#[trigger] frames[k]).len() <= MAX_FRAME_BYTES + 1,
    ensures
        spec_feed(DemarcState::initial(), frames.flatten()).1 == frames,
        spec_feed(DemarcState::initial(), frames.flatten()).0 == DemarcState::initial(),
    decreases frames.len(),
{
    if frames.len() == 0 {
        assert(frames.flatten() =~= Seq::<u8>::empty());
        assert(spec_feed(DemarcState::initial(), Seq::<u8>::empty()).1 =~= frames);
    } else {
        let head = frames[0];
        let tail = frames.skip(1);
        assert(frames.flatten() == head + tail.flatten());
        lemma_feed_concat(DemarcState::initial(), head, tail.flatten());
        lemma_feed_single_frame(head);
        assert(forall|k: int| 0 <= k < tail.len() ==> is_well_formed_frame(#[trigger] tail[k]));
        lemma_demarcation_exact(tail);
        assert(seq![head] + tail =~= frames);
    }
}

/// Accumulates bytes until complete KISS frames are available.
pub struct KissFrameBuffer {
    buffer: Vec<u8>,
    in_frame: bool,
}

impl View for KissFrameBuffer {
    type V = DemarcState;

    closed spec fn view(&self) -> DemarcState {
        DemarcState { acc: self.buffer@, in_frame: self.in_frame }
    }
}

impl KissFrameBuffer {
    /// An empty, idle demarcator.
    pub fn new() -> (r: Self)
        ensures
            r@ == DemarcState::initial(),
    {
        let r = KissFrameBuffer { buffer: Vec::new(), in_frame: false };
        proof {
            assert(r@ =~= DemarcState::initial());
        }
        r
    }

    /// Feeds a read's worth of bytes and returns every frame it completes,
    /// with their delimiting FENDs, in input order.
    pub fn add_bytes(&mut self, data: &[u8]) -> (frames: Vec<Vec<u8>>)
        ensures
            final(self)@ == spec_feed(old(self)@, data@).0,
            frames.deep_view() == spec_feed(old(self)@, data@).1,
    {
        let mut frames: Vec<Vec<u8>> = Vec::new();
        let mut i: usize = 0;
        proof {
            assert(data@.take(0) =~= Seq::<u8>::empty());
            assert(frames.deep_view() =~~= Seq::<Seq<u8>>::empty());
        }
        while i < data.len()
            invariant
                i <= data.len(),
                self@ == spec_feed(old(self)@, data@.take(i as int)).0,
                frames.deep_view() == spec_feed(old(self)@, data@.take(i as int)).1,
            decreases data.len() - i,
        {
            let ghost done = data@.take(i as int);
            let ghost fr_prev = frames.deep_view();
            let ghost pre = self@;
            let byte = data[i];
            let ghost step = spec_feed_byte(pre, byte);
            if byte == KISS_FEND {
                if self.in_frame && self.buffer.len() > 1 {
                    self.buffer.push(byte);
                    let mut full: Vec<u8> = Vec::new();
                    core::mem::swap(&mut full, &mut self.buffer);
                    frames.push(full);
                    self.in_frame = false;
                    proof {
                        assert(full@ == pre.acc.push(KISS_FEND));
                        assert(self@ == step.0);
                        assert(frames.deep_view() =~~= fr_prev + step.1);
                    }
                } else {
                    self.buffer.clear();
                    self.buffer.push(byte);
                    self.in_frame = true;
                    proof {
                        assert(self@.acc =~= seq![KISS_FEND]);
                        assert(self@ == step.0);
                        assert(frames.deep_view() =~~= fr_prev + step.1);
                    }
                }
            } else {
                if self.in_frame {
                    if self.buffer.len() >= MAX_FRAME_BYTES {
                        self.buffer.clear();
                        self.in_frame = false;
                    } else {
                        self.buffer.push(byte);
                    }
                }
                proof {
                    assert(self@ == step.0);
                    assert(frames.deep_view() =~~= fr_prev + step.1);
                }
            }
            proof {
                assert(data@.take(i as int + 1) =~= done + seq![byte]);
                lemma_feed_concat(old(self)@, done, seq![byte]);
                lemma_feed_one(spec_feed(old(self)@, done).0, byte);
            }
            i += 1;
        }
        proof {
            assert(data@.take(data@.len() as int) =~= data@);
        }
        frames
    }

    /// Drops any partial frame and returns to the idle state, as on an
    /// error or a disconnect.
    pub fn clear(&mut self)
        ensures
            final(self)@ == DemarcState::initial(),
    {
        self.buffer.clear();
        self.in_frame = false;
        proof {
            assert(self@ =~= DemarcState::initial());
        }
    }
}

} // verus!
