//! The bounded polled-mode buffer for Extended KISS polling: a FIFO of
//! complete frames capped both by frame count and by total byte count.
//! On overflow the incoming frame is dropped; the stored size can never
//! go negative on pop.

use vstd::prelude::*;
use std::collections::VecDeque;

verus! {

/// Smallest byte-count bound a queue can be configured with.
pub const MIN_RX_BUFFER_BYTES: usize = 4096;
/// Largest byte-count bound a queue can be configured with.
pub const MAX_RX_BUFFER_BYTES: usize = 1048576;

/// The configured byte bound, clamped to the accepted range.
pub open spec fn spec_clamp_bytes(requested: usize) -> usize {
    if requested < MIN_RX_BUFFER_BYTES {
        MIN_RX_BUFFER_BYTES
    } else if requested > MAX_RX_BUFFER_BYTES {
        MAX_RX_BUFFER_BYTES
    } else {
        requested
    }
}

/// The bytes held by a sequence of frames.
pub open spec fn spec_total_bytes(frames: Seq<Seq<u8>>) -> int
    decreases frames.len(),
{
    if frames.len() == 0 {
        0
    } else {
        frames[0].len() + spec_total_bytes(frames.skip(1))
    }
}

/// A sequence of frames never holds a negative number of bytes.
pub proof fn lemma_total_bytes_nonneg(frames: Seq<Seq<u8>>)
    ensures
        spec_total_bytes(frames) >= 0,
    decreases frames.len(),
{
    if frames.len() > 0 {
        lemma_total_bytes_nonneg(frames.skip(1));
    }
}

/// Appending one frame adds exactly its length.
pub proof fn lemma_total_bytes_push(frames: Seq<Seq<u8>>, f: Seq<u8>)
    ensures
        spec_total_bytes(frames.push(f)) == spec_total_bytes(frames) + f.len(),
    decreases frames.len(),
{
    if frames.len() == 0 {
        let one = frames.push(f);
        assert(one[0] == f);
        assert(one.skip(1) =~= Seq::<Seq<u8>>::empty());
        assert(spec_total_bytes(Seq::<Seq<u8>>::empty()) == 0);
    } else {
        let pushed = frames.push(f);
        assert(pushed[0] == frames[0]);
        assert(pushed.skip(1) =~= frames.skip(1).push(f));
        lemma_total_bytes_push(frames.skip(1), f);
    }
}

/// A size-capped FIFO of frames for XKISS polled mode.
pub struct PolledModeQueue {
    frames: VecDeque<Vec<u8>>,
    max_frames: usize,
    max_bytes: usize,
    current_size: usize,
}

impl PolledModeQueue {
    /// The queued frames, oldest first.
    pub closed spec fn frames(self) -> Seq<Seq<u8>> {
        self.frames.deep_view()
    }

    /// The frame-count bound.
    pub closed spec fn max_frames(self) -> usize {
        self.max_frames
    }

    /// The byte-count bound.
    pub closed spec fn max_bytes(self) -> usize {
        self.max_bytes
    }

    /// The bytes currently queued, as the queue accounts for them.
    pub closed spec fn size(self) -> usize {
        self.current_size
    }

    /// The queue's invariant: the byte counter is exact, and both bounds
    /// hold at every instant.
    pub open spec fn wf(self) -> bool {
        &&& self.size() == spec_total_bytes(self.frames())
        &&& self.size() <= self.max_bytes()
        &&& self.frames().len() <= self.max_frames()
        &&& MIN_RX_BUFFER_BYTES <= self.max_bytes() <= MAX_RX_BUFFER_BYTES
    }

    /// An empty queue with the given frame-count bound; the byte-count
    /// bound is clamped to the accepted range.
    pub fn new(max_frames: usize, requested_bytes: usize) -> (r: Self)
        ensures
            r.wf(),
            r.frames() == Seq::<Seq<u8>>::empty(),
            r.size() == 0,
            r.max_frames() == max_frames,
            r.max_bytes() == spec_clamp_bytes(requested_bytes),
    {
        let max_bytes = if requested_bytes < MIN_RX_BUFFER_BYTES {
            MIN_RX_BUFFER_BYTES
        } else if requested_bytes > MAX_RX_BUFFER_BYTES {
            MAX_RX_BUFFER_BYTES
        } else {
            requested_bytes
        };
        let r = PolledModeQueue {
            frames: VecDeque::new(),
            max_frames,
            max_bytes,
            current_size: 0,
        };
        proof {
            assert(r.frames() =~~= Seq::<Seq<u8>>::empty());
        }
        r
    }

    /// Queues a frame unless a bound would be passed; on overflow the
    /// incoming frame is dropped and `false` says so.
    pub fn push(&mut self, frame: Vec<u8>) -> (ok: bool)
        requires
            old(self).wf(),
        ensures
            final(self).wf(),
            final(self).max_frames() == old(self).max_frames(),
            final(self).max_bytes() == old(self).max_bytes(),
            ok == (old(self).frames().len() < old(self).max_frames()
                && old(self).size() + frame@.len() <= old(self).max_bytes()),
            ok ==> final(self).frames() == old(self).frames().push(frame@)
                && final(self).size() == old(self).size() + frame@.len(),
            !ok ==> final(self).frames() == old(self).frames()
                && final(self).size() == old(self).size(),
    {
        if self.frames.len() < self.max_frames && frame.len() <= self.max_bytes - self.current_size {
            proof {
                lemma_total_bytes_push(self.frames.deep_view(), frame@);
            }
            self.current_size = self.current_size + frame.len();
            self.frames.push_back(frame);
            proof {
                assert(self.frames() =~~= old(self).frames().push(frame@));
            }
            true
        } else {
            false
        }
    }

    /// Takes the oldest frame, if any. The byte counter goes down by
    /// exactly that frame's length and never below zero.
    pub fn pop(&mut self) -> (r: Option<Vec<u8>>)
        requires
            old(self).wf(),
        ensures
            final(self).wf(),
            final(self).max_frames() == old(self).max_frames(),
            final(self).max_bytes() == old(self).max_bytes(),
            r is Some <==> old(self).frames().len() > 0,
            r is Some ==> {
                &&& r->0@ == old(self).frames()[0]
                &&& final(self).frames() == old(self).frames().skip(1)
                &&& r->0@.len() <= old(self).size()
                &&& final(self).size() == old(self).size() - r->0@.len()
            },
            r is None ==> final(self).frames() == old(self).frames()
                && final(self).size() == old(self).size(),
    {
        let popped = self.frames.pop_front();
        match popped {
            Some(frame) => {
                proof {
                    lemma_total_bytes_nonneg(self.frames.deep_view());
                    assert(old(self).frames()[0] == frame.deep_view());
                    assert(old(self).frames().skip(1) =~~= self.frames.deep_view());
                    assert(spec_total_bytes(old(self).frames())
                        == frame@.len() + spec_total_bytes(self.frames.deep_view()));
                }
                self.current_size = self.current_size - frame.len();
                Some(frame)
            },
            None => {
                proof {
                    assert(old(self).frames() =~~= self.frames());
                }
                None
            },
        }
    }

    /// Takes every queued frame at once, oldest first, leaving the queue
    /// empty: what a poll tick flushes to the subscribed client.
    pub fn drain_all(&mut self) -> (r: Vec<Vec<u8>>)
        requires
            old(self).wf(),
        ensures
            final(self).wf(),
            final(self).max_frames() == old(self).max_frames(),
            final(self).max_bytes() == old(self).max_bytes(),
            r.deep_view() == old(self).frames(),
            final(self).frames() == Seq::<Seq<u8>>::empty(),
            final(self).size() == 0,
    {
        let mut out: Vec<Vec<u8>> = Vec::new();
        proof {
            assert(out.deep_view() + self.frames.deep_view() =~~= old(self).frames());
        }
        while self.frames.len() > 0
            invariant
                out.deep_view() + self.frames.deep_view() == old(self).frames(),
                self.max_frames == old(self).max_frames(),
                self.max_bytes == old(self).max_bytes(),
                self.current_size == old(self).current_size,
            decreases self.frames.len(),
        {
            let ghost done = out.deep_view();
            let ghost left = self.frames.deep_view();
            let frame = self.frames.pop_front();
            match frame {
                Some(f) => {
                    proof {
                        assert(left[0] == f.deep_view());
                        assert(left.skip(1) =~~= self.frames.deep_view());
                    }
                    out.push(f);
                    proof {
                        assert(out.deep_view() =~~= done.push(left[0]));
                        assert(done.push(left[0]) + left.skip(1) =~= done + left);
                    }
                },
                None => {},
            }
        }
        self.current_size = 0;
        proof {
            assert(self.frames.deep_view() =~~= Seq::<Seq<u8>>::empty());
            assert(out.deep_view() + Seq::<Seq<u8>>::empty() =~= out.deep_view());
            assert(self.wf());
        }
        out
    }

    /// Whether nothing is queued.
    pub fn is_empty(&self) -> (r: bool)
        ensures
            r == (self.frames().len() == 0),
    {
        self.frames.len() == 0
    }

    /// The bytes currently queued.
    pub fn current_size(&self) -> (r: usize)
        ensures
            r == self.size(),
    {
        self.current_size
    }

    /// The number of queued frames.
    pub fn len(&self) -> (r: usize)
        ensures
            r == self.frames().len(),
    {
        self.frames.len()
    }
}

/// The polled buffer never holds more bytes than its byte-count bound.
pub proof fn lemma_polled_buffer_bounded(q: PolledModeQueue)
    requires
        q.wf(),
    ensures
        spec_total_bytes(q.frames()) <= q.max_bytes(),
{
}

} // verus!
