//! The per-frame processing of a bridge, one direction at a time.
//!
//! Serial to TCP: a demarcated frame passes the bridge's channel filter,
//! is remapped when the bridge presents its channel as channel 0, and
//! then takes the PhilFlag correction. TCP to serial: the frame's channel
//! is rewritten to the bridge's configured channel, then the stream takes
//! the PhilFlag correction. The channel is always translated before
//! PhilFlag is applied.

use vstd::prelude::*;
use crate::demarc::{lemma_feed_concat, spec_feed, DemarcState};
use crate::kiss::{
    spec_frame_starts, spec_port_of, spec_set_port, extract_kiss_info, modify_kiss_port,
};
use crate::philflag::{
    spec_phil_serial_to_tcp, spec_phil_tcp_to_serial, process_frame_with_phil_flag,
    process_phil_flag_tcp_to_serial,
};

verus! {

/// Which channels a bridge takes from its device, and how it presents
/// them to the application side.
#[derive(Clone, Copy)]
pub enum ChannelFilter {
    /// Pass frames on any channel, unchanged.
    All,
    /// Pass only frames on this channel, unchanged.
    Keep(u8),
    /// Pass only frames on this channel, presented as channel 0, so the
    /// application thinks it owns channel 0 while the TNC uses another.
    Remap(u8),
}

/// Whether a demarcated frame passes the channel filter.
pub open spec fn spec_passes_filter(frame: Seq<u8>, filter: ChannelFilter) -> bool {
    spec_frame_starts(frame) && match filter {
        ChannelFilter::All => true,
        ChannelFilter::Keep(c) => spec_port_of(frame[1]) == c,
        ChannelFilter::Remap(c) => spec_port_of(frame[1]) == c,
    }
}

/// What the serial-to-TCP direction delivers for one frame: nothing when
/// the frame misses the filter, otherwise the frame after remapping and,
/// when the bridge asks for it, the PhilFlag correction.
pub open spec fn spec_serial_to_tcp(frame: Seq<u8>, filter: ChannelFilter, phil_flag: bool) -> Option<
    Seq<u8>,
> {
    if !spec_passes_filter(frame, filter) {
        None
    } else {
        let remapped = match filter {
            ChannelFilter::Remap(_) => spec_set_port(frame, 0),
            _ => frame,
        };
        Some(if phil_flag {
            spec_phil_serial_to_tcp(remapped)
        } else {
            remapped
        })
    }
}

/// What the TCP-to-serial direction writes for one frame: the frame on
/// the bridge's configured channel, with the PhilFlag correction when the
/// bridge asks for it.
pub open spec fn spec_tcp_to_serial(frame: Seq<u8>, kiss_port: u8, phil_flag: bool) -> Seq<u8> {
    let modified = spec_set_port(frame, kiss_port);
    if phil_flag {
        spec_phil_tcp_to_serial(modified)
    } else {
        modified
    }
}

/// Processes one demarcated frame in the serial-to-TCP direction.
pub fn serial_to_tcp_frame(frame: &Vec<u8>, filter: ChannelFilter, phil_flag: bool) -> (r: Option<
    Vec<u8>,
>)
    ensures
        r is Some <==> spec_serial_to_tcp(frame@, filter, phil_flag) is Some,
        r is Some ==> r->0@ == spec_serial_to_tcp(frame@, filter, phil_flag)->0,
{
    let info = extract_kiss_info(frame.as_slice());
    let (port, _cmd, _idx) = match info {
        Some(t) => t,
        None => {
            return None;
        },
    };
    let remapped: Vec<u8> = match filter {
        ChannelFilter::All => frame.clone(),
        ChannelFilter::Keep(c) => {
            if port != c {
                return None;
            }
            frame.clone()
        },
        ChannelFilter::Remap(c) => {
            if port != c {
                return None;
            }
            modify_kiss_port(frame.as_slice(), 0)
        },
    };
    if phil_flag {
        Some(process_frame_with_phil_flag(remapped.as_slice()))
    } else {
        Some(remapped)
    }
}

/// Processes one frame in the TCP-to-serial direction.
pub fn tcp_to_serial_frame(frame: &Vec<u8>, kiss_port: u8, phil_flag: bool) -> (r: Vec<u8>)
    ensures
        r@ == spec_tcp_to_serial(frame@, kiss_port, phil_flag),
{
    let modified = modify_kiss_port(frame.as_slice(), kiss_port);
    if phil_flag {
        process_phil_flag_tcp_to_serial(modified.as_slice())
    } else {
        modified
    }
}

/// What a run of demarcated frames delivers to the TCP side, in order.
pub open spec fn spec_deliver_run(frames: Seq<Seq<u8>>, filter: ChannelFilter, phil_flag: bool) -> Seq<
    Seq<u8>,
>
    decreases frames.len(),
{
    if frames.len() == 0 {
        Seq::empty()
    } else {
        let rest = spec_deliver_run(frames.skip(1), filter, phil_flag);
        match spec_serial_to_tcp(frames[0], filter, phil_flag) {
            Some(out) => seq![out] + rest,
            None => rest,
        }
    }
}

/// Processes a run of demarcated frames in the serial-to-TCP direction;
/// the delivered frames keep the order in which they were received.
pub fn serial_to_tcp_run(frames: &Vec<Vec<u8>>, filter: ChannelFilter, phil_flag: bool) -> (out: Vec<
    Vec<u8>,
>)
    ensures
        out.deep_view() == spec_deliver_run(frames.deep_view(), filter, phil_flag),
{
    let mut out: Vec<Vec<u8>> = Vec::new();
    let mut i: usize = 0;
    proof {
        assert(frames.deep_view().take(0) =~= Seq::<Seq<u8>>::empty());
        assert(out.deep_view() =~~= Seq::<Seq<u8>>::empty());
        assert(spec_deliver_run(Seq::<Seq<u8>>::empty(), filter, phil_flag)
            =~= Seq::<Seq<u8>>::empty());
    }
    while i < frames.len()
        invariant
            i <= frames.len(),
            frames.deep_view().len() == frames.len(),
            out.deep_view() == spec_deliver_run(frames.deep_view().take(i as int), filter, phil_flag),
        decreases frames.len() - i,
    {
        let ghost all = frames.deep_view();
        let ghost pre = out.deep_view();
        let frame = &frames[i];
        proof {
            assert(all[i as int] == frame@);
        }
        let processed = serial_to_tcp_frame(frame, filter, phil_flag);
        match processed {
            Some(p) => {
                out.push(p);
            },
            None => {},
        }
        proof {
            assert(all.take(i as int + 1) =~= all.take(i as int).push(frame@));
            lemma_deliver_run_push(all.take(i as int), frame@, filter, phil_flag);
            match spec_serial_to_tcp(frame@, filter, phil_flag) {
                Some(o) => {
                    assert(out.deep_view() =~~= pre.push(o));
                },
                None => {
                    assert(out.deep_view() =~~= pre);
                },
            }
        }
        i += 1;
    }
    proof {
        assert(frames.deep_view().take(frames.deep_view().len() as int) =~= frames.deep_view());
    }
    out
}

/// Appending one received frame appends at most its delivery.
proof fn lemma_deliver_run_push(frames: Seq<Seq<u8>>, f: Seq<u8>, filter: ChannelFilter, phil_flag: bool)
    ensures
        spec_deliver_run(frames.push(f), filter, phil_flag) == match spec_serial_to_tcp(
            f,
            filter,
            phil_flag,
        ) {
            Some(out) => spec_deliver_run(frames, filter, phil_flag).push(out),
            None => spec_deliver_run(frames, filter, phil_flag),
        },
    decreases frames.len(),
{
    if frames.len() == 0 {
        let one = frames.push(f);
        assert(one[0] == f);
        assert(one.skip(1) =~= Seq::<Seq<u8>>::empty());
        assert(spec_deliver_run(Seq::<Seq<u8>>::empty(), filter, phil_flag)
            =~= Seq::<Seq<u8>>::empty());
        match spec_serial_to_tcp(f, filter, phil_flag) {
            Some(out) => {
                assert(seq![out] + Seq::<Seq<u8>>::empty()
                    =~= Seq::<Seq<u8>>::empty().push(out));
            },
            None => {},
        }
    } else {
        let pushed = frames.push(f);
        assert(pushed[0] == frames[0]);
        assert(pushed.skip(1) =~= frames.skip(1).push(f));
        lemma_deliver_run_push(frames.skip(1), f, filter, phil_flag);
        match spec_serial_to_tcp(f, filter, phil_flag) {
            Some(out) => {
                match spec_serial_to_tcp(frames[0], filter, phil_flag) {
                    Some(h) => {
                        assert(seq![h] + spec_deliver_run(frames.skip(1), filter, phil_flag).push(out)
                            =~= (seq![h] + spec_deliver_run(frames.skip(1), filter, phil_flag)).push(
                            out,
                        ));
                    },
                    None => {},
                }
            },
            None => {},
        }
    }
}

/// Delivery distributes over splitting the run of frames.
proof fn lemma_deliver_run_concat(a: Seq<Seq<u8>>, b: Seq<Seq<u8>>, filter: ChannelFilter, phil_flag: bool)
    ensures
        spec_deliver_run(a + b, filter, phil_flag) == spec_deliver_run(a, filter, phil_flag)
            + spec_deliver_run(b, filter, phil_flag),
    decreases a.len(),
{
    if a.len() == 0 {
        assert(a + b =~= b);
        assert(spec_deliver_run(a, filter, phil_flag) + spec_deliver_run(b, filter, phil_flag)
            =~= spec_deliver_run(b, filter, phil_flag));
    } else {
        assert((a + b)[0] == a[0]);
        assert((a + b).skip(1) =~= a.skip(1) + b);
        lemma_deliver_run_concat(a.skip(1), b, filter, phil_flag);
        match spec_serial_to_tcp(a[0], filter, phil_flag) {
            Some(h) => {
                assert(seq![h] + (spec_deliver_run(a.skip(1), filter, phil_flag)
                    + spec_deliver_run(b, filter, phil_flag))
                    =~= (seq![h] + spec_deliver_run(a.skip(1), filter, phil_flag))
                        + spec_deliver_run(b, filter, phil_flag));
            },
            None => {},
        }
    }
}

/// The whole serial-to-TCP stage ignores read boundaries: demarcating a
/// byte stream and processing the frames delivers the same output, in
/// the same order, whether the stream arrived in one read or in two.
pub proof fn lemma_stage_ignores_read_boundaries(
    s: DemarcState,
    a: Seq<u8>,
    b: Seq<u8>,
    filter: ChannelFilter,
    phil_flag: bool,
)
    ensures
        spec_deliver_run(spec_feed(s, a + b).1, filter, phil_flag) == spec_deliver_run(
            spec_feed(s, a).1,
            filter,
            phil_flag,
        ) + spec_deliver_run(spec_feed(spec_feed(s, a).0, b).1, filter, phil_flag),
{
    lemma_feed_concat(s, a, b);
    lemma_deliver_run_concat(
        spec_feed(s, a).1,
        spec_feed(spec_feed(s, a).0, b).1,
        filter,
        phil_flag,
    );
}

/// Order preservation: when two frames received on the channel in this
/// order are both delivered, the first stands before the second in the
/// delivered run, so every client that receives both receives them in the
/// order they arrived.
pub proof fn lemma_order_preserved(
    frames: Seq<Seq<u8>>,
    filter: ChannelFilter,
    phil_flag: bool,
    i: int,
    j: int,
)
    requires
        0 <= i < j < frames.len(),
        spec_serial_to_tcp(frames[i], filter, phil_flag) is Some,
        spec_serial_to_tcp(frames[j], filter, phil_flag) is Some,
    ensures
        ({
            let out = spec_deliver_run(frames, filter, phil_flag);
            let pi = spec_deliver_run(frames.take(i), filter, phil_flag).len() as int;
            let pj = spec_deliver_run(frames.take(j), filter, phil_flag).len() as int;
            &&& 0 <= pi < pj < out.len()
            &&& out[pi] == spec_serial_to_tcp(frames[i], filter, phil_flag)->0
            &&& out[pj] == spec_serial_to_tcp(frames[j], filter, phil_flag)->0
        }),
{
    let out = spec_deliver_run(frames, filter, phil_flag);
    let di = spec_deliver_run(frames.take(i), filter, phil_flag);
    let dj = spec_deliver_run(frames.take(j), filter, phil_flag);

    // The delivery at position i stands right after what take(i) delivers.
    assert(frames =~= frames.take(i) + frames.skip(i));
    lemma_deliver_run_concat(frames.take(i), frames.skip(i), filter, phil_flag);
    assert(frames.skip(i)[0] == frames[i]);
    let oi = spec_serial_to_tcp(frames[i], filter, phil_flag)->0;
    assert(spec_deliver_run(frames.skip(i), filter, phil_flag)
        == seq![oi] + spec_deliver_run(frames.skip(i).skip(1), filter, phil_flag));
    assert(out[di.len() as int] == oi);

    // The same at position j.
    assert(frames =~= frames.take(j) + frames.skip(j));
    lemma_deliver_run_concat(frames.take(j), frames.skip(j), filter, phil_flag);
    assert(frames.skip(j)[0] == frames[j]);
    let oj = spec_serial_to_tcp(frames[j], filter, phil_flag)->0;
    assert(spec_deliver_run(frames.skip(j), filter, phil_flag)
        == seq![oj] + spec_deliver_run(frames.skip(j).skip(1), filter, phil_flag));
    assert(out[dj.len() as int] == oj);

    // take(j) splits at i, and the segment from i on delivers frames[i],
    // so take(j) delivers strictly more than take(i).
    assert(frames.take(j) =~= frames.take(i) + frames.take(j).skip(i));
    lemma_deliver_run_concat(frames.take(i), frames.take(j).skip(i), filter, phil_flag);
    assert(frames.take(j).skip(i)[0] == frames[i]);
    assert(spec_deliver_run(frames.take(j).skip(i), filter, phil_flag)
        == seq![oi] + spec_deliver_run(frames.take(j).skip(i).skip(1), filter, phil_flag));
    assert(dj.len() >= di.len() + 1);
}

} // verus!
