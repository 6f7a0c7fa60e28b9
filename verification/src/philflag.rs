//! The PhilFlag transformer: direction-specific byte substitutions that
//! work around a TNC whose firmware emits unescaped FEND bytes inside a
//! frame's payload and misreads a literal command trigger in its input.

use vstd::prelude::*;
use crate::kiss::{KISS_FEND, KISS_FESC, KISS_TFEND};

verus! {

/// ASCII upper-case C, the first byte of the command trigger.
pub const CMD_TRIGGER_UPPER: u8 = 0x43;
/// ASCII lower-case c, the other spelling of the trigger.
pub const CMD_TRIGGER_LOWER: u8 = 0x63;

/// One payload byte after the serial-to-TCP correction: a spurious FEND
/// becomes the escaped pair, everything else passes through.
pub open spec fn spec_phil_byte(b: u8) -> Seq<u8> {
    if b == KISS_FEND {
        seq![KISS_FESC, KISS_TFEND]
    } else {
        seq![b]
    }
}

/// The serial-to-TCP correction over a frame's interior.
pub open spec fn spec_phil_interior(s: Seq<u8>) -> Seq<u8>
    decreases s.len(),
{
    if s.len() == 0 {
        Seq::empty()
    } else {
        spec_phil_byte(s[0]) + spec_phil_interior(s.skip(1))
    }
}

/// The serial-to-TCP correction of a whole frame: both delimiting FENDs
/// are preserved and every FEND between them is rewritten to FESC TFEND.
/// A buffer too short to have an interior is unchanged.
pub open spec fn spec_phil_serial_to_tcp(frame: Seq<u8>) -> Seq<u8> {
    if frame.len() < 2 {
        frame
    } else {
        seq![frame[0]] + spec_phil_interior(frame.subrange(1, frame.len() - 1))
            + seq![frame[frame.len() - 1]]
    }
}

/// One stream byte after the TCP-to-serial correction: the command trigger
/// in either case is prefixed with FESC, everything else passes through.
pub open spec fn spec_phil_cmd_byte(b: u8) -> Seq<u8> {
    if b == CMD_TRIGGER_UPPER || b == CMD_TRIGGER_LOWER {
        seq![KISS_FESC, b]
    } else {
        seq![b]
    }
}

/// The TCP-to-serial correction over a raw byte stream; it is not
/// frame-structured.
pub open spec fn spec_phil_tcp_to_serial(s: Seq<u8>) -> Seq<u8>
    decreases s.len(),
{
    if s.len() == 0 {
        Seq::empty()
    } else {
        spec_phil_cmd_byte(s[0]) + spec_phil_tcp_to_serial(s.skip(1))
    }
}

/// The interior correction works byte for byte, so it distributes over
/// concatenation.
proof fn lemma_phil_interior_concat(a: Seq<u8>, b: Seq<u8>)
    ensures
        spec_phil_interior(a + b) == spec_phil_interior(a) + spec_phil_interior(b),
    decreases a.len(),
{
    if a.len() == 0 {
        assert(a + b =~= b);
        assert(spec_phil_interior(a) + spec_phil_interior(b) =~= spec_phil_interior(b));
    } else {
        assert((a + b).skip(1) =~= a.skip(1) + b);
        lemma_phil_interior_concat(a.skip(1), b);
        assert(spec_phil_byte((a + b)[0]) + (spec_phil_interior(a.skip(1)) + spec_phil_interior(b))
            =~= (spec_phil_byte(a[0]) + spec_phil_interior(a.skip(1))) + spec_phil_interior(b));
    }
}

/// The stream correction works byte for byte, so it distributes over
/// concatenation.
proof fn lemma_phil_stream_concat(a: Seq<u8>, b: Seq<u8>)
    ensures
        spec_phil_tcp_to_serial(a + b) == spec_phil_tcp_to_serial(a) + spec_phil_tcp_to_serial(b),
    decreases a.len(),
{
    if a.len() == 0 {
        assert(a + b =~= b);
        assert(spec_phil_tcp_to_serial(a) + spec_phil_tcp_to_serial(b)
            =~= spec_phil_tcp_to_serial(b));
    } else {
        assert((a + b).skip(1) =~= a.skip(1) + b);
        lemma_phil_stream_concat(a.skip(1), b);
        assert(spec_phil_cmd_byte((a + b)[0])
            + (spec_phil_tcp_to_serial(a.skip(1)) + spec_phil_tcp_to_serial(b))
            =~= (spec_phil_cmd_byte(a[0]) + spec_phil_tcp_to_serial(a.skip(1)))
                + spec_phil_tcp_to_serial(b));
    }
}

/// Applies the serial-to-TCP PhilFlag correction to a received frame:
/// every FEND between the two delimiters is rewritten to FESC TFEND, and
/// the delimiters themselves are preserved.
pub fn process_frame_with_phil_flag(frame: &[u8]) -> (r: Vec<u8>)
    ensures
        r@ == spec_phil_serial_to_tcp(frame@),
{
    if frame.len() < 2 {
        let r = vstd::slice::slice_to_vec(frame);
        return r;
    }
    let mut out: Vec<u8> = Vec::new();
    out.push(frame[0]);
    let ghost interior = frame@.subrange(1, frame@.len() - 1);
    let mut i: usize = 1;
    proof {
        assert(interior.take(0) =~= Seq::<u8>::empty());
        assert(out@ =~= seq![frame@[0]] + spec_phil_interior(interior.take(0)));
    }
    while i < frame.len() - 1
        invariant
            1 <= i <= frame@.len() - 1,
            frame@.len() >= 2,
            interior == frame@.subrange(1, frame@.len() - 1),
            out@ == seq![frame@[0]] + spec_phil_interior(interior.take(i - 1)),
        decreases frame.len() - i,
    {
        let b = frame[i];
        if b == KISS_FEND {
            out.push(KISS_FESC);
            out.push(KISS_TFEND);
        } else {
            out.push(b);
        }
        proof {
            let ghost pre = interior.take(i - 1);
            let ghost one = seq![interior[i - 1]];
            assert(interior[i - 1] == b);
            assert(interior.take(i as int) =~= pre + one);
            lemma_phil_interior_concat(pre, one);
            assert(one[0] == b);
            assert(one.skip(1) =~= Seq::<u8>::empty());
            assert(spec_phil_interior(one) == spec_phil_byte(b) + spec_phil_interior(Seq::<u8>::empty()));
            assert(spec_phil_byte(b) + Seq::<u8>::empty() =~= spec_phil_byte(b));
            assert(out@ =~= (seq![frame@[0]] + spec_phil_interior(pre)) + spec_phil_byte(b));
            assert(seq![frame@[0]] + spec_phil_interior(interior.take(i as int))
                =~= (seq![frame@[0]] + spec_phil_interior(pre)) + spec_phil_byte(b));
        }
        i += 1;
    }
    out.push(frame[frame.len() - 1]);
    proof {
        assert(interior.take(frame@.len() - 2) =~= interior);
        assert(out@ =~= seq![frame@[0]] + spec_phil_interior(interior)
            + seq![frame@[frame@.len() - 1]]);
    }
    out
}

/// Applies the TCP-to-serial PhilFlag correction to a raw byte stream:
/// every command-trigger byte is prefixed with FESC.
pub fn process_phil_flag_tcp_to_serial(data: &[u8]) -> (r: Vec<u8>)
    ensures
        r@ == spec_phil_tcp_to_serial(data@),
{
    let mut out: Vec<u8> = Vec::new();
    let mut i: usize = 0;
    proof {
        assert(data@.take(0) =~= Seq::<u8>::empty());
    }
    while i < data.len()
        invariant
            i <= data.len(),
            out@ == spec_phil_tcp_to_serial(data@.take(i as int)),
        decreases data.len() - i,
    {
        let b = data[i];
        if b == CMD_TRIGGER_UPPER || b == CMD_TRIGGER_LOWER {
            out.push(KISS_FESC);
            out.push(b);
        } else {
            out.push(b);
        }
        proof {
            let ghost pre = data@.take(i as int);
            let ghost one = seq![data@[i as int]];
            assert(data@.take(i as int + 1) =~= pre + one);
            lemma_phil_stream_concat(pre, one);
            assert(one[0] == b);
            assert(one.skip(1) =~= Seq::<u8>::empty());
            assert(spec_phil_tcp_to_serial(one)
                == spec_phil_cmd_byte(b) + spec_phil_tcp_to_serial(Seq::<u8>::empty()));
            assert(spec_phil_cmd_byte(b) + Seq::<u8>::empty() =~= spec_phil_cmd_byte(b));
            assert(out@ =~= spec_phil_tcp_to_serial(pre) + spec_phil_cmd_byte(b));
        }
        i += 1;
    }
    proof {
        assert(data@.take(data@.len() as int) =~= data@);
    }
    out
}

} // verus!
