//! KISS framing constants and the codec: reading and rewriting the type
//! byte's port and command nibbles, and the FESC byte-stuffing rules.

use vstd::prelude::*;
use vstd::slice::slice_to_vec;

verus! {

/// Frame delimiter.
pub const KISS_FEND: u8 = 0xC0;
/// Escape introducer.
pub const KISS_FESC: u8 = 0xDB;
/// Transposed FEND: follows FESC in place of an embedded FEND.
pub const KISS_TFEND: u8 = 0xDC;
/// Transposed FESC: follows FESC in place of an embedded FESC.
pub const KISS_TFESC: u8 = 0xDD;

/// The channel (KISS port) held in the upper nibble of a type byte.
pub open spec fn spec_port_of(type_byte: u8) -> u8 {
    (type_byte >> 4) & 0x0F
}

/// The command held in the lower nibble of a type byte.
pub open spec fn spec_command_of(type_byte: u8) -> u8 {
    type_byte & 0x0F
}

/// A type byte assembled from a channel and a command.
pub open spec fn spec_type_byte(port: u8, command: u8) -> u8 {
    ((port & 0x0F) << 4) | (command & 0x0F)
}

/// A frame that starts with FEND and carries at least a type byte.
pub open spec fn spec_frame_starts(frame: Seq<u8>) -> bool {
    frame.len() >= 2 && frame[0] == KISS_FEND
}

/// Reads the KISS port number and command from a frame.
///
/// The type byte is the byte immediately after the opening FEND; the
/// returned index is where the payload begins.
pub fn extract_kiss_info(frame: &[u8]) -> (r: Option<(u8, u8, usize)>)
    ensures
        r is Some <==> spec_frame_starts(frame@),
        r is Some ==> r->0 == (
            spec_port_of(frame@[1]),
            spec_command_of(frame@[1]),
            2usize,
        ),
{
    if frame.len() < 2 || frame[0] != KISS_FEND {
        return None;
    }
    let cmd_byte = frame[1];
    let port = (cmd_byte >> 4) & 0x0F;
    let command = cmd_byte & 0x0F;
    Some((port, command, 2))
}

/// A frame with the type byte rewritten to carry `new_port`; a buffer that
/// does not start a frame is left as it is.
pub open spec fn spec_set_port(frame: Seq<u8>, new_port: u8) -> Seq<u8> {
    if spec_frame_starts(frame) {
        frame.update(1, spec_type_byte(new_port, spec_command_of(frame[1])))
    } else {
        frame
    }
}

/// Rewrites the KISS port number in a frame, preserving the command nibble
/// and every payload byte.
pub fn modify_kiss_port(frame: &[u8], new_port: u8) -> (r: Vec<u8>)
    ensures
        r@ == spec_set_port(frame@, new_port),
{
    if frame.len() < 2 || frame[0] != KISS_FEND {
        let r = slice_to_vec(frame);
        return r;
    }
    let mut result = slice_to_vec(frame);
    let cmd_byte = frame[1];
    let command = cmd_byte & 0x0F;
    let new_byte = ((new_port & 0x0F) << 4) | command;
    result.set(1, new_byte);
    assert(((new_port & 0x0F) << 4) | (cmd_byte & 0x0F)
        == ((new_port & 0x0F) << 4) | ((cmd_byte & 0x0F) & 0x0F)) by (bit_vector);
    result
}

/// Reading the port back from a rewritten type byte gives the channel that
/// was written, and the command nibble is untouched.
pub proof fn lemma_type_byte_get(port: u8, b: u8)
    requires
        port <= 15,
    ensures
        spec_port_of(spec_type_byte(port, spec_command_of(b))) == port,
        spec_command_of(spec_type_byte(port, spec_command_of(b))) == spec_command_of(b),
{
    assert(port <= 15 ==> ((((port & 0x0F) << 4) | ((b & 0x0F) & 0x0F)) >> 4) & 0x0F == port)
        by (bit_vector);
    assert((((port & 0x0F) << 4) | ((b & 0x0F) & 0x0F)) & 0x0F == b & 0x0F) by (bit_vector);
}

/// Writing a frame's own port back into it leaves the frame unchanged.
pub proof fn lemma_set_port_identity(frame: Seq<u8>)
    requires
        spec_frame_starts(frame),
    ensures
        spec_set_port(frame, spec_port_of(frame[1])) == frame,
{
    let b = frame[1];
    assert((((((b >> 4) & 0x0F) & 0x0F) << 4) | ((b & 0x0F) & 0x0F)) == b) by (bit_vector);
    assert(frame.update(1, b) =~= frame);
}

/// Setting a channel `c` and reading it back gives `c`, and the command
/// nibble is preserved.
pub proof fn lemma_set_port_get(frame: Seq<u8>, c: u8)
    requires
        spec_frame_starts(frame),
        c <= 15,
    ensures
        spec_frame_starts(spec_set_port(frame, c)),
        spec_port_of(spec_set_port(frame, c)[1]) == c,
        spec_command_of(spec_set_port(frame, c)[1]) == spec_command_of(frame[1]),
        spec_set_port(frame, c).len() == frame.len(),
{
    lemma_type_byte_get(c, frame[1]);
}

/// The bytes that stand for one payload byte after stuffing.
pub open spec fn spec_escape_byte(b: u8) -> Seq<u8> {
    if b == KISS_FEND {
        seq![KISS_FESC, KISS_TFEND]
    } else if b == KISS_FESC {
        seq![KISS_FESC, KISS_TFESC]
    } else {
        seq![b]
    }
}

/// KISS byte-stuffing of a whole byte sequence.
pub open spec fn spec_escape(s: Seq<u8>) -> Seq<u8>
    decreases s.len(),
{
    if s.len() == 0 {
        Seq::empty()
    } else {
        spec_escape_byte(s[0]) + spec_escape(s.skip(1))
    }
}

/// Removal of KISS byte-stuffing. A FESC followed by a transposed byte
/// decodes to the original byte; a FESC before any other byte, or a FESC
/// that ends the sequence, is passed through unchanged.
pub open spec fn spec_unescape(s: Seq<u8>) -> Seq<u8>
    decreases s.len(),
{
    if s.len() == 0 {
        Seq::empty()
    } else if s[0] == KISS_FESC && s.len() >= 2 {
        let b = if s[1] == KISS_TFEND {
            KISS_FEND
        } else if s[1] == KISS_TFESC {
            KISS_FESC
        } else {
            s[1]
        };
        seq![b] + spec_unescape(s.skip(2))
    } else {
        seq![s[0]] + spec_unescape(s.skip(1))
    }
}

/// Byte-stuffing works byte for byte, so it distributes over concatenation.
pub proof fn lemma_escape_concat(a: Seq<u8>, b: Seq<u8>)
    ensures
        spec_escape(a + b) == spec_escape(a) + spec_escape(b),
    decreases a.len(),
{
    if a.len() == 0 {
        assert(a + b =~= b);
        assert(spec_escape(a) + spec_escape(b) =~= spec_escape(b));
    } else {
        assert((a + b).skip(1) =~= a.skip(1) + b);
        lemma_escape_concat(a.skip(1), b);
        assert(spec_escape_byte((a + b)[0]) + (spec_escape(a.skip(1)) + spec_escape(b))
            =~= (spec_escape_byte(a[0]) + spec_escape(a.skip(1))) + spec_escape(b));
    }
}

/// Round trip of the byte-stuffing rules: unescaping an escaped byte
/// sequence gives back the original sequence.
pub proof fn lemma_unescape_escape(x: Seq<u8>)
    ensures
        spec_unescape(spec_escape(x)) == x,
    decreases x.len(),
{
    if x.len() == 0 {
    } else {
        let rest = spec_escape(x.skip(1));
        lemma_unescape_escape(x.skip(1));
        let e = spec_escape(x);
        assert(e == spec_escape_byte(x[0]) + rest);
        if x[0] == KISS_FEND {
            assert(e[0] == KISS_FESC && e[1] == KISS_TFEND);
            assert(e.skip(2) =~= rest);
            assert(seq![KISS_FEND] + x.skip(1) =~= x);
        } else if x[0] == KISS_FESC {
            assert(e[0] == KISS_FESC && e[1] == KISS_TFESC);
            assert(e.skip(2) =~= rest);
            assert(seq![KISS_FESC] + x.skip(1) =~= x);
        } else {
            assert(e[0] == x[0]);
            assert(e.skip(1) =~= rest);
            assert(seq![x[0]] + x.skip(1) =~= x);
        }
    }
}

/// A zero-payload KISS data frame on a channel: what a polling bridge
/// sends as a keep-alive when its buffer is empty.
pub fn make_poll_frame(channel: u8) -> (r: Vec<u8>)
    ensures
        r@ == seq![KISS_FEND, spec_type_byte(channel, 0), KISS_FEND],
{
    let type_byte = (channel & 0x0F) << 4;
    assert((channel & 0x0F) << 4 == ((channel & 0x0F) << 4) | (0u8 & 0x0F)) by (bit_vector);
    let mut out: Vec<u8> = Vec::new();
    out.push(KISS_FEND);
    out.push(type_byte);
    out.push(KISS_FEND);
    proof {
        assert(out@ =~= seq![KISS_FEND, spec_type_byte(channel, 0), KISS_FEND]);
    }
    out
}

/// The name of a KISS command nibble.
pub open spec fn spec_command_name(command: u8) -> Seq<char> {
    if command == 0 {
        "Data"@
    } else if command == 1 {
        "TXDELAY"@
    } else if command == 2 {
        "Persistence"@
    } else if command == 3 {
        "SlotTime"@
    } else if command == 4 {
        "TXtail"@
    } else if command == 5 {
        "FullDuplex"@
    } else if command == 6 {
        "SetHardware"@
    } else if command == 15 {
        "Return"@
    } else {
        "Unknown"@
    }
}

/// Names a KISS command nibble.
pub fn kiss_command_name(command: u8) -> (r: &'static str)
    ensures
        r@ == spec_command_name(command),
{
    if command == 0 {
        "Data"
    } else if command == 1 {
        "TXDELAY"
    } else if command == 2 {
        "Persistence"
    } else if command == 3 {
        "SlotTime"
    } else if command == 4 {
        "TXtail"
    } else if command == 5 {
        "FullDuplex"
    } else if command == 6 {
        "SetHardware"
    } else if command == 15 {
        "Return"
    } else {
        "Unknown"
    }
}

/// The AX.25 payload of a complete KISS frame: the bytes between the
/// type byte and the closing FEND, present only for a data frame that
/// carries any. This is what a capture file stores for the frame.
pub fn kiss_data_payload(frame: &[u8]) -> (r: Option<Vec<u8>>)
    requires
        frame@.len() >= 3,
        frame@[0] == KISS_FEND,
        frame@[frame@.len() - 1] == KISS_FEND,
    ensures
        r is Some <==> spec_command_of(frame@[1]) == 0 && frame@.len() > 3,
        r is Some ==> r->0@ == frame@.subrange(2, frame@.len() - 1),
{
    let command = frame[1] & 0x0F;
    if command == 0 && frame.len() > 3 {
        let payload = vstd::slice::slice_subrange(frame, 2, frame.len() - 1);
        Some(vstd::slice::slice_to_vec(payload))
    } else {
        None
    }
}

/// Applies the KISS byte-stuffing rules to a payload.
pub fn escape(data: &[u8]) -> (r: Vec<u8>)
    ensures
        r@ == spec_escape(data@),
{
    let mut out: Vec<u8> = Vec::new();
    let mut i: usize = 0;
    while i < data.len()
        invariant
            i <= data.len(),
            out@ == spec_escape(data@.take(i as int)),
        decreases data.len() - i,
    {
        let b = data[i];
        if b == KISS_FEND {
            out.push(KISS_FESC);
            out.push(KISS_TFEND);
        } else if b == KISS_FESC {
            out.push(KISS_FESC);
            out.push(KISS_TFESC);
        } else {
            out.push(b);
        }
        proof {
            let ghost pre = data@.take(i as int);
            let ghost one = seq![data@[i as int]];
            assert(data@.take(i as int + 1) =~= pre + one);
            lemma_escape_concat(pre, one);
            assert(one[0] == data@[i as int]);
            assert(one.skip(1) =~= Seq::<u8>::empty());
            assert(spec_escape(one) == spec_escape_byte(data@[i as int]) + spec_escape(Seq::<u8>::empty()));
            assert(spec_escape_byte(data@[i as int]) + Seq::<u8>::empty()
                =~= spec_escape_byte(data@[i as int]));
            assert(out@ =~= spec_escape(pre) + spec_escape_byte(data@[i as int]));
        }
        i += 1;
    }
    proof {
        assert(data@.take(data@.len() as int) =~= data@);
    }
    out
}

/// Removes the KISS byte-stuffing from a payload.
pub fn unescape(data: &[u8]) -> (r: Vec<u8>)
    ensures
        r@ == spec_unescape(data@),
{
    let mut out: Vec<u8> = Vec::new();
    let mut i: usize = 0;
    proof {
        assert(data@.skip(0) =~= data@);
        assert(Seq::<u8>::empty() + spec_unescape(data@) =~= spec_unescape(data@));
    }
    while i < data.len()
        invariant
            i <= data.len(),
            spec_unescape(data@) == out@ + spec_unescape(data@.skip(i as int)),
        decreases data.len() - i,
    {
        let ghost tail = data@.skip(i as int);
        let ghost prev = out@;
        let b = data[i];
        if b == KISS_FESC && i + 1 < data.len() {
            let t = data[i + 1];
            let decoded = if t == KISS_TFEND {
                KISS_FEND
            } else if t == KISS_TFESC {
                KISS_FESC
            } else {
                t
            };
            out.push(decoded);
            proof {
                assert(tail[0] == b && tail[1] == t);
                assert(tail.skip(2) =~= data@.skip(i as int + 2));
                assert(spec_unescape(tail) == seq![decoded] + spec_unescape(data@.skip(i as int + 2)));
                assert(out@ =~= prev + seq![decoded]);
                assert((prev + seq![decoded]) + spec_unescape(data@.skip(i as int + 2))
                    =~= prev + (seq![decoded] + spec_unescape(data@.skip(i as int + 2))));
            }
            i += 2;
        } else {
            out.push(b);
            proof {
                assert(tail[0] == b);
                assert(tail.skip(1) =~= data@.skip(i as int + 1));
                assert(spec_unescape(tail) == seq![b] + spec_unescape(data@.skip(i as int + 1)));
                assert(out@ =~= prev + seq![b]);
                assert((prev + seq![b]) + spec_unescape(data@.skip(i as int + 1))
                    =~= prev + (seq![b] + spec_unescape(data@.skip(i as int + 1))));
            }
            i += 1;
        }
    }
    proof {
        assert(data@.skip(data@.len() as int) =~= Seq::<u8>::empty());
    }
    out
}

} // verus!
