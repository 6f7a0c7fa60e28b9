//! The AGWPE protocol at byte level: the 36-byte little-endian header,
//! splitting a TCP stream into whole AGWPE frames without ever consuming
//! a partial one, the raw-data wrap into a KISS frame, and the decisions
//! a client's commands ask for.

use vstd::prelude::*;
use vstd::bytes::{spec_u32_from_le_bytes, spec_u32_to_le_bytes, u32_from_le_bytes, u32_to_le_bytes};
use crate::kiss::{spec_type_byte, KISS_FEND};

verus! {

/// Port-information request and reply.
pub const AGW_KIND_PORT_INFO: u8 = 0x47;
/// Port-capabilities request and reply.
pub const AGW_KIND_CAPABILITIES: u8 = 0x67;
/// Register a callsign.
pub const AGW_KIND_REGISTER: u8 = 0x58;
/// Unregister the callsign.
pub const AGW_KIND_UNREGISTER: u8 = 0x78;
/// Monitoring on.
pub const AGW_KIND_MONITOR_ON: u8 = 0x4D;
/// Monitoring off.
pub const AGW_KIND_MONITOR_OFF: u8 = 0x6D;
/// Raw AX.25 data, from a client to transmit or to one without
/// monitoring.
pub const AGW_KIND_RAW: u8 = 0x4B;
/// A monitored frame toward a monitoring client.
pub const AGW_KIND_MONITORED: u8 = 0x55;

/// The header length on the wire.
pub const AGW_HEADER_LEN: usize = 36;

/// An AGWPE header as the contracts see it. The reserved bytes are zero
/// on output and ignored on input.
pub ghost struct AgwHeaderModel {
    pub port: u32,
    pub kind: u8,
    pub pid: u8,
    pub call_from: Seq<u8>,
    pub call_to: Seq<u8>,
    pub data_len: u32,
}

/// The 36 bytes of a header: port, four reserved zero bytes around kind
/// and pid, the two 10-byte callsign fields, and the payload length,
/// little-endian throughout.
pub open spec fn spec_agw_header_bytes(h: AgwHeaderModel) -> Seq<u8> {
    spec_u32_to_le_bytes(h.port) + seq![0u8, 0u8, 0u8, 0u8] + seq![h.kind, 0u8, h.pid, 0u8]
        + h.call_from + h.call_to + spec_u32_to_le_bytes(h.data_len)
}

/// The header that 36 bytes decode to.
pub open spec fn spec_parse_agw_header(s: Seq<u8>) -> AgwHeaderModel {
    AgwHeaderModel {
        port: spec_u32_from_le_bytes(s.subrange(0, 4)),
        kind: s[8],
        pid: s[10],
        call_from: s.subrange(12, 22),
        call_to: s.subrange(22, 32),
        data_len: spec_u32_from_le_bytes(s.subrange(32, 36)),
    }
}

/// A decoded AGWPE header.
pub struct AgwHeader {
    pub port: u32,
    pub kind: u8,
    pub pid: u8,
    pub call_from: Vec<u8>,
    pub call_to: Vec<u8>,
    pub data_len: u32,
}

impl View for AgwHeader {
    type V = AgwHeaderModel;

    open spec fn view(&self) -> AgwHeaderModel {
        AgwHeaderModel {
            port: self.port,
            kind: self.kind,
            pid: self.pid,
            call_from: self.call_from@,
            call_to: self.call_to@,
            data_len: self.data_len,
        }
    }
}

impl AgwHeader {
    /// Lays the header out on the wire.
    pub fn pack(&self) -> (r: Vec<u8>)
        requires
            self.call_from@.len() == 10,
            self.call_to@.len() == 10,
        ensures
            r@ == spec_agw_header_bytes(self@),
            r@.len() == AGW_HEADER_LEN,
    {
        let mut out = u32_to_le_bytes(self.port);
        out.push(0);
        out.push(0);
        out.push(0);
        out.push(0);
        out.push(self.kind);
        out.push(0);
        out.push(self.pid);
        out.push(0);
        out.extend_from_slice(self.call_from.as_slice());
        out.extend_from_slice(self.call_to.as_slice());
        let mut len_bytes = u32_to_le_bytes(self.data_len);
        out.append(&mut len_bytes);
        proof {
            assert(out@ =~= spec_agw_header_bytes(self@));
        }
        out
    }

    /// Decodes a header from the first 36 bytes of a buffer.
    pub fn parse(buf: &[u8]) -> (r: AgwHeader)
        requires
            buf@.len() >= AGW_HEADER_LEN,
        ensures
            r@ == spec_parse_agw_header(buf@.take(AGW_HEADER_LEN as int)),
    {
        let port = u32_from_le_bytes(vstd::slice::slice_subrange(buf, 0, 4));
        let kind = buf[8];
        let pid = buf[10];
        let call_from = vstd::slice::slice_to_vec(vstd::slice::slice_subrange(buf, 12, 22));
        let call_to = vstd::slice::slice_to_vec(vstd::slice::slice_subrange(buf, 22, 32));
        let data_len = u32_from_le_bytes(vstd::slice::slice_subrange(buf, 32, 36));
        let r = AgwHeader { port, kind, pid, call_from, call_to, data_len };
        proof {
            let t = buf@.take(AGW_HEADER_LEN as int);
            assert(t.subrange(0, 4) =~= buf@.subrange(0, 4));
            assert(t[8] == buf@[8] && t[10] == buf@[10]);
            assert(t.subrange(12, 22) =~= buf@.subrange(12, 22));
            assert(t.subrange(22, 32) =~= buf@.subrange(22, 32));
            assert(t.subrange(32, 36) =~= buf@.subrange(32, 36));
        }
        r
    }
}

/// Packing a header and decoding the bytes gives the header back.
pub proof fn lemma_agw_header_round_trip(h: AgwHeaderModel)
    requires
        h.call_from.len() == 10,
        h.call_to.len() == 10,
    ensures
        spec_agw_header_bytes(h).len() == AGW_HEADER_LEN,
        spec_parse_agw_header(spec_agw_header_bytes(h)) == h,
{
    vstd::bytes::lemma_auto_spec_u32_to_from_le_bytes();
    let s = spec_agw_header_bytes(h);
    assert(s.subrange(0, 4) =~= spec_u32_to_le_bytes(h.port));
    assert(s[8] == h.kind);
    assert(s[10] == h.pid);
    assert(s.subrange(12, 22) =~= h.call_from);
    assert(s.subrange(22, 32) =~= h.call_to);
    assert(s.subrange(32, 36) =~= spec_u32_to_le_bytes(h.data_len));
    assert(spec_parse_agw_header(s) == h);
}

/// How a buffered TCP stream splits into whole AGWPE frames: headers
/// with their payloads, and how many bytes they cover. A header whose
/// payload has not yet arrived, or a tail shorter than a header, is left
/// unconsumed.
pub open spec fn spec_agw_split(s: Seq<u8>) -> (Seq<(AgwHeaderModel, Seq<u8>)>, int)
    decreases s.len(),
{
    if s.len() < AGW_HEADER_LEN {
        (Seq::empty(), 0)
    } else {
        let h = spec_parse_agw_header(s.take(AGW_HEADER_LEN as int));
        let total = AGW_HEADER_LEN + h.data_len as int;
        if total <= s.len() {
            let rest = spec_agw_split(s.skip(total));
            (seq![(h, s.subrange(AGW_HEADER_LEN as int, total))] + rest.0, total + rest.1)
        } else {
            (Seq::empty(), 0)
        }
    }
}

/// Splits a buffered stream into whole AGWPE frames, in stream order,
/// and says how many bytes were consumed; nothing of a partial frame is
/// taken.
pub fn parse_agw_stream(buf: &[u8]) -> (r: (Vec<(AgwHeader, Vec<u8>)>, usize))
    ensures
        ({
            let split = spec_agw_split(buf@);
            &&& r.1 == split.1
            &&& r.1 <= buf@.len()
            &&& r.0@.len() == split.0.len()
            &&& forall|k: int| 0 <= k < split.0.len()
                ==> (#[trigger] r.0@[k]).0@ == split.0[k].0 && r.0@[k].1@ == split.0[k].1
        }),
{
    let mut frames: Vec<(AgwHeader, Vec<u8>)> = Vec::new();
    let mut pos: usize = 0;
    let mut done = false;
    let n = buf.len();
    let ghost whole = spec_agw_split(buf@);
    proof {
        assert(buf@.skip(0) =~= buf@);
    }
    while !done
        invariant
            pos <= n,
            n == buf@.len(),
            whole == spec_agw_split(buf@),
            forall|k: int| 0 <= k < frames@.len()
                ==> (#[trigger] frames@[k]).0@ == whole.0[k].0 && frames@[k].1@ == whole.0[k].1,
            !done ==> whole.0.len() == frames@.len() + spec_agw_split(buf@.skip(pos as int)).0.len(),
            !done ==> whole.1 == pos + spec_agw_split(buf@.skip(pos as int)).1,
            !done ==> forall|k: int|
                0 <= k < spec_agw_split(buf@.skip(pos as int)).0.len()
                    ==> #[trigger] spec_agw_split(buf@.skip(pos as int)).0[k] == whole.0[frames@.len()
                        + k],
            done ==> frames@.len() == whole.0.len() && pos == whole.1,
        decreases n - pos, (if done { 0int } else { 1int }),
    {
        let ghost tail = buf@.skip(pos as int);
        if n - pos < AGW_HEADER_LEN {
            done = true;
            proof {
                assert(spec_agw_split(tail).0.len() == 0 && spec_agw_split(tail).1 == 0);
            }
        } else {
            let header = AgwHeader::parse(vstd::slice::slice_subrange(buf, pos, n));
            proof {
                assert(buf@.subrange(pos as int, n as int).take(AGW_HEADER_LEN as int)
                    =~= tail.take(AGW_HEADER_LEN as int));
            }
            let need = header.data_len as usize;
            if need > n - pos - AGW_HEADER_LEN {
                done = true;
                proof {
                    assert(spec_agw_split(tail).0.len() == 0 && spec_agw_split(tail).1 == 0);
                }
            } else {
                let payload = vstd::slice::slice_to_vec(
                    vstd::slice::slice_subrange(buf, pos + AGW_HEADER_LEN, pos + AGW_HEADER_LEN + need),
                );
                let ghost fr_prev = frames@;
                let ghost hm = header@;
                let ghost pm = payload@;
                proof {
                    assert(pm =~= tail.subrange(AGW_HEADER_LEN as int, AGW_HEADER_LEN + need));
                    assert(tail.skip(AGW_HEADER_LEN + need) =~= buf@.skip(
                        pos as int + AGW_HEADER_LEN + need,
                    ));
                    assert(spec_agw_split(tail).0[0] == (hm, pm));
                }
                frames.push((header, payload));
                pos = pos + AGW_HEADER_LEN + need;
                proof {
                    assert(frames@.len() == fr_prev.len() + 1);
                    assert(frames@[fr_prev.len() as int].0@ == hm);
                    assert(frames@[fr_prev.len() as int].1@ == pm);
                    assert(forall|k: int| 0 <= k < spec_agw_split(buf@.skip(pos as int)).0.len()
                        ==> #[trigger] spec_agw_split(buf@.skip(pos as int)).0[k]
                            == spec_agw_split(tail).0[k + 1]);
                }
            }
        }
    }
    (frames, pos)
}

/// The 12-byte capability vector of a capabilities reply: the port can
/// monitor, transmit and hear; the rest is reserved.
pub fn agw_capabilities() -> (r: Vec<u8>)
    ensures
        r@ == seq![1u8, 1u8, 1u8, 0u8, 0u8, 0u8, 0u8, 0u8, 0u8, 0u8, 0u8, 0u8],
{
    let mut out: Vec<u8> = Vec::new();
    out.push(1);
    out.push(1);
    out.push(1);
    let mut i: usize = 0;
    while i < 9
        invariant
            i <= 9,
            out@.len() == 3 + i,
            out@[0] == 1u8 && out@[1] == 1u8 && out@[2] == 1u8,
            forall|k: int| 3 <= k < out@.len() ==> out@[k] == 0u8,
        decreases 9 - i,
    {
        out.push(0);
        i += 1;
    }
    proof {
        assert(out@ =~= seq![1u8, 1u8, 1u8, 0u8, 0u8, 0u8, 0u8, 0u8, 0u8, 0u8, 0u8, 0u8]);
    }
    out
}

/// Wraps raw AX.25 bytes from a client in a KISS data frame on a
/// channel, ready for the device: FEND, the type byte, the payload
/// verbatim, FEND.
pub fn agw_raw_to_kiss(channel: u8, payload: &[u8]) -> (r: Vec<u8>)
    ensures
        r@ == seq![KISS_FEND, spec_type_byte(channel, 0)] + payload@ + seq![KISS_FEND],
{
    let type_byte = (channel & 0x0F) << 4;
    assert((channel & 0x0F) << 4 == ((channel & 0x0F) << 4) | (0u8 & 0x0F)) by (bit_vector);
    let mut out: Vec<u8> = Vec::new();
    out.push(KISS_FEND);
    out.push(type_byte);
    out.extend_from_slice(payload);
    out.push(KISS_FEND);
    proof {
        assert(out@ =~= seq![KISS_FEND, spec_type_byte(channel, 0)] + payload@ + seq![KISS_FEND]);
    }
    out
}

/// The visible characters of a callsign from the first six bytes of a
/// wire address: each byte shifted right one bit, the padding spaces
/// left out.
pub open spec fn spec_callsign_bytes(bytes: Seq<u8>) -> Seq<u8>
    decreases bytes.len(),
{
    if bytes.len() == 0 {
        Seq::empty()
    } else {
        let c = bytes[0] >> 1;
        let rest = spec_callsign_bytes(bytes.skip(1));
        if c == 0x20 {
            rest
        } else {
            seq![c] + rest
        }
    }
}

/// The decimal digits of an SSID, at most 15, as ASCII bytes.
pub open spec fn spec_ssid_digits(ssid: u8) -> Seq<u8> {
    if ssid < 10 {
        seq![(0x30 + ssid) as u8]
    } else {
        seq![0x31u8, (0x30 + (ssid - 10)) as u8]
    }
}

/// The text of one wire address as it appears in a header callsign
/// field: the callsign, then a dash and the SSID in decimal when the
/// SSID is not zero.
pub open spec fn spec_call_text(addr: Seq<u8>) -> Seq<u8> {
    let ssid = (addr[6] >> 1) & 0x0F;
    if ssid == 0 {
        spec_callsign_bytes(addr.take(6))
    } else {
        spec_callsign_bytes(addr.take(6)) + seq![0x2Du8] + spec_ssid_digits(ssid)
    }
}

/// A 10-byte header callsign field: the address text padded with NULs.
pub open spec fn spec_call_field(addr: Seq<u8>) -> Seq<u8> {
    spec_call_text(addr) + Seq::new((10 - spec_call_text(addr).len()) as nat, |k: int| 0u8)
}

/// Decoding one more byte extends the callsign by at most one
/// character.
proof fn lemma_callsign_bytes_push(bytes: Seq<u8>, b: u8)
    ensures
        spec_callsign_bytes(bytes.push(b)) == if (b >> 1) == 0x20 {
            spec_callsign_bytes(bytes)
        } else {
            spec_callsign_bytes(bytes).push(b >> 1)
        },
    decreases bytes.len(),
{
    let c = b >> 1;
    if bytes.len() == 0 {
        let one = bytes.push(b);
        assert(one[0] == b);
        assert(one.skip(1) =~= Seq::<u8>::empty());
        assert(spec_callsign_bytes(Seq::<u8>::empty()) =~= Seq::<u8>::empty());
        if c != 0x20 {
            assert(seq![c] + Seq::<u8>::empty() =~= Seq::<u8>::empty().push(c));
        }
    } else {
        let pushed = bytes.push(b);
        assert(pushed[0] == bytes[0]);
        assert(pushed.skip(1) =~= bytes.skip(1).push(b));
        lemma_callsign_bytes_push(bytes.skip(1), b);
        let h = bytes[0] >> 1;
        if h != 0x20 && c != 0x20 {
            assert(seq![h] + spec_callsign_bytes(bytes.skip(1)).push(c)
                =~= (seq![h] + spec_callsign_bytes(bytes.skip(1))).push(c));
        }
    }
}

/// Builds the 10-byte header callsign field for one wire address.
pub fn agw_call_field(addr: &[u8]) -> (r: Vec<u8>)
    requires
        addr@.len() == 7,
    ensures
        r@ == spec_call_field(addr@),
        r@.len() == 10,
{
    let mut out: Vec<u8> = Vec::new();
    let mut i: usize = 0;
    proof {
        assert(addr@.take(6).take(0) =~= Seq::<u8>::empty());
        assert(spec_callsign_bytes(Seq::<u8>::empty()) =~= Seq::<u8>::empty());
    }
    while i < 6
        invariant
            i <= 6,
            addr@.len() == 7,
            out@ == spec_callsign_bytes(addr@.take(6).take(i as int)),
            out@.len() <= i,
        decreases 6 - i,
    {
        let c = addr[i] >> 1;
        if c != 0x20 {
            out.push(c);
        }
        proof {
            assert(addr@.take(6)[i as int] == addr@[i as int]);
            assert(addr@.take(6).take(i as int + 1) =~= addr@.take(6).take(i as int).push(
                addr@[i as int],
            ));
            lemma_callsign_bytes_push(addr@.take(6).take(i as int), addr@[i as int]);
        }
        i += 1;
    }
    proof {
        assert(addr@.take(6).take(6) =~= addr@.take(6));
    }
    let a6 = addr[6];
    let ssid = (a6 >> 1) & 0x0F;
    assert((a6 >> 1) & 0x0F < 16) by (bit_vector);
    if ssid != 0 {
        out.push(0x2D);
        if ssid < 10 {
            out.push(0x30 + ssid);
        } else {
            out.push(0x31);
            out.push(0x30 + (ssid - 10));
        }
    }
    proof {
        assert(out@ =~= spec_call_text(addr@));
    }
    let ghost text = out@;
    while out.len() < 10
        invariant
            text == spec_call_text(addr@),
            text.len() <= 10,
            out@.len() <= 10,
            out@ == text + Seq::new((out@.len() - text.len()) as nat, |k: int| 0u8),
        decreases 10 - out.len(),
    {
        out.push(0);
        proof {
            assert(out@ =~= text + Seq::new((out@.len() - text.len()) as nat, |k: int| 0u8));
        }
    }
    proof {
        assert(out@ =~= spec_call_field(addr@));
    }
    out
}

/// The header an outgoing KISS data frame is announced with: monitored
/// or raw by the client's monitor flag, the callsign fields read from
/// the payload's first two AX.25 addresses (destination, then source),
/// no PID, and the payload length. A payload too short to carry two
/// addresses gets no header.
pub fn agw_header_for_payload(port: u32, monitor: bool, payload: &[u8]) -> (r: Option<AgwHeader>)
    requires
        payload@.len() <= u32::MAX,
    ensures
        r is Some <==> payload@.len() >= 14,
        r is Some ==> r->0@ == (AgwHeaderModel {
            port,
            kind: if monitor {
                AGW_KIND_MONITORED
            } else {
                AGW_KIND_RAW
            },
            pid: 0,
            call_from: spec_call_field(payload@.subrange(7, 14)),
            call_to: spec_call_field(payload@.take(7)),
            data_len: payload@.len() as u32,
        }),
{
    if payload.len() < 14 {
        return None;
    }
    let call_to = agw_call_field(vstd::slice::slice_subrange(payload, 0, 7));
    let call_from = agw_call_field(vstd::slice::slice_subrange(payload, 7, 14));
    let kind = if monitor {
        AGW_KIND_MONITORED
    } else {
        AGW_KIND_RAW
    };
    proof {
        assert(payload@.subrange(0, 7) =~= payload@.take(7));
    }
    Some(AgwHeader { port, kind, pid: 0, call_from, call_to, data_len: payload.len() as u32 })
}

/// What an AGWPE command asks the endpoint to do.
#[derive(Clone, Copy, Debug, PartialEq, Eq, Structural)]
pub enum AgwAction {
    /// Reply with a port-information frame.
    SendPortInfo,
    /// Reply with the capability vector.
    SendCapabilities,
    /// Acknowledge a callsign registration.
    SendRegisterAck,
    /// Write the payload to the device as a KISS data frame.
    TransmitRaw,
    /// Log and drop.
    Ignore,
}

/// One AGWPE client's registration and monitoring state.
pub struct AgwClientState {
    pub registered_call: Option<Vec<u8>>,
    pub monitor: bool,
}

impl AgwClientState {
    /// A fresh client: nothing registered, monitoring off.
    pub fn new() -> (r: Self)
        ensures
            r.registered_call is None,
            !r.monitor,
    {
        AgwClientState { registered_call: None, monitor: false }
    }

    /// Decides what one received AGWPE frame asks for, updating the
    /// client's registration and monitor flag as the command says.
    pub fn handle_frame(&mut self, kind: u8, call_from: &Vec<u8>) -> (r: AgwAction)
        ensures
            kind == AGW_KIND_PORT_INFO ==> r == AgwAction::SendPortInfo && *final(self)
                == *old(self),
            kind == AGW_KIND_CAPABILITIES ==> r == AgwAction::SendCapabilities && *final(self)
                == *old(self),
            kind == AGW_KIND_REGISTER ==> r == AgwAction::SendRegisterAck
                && final(self).registered_call is Some
                && final(self).registered_call->0@ == call_from@
                && final(self).monitor == old(self).monitor,
            kind == AGW_KIND_UNREGISTER ==> r == AgwAction::Ignore
                && final(self).registered_call is None
                && final(self).monitor == old(self).monitor,
            kind == AGW_KIND_MONITOR_ON ==> r == AgwAction::Ignore && final(self).monitor
                && final(self).registered_call == old(self).registered_call,
            kind == AGW_KIND_MONITOR_OFF ==> r == AgwAction::Ignore && !final(self).monitor
                && final(self).registered_call == old(self).registered_call,
            kind == AGW_KIND_RAW ==> r == AgwAction::TransmitRaw && *final(self) == *old(self),
            kind != AGW_KIND_PORT_INFO && kind != AGW_KIND_CAPABILITIES && kind
                != AGW_KIND_REGISTER && kind != AGW_KIND_UNREGISTER && kind != AGW_KIND_MONITOR_ON
                && kind != AGW_KIND_MONITOR_OFF && kind != AGW_KIND_RAW ==> r == AgwAction::Ignore
                && *final(self) == *old(self),
    {
        if kind == AGW_KIND_PORT_INFO {
            AgwAction::SendPortInfo
        } else if kind == AGW_KIND_CAPABILITIES {
            AgwAction::SendCapabilities
        } else if kind == AGW_KIND_REGISTER {
            self.registered_call = Some(call_from.clone());
            AgwAction::SendRegisterAck
        } else if kind == AGW_KIND_UNREGISTER {
            self.registered_call = None;
            AgwAction::Ignore
        } else if kind == AGW_KIND_MONITOR_ON {
            self.monitor = true;
            AgwAction::Ignore
        } else if kind == AGW_KIND_MONITOR_OFF {
            self.monitor = false;
            AgwAction::Ignore
        } else if kind == AGW_KIND_RAW {
            AgwAction::TransmitRaw
        } else {
            AgwAction::Ignore
        }
    }

    /// The kind a frame from serial carries toward this client: a
    /// monitored frame when monitoring is on, raw data otherwise.
    pub fn emit_kind(&self) -> (r: u8)
        ensures
            r == if self.monitor {
                AGW_KIND_MONITORED
            } else {
                AGW_KIND_RAW
            },
    {
        if self.monitor {
            AGW_KIND_MONITORED
        } else {
            AGW_KIND_RAW
        }
    }
}

} // verus!
