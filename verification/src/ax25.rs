//! AX.25 addresses and frames as they appear inside KISS data frames:
//! address decoding from the shifted wire form, and enough frame parsing
//! to classify a frame and name both ends of the link.

use vstd::prelude::*;

verus! {

/// The callsign from the first six bytes of a wire address: each byte
/// shifted right one bit gives an ASCII character, and spaces (the
/// padding) are left out.
pub open spec fn spec_callsign(bytes: Seq<u8>) -> Seq<char>
    decreases bytes.len(),
{
    if bytes.len() == 0 {
        Seq::empty()
    } else {
        let c = (bytes[0] >> 1) as char;
        let rest = spec_callsign(bytes.skip(1));
        if c == ' ' {
            rest
        } else {
            seq![c] + rest
        }
    }
}

/// The SSID held in bits 1 to 4 of the seventh address byte.
pub open spec fn spec_ssid(b: u8) -> u8 {
    (b >> 1) & 0x0F
}

/// An AX.25 address as the contracts see it.
pub ghost struct AX25AddressModel {
    pub callsign: Seq<char>,
    pub ssid: u8,
}

/// The address a wire address decodes to.
pub open spec fn spec_parse_address(bytes: Seq<u8>) -> AX25AddressModel {
    AX25AddressModel { callsign: spec_callsign(bytes.take(6)), ssid: spec_ssid(bytes[6]) }
}

/// The decimal digits of an SSID (at most 15).
pub open spec fn spec_ssid_chars(ssid: u8) -> Seq<char> {
    if ssid < 10 {
        seq![((0x30 + ssid) as u8) as char]
    } else {
        seq!['1', ((0x30 + (ssid - 10)) as u8) as char]
    }
}

/// How an address prints: the callsign alone when the SSID is zero, else
/// the callsign, a dash, and the SSID in decimal.
pub open spec fn spec_addr_display(callsign: Seq<char>, ssid: u8) -> Seq<char> {
    if ssid == 0 {
        callsign
    } else {
        callsign + seq!['-'] + spec_ssid_chars(ssid)
    }
}

/// Decoding one more byte extends the callsign by at most one character.
proof fn lemma_callsign_push(bytes: Seq<u8>, b: u8)
    ensures
        spec_callsign(bytes.push(b)) == if ((b >> 1) as char) == ' ' {
            spec_callsign(bytes)
        } else {
            spec_callsign(bytes).push((b >> 1) as char)
        },
    decreases bytes.len(),
{
    let c = (b >> 1) as char;
    if bytes.len() == 0 {
        let one = bytes.push(b);
        assert(one[0] == b);
        assert(one.skip(1) =~= Seq::<u8>::empty());
        assert(spec_callsign(Seq::<u8>::empty()) =~= Seq::<char>::empty());
        if c != ' ' {
            assert(seq![c] + Seq::<char>::empty() =~= Seq::<char>::empty().push(c));
        }
    } else {
        let pushed = bytes.push(b);
        assert(pushed[0] == bytes[0]);
        assert(pushed.skip(1) =~= bytes.skip(1).push(b));
        lemma_callsign_push(bytes.skip(1), b);
        let h = (bytes[0] >> 1) as char;
        if h != ' ' && c != ' ' {
            assert(seq![h] + spec_callsign(bytes.skip(1)).push(c)
                =~= (seq![h] + spec_callsign(bytes.skip(1))).push(c));
        }
    }
}

/// Relies on String::push, which appends the given character to the end
/// of the string.
#[verifier::external_body]
fn string_push(s: &mut String, c: char)
    ensures
        final(s)@ == old(s)@.push(c),
{
    s.push(c);
}

/// A decoded AX.25 address: the callsign and the secondary station id.
pub struct AX25Address {
    pub callsign: String,
    pub ssid: u8,
}

impl View for AX25Address {
    type V = AX25AddressModel;

    open spec fn view(&self) -> AX25AddressModel {
        AX25AddressModel { callsign: self.callsign@, ssid: self.ssid }
    }
}

impl DeepView for AX25Address {
    type V = AX25AddressModel;

    open spec fn deep_view(&self) -> AX25AddressModel {
        self.view()
    }
}

impl AX25Address {
    /// Decodes a 7-byte wire address; anything shorter is refused.
    pub fn from_ax25_bytes(bytes: &[u8]) -> (r: Option<AX25Address>)
        ensures
            r is Some <==> bytes@.len() >= 7,
            r is Some ==> r->0@ == spec_parse_address(bytes@),
    {
        if bytes.len() < 7 {
            return None;
        }
        let mut callsign = String::new();
        let mut i: usize = 0;
        proof {
            assert(bytes@.take(6).take(0) =~= Seq::<u8>::empty());
            assert(spec_callsign(Seq::<u8>::empty()) =~= Seq::<char>::empty());
        }
        while i < 6
            invariant
                i <= 6,
                bytes@.len() >= 7,
                callsign@ == spec_callsign(bytes@.take(6).take(i as int)),
            decreases 6 - i,
        {
            let b = bytes[i];
            let ch = (b >> 1) as char;
            if ch != ' ' {
                string_push(&mut callsign, ch);
            }
            proof {
                assert(bytes@.take(6)[i as int] == b);
                assert(bytes@.take(6).take(i as int + 1) =~= bytes@.take(6).take(i as int).push(b));
                lemma_callsign_push(bytes@.take(6).take(i as int), b);
            }
            i += 1;
        }
        let ssid = (bytes[6] >> 1) & 0x0F;
        proof {
            assert(bytes@.take(6).take(6) =~= bytes@.take(6));
        }
        Some(AX25Address { callsign, ssid })
    }

    /// The address as text: `CALL` when the SSID is zero, `CALL-N`
    /// otherwise.
    pub fn to_string(&self) -> (r: String)
        requires
            self.ssid <= 15,
        ensures
            r@ == spec_addr_display(self.callsign@, self.ssid),
    {
        let mut out = self.callsign.clone();
        if self.ssid == 0 {
            return out;
        }
        string_push(&mut out, '-');
        if self.ssid < 10 {
            string_push(&mut out, (0x30 + self.ssid) as char);
        } else {
            string_push(&mut out, '1');
            string_push(&mut out, (0x30 + (self.ssid - 10)) as char);
        }
        proof {
            if self.ssid < 10 {
                assert(self.callsign@.push('-').push(((0x30 + self.ssid) as u8) as char)
                    =~= self.callsign@ + seq!['-'] + spec_ssid_chars(self.ssid));
            } else {
                assert(self.callsign@.push('-').push('1').push(
                    ((0x30 + (self.ssid - 10)) as u8) as char,
                ) =~= self.callsign@ + seq!['-'] + spec_ssid_chars(self.ssid));
            }
        }
        out
    }
}

/// The digipeater list: 7-byte addresses from `offset` on, up to and
/// including the first whose extension bit is set, stopping early when
/// fewer than 7 bytes remain. Returns the addresses and the offset of the
/// byte after them.
pub open spec fn spec_parse_digis(data: Seq<u8>, offset: int) -> (Seq<AX25AddressModel>, int)
    decreases data.len() - offset when 0 <= offset
{
    if offset + 7 <= data.len() {
        let digi = spec_parse_address(data.subrange(offset, offset + 7));
        if data[offset + 6] & 0x01 != 0 {
            (seq![digi], offset + 7)
        } else {
            let rest = spec_parse_digis(data, offset + 7);
            (seq![digi] + rest.0, rest.1)
        }
    } else {
        (Seq::empty(), offset)
    }
}

/// An AX.25 frame as the contracts see it.
pub ghost struct AX25FrameModel {
    pub destination: AX25AddressModel,
    pub source: AX25AddressModel,
    pub digipeaters: Seq<AX25AddressModel>,
    pub control: u8,
    pub pid: Option<u8>,
    pub info: Seq<u8>,
}

/// The frame an AX.25 payload parses to: destination and source
/// addresses, the digipeater list, the control byte, a PID byte for I and
/// UI frames when one is present, and the information field. A payload
/// under 16 bytes, or one that ends inside the address list, is refused.
pub open spec fn spec_parse_frame(data: Seq<u8>) -> Option<AX25FrameModel> {
    if data.len() < 16 {
        None
    } else {
        let destination = spec_parse_address(data.take(7));
        let source = spec_parse_address(data.subrange(7, 14));
        let digis = spec_parse_digis(data, 14);
        let control_offset = digis.1;
        if control_offset >= data.len() {
            None
        } else {
            let control = data[control_offset];
            let has_pid = (control & 0x03) == 0x00 || (control & 0x03) == 0x03;
            let pid = if has_pid && control_offset + 1 < data.len() {
                Some(data[control_offset + 1])
            } else {
                None
            };
            let info_offset = control_offset + 1 + (if pid is Some { 1int } else { 0int });
            Some(AX25FrameModel {
                destination,
                source,
                digipeaters: digis.0,
                control,
                pid,
                info: data.skip(info_offset),
            })
        }
    }
}

/// A decoded AX.25 frame.
pub struct AX25Frame {
    pub destination: AX25Address,
    pub source: AX25Address,
    pub digipeaters: Vec<AX25Address>,
    pub control: u8,
    pub pid: Option<u8>,
    pub info: Vec<u8>,
}

impl View for AX25Frame {
    type V = AX25FrameModel;

    open spec fn view(&self) -> AX25FrameModel {
        AX25FrameModel {
            destination: self.destination@,
            source: self.source@,
            digipeaters: self.digipeaters.deep_view(),
            control: self.control,
            pid: self.pid,
            info: self.info@,
        }
    }
}

/// The kind a control byte gives a frame.
pub enum AX25FrameType {
    IFrame,
    SFrame,
    UFrame,
    UIFrame,
    Unknown,
}

/// Frame classification from the control byte: bit 0 clear is an I frame,
/// the low pair 01 a supervisory frame, 11 an unnumbered frame, among
/// which the UI pattern is told apart.
pub open spec fn spec_frame_type(control: u8) -> AX25FrameType {
    if (control & 0x01) == 0 {
        AX25FrameType::IFrame
    } else if (control & 0x03) == 0x01 {
        AX25FrameType::SFrame
    } else if (control & 0x03) == 0x03 {
        if (control & 0xEF) == 0x03 {
            AX25FrameType::UIFrame
        } else {
            AX25FrameType::UFrame
        }
    } else {
        AX25FrameType::Unknown
    }
}

/// What phase of a connection a frame belongs to, as text.
pub open spec fn spec_connection_phase(control: u8) -> Seq<char> {
    match spec_frame_type(control) {
        AX25FrameType::IFrame => "CONNECTED (Information Transfer)"@,
        AX25FrameType::SFrame => "CONNECTED (Supervisory)"@,
        AX25FrameType::UFrame => {
            if (control & 0xEF) == 0x2F {
                "SETUP (SABM)"@
            } else if (control & 0xEF) == 0x63 {
                "SETUP (SABME)"@
            } else if (control & 0xEF) == 0x43 {
                "DISCONNECT (DISC)"@
            } else if (control & 0xEF) == 0x0F {
                "DISCONNECT (DM)"@
            } else if (control & 0xEF) == 0x87 {
                "ERROR (FRMR)"@
            } else {
                "CONTROL (Unnumbered)"@
            }
        },
        AX25FrameType::UIFrame => "UNCONNECTED (UI Frame)"@,
        AX25FrameType::Unknown => "UNKNOWN"@,
    }
}

impl AX25Frame {
    /// Parses an AX.25 payload into its addresses and fields.
    pub fn parse(data: &[u8]) -> (r: Option<AX25Frame>)
        ensures
            r is Some <==> spec_parse_frame(data@) is Some,
            r is Some ==> r->0@ == spec_parse_frame(data@)->0,
    {
        if data.len() < 16 {
            return None;
        }
        let destination = match AX25Address::from_ax25_bytes(vstd::slice::slice_subrange(data, 0, 7)) {
            Some(a) => a,
            None => {
                return None;
            },
        };
        let source = match AX25Address::from_ax25_bytes(vstd::slice::slice_subrange(data, 7, 14)) {
            Some(a) => a,
            None => {
                return None;
            },
        };
        proof {
            assert(data@.subrange(0, 7) =~= data@.take(7));
            assert(destination@ == spec_parse_address(data@.take(7)));
            assert(source@ == spec_parse_address(data@.subrange(7, 14)));
        }

        let mut digipeaters: Vec<AX25Address> = Vec::new();
        let mut offset: usize = 14;
        let mut ended = false;
        let ghost whole = spec_parse_digis(data@, 14);
        proof {
            assert(digipeaters.deep_view() =~~= Seq::<AX25AddressModel>::empty());
            assert(Seq::<AX25AddressModel>::empty() + spec_parse_digis(data@, 14).0
                =~= spec_parse_digis(data@, 14).0);
        }
        while offset <= data.len() - 7 && !ended
            invariant
                14 <= offset <= data@.len() + 7,
                data@.len() >= 16,
                whole == spec_parse_digis(data@, 14),
                !ended ==> whole.0 == digipeaters.deep_view() + spec_parse_digis(
                    data@,
                    offset as int,
                ).0,
                !ended ==> whole.1 == spec_parse_digis(data@, offset as int).1,
                ended ==> whole.0 == digipeaters.deep_view() && whole.1 == offset,
            decreases data.len() + 7 - offset, (if ended { 0int } else { 1int }),
        {
            let ghost digis_pre = digipeaters.deep_view();
            let addr_byte_6 = data[offset + 6];
            let digi = match AX25Address::from_ax25_bytes(
                vstd::slice::slice_subrange(data, offset, offset + 7),
            ) {
                Some(a) => a,
                None => {
                    return None;
                },
            };
            proof {
                assert(digi@ == spec_parse_address(data@.subrange(offset as int, offset as int + 7)));
            }
            digipeaters.push(digi);
            offset += 7;
            if addr_byte_6 & 0x01 != 0 {
                ended = true;
            }
            proof {
                let ghost prev = (offset - 7) as int;
                let ghost here = spec_parse_digis(data@, prev);
                let ghost digi_model = spec_parse_address(data@.subrange(prev, prev + 7));
                assert(digipeaters.deep_view() =~~= digis_pre.push(digi_model));
                if addr_byte_6 & 0x01 != 0 {
                    assert(here == (seq![digi_model], prev + 7));
                    assert(digis_pre + seq![digi_model] =~= digis_pre.push(digi_model));
                } else {
                    assert(here.0 == seq![digi_model] + spec_parse_digis(data@, offset as int).0);
                    assert(digis_pre + (seq![digi_model] + spec_parse_digis(data@, offset as int).0)
                        =~= digis_pre.push(digi_model) + spec_parse_digis(data@, offset as int).0);
                }
            }
        }
        proof {
            if !ended {
                assert(spec_parse_digis(data@, offset as int).0 =~= Seq::<AX25AddressModel>::empty());
                assert(digipeaters.deep_view() + Seq::<AX25AddressModel>::empty()
                    =~= digipeaters.deep_view());
            }
            assert(whole.0 == digipeaters.deep_view());
            assert(whole.1 == offset);
        }

        if offset >= data.len() {
            return None;
        }
        let control = data[offset];
        offset += 1;
        let has_pid = (control & 0x03) == 0x00 || (control & 0x03) == 0x03;
        let pid = if has_pid && offset < data.len() {
            let p = data[offset];
            offset += 1;
            Some(p)
        } else {
            None
        };
        let info = vstd::slice::slice_to_vec(vstd::slice::slice_subrange(data, offset, data.len()));
        proof {
            assert(info@ =~= data@.skip(offset as int));
        }
        Some(AX25Frame { destination, source, digipeaters, control, pid, info })
    }

    /// The kind of this frame, read from the control byte.
    pub fn get_frame_type(&self) -> (r: AX25FrameType)
        ensures
            r == spec_frame_type(self.control),
    {
        if (self.control & 0x01) == 0 {
            AX25FrameType::IFrame
        } else if (self.control & 0x03) == 0x01 {
            AX25FrameType::SFrame
        } else if (self.control & 0x03) == 0x03 {
            if (self.control & 0xEF) == 0x03 {
                AX25FrameType::UIFrame
            } else {
                AX25FrameType::UFrame
            }
        } else {
            AX25FrameType::Unknown
        }
    }

    /// The connection phase this frame belongs to, as text.
    pub fn get_connection_phase(&self) -> (r: &'static str)
        ensures
            r@ == spec_connection_phase(self.control),
    {
        match self.get_frame_type() {
            AX25FrameType::IFrame => "CONNECTED (Information Transfer)",
            AX25FrameType::SFrame => "CONNECTED (Supervisory)",
            AX25FrameType::UFrame => {
                let masked = self.control & 0xEF;
                if masked == 0x2F {
                    "SETUP (SABM)"
                } else if masked == 0x63 {
                    "SETUP (SABME)"
                } else if masked == 0x43 {
                    "DISCONNECT (DISC)"
                } else if masked == 0x0F {
                    "DISCONNECT (DM)"
                } else if masked == 0x87 {
                    "ERROR (FRMR)"
                } else {
                    "CONTROL (Unnumbered)"
                }
            },
            AX25FrameType::UIFrame => "UNCONNECTED (UI Frame)",
            AX25FrameType::Unknown => "UNKNOWN",
        }
    }
}

} // verus!
