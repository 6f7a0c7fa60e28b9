//! The libpcap capture format at byte level: the 24-byte file header and
//! the 16-byte per-packet header, both little-endian. Writing the file is
//! the caller's business; these functions lay the bytes out.

use vstd::prelude::*;
use vstd::bytes::{spec_u16_to_le_bytes, spec_u32_to_le_bytes, u16_to_le_bytes, u32_to_le_bytes};

verus! {

/// The libpcap magic, written little-endian.
pub const PCAP_MAGIC: u32 = 0xa1b2c3d4;
/// Format version 2.4.
pub const PCAP_VERSION_MAJOR: u16 = 2;
/// Format version 2.4.
pub const PCAP_VERSION_MINOR: u16 = 4;
/// Snapshot length: packets are stored whole up to this many bytes.
pub const PCAP_SNAPLEN: u32 = 65535;
/// Link type for AX.25 frames with a KISS type byte.
pub const PCAP_LINKTYPE_AX25_KISS: u32 = 147;

/// The 24 bytes that open a capture file: magic, version 2.4, zone and
/// timestamp accuracy both zero, the snapshot length, and the link type.
pub open spec fn spec_pcap_file_header() -> Seq<u8> {
    spec_u32_to_le_bytes(PCAP_MAGIC) + spec_u16_to_le_bytes(PCAP_VERSION_MAJOR)
        + spec_u16_to_le_bytes(PCAP_VERSION_MINOR) + spec_u32_to_le_bytes(0)
        + spec_u32_to_le_bytes(0) + spec_u32_to_le_bytes(PCAP_SNAPLEN) + spec_u32_to_le_bytes(
        PCAP_LINKTYPE_AX25_KISS,
    )
}

/// The 16 bytes before each stored packet: seconds, microseconds, stored
/// length and original length, all little-endian. Both lengths are the
/// packet's length, which is stored whole.
pub open spec fn spec_pcap_record_header(ts_sec: u32, ts_usec: u32, len: u32) -> Seq<u8> {
    spec_u32_to_le_bytes(ts_sec) + spec_u32_to_le_bytes(ts_usec) + spec_u32_to_le_bytes(len)
        + spec_u32_to_le_bytes(len)
}

/// Lays out the capture file header.
pub fn pcap_file_header() -> (r: Vec<u8>)
    ensures
        r@ == spec_pcap_file_header(),
        r@.len() == 24,
{
    let mut out = u32_to_le_bytes(PCAP_MAGIC);
    let mut part = u16_to_le_bytes(PCAP_VERSION_MAJOR);
    out.append(&mut part);
    let mut part = u16_to_le_bytes(PCAP_VERSION_MINOR);
    out.append(&mut part);
    let mut part = u32_to_le_bytes(0);
    out.append(&mut part);
    let mut part = u32_to_le_bytes(0);
    out.append(&mut part);
    let mut part = u32_to_le_bytes(PCAP_SNAPLEN);
    out.append(&mut part);
    let mut part = u32_to_le_bytes(PCAP_LINKTYPE_AX25_KISS);
    out.append(&mut part);
    out
}

/// Lays out one packet record: the per-packet header followed by the
/// packet's bytes, stored whole.
pub fn pcap_record(ts_sec: u32, ts_usec: u32, packet: &[u8]) -> (r: Vec<u8>)
    requires
        packet@.len() <= PCAP_SNAPLEN,
    ensures
        r@ == spec_pcap_record_header(ts_sec, ts_usec, packet@.len() as u32) + packet@,
{
    let len = packet.len() as u32;
    let mut out = u32_to_le_bytes(ts_sec);
    let mut part = u32_to_le_bytes(ts_usec);
    out.append(&mut part);
    let mut part = u32_to_le_bytes(len);
    out.append(&mut part);
    let mut part = u32_to_le_bytes(len);
    out.append(&mut part);
    let mut body = vstd::slice::slice_to_vec(packet);
    out.append(&mut body);
    out
}

} // verus!
