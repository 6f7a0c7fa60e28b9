use rax25kb::agw::{
    agw_capabilities, agw_header_for_payload, agw_raw_to_kiss, parse_agw_stream, AgwAction,
    AgwClientState, AgwHeader,
};

/// A 36-byte header with the given kind, callsigns and payload length.
fn header_bytes(kind: u8, call_from: &[u8], data_len: u32) -> Vec<u8> {
    let mut from = call_from.to_vec();
    from.resize(10, 0);
    let header = AgwHeader {
        port: 0,
        kind,
        pid: 0,
        call_from: from,
        call_to: vec![0; 10],
        data_len,
    };
    header.pack()
}

#[test]
fn agw_header_round_trip() {
    let mut from = b"N0CALL".to_vec();
    from.resize(10, 0);
    let mut to = b"CQ".to_vec();
    to.resize(10, b' ');
    let header = AgwHeader {
        port: 2,
        kind: b'K',
        pid: 0xF0,
        call_from: from.clone(),
        call_to: to.clone(),
        data_len: 17,
    };
    let bytes = header.pack();
    assert_eq!(bytes.len(), 36);
    let parsed = AgwHeader::parse(&bytes);
    assert_eq!(parsed.port, 2);
    assert_eq!(parsed.kind, b'K');
    assert_eq!(parsed.pid, 0xF0);
    assert_eq!(parsed.call_from, from);
    assert_eq!(parsed.call_to, to);
    assert_eq!(parsed.data_len, 17);
}

#[test]
fn back_to_back_requests_in_order() {
    // One read holding a port-info and a capabilities request must
    // produce both frames, in order, and consume both whole.
    let mut stream = header_bytes(b'G', b"", 0);
    stream.extend(header_bytes(b'g', b"", 0));
    let (frames, consumed) = parse_agw_stream(&stream);
    assert_eq!(consumed, 72);
    assert_eq!(frames.len(), 2);
    assert_eq!(frames[0].0.kind, b'G');
    assert_eq!(frames[1].0.kind, b'g');

    let mut client = AgwClientState::new();
    let actions: Vec<AgwAction> = frames
        .iter()
        .map(|(h, _)| client.handle_frame(h.kind, &h.call_from))
        .collect();
    assert_eq!(actions, vec![AgwAction::SendPortInfo, AgwAction::SendCapabilities]);
}

#[test]
fn raw_transmit_becomes_kiss_frame() {
    // A raw-data frame wraps its payload in a KISS data frame verbatim.
    let payload = vec![0x82, 0xA0, 0xB4, 0x60, 0x61];
    let mut stream = header_bytes(b'K', b"", payload.len() as u32);
    stream.extend(&payload);
    let (frames, consumed) = parse_agw_stream(&stream);
    assert_eq!(consumed, stream.len());
    assert_eq!(frames.len(), 1);
    assert_eq!(frames[0].1, payload);

    let mut client = AgwClientState::new();
    assert_eq!(
        client.handle_frame(frames[0].0.kind, &frames[0].0.call_from),
        AgwAction::TransmitRaw
    );
    let mut expected = vec![0xC0, 0x00];
    expected.extend(&payload);
    expected.push(0xC0);
    assert_eq!(agw_raw_to_kiss(0, &frames[0].1), expected);
}

#[test]
fn partial_frame_is_left_in_the_buffer() {
    // A header announcing five payload bytes with only three present is
    // not consumed at all.
    let mut stream = header_bytes(b'K', b"", 5);
    stream.extend([1, 2, 3]);
    let (frames, consumed) = parse_agw_stream(&stream);
    assert_eq!(frames.len(), 0);
    assert_eq!(consumed, 0);

    // A buffer shorter than one header is not consumed either.
    let (frames, consumed) = parse_agw_stream(&stream[..20]);
    assert_eq!(frames.len(), 0);
    assert_eq!(consumed, 0);
}

#[test]
fn register_and_monitor_state() {
    let mut client = AgwClientState::new();
    assert!(client.registered_call.is_none());
    assert!(!client.monitor);

    let mut call = b"KE4AHR".to_vec();
    call.resize(10, 0);
    assert_eq!(client.handle_frame(b'X', &call), AgwAction::SendRegisterAck);
    assert_eq!(client.registered_call.as_deref(), Some(call.as_slice()));

    assert_eq!(client.handle_frame(b'M', &call), AgwAction::Ignore);
    assert!(client.monitor);
    assert_eq!(client.emit_kind(), b'U');
    assert_eq!(client.handle_frame(b'm', &call), AgwAction::Ignore);
    assert!(!client.monitor);
    assert_eq!(client.emit_kind(), b'K');

    assert_eq!(client.handle_frame(b'x', &call), AgwAction::Ignore);
    assert!(client.registered_call.is_none());

    // Anything unhandled is ignored and changes nothing.
    assert_eq!(client.handle_frame(b'Z', &call), AgwAction::Ignore);
    assert!(client.registered_call.is_none());
    assert!(!client.monitor);
}

#[test]
fn capability_vector() {
    assert_eq!(agw_capabilities(), vec![1, 1, 1, 0, 0, 0, 0, 0, 0, 0, 0, 0]);
}

/// The wire form of one AX.25 address: characters shifted left once.
fn wire_addr(callsign: &str, ssid: u8, last: bool) -> Vec<u8> {
    let mut out: Vec<u8> = callsign
        .bytes()
        .chain(std::iter::repeat(b' '))
        .take(6)
        .map(|b| b << 1)
        .collect();
    out.push((ssid << 1) | if last { 1 } else { 0 });
    out
}

#[test]
fn emitted_header_names_both_ends() {
    let mut payload = wire_addr("CQ", 0, false);
    payload.extend(wire_addr("N0CALL", 7, true));
    payload.extend([0x03, 0xF0]);
    payload.extend(b"HI");

    let header = agw_header_for_payload(1, false, &payload).unwrap();
    assert_eq!(header.kind, b'K');
    assert_eq!(header.port, 1);
    assert_eq!(header.pid, 0);
    assert_eq!(header.call_to, b"CQ\0\0\0\0\0\0\0\0".to_vec());
    assert_eq!(header.call_from, b"N0CALL-7\0\0".to_vec());
    assert_eq!(header.data_len as usize, payload.len());

    // A monitoring client is sent a monitored frame instead.
    let header = agw_header_for_payload(1, true, &payload).unwrap();
    assert_eq!(header.kind, b'U');

    // Too short to carry two addresses: no header.
    assert!(agw_header_for_payload(0, false, &payload[..13]).is_none());
}
