use rax25kb::ax25::{AX25Address, AX25Frame, AX25FrameType};
use rax25kb::config::{
    effective_line_settings, parse_bool, parse_endpoint, parse_flow_control, parse_parity,
    parse_stop_bits, CrossConnectEndpoint, EndpointError, FlowControl, Parity, StopBits,
};

fn ids(names: &[&str]) -> Vec<String> {
    names.iter().map(|s| s.to_string()).collect()
}

#[test]
fn endpoint_grammar_accepts() {
    let known = ids(&["0000", "0001"]);
    match parse_endpoint("tcp:0.0.0.0:8001", &known).unwrap() {
        CrossConnectEndpoint::TcpSocket { address, port } => {
            assert_eq!(address, "0.0.0.0");
            assert_eq!(port, 8001);
        }
        _ => panic!("expected a TCP endpoint"),
    }
    match parse_endpoint("serial:0001:15", &known).unwrap() {
        CrossConnectEndpoint::SerialPort { port_id, kiss_port } => {
            assert_eq!(port_id, "0001");
            assert_eq!(kiss_port, 15);
        }
        _ => panic!("expected a serial endpoint"),
    }
}

#[test]
fn endpoint_grammar_rejects() {
    let known = ids(&["0000"]);
    assert_eq!(
        parse_endpoint("udp:0.0.0.0:8001", &known).unwrap_err(),
        EndpointError::InvalidEndpointType
    );
    assert_eq!(
        parse_endpoint("tcp:0.0.0.0", &known).unwrap_err(),
        EndpointError::InvalidTcpFormat
    );
    assert_eq!(
        parse_endpoint("tcp:a:b:c", &known).unwrap_err(),
        EndpointError::InvalidTcpFormat
    );
    assert_eq!(
        parse_endpoint("tcp:0.0.0.0:70000", &known).unwrap_err(),
        EndpointError::InvalidTcpPort
    );
    assert_eq!(
        parse_endpoint("serial:0000", &known).unwrap_err(),
        EndpointError::InvalidSerialFormat
    );
    assert_eq!(
        parse_endpoint("serial:0000:x", &known).unwrap_err(),
        EndpointError::InvalidKissPort
    );
    assert_eq!(
        parse_endpoint("serial:0000:16", &known).unwrap_err(),
        EndpointError::KissPortOutOfRange
    );
    assert_eq!(
        parse_endpoint("serial:0009:0", &known).unwrap_err(),
        EndpointError::UnknownSerialPortId
    );
}

#[test]
fn value_spellings() {
    assert_eq!(parse_bool("YES"), Some(true));
    assert_eq!(parse_bool("off"), Some(false));
    assert_eq!(parse_bool("1"), Some(true));
    assert_eq!(parse_bool("0"), Some(false));
    assert_eq!(parse_bool("maybe"), None);

    assert_eq!(parse_flow_control("rts/cts"), Some(FlowControl::Hardware));
    assert_eq!(parse_flow_control("XON-XOFF"), Some(FlowControl::Software));
    assert_eq!(parse_flow_control("dtrdsr"), Some(FlowControl::DtrDsr));
    assert_eq!(parse_flow_control("none"), Some(FlowControl::Off));
    assert_eq!(parse_flow_control("carrier-pigeon"), None);

    assert_eq!(parse_stop_bits("1"), Some(StopBits::One));
    assert_eq!(parse_stop_bits("two"), Some(StopBits::Two));
    // Stop bits are matched case-sensitively, as configured.
    assert_eq!(parse_stop_bits("TWO"), None);

    assert_eq!(parse_parity("E"), Some(Parity::Even));
    assert_eq!(parse_parity("odd"), Some(Parity::Odd));
    assert_eq!(parse_parity("no"), Some(Parity::Off));
    assert_eq!(parse_parity("mark"), None);
}

#[test]
fn kiss_mode_forces_8n1() {
    // A device with a KISS bridge ignores its configured 7E2-style line.
    assert_eq!(
        effective_line_settings(StopBits::Two, Parity::Even, true),
        (StopBits::One, Parity::Off)
    );
    // A pure raw-copy device keeps what was configured.
    assert_eq!(
        effective_line_settings(StopBits::Two, Parity::Even, false),
        (StopBits::Two, Parity::Even)
    );
}

/// The wire form of one AX.25 address: characters shifted left once.
fn wire_addr(callsign: &str, ssid: u8, last: bool) -> Vec<u8> {
    let mut out: Vec<u8> = callsign
        .bytes()
        .chain(std::iter::repeat(b' '))
        .take(6)
        .map(|b| b << 1)
        .collect();
    out.push((ssid << 1) | if last { 1 } else { 0 });
    out
}

#[test]
fn address_decoding_and_display() {
    let addr = AX25Address::from_ax25_bytes(&wire_addr("KE4AHR", 0, false)).unwrap();
    assert_eq!(addr.callsign, "KE4AHR");
    assert_eq!(addr.ssid, 0);
    assert_eq!(addr.to_string(), "KE4AHR");

    let addr = AX25Address::from_ax25_bytes(&wire_addr("W1AW", 11, true)).unwrap();
    assert_eq!(addr.callsign, "W1AW");
    assert_eq!(addr.ssid, 11);
    assert_eq!(addr.to_string(), "W1AW-11");

    assert!(AX25Address::from_ax25_bytes(&[0x00; 6]).is_none());
}

#[test]
fn frame_parse_ui() {
    // DEST < SRC, one digipeater, UI control 0x03, PID 0xF0, "HI".
    let mut data = wire_addr("CQ", 0, false);
    data.extend(wire_addr("N0CALL", 7, false));
    data.extend(wire_addr("WIDE1", 1, true));
    data.push(0x03);
    data.push(0xF0);
    data.extend(b"HI");

    let frame = AX25Frame::parse(&data).unwrap();
    assert_eq!(frame.destination.callsign, "CQ");
    assert_eq!(frame.source.callsign, "N0CALL");
    assert_eq!(frame.source.ssid, 7);
    assert_eq!(frame.digipeaters.len(), 1);
    assert_eq!(frame.digipeaters[0].callsign, "WIDE1");
    assert_eq!(frame.control, 0x03);
    assert_eq!(frame.pid, Some(0xF0));
    assert_eq!(frame.info, b"HI".to_vec());
    assert!(matches!(frame.get_frame_type(), AX25FrameType::UIFrame));
    assert_eq!(frame.get_connection_phase(), "UNCONNECTED (UI Frame)");

    assert!(AX25Frame::parse(&[0x00; 10]).is_none());
}

#[test]
fn frame_types_from_control() {
    let mut data = wire_addr("A", 0, false);
    data.extend(wire_addr("B", 0, true));
    data.push(0x00); // I frame (bit 0 clear)
    data.push(0xF0);
    data.push(0x55);
    let frame = AX25Frame::parse(&data).unwrap();
    assert!(matches!(frame.get_frame_type(), AX25FrameType::IFrame));
    assert_eq!(frame.get_connection_phase(), "CONNECTED (Information Transfer)");

    let mut data = wire_addr("A", 0, false);
    data.extend(wire_addr("B", 0, true));
    data.push(0x01); // S frame
    data.push(0x00);
    let frame = AX25Frame::parse(&data).unwrap();
    assert!(matches!(frame.get_frame_type(), AX25FrameType::SFrame));

    let mut data = wire_addr("A", 0, false);
    data.extend(wire_addr("B", 0, true));
    data.push(0x2F); // SABM
    data.push(0x00);
    let frame = AX25Frame::parse(&data).unwrap();
    assert!(matches!(frame.get_frame_type(), AX25FrameType::UFrame));
    assert_eq!(frame.get_connection_phase(), "SETUP (SABM)");
}
