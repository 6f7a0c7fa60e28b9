use rax25kb::demarc::KissFrameBuffer;
use rax25kb::kiss::{escape, extract_kiss_info, kiss_command_name, kiss_data_payload,
    modify_kiss_port, unescape};
use rax25kb::translate::{FrameRouter, KissPortTranslator};

const KISS_FEND: u8 = 0xC0;

#[test]
fn test_extract_kiss_info() {
    let frame = vec![KISS_FEND, 0x00, 0x01, 0x02, KISS_FEND];
    let (port, cmd, idx) = extract_kiss_info(&frame).unwrap();
    assert_eq!(port, 0);
    assert_eq!(cmd, 0);
    assert_eq!(idx, 2);

    let frame2 = vec![KISS_FEND, 0x15, 0x01, 0x02, KISS_FEND];
    let (port2, cmd2, _) = extract_kiss_info(&frame2).unwrap();
    assert_eq!(port2, 1);
    assert_eq!(cmd2, 5);
}

#[test]
fn test_modify_kiss_port() {
    let frame = vec![KISS_FEND, 0x00, 0x01, 0x02, KISS_FEND];
    let modified = modify_kiss_port(&frame, 3);
    assert_eq!(modified[1], 0x30); // Port 3, Command 0

    let frame2 = vec![KISS_FEND, 0x15, 0x01, 0x02, KISS_FEND];
    let modified2 = modify_kiss_port(&frame2, 7);
    assert_eq!(modified2[1], 0x75); // Port 7, Command 5
}

#[test]
fn test_translator() {
    let translator = KissPortTranslator::new(0, 1, false, false);
    let frame = vec![KISS_FEND, 0x00, 0x01, 0x02, KISS_FEND];
    let translated = translator.translate(&frame).unwrap();
    assert_eq!(translated[1], 0x10); // Port changed to 1
}

#[test]
fn test_frame_buffer() {
    let mut buffer = KissFrameBuffer::new();

    // Add partial frame
    let data1 = vec![KISS_FEND, 0x00, 0x01];
    let frames1 = buffer.add_bytes(&data1);
    assert_eq!(frames1.len(), 0);

    // Complete the frame
    let data2 = vec![0x02, KISS_FEND];
    let frames2 = buffer.add_bytes(&data2);
    assert_eq!(frames2.len(), 1);
    assert_eq!(frames2[0], vec![KISS_FEND, 0x00, 0x01, 0x02, KISS_FEND]);
}

#[test]
fn test_router() {
    let mut router = FrameRouter::new();
    router.add_route(
        "serial0".to_string(),
        0,
        false,
        "serial1".to_string(),
        1,
        true,
    );

    let frame = vec![KISS_FEND, 0x00, 0x01, 0x02, KISS_FEND];
    let result = router.route_frame("serial0", &frame);
    assert!(result.is_some());

    let (dest_id, dest_port, translated) = result.unwrap();
    assert_eq!(dest_id, "serial1");
    assert_eq!(dest_port, 1);
    assert_eq!(translated[1], 0x10); // Port changed to 1
}

#[test]
fn escape_round_trip() {
    let data = vec![0x01, 0xC0, 0x02, 0xDB, 0x03, 0xC0, 0xC0, 0xDB, 0xDB];
    let escaped = escape(&data);
    assert_eq!(
        escaped,
        vec![0x01, 0xDB, 0xDC, 0x02, 0xDB, 0xDD, 0x03, 0xDB, 0xDC, 0xDB, 0xDC, 0xDB, 0xDD, 0xDB, 0xDD]
    );
    assert_eq!(unescape(&escaped), data);

    let empty: Vec<u8> = Vec::new();
    assert_eq!(escape(&empty), empty);
    assert_eq!(unescape(&escape(&empty)), empty);
}

#[test]
fn unescape_decodes_pairs() {
    let stuffed = vec![0xDB, 0xDC, 0x41, 0xDB, 0xDD];
    assert_eq!(unescape(&stuffed), vec![0xC0, 0x41, 0xDB]);
}

#[test]
fn set_port_identity() {
    // Writing a frame's own port back leaves it unchanged.
    let frame = vec![KISS_FEND, 0x75, 0x01, 0x02, KISS_FEND];
    let (port, _, _) = extract_kiss_info(&frame).unwrap();
    assert_eq!(port, 7);
    assert_eq!(modify_kiss_port(&frame, port), frame);
}

#[test]
fn set_port_then_get() {
    // Reading back a written channel gives the channel, command kept.
    let frame = vec![KISS_FEND, 0x25, 0x01, KISS_FEND];
    for c in 0u8..16 {
        let w = modify_kiss_port(&frame, c);
        let (port, cmd, _) = extract_kiss_info(&w).unwrap();
        assert_eq!(port, c);
        assert_eq!(cmd, 5);
    }
}

#[test]
fn demarcation_absorbs_idle_fends() {
    let mut buffer = KissFrameBuffer::new();
    // Idle filler FENDs between frames make no empty frames.
    let frames = buffer.add_bytes(&[
        KISS_FEND, KISS_FEND, KISS_FEND, 0x00, 0x41, KISS_FEND, KISS_FEND, 0x00, 0x42, KISS_FEND,
    ]);
    assert_eq!(frames.len(), 2);
    assert_eq!(frames[0], vec![KISS_FEND, 0x00, 0x41, KISS_FEND]);
    assert_eq!(frames[1], vec![KISS_FEND, 0x00, 0x42, KISS_FEND]);
}

#[test]
fn demarcation_run_together_frames() {
    // Two frames packed back to back: one FEND closes, the next opens.
    let stream = [KISS_FEND, 0x00, 0x01, KISS_FEND, KISS_FEND, 0x00, 0x02, KISS_FEND];
    let mut a = KissFrameBuffer::new();
    let out_a = a.add_bytes(&stream);
    assert_eq!(out_a.len(), 2);
    assert_eq!(out_a[0], vec![KISS_FEND, 0x00, 0x01, KISS_FEND]);
    assert_eq!(out_a[1], vec![KISS_FEND, 0x00, 0x02, KISS_FEND]);

    // The same stream split at every byte demarcates the same frames.
    let mut b = KissFrameBuffer::new();
    let mut out_b: Vec<Vec<u8>> = Vec::new();
    for byte in stream {
        out_b.extend(b.add_bytes(&[byte]));
    }
    assert_eq!(out_a, out_b);
}

#[test]
fn demarcation_discards_bytes_outside_frames() {
    let mut buffer = KissFrameBuffer::new();
    let frames = buffer.add_bytes(&[0x55, 0xAA, KISS_FEND, 0x00, 0x7E, KISS_FEND]);
    assert_eq!(frames, vec![vec![KISS_FEND, 0x00, 0x7E, KISS_FEND]]);
}

#[test]
fn oversized_frame_is_dropped_and_resynced() {
    let mut buffer = KissFrameBuffer::new();
    let mut stream = vec![KISS_FEND];
    stream.extend(std::iter::repeat(0x41).take(9000));
    stream.extend([KISS_FEND, 0x00, 0x42, KISS_FEND]);
    let frames = buffer.add_bytes(&stream);
    // The runaway frame is dropped; the next complete frame comes out.
    assert_eq!(frames, vec![vec![KISS_FEND, 0x00, 0x42, KISS_FEND]]);
}

#[test]
fn frame_buffer_clear_drops_partial_frame() {
    let mut buffer = KissFrameBuffer::new();
    assert_eq!(buffer.add_bytes(&[KISS_FEND, 0x00, 0x01]).len(), 0);
    buffer.clear();
    // The partial frame is gone; a fresh frame comes out whole.
    let frames = buffer.add_bytes(&[KISS_FEND, 0x00, 0x02, KISS_FEND]);
    assert_eq!(frames, vec![vec![KISS_FEND, 0x00, 0x02, KISS_FEND]]);
}

#[test]
fn translator_filters_and_passes() {
    let translator = KissPortTranslator::new(2, 5, false, true);
    // Wrong channel: dropped.
    assert!(translator.translate(&[KISS_FEND, 0x10, KISS_FEND]).is_none());
    // Not a frame start: dropped.
    assert!(translator.translate(&[0x00, 0x10]).is_none());
    assert!(!translator.should_route(&[KISS_FEND, 0x10, KISS_FEND]));
    assert!(translator.should_route(&[KISS_FEND, 0x20, KISS_FEND]));
    // Same port and kind on both sides: nothing to translate.
    let same = KissPortTranslator::new(3, 3, true, true);
    assert!(same.translate(&[KISS_FEND, 0x30, KISS_FEND]).is_none());
    // Same port but different KISS kinds still translates.
    let kinds = KissPortTranslator::new(3, 3, false, true);
    let out = kinds.translate(&[KISS_FEND, 0x31, 0x44, KISS_FEND]).unwrap();
    assert_eq!(out, vec![KISS_FEND, 0x31, 0x44, KISS_FEND]);
}

#[test]
fn router_first_match_and_listing() {
    let mut router = FrameRouter::new();
    router.add_route("a".to_string(), 0, false, "b".to_string(), 2, false);
    router.add_route("a".to_string(), 0, false, "c".to_string(), 3, false);
    router.add_route("a".to_string(), 1, false, "d".to_string(), 4, false);

    // The first declared route wins.
    let frame = vec![KISS_FEND, 0x00, KISS_FEND];
    let (dest, port, out) = router.route_frame("a", &frame).unwrap();
    assert_eq!(dest, "b");
    assert_eq!(port, 2);
    assert_eq!(out[1], 0x20);

    // No route from an unknown source.
    assert!(router.route_frame("z", &frame).is_none());

    let routes = router.get_routes_from("a");
    assert_eq!(routes.len(), 3);
    assert_eq!(routes[0], (0, "b".to_string(), 2));
    assert_eq!(routes[1], (0, "c".to_string(), 3));
    assert_eq!(routes[2], (1, "d".to_string(), 4));
    assert_eq!(router.get_routes_from("d").len(), 0);
}

#[test]
fn command_names_and_payload() {
    assert_eq!(kiss_command_name(0), "Data");
    assert_eq!(kiss_command_name(6), "SetHardware");
    assert_eq!(kiss_command_name(15), "Return");
    assert_eq!(kiss_command_name(9), "Unknown");

    let frame = vec![KISS_FEND, 0x00, 0x41, 0x42, KISS_FEND];
    assert_eq!(kiss_data_payload(&frame).unwrap(), vec![0x41, 0x42]);
    // A TXDELAY frame carries no AX.25 payload.
    let ctl = vec![KISS_FEND, 0x01, 0x20, KISS_FEND];
    assert!(kiss_data_payload(&ctl).is_none());
}
