use rax25kb::pcap::{pcap_file_header, pcap_record};
use rax25kb::philflag::{process_frame_with_phil_flag, process_phil_flag_tcp_to_serial};
use rax25kb::pipeline::{serial_to_tcp_frame, serial_to_tcp_run, tcp_to_serial_frame, ChannelFilter};
use rax25kb::polled::PolledModeQueue;
use rax25kb::slots::ClientSlots;

const KISS_FEND: u8 = 0xC0;

#[test]
fn phil_flag_escapes_internal_fend() {
    // A spurious FEND inside the payload becomes FESC TFEND; the
    // delimiters stay.
    let input = vec![0xC0, 0x00, 0xC0, 0x42, 0xC0];
    let output = process_frame_with_phil_flag(&input);
    assert_eq!(output, vec![0xC0, 0x00, 0xDB, 0xDC, 0x42, 0xC0]);
}

#[test]
fn phil_flag_escapes_command_trigger() {
    // "TC0\n" gains a FESC before the 'C'.
    let input = vec![0x54, 0x43, 0x30, 0x0A];
    let output = process_phil_flag_tcp_to_serial(&input);
    assert_eq!(output, vec![0x54, 0xDB, 0x43, 0x30, 0x0A]);
    // Lower-case 'c' is escaped too; other bytes pass.
    assert_eq!(process_phil_flag_tcp_to_serial(&[0x63, 0x64]), vec![0xDB, 0x63, 0x64]);
}

#[test]
fn channel_filter_and_remap() {
    // A bridge on channel 3 presents its traffic as channel 0.
    let frames: Vec<Vec<u8>> = vec![
        vec![KISS_FEND, 0x20, 0x41, KISS_FEND],
        vec![KISS_FEND, 0x30, 0x42, KISS_FEND],
        vec![KISS_FEND, 0x30, 0x43, KISS_FEND],
        vec![KISS_FEND, 0x40, 0x44, KISS_FEND],
    ];
    let out = serial_to_tcp_run(&frames, ChannelFilter::Remap(3), false);
    assert_eq!(out.len(), 2);
    assert_eq!(out[0], vec![KISS_FEND, 0x00, 0x42, KISS_FEND]);
    assert_eq!(out[1], vec![KISS_FEND, 0x00, 0x43, KISS_FEND]);

    // Keeping the channel delivers the frames as they are.
    let kept = serial_to_tcp_run(&frames, ChannelFilter::Keep(3), false);
    assert_eq!(kept[0], vec![KISS_FEND, 0x30, 0x42, KISS_FEND]);

    // Pass-all delivers everything in order.
    let all = serial_to_tcp_run(&frames, ChannelFilter::All, false);
    assert_eq!(all, frames);
}

#[test]
fn serial_to_tcp_applies_phil_after_remap() {
    let frame = vec![KISS_FEND, 0x30, 0xC0, KISS_FEND];
    let out = serial_to_tcp_frame(&frame, ChannelFilter::Remap(3), true).unwrap();
    assert_eq!(out, vec![KISS_FEND, 0x00, 0xDB, 0xDC, KISS_FEND]);
    assert!(serial_to_tcp_frame(&frame, ChannelFilter::Remap(2), true).is_none());
}

#[test]
fn tcp_to_serial_rewrites_channel() {
    // The application writes on channel 0; the TNC hears its own channel.
    let frame = vec![KISS_FEND, 0x00, 0x41, KISS_FEND];
    assert_eq!(tcp_to_serial_frame(&frame, 5, false), vec![KISS_FEND, 0x50, 0x41, KISS_FEND]);
    // With PhilFlag the stream correction follows the rewrite.
    let trigger = vec![KISS_FEND, 0x00, 0x43, KISS_FEND];
    assert_eq!(
        tcp_to_serial_frame(&trigger, 5, true),
        vec![KISS_FEND, 0x50, 0xDB, 0x43, KISS_FEND]
    );
}

#[test]
fn polled_queue_bounds() {
    // Frame-count bound of 2; byte bound clamps up to 4096.
    let mut q = PolledModeQueue::new(2, 0);
    assert!(q.is_empty());
    assert!(q.push(vec![1, 2, 3]));
    assert!(q.push(vec![4]));
    assert_eq!(q.current_size(), 4);
    // Full: the newest frame is dropped.
    assert!(!q.push(vec![5]));
    assert_eq!(q.len(), 2);
    assert_eq!(q.current_size(), 4);

    // FIFO order, and the size never dips below zero.
    assert_eq!(q.pop().unwrap(), vec![1, 2, 3]);
    assert_eq!(q.current_size(), 1);
    assert_eq!(q.pop().unwrap(), vec![4]);
    assert_eq!(q.current_size(), 0);
    assert!(q.pop().is_none());
    assert_eq!(q.current_size(), 0);
}

#[test]
fn polled_queue_drain_all() {
    let mut q = PolledModeQueue::new(10, 4096);
    assert!(q.push(vec![1]));
    assert!(q.push(vec![2, 3]));
    assert_eq!(q.drain_all(), vec![vec![1], vec![2, 3]]);
    assert!(q.is_empty());
    assert_eq!(q.current_size(), 0);
    // Drained capacity is available again.
    assert!(q.push(vec![4]));
    assert_eq!(q.current_size(), 1);
}

#[test]
fn polled_queue_byte_bound() {
    let mut q = PolledModeQueue::new(100, 4096);
    assert!(q.push(vec![0u8; 4000]));
    // 97 more bytes would pass the 4096-byte bound: dropped.
    assert!(!q.push(vec![0u8; 97]));
    assert!(q.push(vec![0u8; 96]));
    assert_eq!(q.current_size(), 4096);
}

#[test]
fn slot_capacity_is_kept() {
    let mut slots = ClientSlots::new(3);
    assert_eq!(slots.capacity(), 3);
    assert_eq!(slots.occupied_count(), 0);
    assert_eq!(slots.install(), Some(0));
    assert_eq!(slots.install(), Some(1));
    assert_eq!(slots.install(), Some(2));
    // Full: the connection is refused.
    assert_eq!(slots.install(), None);
    assert_eq!(slots.occupied_count(), 3);

    // A freed slot is reusable; the count never passes the capacity.
    slots.release(1);
    assert_eq!(slots.occupied_count(), 2);
    assert_eq!(slots.install(), Some(1));
    assert_eq!(slots.occupied_count(), 3);
    assert!(slots.is_occupied(1));
}

#[test]
fn poll_frame_is_empty_data_frame() {
    assert_eq!(rax25kb::kiss::make_poll_frame(0), vec![KISS_FEND, 0x00, KISS_FEND]);
    assert_eq!(rax25kb::kiss::make_poll_frame(5), vec![KISS_FEND, 0x50, KISS_FEND]);
}

#[test]
fn pcap_layout() {
    let header = pcap_file_header();
    assert_eq!(header.len(), 24);
    // Magic, version 2.4, zeroes, snaplen 65535, link type 147.
    assert_eq!(&header[0..4], &[0xd4, 0xc3, 0xb2, 0xa1]);
    assert_eq!(&header[4..8], &[2, 0, 4, 0]);
    assert_eq!(&header[8..16], &[0, 0, 0, 0, 0, 0, 0, 0]);
    assert_eq!(&header[16..20], &[0xff, 0xff, 0, 0]);
    assert_eq!(&header[20..24], &[147, 0, 0, 0]);

    let record = pcap_record(0x01020304, 0x000A0B0C, &[0xAA, 0xBB]);
    assert_eq!(&record[0..4], &[0x04, 0x03, 0x02, 0x01]);
    assert_eq!(&record[4..8], &[0x0C, 0x0B, 0x0A, 0x00]);
    assert_eq!(&record[8..12], &[2, 0, 0, 0]);
    assert_eq!(&record[12..16], &[2, 0, 0, 0]);
    assert_eq!(&record[16..], &[0xAA, 0xBB]);
}
