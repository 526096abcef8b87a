use bl602wifi::ble::controller::BleConnector;
use bl602wifi::ble::{read_hci, send_hci, HciOutCollector, HciPipe, HciReader};
use bl602wifi::compat::circbuf::{bt_receive, ReceivedPacket};
use bl602wifi::compat::queue::SimpleQueue;

#[test]
fn a_new_pipe_is_empty_in_both_directions() {
    let mut pipe = HciPipe::new();
    assert_eq!(pipe.host_read(), None);
    assert_eq!(pipe.controller_read(), None);
    assert_eq!(pipe.host_peek(0), None);
}

#[test]
fn bytes_from_the_controller_reach_the_host_in_order() {
    let mut pipe = HciPipe::new();
    pipe.controller_write(1);
    pipe.controller_write(2);
    pipe.controller_write(3);
    assert_eq!(pipe.controller_read(), None);
    assert_eq!(pipe.host_read(), Some(1));
    assert_eq!(pipe.host_read(), Some(2));
    assert_eq!(pipe.host_read(), Some(3));
    assert_eq!(pipe.host_read(), None);
}

#[test]
fn bytes_from_the_host_reach_the_controller_in_order() {
    let mut pipe = HciPipe::new();
    pipe.host_write(9);
    pipe.host_write(8);
    assert_eq!(pipe.host_read(), None);
    assert_eq!(pipe.controller_read(), Some(9));
    assert_eq!(pipe.controller_read(), Some(8));
    assert_eq!(pipe.controller_read(), None);
}

#[test]
fn each_ring_holds_255_bytes_and_wraps() {
    let mut pipe = HciPipe::new();
    for round in 0..3u32 {
        for i in 0..255u32 {
            pipe.controller_write((i + round) as u8);
            pipe.host_write((i * 3 + round) as u8);
        }
        for i in 0..255u32 {
            assert_eq!(pipe.host_read(), Some((i + round) as u8));
            assert_eq!(pipe.controller_read(), Some((i * 3 + round) as u8));
        }
        assert_eq!(pipe.host_read(), None);
        assert_eq!(pipe.controller_read(), None);
    }
}

#[test]
fn peek_looks_ahead_without_taking() {
    let mut pipe = HciPipe::new();
    pipe.controller_write(10);
    pipe.controller_write(20);
    pipe.controller_write(30);
    assert_eq!(pipe.host_peek(0), Some(10));
    assert_eq!(pipe.host_peek(1), Some(20));
    assert_eq!(pipe.host_peek(2), Some(30));
    assert_eq!(pipe.host_read(), Some(10));
    assert_eq!(pipe.host_peek(0), Some(20));
    assert_eq!(pipe.host_peek(1), Some(30));
}

#[test]
fn peek_at_the_write_position_yields_the_byte_stored_there() {
    let mut pipe = HciPipe::new();
    pipe.controller_write(10);
    // Offset one is the write position itself: the byte there was never
    // written and is still zero.
    assert_eq!(pipe.host_peek(1), Some(0));
    assert_eq!(pipe.host_peek(2), None);
    assert_eq!(pipe.host_peek(255), None);
    // Offsets go round the ring.
    assert_eq!(pipe.host_peek(256), Some(10));
    assert_eq!(pipe.host_peek(usize::MAX), None);
}

#[test]
fn a_command_is_ready_when_its_parameters_are_complete() {
    let mut collector = HciOutCollector::new();
    assert!(!collector.is_ready());
    collector.push(&[0x01, 0x03, 0x0c]);
    assert!(!collector.is_ready());
    collector.push(&[0x02]);
    assert!(!collector.is_ready());
    collector.push(&[0xaa]);
    assert!(!collector.is_ready());
    collector.push(&[0xbb]);
    assert!(collector.is_ready());
    assert_eq!(collector.packet(), vec![0x01, 0x03, 0x0c, 0x02, 0xaa, 0xbb]);
    collector.reset();
    assert!(!collector.is_ready());
    assert_eq!(collector.packet(), Vec::<u8>::new());
}

#[test]
fn a_command_without_parameters_is_ready_after_four_bytes() {
    let mut collector = HciOutCollector::new();
    collector.push(&[0x01, 0x03, 0x0c, 0x00]);
    assert!(collector.is_ready());
}

#[test]
fn an_acl_packet_has_a_length_of_two_bytes() {
    let mut short = HciOutCollector::new();
    short.push(&[0x02, 0x01, 0x20, 0x03, 0x00]);
    assert!(!short.is_ready());
    short.push(&[1, 2]);
    assert!(!short.is_ready());
    short.push(&[3]);
    assert!(short.is_ready());
    let mut long = HciOutCollector::new();
    long.push(&[0x02, 0x01, 0x20, 0xfa, 0x00]);
    long.push(&vec![0u8; 0xfa - 1]);
    assert!(!long.is_ready());
    long.push(&[0]);
    assert!(long.is_ready());
    assert_eq!(long.len(), 255);
    // The high byte counts 256 each: this packet would have 261 bytes and
    // is not complete when the buffer is full.
    let mut high = HciOutCollector::new();
    high.push(&[0x02, 0x01, 0x20, 0x00, 0x01]);
    high.push(&vec![0u8; 251]);
    assert!(!high.is_ready());
    assert_eq!(high.len(), 256);
}

#[test]
fn bytes_of_an_unknown_kind_are_never_ready() {
    let mut collector = HciOutCollector::new();
    collector.push(&[0x07, 0x00, 0x00, 0x00, 0x00, 0x00]);
    assert!(!collector.is_ready());
    collector.push(&[0x01, 0x03, 0x0c, 0x00]);
    assert!(!collector.is_ready());
}

#[test]
fn a_push_past_the_end_of_the_packet_is_not_ready() {
    let mut collector = HciOutCollector::new();
    collector.push(&[0x01, 0x03, 0x0c, 0x01, 0xaa, 0xbb]);
    assert!(!collector.is_ready());
}

#[test]
fn an_empty_push_changes_nothing() {
    let mut collector = HciOutCollector::new();
    collector.push(&[]);
    assert!(!collector.is_ready());
    collector.push(&[0x01, 0x03, 0x0c, 0x00]);
    assert!(collector.is_ready());
    collector.push(&[]);
    assert!(collector.is_ready());
}

#[test]
fn send_hci_hands_out_the_packet_without_its_indicator() {
    let mut hci_out = HciOutCollector::new();
    assert!(send_hci(&mut hci_out, &[0x01]).is_none());
    assert!(send_hci(&mut hci_out, &[0x03, 0x0c]).is_none());
    let packet = send_hci(&mut hci_out, &[0x00]).unwrap();
    assert_eq!(packet.packet_type, 0);
    assert_eq!(packet.payload, vec![0x03, 0x0c, 0x00]);
    // Collecting starts anew.
    assert!(!hci_out.is_ready());
    assert_eq!(hci_out.packet(), Vec::<u8>::new());
    let acl = send_hci(&mut hci_out, &[0x02, 0x01, 0x20, 0x02, 0x00, 0xca, 0xfe]).unwrap();
    assert_eq!(acl.packet_type, 2);
    assert_eq!(acl.payload, vec![0x01, 0x20, 0x02, 0x00, 0xca, 0xfe]);
}

#[test]
fn read_hci_delivers_a_packet_byte_by_byte_behind_its_indicator() {
    let mut queue: SimpleQueue<ReceivedPacket> = SimpleQueue::new();
    let mut reader = HciReader::new();
    let mut data = vec![0xffu8; 2];
    assert_eq!(read_hci(&mut reader, &mut queue, &mut data), 0);
    assert_eq!(data, vec![0xff, 0xff]);
    bt_receive(&mut queue, 1, &[0x0e, 0x01, 0x05], 3);
    bt_receive(&mut queue, 3, &[0x01, 0x20], 2);
    bt_receive(&mut queue, 5, &[], 0);
    let mut got = Vec::new();
    while read_hci(&mut reader, &mut queue, &mut data) == 1 {
        got.push(data[0]);
        assert_eq!(data[1], 0xff);
    }
    assert_eq!(got, vec![4, 0x0e, 0x01, 0x05, 2, 0x01, 0x20, 4]);
    assert!(queue.is_empty());
}

#[test]
fn read_hci_takes_the_next_packet_only_when_the_current_one_is_used_up() {
    let mut queue: SimpleQueue<ReceivedPacket> = SimpleQueue::new();
    let mut reader = HciReader::new();
    let mut data = vec![0u8; 1];
    bt_receive(&mut queue, 1, &[0xaa], 1);
    bt_receive(&mut queue, 1, &[0xbb], 1);
    assert_eq!(read_hci(&mut reader, &mut queue, &mut data), 1);
    assert_eq!(queue.len(), 1);
    assert_eq!(read_hci(&mut reader, &mut queue, &mut data), 1);
    assert_eq!(data[0], 0xaa);
    assert_eq!(queue.len(), 1);
    assert_eq!(read_hci(&mut reader, &mut queue, &mut data), 1);
    assert_eq!(data[0], 4);
    assert_eq!(queue.len(), 0);
}

#[test]
fn connector_reads_and_writes_single_bytes() {
    let mut queue: SimpleQueue<ReceivedPacket> = SimpleQueue::new();
    let mut connector = BleConnector::new();
    assert_eq!(connector.read(&mut queue), None);
    bt_receive(&mut queue, 1, &[0x0e, 0x00], 2);
    assert_eq!(connector.read(&mut queue), Some(4));
    assert_eq!(connector.read(&mut queue), Some(0x0e));
    assert_eq!(connector.read(&mut queue), Some(0x00));
    assert_eq!(connector.read(&mut queue), None);
    assert!(connector.write(0x01).is_none());
    assert!(connector.write(0x0a).is_none());
    assert!(connector.write(0x20).is_none());
    let packet = connector.write(0x00).unwrap();
    assert_eq!(packet.packet_type, 0);
    assert_eq!(packet.payload, vec![0x0a, 0x20, 0x00]);
    assert!(connector.write(0x01).is_none());
    assert_eq!(connector.millis(123_456), 123_456u64);
    assert_eq!(connector.millis(u32::MAX), 4_294_967_295u64);
}

#[test]
fn the_pipe_counts_what_waits_in_each_direction() {
    let mut pipe = HciPipe::new();
    assert_eq!(pipe.host_pending(), 0);
    assert_eq!(pipe.controller_pending(), 0);
    for i in 0..200u8 {
        pipe.controller_write(i);
    }
    pipe.host_write(1);
    assert_eq!(pipe.host_pending(), 200);
    assert_eq!(pipe.controller_pending(), 1);
    for _ in 0..150 {
        pipe.host_read();
    }
    for i in 0..100u8 {
        pipe.controller_write(i);
    }
    // The pending bytes now go round the end of the ring.
    assert_eq!(pipe.host_pending(), 150);
    pipe.controller_read();
    assert_eq!(pipe.controller_pending(), 0);
}

#[test]
fn the_connector_counts_the_bytes_of_an_unfinished_packet() {
    let mut connector = BleConnector::new();
    assert_eq!(connector.outgoing_len(), 0);
    connector.write(0x01);
    connector.write(0x03);
    assert_eq!(connector.outgoing_len(), 2);
    connector.write(0x0c);
    assert!(connector.write(0x00).is_some());
    assert_eq!(connector.outgoing_len(), 0);
}

#[test]
fn the_connector_sends_a_whole_slice_at_once() {
    let mut connector = BleConnector::new();
    assert!(connector.send(&[0x01, 0x03]).is_none());
    assert_eq!(connector.outgoing_len(), 2);
    let packet = connector.send(&[0x0c, 0x01, 0xaa]).unwrap();
    assert_eq!(packet.packet_type, 0);
    assert_eq!(packet.payload, vec![0x03, 0x0c, 0x01, 0xaa]);
    assert_eq!(connector.outgoing_len(), 0);
    // A slice that goes past the end of a packet is not a packet: the
    // command below has no parameters and is followed by one more byte.
    assert!(connector.send(&[0x01, 0x03, 0x0c, 0x00, 0xbb]).is_none());
    assert_eq!(connector.outgoing_len(), 5);
}
