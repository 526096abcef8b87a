use bl602wifi::compat::circbuf::{
    bt_receive, circbuf_init, circbuf_read, circbuf_uninit, circbuf_used, circbuf_write,
    BtPacketType, CircBuf, ReceivedPacket,
};
use bl602wifi::compat::queue::SimpleQueue;

fn buffer(bytes: usize) -> CircBuf {
    let mut circ = CircBuf::new();
    assert_eq!(circbuf_init(&mut circ, None, bytes), 0);
    circ
}

#[test]
fn init_gives_an_empty_buffer() {
    let circ = buffer(16);
    assert_eq!(circbuf_used(&circ), 0);
}

#[test]
fn write_then_read_returns_the_bytes_in_order() {
    let mut circ = buffer(16);
    let src = [10u8, 20, 30, 40, 50];
    assert_eq!(circbuf_write(&mut circ, &src, 5), 5);
    assert_eq!(circbuf_used(&circ), 5);
    let mut dst = vec![0u8; 8];
    assert_eq!(circbuf_read(&mut circ, &mut dst, 5), 5);
    assert_eq!(dst, vec![10, 20, 30, 40, 50, 0, 0, 0]);
    assert_eq!(circbuf_used(&circ), 0);
}

#[test]
fn round_trip_holds_for_every_length_and_every_cursor_position() {
    let size = 8usize;
    for offset in 0..size {
        for k in 0..size {
            let mut circ = buffer(size);
            // Move both cursors to `offset`.
            let filler = vec![0xEEu8; offset];
            let mut sink = vec![0u8; size];
            let mut moved = 0;
            while moved < offset {
                let step = core::cmp::min(offset - moved, size - 1);
                assert_eq!(circbuf_write(&mut circ, &filler, step), step);
                assert_eq!(circbuf_read(&mut circ, &mut sink, step), step);
                moved += step;
            }
            assert_eq!(circbuf_used(&circ), 0);
            let src: Vec<u8> = (0..k).map(|i| (i * 7 + offset + 1) as u8).collect();
            assert_eq!(circbuf_write(&mut circ, &src, k), k);
            assert_eq!(circbuf_used(&circ), k);
            let mut dst = vec![0xAAu8; size];
            assert_eq!(circbuf_read(&mut circ, &mut dst, k), k);
            assert_eq!(&dst[..k], &src[..]);
            assert!(dst[k..].iter().all(|&b| b == 0xAA));
            assert_eq!(circbuf_used(&circ), 0);
        }
    }
}

#[test]
fn read_delivers_no_more_than_is_pending() {
    let mut circ = buffer(8);
    assert_eq!(circbuf_write(&mut circ, &[1, 2, 3], 3), 3);
    let mut dst = vec![9u8; 8];
    assert_eq!(circbuf_read(&mut circ, &mut dst, 8), 3);
    assert_eq!(dst, vec![1, 2, 3, 9, 9, 9, 9, 9]);
    assert_eq!(circbuf_read(&mut circ, &mut dst, 8), 0);
    assert_eq!(dst, vec![1, 2, 3, 9, 9, 9, 9, 9]);
}

#[test]
fn read_delivers_no_more_than_asked_for() {
    let mut circ = buffer(8);
    assert_eq!(circbuf_write(&mut circ, &[1, 2, 3, 4, 5], 5), 5);
    let mut dst = vec![0u8; 2];
    assert_eq!(circbuf_read(&mut circ, &mut dst, 2), 2);
    assert_eq!(dst, vec![1, 2]);
    assert_eq!(circbuf_used(&circ), 3);
    assert_eq!(circbuf_read(&mut circ, &mut dst, 2), 2);
    assert_eq!(dst, vec![3, 4]);
    assert_eq!(circbuf_read(&mut circ, &mut dst, 2), 1);
    assert_eq!(dst, vec![5, 4]);
}

#[test]
fn write_takes_only_the_first_bytes_asked_for() {
    let mut circ = buffer(8);
    assert_eq!(circbuf_write(&mut circ, &[1, 2, 3, 4, 5], 2), 2);
    let mut dst = vec![0u8; 4];
    assert_eq!(circbuf_read(&mut circ, &mut dst, 4), 2);
    assert_eq!(dst, vec![1, 2, 0, 0]);
}

#[test]
fn a_write_that_does_not_fit_is_refused_as_a_whole() {
    let mut circ = buffer(8);
    assert_eq!(circbuf_write(&mut circ, &[1, 2, 3, 4, 5], 5), 5);
    // Seven bytes fit in eight bytes of space; five are taken.
    assert_eq!(circbuf_write(&mut circ, &[6, 7, 8], 3), 0);
    assert_eq!(circbuf_used(&circ), 5);
    assert_eq!(circbuf_write(&mut circ, &[6, 7], 2), 2);
    assert_eq!(circbuf_used(&circ), 7);
    assert_eq!(circbuf_write(&mut circ, &[8], 1), 0);
    let mut dst = vec![0u8; 8];
    assert_eq!(circbuf_read(&mut circ, &mut dst, 8), 7);
    assert_eq!(dst, vec![1, 2, 3, 4, 5, 6, 7, 0]);
}

#[test]
fn a_write_of_as_many_bytes_as_the_space_has_is_refused() {
    let mut circ = buffer(4);
    assert_eq!(circbuf_write(&mut circ, &[1, 2, 3, 4], 4), 0);
    assert_eq!(circbuf_used(&circ), 0);
    assert_eq!(circbuf_write(&mut circ, &[1, 2, 3], 3), 3);
    assert_eq!(circbuf_used(&circ), 3);
}

#[test]
fn used_counts_round_the_end_of_the_space() {
    let mut circ = buffer(4);
    let mut dst = vec![0u8; 4];
    assert_eq!(circbuf_write(&mut circ, &[1, 2, 3], 3), 3);
    assert_eq!(circbuf_read(&mut circ, &mut dst, 3), 3);
    // head == tail == 3; the next write wraps.
    assert_eq!(circbuf_write(&mut circ, &[4, 5, 6], 3), 3);
    assert_eq!(circbuf_used(&circ), 3);
    assert_eq!(circbuf_read(&mut circ, &mut dst, 2), 2);
    assert_eq!(circbuf_used(&circ), 1);
    assert_eq!(&dst[..2], &[4, 5]);
}

#[test]
fn a_buffer_without_space_holds_nothing() {
    let mut circ = CircBuf::new();
    assert_eq!(circbuf_used(&circ), 0);
    assert_eq!(circbuf_write(&mut circ, &[1], 1), 0);
    assert_eq!(circbuf_write(&mut circ, &[1], 0), 0);
    let mut dst = vec![7u8; 2];
    assert_eq!(circbuf_read(&mut circ, &mut dst, 2), 0);
    assert_eq!(dst, vec![7, 7]);
    let mut zero = buffer(0);
    assert_eq!(circbuf_write(&mut zero, &[1], 1), 0);
}

#[test]
fn space_handed_in_goes_back_at_uninit() {
    let mut circ = CircBuf::new();
    assert_eq!(circbuf_init(&mut circ, Some(vec![0u8; 6]), 6), 0);
    assert_eq!(circbuf_write(&mut circ, &[1, 2, 3, 4, 5], 5), 5);
    assert_eq!(circbuf_write(&mut circ, &[6], 1), 0);
    let space = circbuf_uninit(&mut circ);
    assert_eq!(space.map(|v| v.len()), Some(6));
    assert_eq!(circbuf_used(&circ), 0);
    assert_eq!(circbuf_write(&mut circ, &[1], 1), 0);
}

#[test]
fn space_of_its_own_does_not_come_back_at_uninit() {
    let mut circ = buffer(6);
    assert!(circbuf_uninit(&mut circ).is_none());
    assert_eq!(circbuf_used(&circ), 0);
}

#[test]
fn init_empties_a_buffer_that_was_in_use() {
    let mut circ = buffer(6);
    assert_eq!(circbuf_write(&mut circ, &[1, 2, 3], 3), 3);
    assert_eq!(circbuf_init(&mut circ, None, 10), 0);
    assert_eq!(circbuf_used(&circ), 0);
    assert_eq!(circbuf_write(&mut circ, &[0u8; 9], 9), 9);
}

#[test]
fn packet_types_have_the_drivers_numbers() {
    assert_eq!(BtPacketType::BtCmd.code(), 0);
    assert_eq!(BtPacketType::BtEvt.code(), 1);
    assert_eq!(BtPacketType::BtAclOut.code(), 2);
    assert_eq!(BtPacketType::BtAclIn.code(), 3);
    assert_eq!(BtPacketType::BtIsoOut.code(), 4);
    assert_eq!(BtPacketType::BtIsoIn.code(), 5);
    assert_eq!(BtPacketType::BtDummy.code(), 99);
}

#[test]
fn bt_receive_files_the_payload_from_index_one() {
    let mut queue: SimpleQueue<ReceivedPacket> = SimpleQueue::new();
    bt_receive(&mut queue, 1, &[0x0e, 0x04, 0x01, 0x03, 0x0c, 0x00, 0xff], 6);
    bt_receive(&mut queue, 3, &[], 0);
    assert_eq!(queue.len(), 2);
    let first = queue.dequeue().unwrap();
    assert_eq!(first.packet_type, 1);
    assert_eq!(first.len, 6);
    assert_eq!(&first.data[..8], &[0, 0x0e, 0x04, 0x01, 0x03, 0x0c, 0x00, 0]);
    assert!(first.data[8..].iter().all(|&b| b == 0));
    let second = queue.dequeue().unwrap();
    assert_eq!(second.packet_type, 3);
    assert_eq!(second.len, 0);
    assert!(second.data.iter().all(|&b| b == 0));
}

#[test]
fn bt_receive_takes_the_longest_payload() {
    let mut queue: SimpleQueue<ReceivedPacket> = SimpleQueue::new();
    let payload: Vec<u8> = (0..255).map(|i| (i + 1) as u8).collect();
    bt_receive(&mut queue, 1, &payload, 255);
    let packet = queue.dequeue().unwrap();
    assert_eq!(packet.len, 255);
    assert_eq!(packet.data[0], 0);
    assert_eq!(&packet.data[1..], &payload[..]);
}

#[test]
fn the_cursors_advance_round_the_end_of_the_space() {
    let mut circ = buffer(4);
    assert_eq!((circ.head_index(), circ.tail_index()), (0, 0));
    assert_eq!(circ.as_slice(), &[0, 0, 0, 0]);
    assert_eq!(circbuf_write(&mut circ, &[1, 2, 3], 3), 3);
    assert_eq!((circ.head_index(), circ.tail_index()), (3, 0));
    assert_eq!(circ.as_slice(), &[1, 2, 3, 0]);
    let mut dst = vec![0u8; 4];
    assert_eq!(circbuf_read(&mut circ, &mut dst, 2), 2);
    assert_eq!((circ.head_index(), circ.tail_index()), (3, 2));
    assert_eq!(circbuf_write(&mut circ, &[4, 5], 2), 2);
    assert_eq!((circ.head_index(), circ.tail_index()), (1, 2));
    assert_eq!(circ.as_slice(), &[5, 2, 3, 4]);
    // A write that is refused moves nothing.
    assert_eq!(circbuf_write(&mut circ, &[6], 1), 0);
    assert_eq!((circ.head_index(), circ.tail_index()), (1, 2));
    assert_eq!(circ.as_slice(), &[5, 2, 3, 4]);
    assert_eq!(circbuf_read(&mut circ, &mut dst, 4), 3);
    assert_eq!(&dst[..3], &[3, 4, 5]);
    assert_eq!((circ.head_index(), circ.tail_index()), (1, 1));
    // Reading leaves the space as it is.
    assert_eq!(circ.as_slice(), &[5, 2, 3, 4]);
}

#[test]
fn space_handed_in_is_used_as_it_is_and_comes_back_as_it_was_left() {
    let mut circ = CircBuf::new();
    assert_eq!(circbuf_init(&mut circ, Some(vec![9, 9, 9]), 3), 0);
    assert_eq!(circ.as_slice(), &[9, 9, 9]);
    assert_eq!(circbuf_used(&circ), 0);
    assert_eq!(circbuf_write(&mut circ, &[1, 2], 2), 2);
    assert_eq!(circbuf_uninit(&mut circ), Some(vec![1, 2, 9]));
    assert_eq!((circ.head_index(), circ.tail_index()), (0, 0));
    assert!(circ.as_slice().is_empty());
}
