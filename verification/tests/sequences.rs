use aes67_vsc::rtp::is_outdated;
use aes67_vsc::sequence_buffer::{RtpSequenceBuffer, SequenceBufferEvent};
use rtp_rs::RtpPacketBuilder;

fn packet(number: u16, timestamp: u32) -> Vec<u8> {
    let payload = [number as u8];
    RtpPacketBuilder::new()
        .payload_type(98)
        .sequence(number.into())
        .timestamp(timestamp)
        .payload(&payload)
        .build()
        .unwrap()
}

fn feed(buffer: &mut RtpSequenceBuffer, first: u16, order: &[u16]) -> Vec<u16> {
    let mut out = Vec::new();
    for i in order {
        let number = first.wrapping_add(*i);
        let timestamp = (u32::MAX - 100).wrapping_add(48 * *i as u32);
        let playout = buffer.update(&packet(number, timestamp));
        for packet in playout.drain(..) {
            assert_eq!(packet.payload, vec![packet.sequence_number as u8]);
            out.push(packet.sequence_number.wrapping_sub(first));
        }
    }
    out
}

#[test]
fn seq_partial_ord_handles_wrap_correctly() {
    assert!(rtp_rs::Seq::from(u16::MAX) < rtp_rs::Seq::from(0u16))
}

#[test]
fn sequence_buffer_does_not_change_non_wrapping_consistent_sequences() {
    let mut buffer = RtpSequenceBuffer::new(48000, 4);
    assert_eq!(feed(&mut buffer, 10, &[0, 1, 2, 3]), vec![0, 1, 2, 3]);
    assert_eq!(buffer.take_events(), vec![]);
}

#[test]
fn sequence_buffer_corrects_non_wrapping_inconsistent_sequences() {
    let mut buffer = RtpSequenceBuffer::new(48000, 4);
    assert_eq!(feed(&mut buffer, 10, &[0, 2, 1, 4, 3]), vec![0, 1, 2, 3, 4]);
    assert_eq!(
        buffer.take_events(),
        vec![SequenceBufferEvent::OutOfOrderPacket, SequenceBufferEvent::OutOfOrderPacket]
    );
    assert_eq!(buffer.take_events(), vec![]);
}

#[test]
fn sequence_buffer_does_not_change_wrapping_consistent_sequences() {
    let mut buffer = RtpSequenceBuffer::new(48000, 4);
    assert_eq!(feed(&mut buffer, 65534, &[0, 1, 2, 3]), vec![0, 1, 2, 3]);
    assert_eq!(buffer.take_events(), vec![]);
}

#[test]
fn sequence_buffer_corrects_wrapping_inconsistent_sequences() {
    let mut buffer = RtpSequenceBuffer::new(48000, 4);
    assert_eq!(feed(&mut buffer, 65534, &[0, 3, 2, 1, 4]), vec![0, 1, 2, 3, 4]);
}

#[test]
fn sequence_buffer_recovers_from_non_wrapping_consistent_sequences_with_missing_packets() {
    let mut buffer = RtpSequenceBuffer::new(48000, 3);
    assert_eq!(feed(&mut buffer, 10, &[0, 1, 3, 4, 5]), vec![0, 1]);
    assert_eq!(feed(&mut buffer, 10, &[6]), vec![3, 4, 5, 6]);
    assert_eq!(
        buffer.take_events(),
        vec![
            SequenceBufferEvent::OutOfOrderPacket,
            SequenceBufferEvent::OutOfOrderPacket,
            SequenceBufferEvent::OutOfOrderPacket,
            SequenceBufferEvent::OutOfOrderPacket,
            SequenceBufferEvent::PacketDrop
        ]
    );
    assert_eq!(feed(&mut buffer, 10, &[7, 8]), vec![7, 8]);
    assert_eq!(buffer.take_events(), vec![]);
}

#[test]
fn sequence_buffer_recovers_from_wrapping_consistent_sequences_with_missing_packets() {
    let mut buffer = RtpSequenceBuffer::new(48000, 3);
    assert_eq!(feed(&mut buffer, 65533, &[0, 1, 3, 4, 5]), vec![0, 1]);
    assert_eq!(feed(&mut buffer, 65533, &[6, 7, 8]), vec![3, 4, 5, 6, 7, 8]);
    let mut buffer = RtpSequenceBuffer::new(48000, 3);
    assert_eq!(feed(&mut buffer, 65533, &[0, 1, 4, 5, 6]), vec![0, 1]);
    assert_eq!(feed(&mut buffer, 65533, &[7, 8]), vec![4, 5, 6, 7, 8]);
}

#[test]
fn sequence_buffer_recovers_from_non_wrapping_inconsistent_sequences_with_missing_packets() {
    let mut buffer = RtpSequenceBuffer::new(48000, 3);
    assert_eq!(feed(&mut buffer, 10, &[0, 5, 3, 2]), vec![0]);
    assert_eq!(feed(&mut buffer, 10, &[4]), vec![2, 3, 4, 5]);
    assert_eq!(feed(&mut buffer, 10, &[7, 6, 8]), vec![6, 7, 8]);
}

#[test]
fn sequence_buffer_recovers_from_wrapping_inconsistent_sequences_with_missing_packets() {
    let mut buffer = RtpSequenceBuffer::new(48000, 3);
    assert_eq!(feed(&mut buffer, 65533, &[0, 5, 3, 2]), vec![0]);
    assert_eq!(feed(&mut buffer, 65533, &[4]), vec![2, 3, 4, 5]);
    assert_eq!(feed(&mut buffer, 65533, &[7, 6, 8]), vec![6, 7, 8]);
}

#[test]
fn playout_goes_on_where_packets_wait_already() {
    let mut buffer = RtpSequenceBuffer::new(48000, 3);
    // the first two after the gap wait when the others come
    assert_eq!(feed(&mut buffer, 65530, &[0, 4, 3]), vec![0]);
    assert_eq!(feed(&mut buffer, 65530, &[6, 5, 7, 8]), vec![3, 4, 5, 6, 7, 8]);
}

#[test]
fn several_gaps_are_left_behind_one_after_the_other() {
    let mut buffer = RtpSequenceBuffer::new(48000, 3);
    assert_eq!(feed(&mut buffer, 10, &[0, 5, 3]), vec![0]);
    assert!(feed(&mut buffer, 10, &[7]).is_empty());
    assert_eq!(feed(&mut buffer, 10, &[8]), vec![3]);
    assert_eq!(feed(&mut buffer, 10, &[9]), vec![5]);
    assert_eq!(feed(&mut buffer, 10, &[4, 6]), vec![6, 7, 8, 9]);
}

#[test]
fn only_what_follows_the_first_packet_is_released() {
    let mut buffer = RtpSequenceBuffer::new(48000, 2);
    assert_eq!(feed(&mut buffer, 10, &[0, 2, 4, 5]), vec![0, 2]);
    assert_eq!(feed(&mut buffer, 10, &[3]), vec![3, 4, 5]);
}

#[test]
fn packets_that_come_too_late_are_dropped() {
    let mut buffer = RtpSequenceBuffer::new(48000, 0);
    assert_eq!(feed(&mut buffer, 65534, &[0, 2, 1, 3]), vec![0, 2, 3]);
    assert_eq!(
        buffer.take_events(),
        vec![
            SequenceBufferEvent::OutOfOrderPacket,
            SequenceBufferEvent::PacketDrop,
            SequenceBufferEvent::OutOfOrderPacket,
            SequenceBufferEvent::PacketDrop
        ]
    );
    let mut buffer = RtpSequenceBuffer::new(48000, 1);
    assert_eq!(feed(&mut buffer, 10, &[0, 1, 2, 0, 1, 3]), vec![0, 1, 2, 3]);
}

#[test]
fn numbers_are_ordered_like_those_of_rtp_packets() {
    for due in [0u16, 1, 2, 32767, 32768, 65534, 65535] {
        for number in 0..=u16::MAX {
            let before = rtp_rs::Seq::from(number) < rtp_rs::Seq::from(due);
            assert_eq!(is_outdated(number, due), before);
        }
    }
}

#[test]
fn packets_that_are_not_taken_stay() {
    let mut buffer = RtpSequenceBuffer::new(48000, 2);
    assert_eq!(buffer.update(&packet(1, 0)).len(), 1);
    assert_eq!(buffer.update(&packet(2, 48)).len(), 2);
    assert_eq!(buffer.update(&[0, 1]).len(), 2);
}

#[test]
fn of_two_packets_with_one_timestamp_the_first_is_kept() {
    let mut buffer = RtpSequenceBuffer::new(48000, 4);
    buffer.update(&packet(1, 0)).clear();
    buffer.update(&packet(3, 96)).clear();
    buffer.update(&packet(9, 96)).clear();
    let numbers: Vec<u16> =
        buffer.update(&packet(2, 48)).iter().map(|packet| packet.sequence_number).collect();
    assert_eq!(numbers, vec![2, 3]);
}
