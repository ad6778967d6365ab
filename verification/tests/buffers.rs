use aes67_vsc::audio_buffer::{
    audio_system_config, create_audio_buffer, open_audio_buffer, open_shared_memory_buffers,
    shared_memory_formats, shared_memory_size, slot_bytes, AudioBuffer,
};
use aes67_vsc::descriptor::RxDescriptor;
use aes67_vsc::duration::Millis;
use aes67_vsc::format::{BufferFormat, SampleFormat};
use aes67_vsc::matrix::OutputMatrix;
use aes67_vsc::media_clock::MediaClockTimestamp;
use aes67_vsc::network::{IpAddress, SocketAddress};
use aes67_vsc::playout::read_port;
use aes67_vsc::receive_loop::ReceiveLoop;
use aes67_vsc::sizes::{
    bytes_per_frame, bytes_per_sample, init_buffer, link_offset_buffer_size, max_bit_depth,
    max_samplerate, rtp_buffer_size, rtp_header_len, rtp_packet_size, rtp_payload_size,
    samples_per_link_offset_buffer, samples_per_packet,
};
use rtp_rs::RtpPacketBuilder;

fn descriptor(id: usize, bit_depth: usize, channels: usize) -> RxDescriptor {
    RxDescriptor {
        id,
        session_name: "stream".to_owned(),
        session_id: 17,
        session_version: 3,
        bit_depth,
        channels,
        sampling_rate: 48000,
        packet_time: Millis { bits: 1.0f32.to_bits() },
        link_offset: Millis { bits: 4.0f32.to_bits() },
        origin_ip: IpAddress::V4(0x0a000001),
        rtp_offset: 0,
    }
}

fn packet(number: u16, timestamp: u32, payload: &[u8]) -> Vec<u8> {
    RtpPacketBuilder::new()
        .payload_type(98)
        .sequence(number.into())
        .timestamp(timestamp)
        .payload(payload)
        .build()
        .unwrap()
}

struct Ring {
    buffer: AudioBuffer,
    memory: Vec<u8>,
    numbers: Vec<u16>,
}

fn ring(channels: usize, frames: usize) -> Ring {
    let (_, format) = shared_memory_formats(1, channels, 48000, frames);
    let mut memory = vec![0xffu8; format.bytes_per_buffer()];
    let numbers = vec![0u16; channels * frames];
    let buffer = create_audio_buffer(format, &mut memory);
    Ring { buffer, memory, numbers }
}

fn routed(ports: usize, desc: &RxDescriptor) -> OutputMatrix {
    let mut matrix = OutputMatrix::default(ports);
    matrix.auto_route(desc.id, desc.channels, desc.clone()).unwrap();
    matrix
}

#[test]
fn new_buffer_is_silent() {
    let ring = ring(2, 8);
    assert_eq!(&ring.memory[0..8], &[0x28, 0, 0, 0, 0x28, 0, 0, 0]);
    assert_eq!(ring.memory.len(), 64);
    let mut output = [7i32; 3];
    let at = MediaClockTimestamp::new(0, 48000);
    let end = ring.buffer.read(&ring.memory, &ring.numbers, at, None, 1, &mut output);
    assert_eq!(output, [0, 0, 0]);
    assert_eq!(end, (Some(0), None));
}

#[test]
fn received_samples_are_played_out_half_a_buffer_length_later() {
    let desc = descriptor(0, 24, 2);
    let mut ring = ring(2, 8);
    let matrix = routed(2, &desc);
    let payload = [0, 0, 1, 0, 0, 2, 0, 0, 3, 0xff, 0xff, 0xfc];
    let data = packet(5, 100, &payload);
    assert!(ring.buffer.accepts(&data, &desc, &matrix));
    ring.buffer.insert(&mut ring.memory, &mut ring.numbers, &data, &desc, &matrix);
    // the memory has 64 bytes, of which half go on top of the timestamp
    let at = MediaClockTimestamp::new(132, 48000);
    let mut left = [9i32; 2];
    let mut right = [9i32; 2];
    let end = ring.buffer.read(&ring.memory, &ring.numbers, at, Some(4), 0, &mut left);
    assert_eq!(left, [1, 3]);
    assert_eq!(end, (Some(5), None));
    let end = ring.buffer.read(&ring.memory, &ring.numbers, at, Some(5), 1, &mut right);
    assert_eq!(right, [2, -4]);
    assert_eq!(end, (Some(5), None));
}

#[test]
fn missing_packet_is_an_underrun() {
    let desc = descriptor(0, 16, 1);
    let mut ring = ring(1, 8);
    let matrix = routed(1, &desc);
    let data = packet(7, 0, &[0, 1, 0, 2]);
    ring.buffer.insert(&mut ring.memory, &mut ring.numbers, &data, &desc, &matrix);
    let at = MediaClockTimestamp::new(16, 48000);
    let mut output = [9i32; 2];
    let end = ring.buffer.read(&ring.memory, &ring.numbers, at, Some(3), 0, &mut output);
    assert_eq!(output, [0, 0]);
    assert_eq!(end.0, Some(5));
    assert_eq!(end.1, Some(at));
}

#[test]
fn packets_wrap_around_the_end_of_the_ring() {
    let desc = descriptor(0, 16, 1);
    let mut ring = ring(1, 4);
    let matrix = routed(1, &desc);
    let data = packet(1, 3, &[0, 1, 0, 2, 0, 3]);
    ring.buffer.insert(&mut ring.memory, &mut ring.numbers, &data, &desc, &matrix);
    assert_eq!(ring.numbers, vec![1, 1, 0, 1]);
    let mut output = [9i32; 3];
    let at = MediaClockTimestamp::new(11, 48000);
    ring.buffer.read(&ring.memory, &ring.numbers, at, None, 0, &mut output);
    assert_eq!(output, [1, 2, 3]);
}

#[test]
fn what_is_no_packet_changes_nothing() {
    let desc = descriptor(0, 16, 1);
    let mut ring = ring(1, 4);
    let matrix = routed(1, &desc);
    let before = ring.memory.clone();
    ring.buffer.insert(&mut ring.memory, &mut ring.numbers, &[1, 2, 3], &desc, &matrix);
    assert_eq!(ring.memory, before);
}

#[test]
fn samples_of_other_widths_are_not_accepted() {
    let desc = descriptor(0, 32, 1);
    let ring = ring(1, 4);
    let matrix = routed(1, &desc);
    let data = packet(1, 0, &[1, 2, 3, 4]);
    assert!(!ring.buffer.accepts(&data, &desc, &matrix));
    let none = descriptor(0, 16, 0);
    assert!(!ring.buffer.accepts(&data, &none, &matrix));
}

#[test]
fn disabled_channels_are_silent_and_others_are_not() {
    let first = descriptor(0, 16, 1);
    let second = descriptor(1, 16, 1);
    let mut ring = ring(2, 4);
    let mut matrix = routed(2, &first);
    matrix.auto_route(1, 1, second.clone()).unwrap();
    let data = packet(1, 0, &[0, 1, 0, 2]);
    ring.buffer.insert(&mut ring.memory, &mut ring.numbers, &data, &first, &matrix);
    ring.buffer.insert(&mut ring.memory, &mut ring.numbers, &data, &second, &matrix);
    ring.buffer.disable_channels(&mut ring.memory, &first, &matrix);
    let at = MediaClockTimestamp::new(16, 48000);
    let mut output = [9i32; 2];
    ring.buffer.read(&ring.memory, &ring.numbers, at, None, 0, &mut output);
    assert_eq!(output, [0, 0]);
    ring.buffer.read(&ring.memory, &ring.numbers, at, None, 1, &mut output);
    assert_eq!(output, [1, 2]);
}

#[test]
fn ports_go_on_with_their_sequence_number() {
    let desc = descriptor(0, 16, 1);
    let mut ring = ring(1, 8);
    let matrix = routed(1, &desc);
    let data = packet(65535, 0, &[0, 1, 0, 2]);
    ring.buffer.insert(&mut ring.memory, &mut ring.numbers, &data, &desc, &matrix);
    let data = packet(0, 2, &[0, 3, 0, 4]);
    ring.buffer.insert(&mut ring.memory, &mut ring.numbers, &data, &desc, &matrix);
    let mut numbers = vec![None];
    let mut output = [0i32; 4];
    let at = MediaClockTimestamp::new(16, 48000);
    let underrun =
        read_port(&ring.buffer, &ring.memory, &ring.numbers, at, &mut numbers, 0, &mut output);
    assert_eq!(output, [1, 2, 3, 4]);
    assert_eq!(underrun, None);
    assert_eq!(numbers, vec![Some(0)]);
}

#[test]
fn receivers_take_packets_of_their_origin_only() {
    let desc = descriptor(0, 16, 1);
    let mut ring = ring(1, 8);
    let matrix = routed(1, &desc);
    let mut receive_loop = ReceiveLoop::new(desc);
    let data = packet(1, 0, &[0, 1]);
    let stranger = SocketAddress { ip: IpAddress::V4(0x0a000002), port: 5004 };
    let origin = SocketAddress { ip: IpAddress::V4(0x0a000001), port: 5004 };
    let before = ring.memory.clone();
    assert!(!receive_loop.process_packet(
        &data,
        stranger,
        &ring.buffer,
        &mut ring.memory,
        &mut ring.numbers,
        &matrix
    ));
    assert_eq!(ring.memory, before);
    assert!(receive_loop.process_packet(
        &data,
        origin,
        &ring.buffer,
        &mut ring.memory,
        &mut ring.numbers,
        &matrix
    ));
    assert_ne!(ring.memory, before);
    receive_loop.min_buffer_usage = (1, 4);
    receive_loop.dropped_packets = 2;
    receive_loop.out_of_order_packets = 5;
    let report = receive_loop.report_statistics();
    assert_eq!(
        format!("{report:?}"),
        "[Receiver(BufferUsage(0, 1, 4, 25)), Receiver(DroppedPackets(0, 2)), \
         Receiver(OutOfOrderPackets(0, 5))]"
    );
    assert_eq!(receive_loop.dropped_packets, 0);
    assert_eq!(receive_loop.out_of_order_packets, 0);
}

#[test]
fn audio_system_is_told_of_both_buffers() {
    let formats = shared_memory_formats(1, 2, 44100, 10);
    assert_eq!(formats.0.buffer_len, 40);
    assert_eq!(formats.1.buffer_len, 80);
    assert_eq!(formats.1.audio_format.frame_format.sample_format, SampleFormat::Internal);
    let config = audio_system_config(formats, "in".to_owned(), "out".to_owned());
    assert_eq!(config.input_buffer.address, "in");
    assert_eq!(config.output_buffer.address, "out");
    let (input, output) = open_shared_memory_buffers(&config, 44, 88);
    assert_eq!(input.format.buffer_len, 44);
    assert_eq!(output.format.buffer_len, 88);
    assert_eq!(output.format.audio_format, formats.1.audio_format);
    assert_eq!(open_audio_buffer(&config.input_buffer, 40).format, formats.0);
}

#[test]
fn sizes_are_products() {
    assert_eq!(rtp_header_len(), 12);
    assert_eq!(max_samplerate(), 96000);
    assert_eq!(max_bit_depth(), 32);
    assert_eq!(bytes_per_sample(24), 3);
    assert_eq!(bytes_per_frame(8, SampleFormat::L24), 24);
    assert_eq!(samples_per_packet(8, 48), 384);
    assert_eq!(samples_per_link_offset_buffer(8, 192), 1536);
    assert_eq!(link_offset_buffer_size(8, 192, SampleFormat::L16), 3072);
    assert_eq!(rtp_payload_size(48, 8, SampleFormat::L24), 1152);
    assert_eq!(rtp_packet_size(48, 8, SampleFormat::L24), 1164);
    assert_eq!(rtp_buffer_size(4, 48, 8, SampleFormat::L24), 4656);
    assert_eq!(init_buffer(3, |i: usize| i * 2), vec![0, 2, 4]);
}

#[test]
fn descriptors_know_their_sizes() {
    let desc = descriptor(1, 24, 8);
    assert_eq!(desc.bytes_per_sample(), 3);
    assert_eq!(desc.bytes_per_frame(), 24);
    assert_eq!(desc.samples_per_packet(48), 384);
    assert_eq!(desc.samples_per_link_offset_buffer(192), 1536);
    assert_eq!(desc.link_offset_buffer_size(192), 4608);
    assert_eq!(desc.rtp_payload_size(48), 1152);
    assert_eq!(desc.rtp_packet_size(48), 1164);
    assert_eq!(desc.rtp_buffer_size(4, 48), 4656);
    assert_eq!(desc.session_id(), "17 3");
    assert_eq!(desc.sample_format(), Some(SampleFormat::L24));
    assert_eq!(descriptor(1, 20, 8).sample_format(), None);
    let format = BufferFormat::for_rtp_payload(&desc, 192).unwrap();
    assert_eq!(format.buffer_len, 4608);
    assert!(BufferFormat::for_rtp_payload(&descriptor(1, 20, 8), 192).is_none());
}

#[test]
fn media_clock_wraps_around() {
    let last = MediaClockTimestamp::new(u32::MAX, 48000);
    let first = MediaClockTimestamp::new(0, 48000);
    assert_eq!(last.next(), first);
    assert_eq!(first.previous(), last);
    assert_eq!(last.later_by(3).timestamp, 2);
    assert_eq!(first.earlier_by(2).timestamp, u32::MAX - 1);
    assert_eq!(last.later_by_frames(0x1_0000_0001).timestamp, 0);
    assert_eq!(first.distance_from(&last), 1);
    assert_eq!(last.distance_from(&first), -1);
}

#[test]
fn shared_memory_holds_slots_and_numbers() {
    let (format, _) = shared_memory_formats(3, 1, 48000, 8);
    assert_eq!(format.buffer_len, 96);
    assert_eq!(shared_memory_size(format), 144);
    assert_eq!(slot_bytes(144), 96);
    assert_eq!(slot_bytes(149), 96);
}

#[test]
fn packets_of_whole_frames_are_accepted() {
    for bit_depth in [16, 24] {
        let desc = descriptor(0, bit_depth, 3);
        let ring = ring(3, 8);
        let matrix = routed(3, &desc);
        let size = desc.bytes_per_frame();
        for frames in 0..20 {
            let data = packet(1, 0, &vec![1u8; frames * size]);
            assert!(ring.buffer.accepts(&data, &desc, &matrix));
        }
        assert!(!ring.buffer.accepts(&packet(1, 0, &vec![1u8; size + 1]), &desc, &matrix));
    }
}

#[test]
fn header_extension_and_padding_are_no_payload() {
    let desc = descriptor(0, 16, 1);
    let mut ring = ring(1, 8);
    let matrix = routed(1, &desc);
    // version 2 with padding, an extension of one word and one contributing source
    let data = [
        0xb1, 98, 0, 9, 0, 0, 0, 0, 0, 0, 0, 1, 0, 0, 0, 2, 0xbe, 0xde, 0, 1, 9, 9, 9, 9, 0, 5, 0,
        6, 0, 2,
    ];
    ring.buffer.insert(&mut ring.memory, &mut ring.numbers, &data, &desc, &matrix);
    let at = MediaClockTimestamp::new(16, 48000);
    let mut output = [9i32; 3];
    let end = ring.buffer.read(&ring.memory, &ring.numbers, at, Some(9), 0, &mut output);
    assert_eq!(output, [5, 6, 0]);
    // the third slot is disabled, which is no underrun
    assert_eq!(end, (None, None));
}
